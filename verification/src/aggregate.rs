//! The date-range aggregation state machine.
//!
//! The aggregator walks the inclusive range `start..=end`, oldest date
//! first. For each date the surrounding program lists the directory named
//! after the date under the configured root and hands the outcome in as a
//! [`DirOutcome`]; the machine turns entries into rows, treats an absent
//! directory as zero rows, and aborts the whole scan on any other failure or
//! on a count file whose content is not exactly 4 bytes. Rows come out in
//! ascending date order because dates are visited in order; the order of
//! rows within one date is whatever order the listing yielded.

use vstd::prelude::*;

verus! {

use vstd::bytes::{spec_u32_from_le_bytes, u32_from_le_bytes};
use vstd::std_specs::cmp::PartialOrdSpec;
use crate::protocol::{
    Date, Row, RowModel, date_lt, date_le, date_plausible, spec_next, date_chars,
};

/// One entry of a date directory: the file name (the row's code) and the
/// file's whole content.
pub struct Entry {
    pub code: String,
    pub content: Vec<u8>,
}

/// The mathematical value of an [`Entry`].
pub struct EntryModel {
    pub code: Seq<char>,
    pub content: Seq<u8>,
}

impl View for Entry {
    type V = EntryModel;

    open spec fn view(&self) -> EntryModel {
        EntryModel { code: self.code@, content: self.content@ }
    }
}

/// What listing one date directory yielded.
pub enum DirOutcome {
    /// The directory exists; its entries with their contents, in listing
    /// order.
    Listed(Vec<Entry>),
    /// The directory does not exist: zero rows for this date, not an error.
    Absent,
    /// Listing or reading failed for another reason (permission, I/O).
    Failed,
}

/// Fatal aggregation failures. Absence of a date directory is not one; any
/// of these aborts the whole scan, and no partial response may be sent.
#[derive(Clone, Debug, PartialEq)]
pub enum AggregationError {
    /// The date's directory could not be listed or read.
    Unreadable { date: Date },
    /// A count file's content was not exactly 4 bytes; named so the failure
    /// can be reported with the offending date and entry.
    BadCount { date: Date, code: String },
}

/// The row an entry of `d`'s directory yields: the file name as code, the
/// 4-byte little-endian content as count.
pub open spec fn row_of(d: Date, e: EntryModel) -> RowModel {
    RowModel { date: d, code: e.code, count: spec_u32_from_le_bytes(e.content) }
}

pub open spec fn rows_of_day(d: Date, ems: Seq<EntryModel>) -> Seq<RowModel> {
    ems.map_values(|e: EntryModel| row_of(d, e))
}

/// Every entry's content has the exact 4 bytes a count file must hold.
pub open spec fn counts_ok(ems: Seq<EntryModel>) -> bool {
    forall|i: int| 0 <= i < ems.len() ==> (#[trigger] ems[i]).content.len() == 4
}

/// The first entry whose content is not exactly 4 bytes (meaningful when
/// `counts_ok` fails).
pub open spec fn first_bad(ems: Seq<EntryModel>) -> int
    decreases ems.len(),
{
    if ems.len() == 0 {
        0
    } else if ems[0].content.len() != 4 {
        0
    } else {
        1 + first_bad(ems.drop_first())
    }
}

proof fn lemma_first_bad(ems: Seq<EntryModel>, i: int)
    requires
        0 <= i < ems.len(),
        forall|j: int| 0 <= j < i ==> (#[trigger] ems[j]).content.len() == 4,
        ems[i].content.len() != 4,
    ensures
        first_bad(ems) == i,
    decreases i,
{
    if i > 0 {
        assert forall|j: int| 0 <= j < i - 1 implies (#[trigger] ems.drop_first()[j]).content.len()
            == 4 by {
            assert(ems.drop_first()[j] == ems[j + 1]);
        }
        assert(ems.drop_first()[i - 1] == ems[i]);
        lemma_first_bad(ems.drop_first(), i - 1);
    }
}

/// The scan over one inclusive date range. `current` is the next date to
/// visit; `done` is set once every date of the range has been visited.
pub struct Aggregator {
    pub current: Date,
    pub end: Date,
    pub done: bool,
    pub rows: Vec<Row>,
}

impl Aggregator {
    pub open spec fn rows_model(self) -> Seq<RowModel> {
        self.rows@.map_values(|r: Row| r@)
    }

    /// Both range bounds stay calendar-plausible (so the calendar step is
    /// defined), and the gathered rows are in ascending date order, none
    /// beyond the date under visit.
    pub open spec fn wf(self) -> bool {
        &&& date_plausible(self.current)
        &&& date_plausible(self.end)
        &&& forall|i: int, j: int|
            0 <= i <= j < self.rows_model().len() ==> date_le(
                (#[trigger] self.rows_model()[i]).date,
                (#[trigger] self.rows_model()[j]).date,
            )
        &&& forall|i: int|
            0 <= i < self.rows_model().len() ==> date_le(
                (#[trigger] self.rows_model()[i]).date,
                self.current,
            )
    }

    /// A freshly constructed scan for `start..=end`.
    pub open spec fn initial_for(self, start: Date, end: Date) -> bool {
        &&& self.current == start
        &&& self.end == end
        &&& self.done == date_lt(end, start)
        &&& self.rows_model() =~= Seq::<RowModel>::empty()
    }

    /// `self` is `other` after visiting `other.current`: the scan has moved
    /// on to the next date, or completed when the visited date was the last.
    pub open spec fn advanced_from(self, other: Aggregator) -> bool {
        &&& self.end == other.end
        &&& if date_lt(other.current, other.end) {
            self.current == spec_next(other.current) && !self.done
        } else {
            self.current == other.current && self.done
        }
    }

    /// `self` is `other` frozen by a fatal failure: the scan position did
    /// not move.
    pub open spec fn halted_at(self, other: Aggregator) -> bool {
        self.current == other.current && self.end == other.end && self.done == other.done
    }

    /// Starts a scan of the inclusive range `start..=end`. When `start` is
    /// after `end` the range is empty (not swapped): the scan begins already
    /// finished, so zero rows can ever be gathered.
    pub fn new(start: Date, end: Date) -> (a: Aggregator)
        requires
            date_plausible(start),
            date_plausible(end),
        ensures
            a.initial_for(start, end),
            a.wf(),
    {
        proof {
            crate::protocol::lemma_date_total_order(start, end, end);
        }
        let done = start > end;
        let a = Aggregator { current: start, end, done, rows: Vec::new() };
        proof {
            assert(a.rows_model() =~= Seq::<RowModel>::empty());
        }
        a
    }

    /// True once every date of the range has been visited; no further step
    /// is then taken.
    pub fn finished(&self) -> (r: bool)
        ensures
            r == self.done,
    {
        self.done
    }

    /// The name of the directory the next step will visit: the canonical
    /// text of the date under visit, under the configured root.
    pub fn current_dir(&self) -> (s: String)
        ensures
            s@ == date_chars(self.current),
    {
        self.current.to_string()
    }

    /// The gathered rows, for the response, once the scan is finished.
    pub fn into_rows(self) -> (r: Vec<Row>)
        ensures
            r@.map_values(|row: Row| row@) == self.rows_model(),
    {
        self.rows
    }

    fn advance(&mut self)
        requires
            old(self).wf(),
            !old(self).done,
        ensures
            final(self).wf(),
            final(self).advanced_from(*old(self)),
            final(self).rows_model() == old(self).rows_model(),
    {
        proof {
            crate::protocol::lemma_date_total_order(self.current, self.end, self.end);
        }
        if self.current < self.end {
            proof {
                let nxt = spec_next(self.current);
                assert(!(self.current.year == 0xffff && self.current.month == 12
                    && self.current.day >= 31));
                assert(date_lt(self.current, nxt));
                assert(date_plausible(nxt));
                assert forall|i: int| 0 <= i < self.rows_model().len() implies date_le(
                    (#[trigger] self.rows_model()[i]).date,
                    nxt,
                ) by {
                    assert(date_le(self.rows_model()[i].date, self.current));
                }
            }
            self.current = self.current.next();
        } else {
            self.done = true;
        }
    }

    /// Visits the date under scan with what listing its directory yielded.
    ///
    /// An existing directory appends one row per entry, in listing order,
    /// provided every content is exactly 4 bytes; the first shorter or
    /// longer content aborts the scan, naming the date and the entry, with
    /// only the preceding entries' rows appended. An absent directory
    /// appends nothing. Any other listing failure aborts the scan with the
    /// date. Only the error-free outcomes move the scan onward.
    #[verifier::loop_isolation(false)]
    pub fn step(&mut self, outcome: DirOutcome) -> (r: Result<(), AggregationError>)
        requires
            old(self).wf(),
            !old(self).done,
        ensures
            final(self).wf(),
            match outcome {
                DirOutcome::Absent => {
                    &&& r is Ok
                    &&& final(self).rows_model() == old(self).rows_model()
                    &&& final(self).advanced_from(*old(self))
                },
                DirOutcome::Listed(entries) => {
                    let ems = entries@.map_values(|e: Entry| e@);
                    if counts_ok(ems) {
                        &&& r is Ok
                        &&& final(self).rows_model() == old(self).rows_model() + rows_of_day(
                            old(self).current,
                            ems,
                        )
                        &&& final(self).advanced_from(*old(self))
                    } else {
                        &&& r matches Err(AggregationError::BadCount { date, code })
                            && date == old(self).current && code@ == ems[first_bad(ems)].code
                        &&& final(self).rows_model() == old(self).rows_model() + rows_of_day(
                            old(self).current,
                            ems.take(first_bad(ems)),
                        )
                        &&& final(self).halted_at(*old(self))
                    }
                },
                DirOutcome::Failed => {
                    &&& r matches Err(AggregationError::Unreadable { date }) && date == old(
                        self,
                    ).current
                    &&& final(self).rows_model() == old(self).rows_model()
                    &&& final(self).halted_at(*old(self))
                },
            },
    {
        match &outcome {
            DirOutcome::Absent => {
                self.advance();
                Ok(())
            },
            DirOutcome::Failed => Err(AggregationError::Unreadable { date: self.current }),
            DirOutcome::Listed(entries) => {
                let ghost ems = entries@.map_values(|e: Entry| e@);
                let ghost rows0 = self.rows_model();
                let ghost cur = self.current;
                let mut i: usize = 0;
                while i < entries.len()
                    invariant
                        i <= entries@.len(),
                        ems == entries@.map_values(|e: Entry| e@),
                        forall|j: int|
                            0 <= j < i ==> (#[trigger] ems[j]).content.len() == 4,
                        self.rows_model() == rows0 + rows_of_day(cur, ems.take(i as int)),
                        self.current == cur,
                        self.end == old(self).end,
                        self.done == old(self).done,
                        rows0 == old(self).rows_model(),
                        old(self).wf(),
                        self.wf(),
                    decreases entries@.len() - i,
                {
                    let e = &entries[i];
                    if e.content.len() == 4 {
                        let count = u32_from_le_bytes(e.content.as_slice());
                        let ghost pre = self.rows_model();
                        self.rows.push(Row { date: self.current, code: e.code.clone(), count });
                        proof {
                            assert(self.rows_model() =~= pre.push(row_of(cur, ems[i as int])));
                            assert(ems.take(i as int + 1) =~= ems.take(i as int).push(
                                ems[i as int],
                            ));
                            assert(rows_of_day(cur, ems.take(i as int + 1)) =~= rows_of_day(
                                cur,
                                ems.take(i as int),
                            ).push(row_of(cur, ems[i as int])));
                            assert(self.rows_model() =~= rows0 + rows_of_day(
                                cur,
                                ems.take(i as int + 1),
                            ));
                        }
                        i = i + 1;
                    } else {
                        proof {
                            lemma_first_bad(ems, i as int);
                            assert(ems[i as int] == entries@[i as int]@);
                            assert(!counts_ok(ems));
                            assert(first_bad(ems) == i as int);
                        }
                        return Err(
                            AggregationError::BadCount { date: self.current, code: e.code.clone() },
                        );
                    }
                }
                proof {
                    assert(ems.take(entries@.len() as int) =~= ems);
                }
                self.advance();
                Ok(())
            },
        }
    }
}

/// For every request whose start is after its end, the scan starts already
/// finished with zero rows gathered, so the response holds zero rows and no
/// error arises.
pub proof fn lemma_empty_range(a: Aggregator, start: Date, end: Date)
    requires
        a.initial_for(start, end),
        date_lt(end, start),
    ensures
        a.done,
        a.rows_model().len() == 0,
{
}

} // verus!
