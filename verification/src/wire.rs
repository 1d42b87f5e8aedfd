//! The wire protocol: byte-level message encoding and stream framing.
//!
//! Each logical message travels as one frame: a 4-byte little-endian payload
//! length followed by the payload. A payload is the binary encoding of either
//! a [`Request`] or a [`Response`]:
//!
//! - a date is `year: u16 LE, month: u8, day: u8` (4 bytes);
//! - a request is `start` then `end` (8 bytes);
//! - a row is its date, then the byte length of the UTF-8 code (u32 LE), the
//!   code bytes, and the count (u32 LE);
//! - a response is the row count (u32 LE) followed by the rows in order.
//!
//! Both codec directions are specified against the same spec-level encoder
//! and decoder, and decoding an encoding is proved to give the message back.

use vstd::prelude::*;

verus! {

use vstd::bytes::{
    spec_u16_to_le_bytes, spec_u16_from_le_bytes, spec_u32_to_le_bytes, spec_u32_from_le_bytes,
    u16_from_le_bytes, u16_to_le_bytes, u32_from_le_bytes, u32_to_le_bytes,
    lemma_auto_spec_u16_to_from_le_bytes, lemma_auto_spec_u32_to_from_le_bytes,
};
use vstd::slice::{slice_subrange, slice_to_vec};
use vstd::utf8::{valid_utf8, decode_utf8, encode_utf8};
use vstd::utf8::{encode_utf8_valid_utf8, encode_utf8_decode_utf8};
use crate::protocol::{Date, Request, Response, Row, RowModel};
use crate::text::string_from_utf8;

// ---------------------------------------------------------------------------
// Spec-level encoding
// ---------------------------------------------------------------------------

pub open spec fn enc_date(d: Date) -> Seq<u8> {
    spec_u16_to_le_bytes(d.year) + seq![d.month, d.day]
}

pub open spec fn enc_request(rq: Request) -> Seq<u8> {
    enc_date(rq.start) + enc_date(rq.end)
}

/// A row can be put on the wire when its code's UTF-8 form fits the u32
/// length prefix.
pub open spec fn row_encodable(r: RowModel) -> bool {
    encode_utf8(r.code).len() <= u32::MAX
}

pub open spec fn enc_row(r: RowModel) -> Seq<u8> {
    enc_date(r.date) + spec_u32_to_le_bytes(encode_utf8(r.code).len() as u32) + encode_utf8(r.code)
        + spec_u32_to_le_bytes(r.count)
}

pub open spec fn enc_rows(rs: Seq<RowModel>) -> Seq<u8>
    decreases rs.len(),
{
    if rs.len() == 0 {
        Seq::empty()
    } else {
        enc_row(rs[0]) + enc_rows(rs.drop_first())
    }
}

/// A response can be put on the wire when its row count fits the u32 count
/// prefix and every row is encodable.
pub open spec fn response_encodable(rs: Seq<RowModel>) -> bool {
    rs.len() <= u32::MAX && forall|i: int| 0 <= i < rs.len() ==> row_encodable(#[trigger] rs[i])
}

pub open spec fn enc_response(rs: Seq<RowModel>) -> Seq<u8> {
    spec_u32_to_le_bytes(rs.len() as u32) + enc_rows(rs)
}

// ---------------------------------------------------------------------------
// Spec-level decoding
// ---------------------------------------------------------------------------

pub open spec fn dec_date(b: Seq<u8>) -> Date
    recommends
        b.len() == 4,
{
    Date { year: spec_u16_from_le_bytes(b.subrange(0, 2)), month: b[2], day: b[3] }
}

/// A request payload decodes exactly when it is 8 bytes long; the field
/// values themselves are taken as given, unvalidated.
pub open spec fn dec_request(b: Seq<u8>) -> Option<Request> {
    if b.len() == 8 {
        Some(Request { start: dec_date(b.subrange(0, 4)), end: dec_date(b.subrange(4, 8)) })
    } else {
        None
    }
}

/// One row off the front of `b`: the row and the remaining bytes, or `None`
/// when `b` is too short or the code bytes are not valid UTF-8.
pub open spec fn dec_row(b: Seq<u8>) -> Option<(RowModel, Seq<u8>)> {
    if b.len() < 8 {
        None
    } else {
        let date = dec_date(b.subrange(0, 4));
        let clen = spec_u32_from_le_bytes(b.subrange(4, 8)) as int;
        if b.len() < 12 + clen {
            None
        } else {
            let cb = b.subrange(8, 8 + clen);
            if !valid_utf8(cb) {
                None
            } else {
                let count = spec_u32_from_le_bytes(b.subrange(8 + clen, 12 + clen));
                Some((RowModel { date, code: decode_utf8(cb), count }, b.skip(12 + clen)))
            }
        }
    }
}

/// Exactly `n` rows consuming all of `b`.
pub open spec fn dec_rows(b: Seq<u8>, n: nat) -> Option<Seq<RowModel>>
    decreases n,
{
    if n == 0 {
        if b.len() == 0 {
            Some(Seq::empty())
        } else {
            None
        }
    } else {
        match dec_row(b) {
            None => None,
            Some((row, rest)) => match dec_rows(rest, (n - 1) as nat) {
                None => None,
                Some(rs) => Some(seq![row] + rs),
            },
        }
    }
}

pub open spec fn dec_response(b: Seq<u8>) -> Option<Seq<RowModel>> {
    if b.len() < 4 {
        None
    } else {
        dec_rows(b.skip(4), spec_u32_from_le_bytes(b.subrange(0, 4)) as nat)
    }
}

// ---------------------------------------------------------------------------
// Framing
// ---------------------------------------------------------------------------

pub open spec fn framed(payload: Seq<u8>) -> Seq<u8> {
    spec_u32_to_le_bytes(payload.len() as u32) + payload
}

/// The buffered bytes hold a complete first frame.
pub open spec fn frame_complete(buf: Seq<u8>) -> bool {
    buf.len() >= 4 && buf.len() >= 4 + spec_u32_from_le_bytes(buf.subrange(0, 4))
}

pub open spec fn frame_payload_of(buf: Seq<u8>) -> Seq<u8>
    recommends
        frame_complete(buf),
{
    buf.subrange(4, 4 + spec_u32_from_le_bytes(buf.subrange(0, 4)))
}

/// Wraps a payload in a length-delimited frame. `None` exactly when the
/// payload is too long for the u32 length prefix.
pub fn frame_payload(payload: Vec<u8>) -> (r: Option<Vec<u8>>)
    ensures
        r is Some <==> payload@.len() <= u32::MAX,
        r matches Some(f) ==> f@ == framed(payload@),
{
    if payload.len() > u32::MAX as usize {
        return None;
    }
    let mut out = u32_to_le_bytes(payload.len() as u32);
    let mut p = payload;
    out.append(&mut p);
    Some(out)
}

/// The first complete frame's payload buffered in `buf`, or `None` while
/// more bytes must arrive before decoding can start.
pub fn take_frame(buf: &Vec<u8>) -> (r: Option<Vec<u8>>)
    ensures
        r is Some <==> frame_complete(buf@),
        r matches Some(p) ==> p@ == frame_payload_of(buf@),
{
    if buf.len() < 4 {
        return None;
    }
    let len = u32_from_le_bytes(slice_subrange(buf.as_slice(), 0, 4)) as usize;
    if buf.len() - 4 < len {
        return None;
    }
    Some(slice_to_vec(slice_subrange(buf.as_slice(), 4, 4 + len)))
}

/// However the stream delivers a framed payload — in one piece or chopped,
/// with following bytes already buffered — the frame is recovered whole once
/// all its bytes are in.
pub proof fn lemma_frame_round_trip(payload: Seq<u8>, rest: Seq<u8>)
    requires
        payload.len() <= u32::MAX,
    ensures
        frame_complete(framed(payload) + rest),
        frame_payload_of(framed(payload) + rest) == payload,
{
    lemma_auto_spec_u32_to_from_le_bytes();
    let buf = framed(payload) + rest;
    assert(buf.subrange(0, 4) =~= spec_u32_to_le_bytes(payload.len() as u32));
    assert(buf.subrange(4, 4 + payload.len() as int) =~= payload);
}

// ---------------------------------------------------------------------------
// Request codec
// ---------------------------------------------------------------------------

fn push_date(out: &mut Vec<u8>, d: Date)
    ensures
        final(out)@ == old(out)@ + enc_date(d),
{
    let mut yb = u16_to_le_bytes(d.year);
    out.append(&mut yb);
    out.push(d.month);
    out.push(d.day);
    proof {
        assert(out@ =~= old(out)@ + enc_date(d));
    }
}

pub fn encode_request(rq: &Request) -> (r: Vec<u8>)
    ensures
        r@ == enc_request(*rq),
{
    let mut out: Vec<u8> = Vec::new();
    push_date(&mut out, rq.start);
    push_date(&mut out, rq.end);
    proof {
        assert(out@ =~= enc_request(*rq));
    }
    out
}

fn read_date(b: &[u8]) -> (d: Date)
    requires
        b@.len() == 4,
    ensures
        d == dec_date(b@),
{
    let year = u16_from_le_bytes(slice_subrange(b, 0, 2));
    let month = b[2];
    let day = b[3];
    Date { year, month, day }
}

pub fn decode_request(payload: &[u8]) -> (r: Option<Request>)
    ensures
        r == dec_request(payload@),
{
    if payload.len() != 8 {
        return None;
    }
    let start = read_date(slice_subrange(payload, 0, 4));
    let end = read_date(slice_subrange(payload, 4, 8));
    Some(Request { start, end })
}

/// Decoding an encoded request gives the request back.
pub proof fn lemma_request_round_trip(rq: Request)
    ensures
        dec_request(enc_request(rq)) == Some(rq),
{
    lemma_auto_spec_u16_to_from_le_bytes();
    let b = enc_request(rq);
    assert(b.subrange(0, 4) =~= enc_date(rq.start));
    assert(b.subrange(4, 8) =~= enc_date(rq.end));
    lemma_date_round_trip(rq.start);
    lemma_date_round_trip(rq.end);
}

proof fn lemma_date_round_trip(d: Date)
    ensures
        dec_date(enc_date(d)) == d,
{
    lemma_auto_spec_u16_to_from_le_bytes();
    let b = enc_date(d);
    assert(b.subrange(0, 2) =~= spec_u16_to_le_bytes(d.year));
    assert(b[2] == d.month);
    assert(b[3] == d.day);
}

// ---------------------------------------------------------------------------
// Response codec
// ---------------------------------------------------------------------------

proof fn lemma_enc_rows_snoc(s: Seq<RowModel>, r: RowModel)
    ensures
        enc_rows(s.push(r)) == enc_rows(s) + enc_row(r),
    decreases s.len(),
{
    if s.len() == 0 {
        assert(s.push(r)[0] == r);
        assert(s.push(r).drop_first() =~= Seq::<RowModel>::empty());
        assert(enc_rows(s.push(r).drop_first()) == Seq::<u8>::empty());
        assert(enc_rows(s.push(r)) =~= enc_rows(s) + enc_row(r));
    } else {
        assert(s.push(r).drop_first() =~= s.drop_first().push(r));
        lemma_enc_rows_snoc(s.drop_first(), r);
        assert(s.push(r)[0] == s[0]);
        assert(enc_rows(s.push(r)) == enc_row(s[0]) + enc_rows(s.drop_first().push(r)));
        assert(enc_rows(s.push(r)) =~= enc_rows(s) + enc_row(r));
    }
}

/// Encodes a response payload. `None` exactly when the response cannot go on
/// the wire: more rows than the u32 count prefix can say, or a code whose
/// UTF-8 form exceeds the u32 length prefix.
pub fn encode_response(resp: &Response) -> (r: Option<Vec<u8>>)
    ensures
        r is Some <==> response_encodable(resp@),
        r matches Some(v) ==> v@ == enc_response(resp@),
{
    let rows = &resp.0;
    if rows.len() > u32::MAX as usize {
        return None;
    }
    let mut out = u32_to_le_bytes(rows.len() as u32);
    let n = rows.len();
    let mut i: usize = 0;
    while i < n
        invariant
            i <= n,
            n == rows@.len(),
            rows@.len() <= u32::MAX,
            resp@ == rows@.map_values(|r: Row| r@),
            forall|j: int| 0 <= j < i ==> row_encodable(#[trigger] resp@[j]),
            out@ == spec_u32_to_le_bytes(rows@.len() as u32) + enc_rows(resp@.take(i as int)),
        decreases n - i,
    {
        let row = &rows[i];
        let cb: &[u8] = row.code.as_str().as_bytes();
        if cb.len() > u32::MAX as usize {
            proof {
                assert(!row_encodable(resp@[i as int]));
            }
            return None;
        }
        push_date(&mut out, row.date);
        let mut lb = u32_to_le_bytes(cb.len() as u32);
        out.append(&mut lb);
        let mut cv = slice_to_vec(cb);
        out.append(&mut cv);
        let mut cnt = u32_to_le_bytes(row.count);
        out.append(&mut cnt);
        proof {
            lemma_enc_rows_snoc(resp@.take(i as int), resp@[i as int]);
            assert(resp@.take(i as int + 1) =~= resp@.take(i as int).push(resp@[i as int]));
            assert(out@ =~= spec_u32_to_le_bytes(rows@.len() as u32) + enc_rows(
                resp@.take(i as int + 1),
            ));
        }
        i = i + 1;
    }
    proof {
        assert(resp@.take(n as int) =~= resp@);
    }
    Some(out)
}

/// Decodes a response payload against the spec-level decoder: `Some` exactly
/// when the whole payload is the encoding of some row sequence, which the
/// returned response then is.
pub fn decode_response(payload: &[u8]) -> (r: Option<Response>)
    ensures
        r matches Some(resp) ==> dec_response(payload@) == Some(resp@),
        r is None ==> dec_response(payload@) is None,
{
    if payload.len() < 4 {
        return None;
    }
    let n = u32_from_le_bytes(slice_subrange(payload, 0, 4));
    let mut rows: Vec<Row> = Vec::new();
    let mut pos: usize = 4;
    let mut i: u32 = 0;
    while i < n
        invariant
            payload@.len() >= 4,
            n == spec_u32_from_le_bytes(payload@.subrange(0, 4)),
            4 <= pos <= payload@.len(),
            i <= n,
            rows@.len() == i,
            dec_rows(payload@.skip(4), n as nat) == (match dec_rows(
                payload@.skip(pos as int),
                (n - i) as nat,
            ) {
                None => None::<Seq<RowModel>>,
                Some(rest) => Some(rows@.map_values(|r: Row| r@) + rest),
            }),
        decreases n - i,
    {
        let ghost pre = payload@.skip(pos as int);
        let remaining = payload.len() - pos;
        if remaining < 8 {
            return None;
        }
        let date = read_date(slice_subrange(payload, pos, pos + 4));
        let clen32 = u32_from_le_bytes(slice_subrange(payload, pos + 4, pos + 8));
        let clen = clen32 as usize;
        proof {
            assert(pre.subrange(0, 4) =~= payload@.subrange(pos as int, pos as int + 4));
            assert(pre.subrange(4, 8) =~= payload@.subrange(pos as int + 4, pos as int + 8));
        }
        if remaining < 12 || remaining - 12 < clen {
            proof {
                assert(pre.len() < 12 + clen);
            }
            return None;
        }
        let cbv = slice_to_vec(slice_subrange(payload, pos + 8, pos + 8 + clen));
        proof {
            assert(cbv@ =~= pre.subrange(8, 8 + clen as int));
        }
        let code = match string_from_utf8(cbv) {
            Some(s) => s,
            None => {
                return None;
            },
        };
        let count = u32_from_le_bytes(slice_subrange(payload, pos + 8 + clen, pos + 12 + clen));
        let new_pos = pos + 12 + clen;
        let ghost rows0 = rows@;
        rows.push(Row { date, code, count });
        proof {
            let model = RowModel { date, code: code@, count };
            assert(pre.subrange(8 + clen as int, 12 + clen as int) =~= payload@.subrange(
                pos as int + 8 + clen as int,
                pos as int + 12 + clen as int,
            ));
            assert(pre.skip(12 + clen as int) =~= payload@.skip(new_pos as int));
            assert(dec_row(pre) == Some((model, payload@.skip(new_pos as int))));
            assert(rows@.map_values(|r: Row| r@) =~= rows0.map_values(|r: Row| r@).push(model));
            match dec_rows(payload@.skip(new_pos as int), (n - i - 1) as nat) {
                None => {},
                Some(rest) => {
                    assert(rows0.map_values(|r: Row| r@) + (seq![model] + rest) =~= rows@.map_values(
                        |r: Row| r@,
                    ) + rest);
                },
            }
        }
        pos = new_pos;
        i = i + 1;
    }
    if pos != payload.len() {
        proof {
            assert(payload@.skip(pos as int).len() > 0);
        }
        return None;
    }
    proof {
        assert(payload@.skip(pos as int).len() == 0);
        assert(rows@.map_values(|r: Row| r@) + Seq::<RowModel>::empty() =~= rows@.map_values(
            |r: Row| r@,
        ));
    }
    Some(Response(rows))
}

// ---------------------------------------------------------------------------
// Round trip
// ---------------------------------------------------------------------------

proof fn lemma_row_round_trip(r: RowModel, rest: Seq<u8>)
    requires
        row_encodable(r),
    ensures
        dec_row(enc_row(r) + rest) == Some((r, rest)),
{
    lemma_auto_spec_u16_to_from_le_bytes();
    lemma_auto_spec_u32_to_from_le_bytes();
    encode_utf8_valid_utf8(r.code);
    encode_utf8_decode_utf8(r.code);
    let cb = encode_utf8(r.code);
    let clen = cb.len() as int;
    let b = enc_row(r) + rest;
    assert(b.subrange(0, 4) =~= enc_date(r.date));
    lemma_date_round_trip(r.date);
    assert(b.subrange(4, 8) =~= spec_u32_to_le_bytes(cb.len() as u32));
    assert(b.subrange(8, 8 + clen) =~= cb);
    assert(b.subrange(8 + clen, 12 + clen) =~= spec_u32_to_le_bytes(r.count));
    assert(b.skip(12 + clen) =~= rest);
}

proof fn lemma_rows_round_trip(rs: Seq<RowModel>)
    requires
        forall|i: int| 0 <= i < rs.len() ==> row_encodable(#[trigger] rs[i]),
    ensures
        dec_rows(enc_rows(rs), rs.len()) == Some(rs),
    decreases rs.len(),
{
    if rs.len() == 0 {
        assert(rs =~= Seq::<RowModel>::empty());
    } else {
        lemma_row_round_trip(rs[0], enc_rows(rs.drop_first()));
        assert forall|i: int| 0 <= i < rs.drop_first().len() implies row_encodable(
            #[trigger] rs.drop_first()[i],
        ) by {
            assert(rs.drop_first()[i] == rs[i + 1]);
        }
        lemma_rows_round_trip(rs.drop_first());
        assert(seq![rs[0]] + rs.drop_first() =~= rs);
    }
}

/// Decoding an encoded response gives the rows back, in order: the codec
/// loses nothing and invents nothing.
pub proof fn lemma_response_round_trip(rs: Seq<RowModel>)
    requires
        response_encodable(rs),
    ensures
        dec_response(enc_response(rs)) == Some(rs),
{
    lemma_auto_spec_u32_to_from_le_bytes();
    let b = enc_response(rs);
    assert(b.subrange(0, 4) =~= spec_u32_to_le_bytes(rs.len() as u32));
    assert(b.skip(4) =~= enc_rows(rs));
    lemma_rows_round_trip(rs);
}

} // verus!
