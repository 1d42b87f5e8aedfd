//! The per-connection lifecycle state machine.
//!
//! Each accepted connection runs exactly one pass: read one framed request,
//! aggregate, write one framed response, complete. The machine here makes
//! every transition explicit; the surrounding program performs the stream
//! reads and writes and the directory work, and reports each outcome to the
//! machine. A peer that closes its stream before sending anything completes
//! the connection without a response and without an error; every failure is
//! fatal to this one connection only, and no partial response is ever
//! framed — the response is encoded in full before a single byte of it can
//! be written.

use vstd::prelude::*;

verus! {

use crate::aggregate::AggregationError;
use crate::protocol::{Request, Response};
use crate::wire::{
    frame_complete, frame_payload_of, framed, dec_request, enc_response, response_encodable,
    take_frame, decode_request, encode_response, frame_payload,
};
use vstd::slice::slice_to_vec;

/// Where the connection stands.
#[derive(Clone, Copy, Debug, PartialEq, Eq, Structural)]
pub enum Phase {
    /// Buffering stream bytes until the one request frame is complete.
    AwaitingRequest,
    /// Request decoded; the aggregation is under way.
    Processing,
    /// Response framed; waiting for it to be written out.
    Responding,
    /// Completed, with the response sent or with no request ever received.
    Done,
    /// Aborted by a failure; the connection is closed, nothing more is sent.
    Closed,
}

/// The failure taxonomy. Every fatal condition of one connection maps to
/// exactly one of these; an absent date directory maps to none (it is not a
/// failure).
#[derive(Clone, Debug, PartialEq)]
pub enum ConnectionError {
    /// Frame or payload malformed or undecodable.
    Protocol,
    /// Read or write failure on the stream, including a peer disconnect
    /// mid-operation.
    Transport,
    /// Fatal aggregation failure; no response is sent.
    Aggregation(AggregationError),
}

/// The state of one connection: its phase and the bytes buffered while the
/// request frame is still arriving.
pub struct Handler {
    pub phase: Phase,
    pub buf: Vec<u8>,
}

impl Handler {
    pub fn new() -> (h: Handler)
        ensures
            h.phase is AwaitingRequest,
            h.buf@ =~= Seq::<u8>::empty(),
    {
        Handler { phase: Phase::AwaitingRequest, buf: Vec::new() }
    }

    /// Buffers a chunk read from the stream. Until the frame is complete the
    /// machine keeps waiting; once it is, its payload either decodes to the
    /// one request (the aggregation may begin) or the connection aborts with
    /// a protocol error. Bytes past the first frame are ignored: one message
    /// flows in per connection.
    pub fn bytes_received(&mut self, chunk: &[u8]) -> (r: Option<
        Result<Request, ConnectionError>,
    >)
        requires
            old(self).phase is AwaitingRequest,
        ensures
            final(self).buf@ == old(self).buf@ + chunk@,
            ({
                let nb = old(self).buf@ + chunk@;
                if !frame_complete(nb) {
                    r is None && final(self).phase is AwaitingRequest
                } else {
                    match dec_request(frame_payload_of(nb)) {
                        Some(rq) => r == Some(Result::<Request, ConnectionError>::Ok(rq))
                            && final(self).phase is Processing,
                        None => r == Some(Result::<Request, ConnectionError>::Err(
                            ConnectionError::Protocol,
                        )) && final(self).phase is Closed,
                    }
                }
            }),
    {
        let mut c = slice_to_vec(chunk);
        self.buf.append(&mut c);
        match take_frame(&self.buf) {
            None => None,
            Some(payload) => match decode_request(payload.as_slice()) {
                Some(rq) => {
                    self.phase = Phase::Processing;
                    Some(Ok(rq))
                },
                None => {
                    self.phase = Phase::Closed;
                    Some(Err(ConnectionError::Protocol))
                },
            },
        }
    }

    /// The peer ended its stream while the machine was still waiting. With
    /// nothing buffered the connection simply completes — a client that
    /// connects and disconnects without sending is not a failure. A stream
    /// that ends inside a frame is undecodable: a protocol error.
    pub fn stream_ended(&mut self) -> (r: Result<(), ConnectionError>)
        requires
            old(self).phase is AwaitingRequest,
        ensures
            old(self).buf@.len() == 0 ==> r is Ok && final(self).phase is Done,
            old(self).buf@.len() != 0 ==> r == Result::<(), ConnectionError>::Err(
                ConnectionError::Protocol,
            ) && final(self).phase is Closed,
    {
        if self.buf.len() == 0 {
            self.phase = Phase::Done;
            Ok(())
        } else {
            self.phase = Phase::Closed;
            Err(ConnectionError::Protocol)
        }
    }

    /// A read failure while waiting for the request aborts the connection.
    pub fn read_failed(&mut self) -> (e: ConnectionError)
        requires
            old(self).phase is AwaitingRequest,
        ensures
            final(self).phase is Closed,
            e is Transport,
    {
        self.phase = Phase::Closed;
        ConnectionError::Transport
    }

    /// The aggregation completed: the whole response is encoded and framed
    /// before any byte of it may be written, so a failure can never leave a
    /// partial response on the wire. `Ok` exactly when the response fits the
    /// wire format's length prefixes.
    pub fn response_ready(&mut self, resp: &Response) -> (r: Result<Vec<u8>, ConnectionError>)
        requires
            old(self).phase is Processing,
        ensures
            r is Ok <==> response_encodable(resp@) && enc_response(resp@).len() <= u32::MAX,
            r matches Ok(f) ==> f@ == framed(enc_response(resp@)) && final(self).phase
                is Responding,
            r is Err ==> r == Result::<Vec<u8>, ConnectionError>::Err(ConnectionError::Protocol)
                && final(self).phase is Closed,
    {
        match encode_response(resp) {
            Some(payload) => match frame_payload(payload) {
                Some(f) => {
                    self.phase = Phase::Responding;
                    Ok(f)
                },
                None => {
                    self.phase = Phase::Closed;
                    Err(ConnectionError::Protocol)
                },
            },
            None => {
                self.phase = Phase::Closed;
                Err(ConnectionError::Protocol)
            },
        }
    }

    /// A fatal aggregation failure aborts the connection before any response
    /// byte exists to be written.
    pub fn aggregation_failed(&mut self, err: AggregationError) -> (e: ConnectionError)
        requires
            old(self).phase is Processing,
        ensures
            final(self).phase is Closed,
            e == ConnectionError::Aggregation(err),
    {
        self.phase = Phase::Closed;
        ConnectionError::Aggregation(err)
    }

    /// The one response frame was written in full: the connection completes.
    pub fn response_sent(&mut self)
        requires
            old(self).phase is Responding,
        ensures
            final(self).phase is Done,
    {
        self.phase = Phase::Done;
    }

    /// A write failure (including the peer closing mid-scan) aborts the
    /// connection.
    pub fn write_failed(&mut self) -> (e: ConnectionError)
        requires
            old(self).phase is Responding,
        ensures
            final(self).phase is Closed,
            e is Transport,
    {
        self.phase = Phase::Closed;
        ConnectionError::Transport
    }
}

} // verus!
