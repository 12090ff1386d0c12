//! Per-connection state machine of the socket listener.
//!
//! One handler serves one accepted connection: it owns the connection's
//! reassembly buffer and request router, and drives read → decode →
//! register; the socket reads and writes and the backend calls around it
//! are ordinary async plumbing outside this crate. The connection is
//! accepted when the handler is constructed, then reads until EOF, a
//! write error, or a protocol violation moves it to closing; teardown
//! fails every pending request exactly once and closes it. A failure on
//! one connection never reaches another: each handler is independent.

use vstd::prelude::*;
use crate::codec::{
    decode_request, spec_declared_len, spec_decode_request, spec_frame_payload,
    spec_frame_too_large, spec_has_frame, spec_request_decode_error,
};
use crate::errors::ProtocolError;
use crate::protocol::{Request, Response, ResponseType};
use crate::rotating_buffer::RotatingBuffer;
use crate::router::RequestRouter;

verus! {

/// Where a connection stands in its life.
#[derive(Clone, Copy, PartialEq, Eq, Structural, Debug)]
pub enum ConnectionState {
    /// Active: reading bytes, dispatching requests, writing responses.
    Reading,
    /// A fatal condition was met; teardown is owed.
    Closing,
    /// Torn down: every pending request was failed, the buffer released.
    Closed,
}

/// What one dispatched command came back with.
#[derive(Clone, PartialEq, Eq, Debug)]
pub enum CommandOutcome {
    /// The backend returned no value.
    Nil,
    /// The backend returned this value.
    Value(Vec<u8>),
    /// The command failed for its caller alone; the connection stays
    /// open. Carries the error text.
    Error(Vec<u8>),
}

/// State machine of one accepted connection.
pub struct ConnectionHandler {
    state: ConnectionState,
    buffer: RotatingBuffer,
    router: RequestRouter,
}

impl ConnectionHandler {
    /// Where the connection stands.
    pub closed spec fn conn_state(&self) -> ConnectionState {
        self.state
    }

    /// Bytes read but not yet consumed as frames.
    pub closed spec fn buffered(&self) -> Seq<u8> {
        self.buffer@
    }

    /// Callback indexes awaiting a response, in registration order.
    pub closed spec fn pending_indexes(&self) -> Seq<u32> {
        self.router.pending_indexes()
    }

    /// The buffer and the router are sound, and the router is closed
    /// exactly when the connection is.
    pub closed spec fn well_formed(&self) -> bool {
        &&& self.buffer.well_formed()
        &&& self.router.well_formed()
        &&& self.router.is_closed() == (self.state == ConnectionState::Closed)
    }

    /// A freshly accepted connection: reading, nothing buffered, nothing
    /// pending.
    pub fn new() -> (h: ConnectionHandler)
        ensures
            h.well_formed(),
            h.conn_state() == ConnectionState::Reading,
            h.buffered() == Seq::<u8>::empty(),
            h.pending_indexes() == Seq::<u32>::empty(),
    {
        ConnectionHandler {
            state: ConnectionState::Reading,
            buffer: RotatingBuffer::new(),
            router: RequestRouter::new(),
        }
    }

    /// Where the connection stands, for the loop that drives it.
    pub fn current_state(&self) -> (s: ConnectionState)
        ensures
            s == self.conn_state(),
    {
        self.state
    }

    /// Hands the handler one socket read's bytes. They join whatever
    /// partial tail earlier reads left.
    pub fn feed(&mut self, bytes: &Vec<u8>)
        requires
            old(self).well_formed(),
            old(self).conn_state() == ConnectionState::Reading,
        ensures
            final(self).well_formed(),
            final(self).conn_state() == ConnectionState::Reading,
            final(self).buffered() == old(self).buffered() + bytes@,
            final(self).pending_indexes() == old(self).pending_indexes(),
    {
        self.buffer.feed(bytes);
    }

    /// Takes the next complete request out of the buffered bytes,
    /// registering its callback index as pending. Returns nothing while
    /// no complete frame has arrived. Fails — moving the connection to
    /// closing — on an oversized frame, a request that does not decode,
    /// or a callback index already pending; teardown is then owed.
    pub fn next_request(&mut self) -> (r: Result<Option<Request>, ProtocolError>)
        requires
            old(self).well_formed(),
            old(self).conn_state() == ConnectionState::Reading,
        ensures
            final(self).well_formed(),
            match r {
                Ok(Some(req)) => {
                    &&& spec_has_frame(old(self).buffered())
                    &&& spec_decode_request(spec_frame_payload(old(self).buffered())) == Some(req@)
                    &&& !old(self).pending_indexes().contains(req.callback_index)
                    &&& final(self).conn_state() == ConnectionState::Reading
                    &&& final(self).buffered() == old(self).buffered().skip(
                        4 + spec_declared_len(old(self).buffered()),
                    )
                    &&& final(self).pending_indexes() == old(self).pending_indexes().push(
                        req.callback_index,
                    )
                },
                Ok(None) => {
                    &&& !spec_has_frame(old(self).buffered())
                    &&& !spec_frame_too_large(old(self).buffered())
                    &&& final(self).conn_state() == ConnectionState::Reading
                    &&& final(self).buffered() == old(self).buffered()
                    &&& final(self).pending_indexes() == old(self).pending_indexes()
                },
                Err(e) => {
                    &&& final(self).conn_state() == ConnectionState::Closing
                    &&& final(self).pending_indexes() == old(self).pending_indexes()
                    &&& {
                        ||| (spec_frame_too_large(old(self).buffered()) && e
                            == ProtocolError::FrameTooLarge)
                        ||| (spec_has_frame(old(self).buffered()) && spec_request_decode_error(
                            spec_frame_payload(old(self).buffered()),
                        ) == Some(e))
                        ||| (spec_has_frame(old(self).buffered()) && (spec_decode_request(
                            spec_frame_payload(old(self).buffered()),
                        ) matches Some(m) && old(self).pending_indexes().contains(m.callback_index)
                            && e == ProtocolError::DuplicateCallbackIndex))
                    }
                },
            },
    {
        match self.buffer.next_frame() {
            Err(e) => {
                self.state = ConnectionState::Closing;
                Err(e)
            },
            Ok(None) => Ok(None),
            Ok(Some(payload)) => {
                match decode_request(&payload) {
                    Err(e) => {
                        self.state = ConnectionState::Closing;
                        Err(e)
                    },
                    Ok(req) => {
                        match self.router.register(req.callback_index) {
                            Ok(()) => Ok(Some(req)),
                            Err(_) => {
                                self.state = ConnectionState::Closing;
                                Err(ProtocolError::DuplicateCallbackIndex)
                            },
                        }
                    },
                }
            },
        }
    }

    /// Delivers one dispatched command's outcome as the response for its
    /// callback index. The response goes out only while the connection is
    /// reading and the index is pending — then it is delivered exactly
    /// once and the entry removed. A result arriving after closing began
    /// is discarded, and a response for an unknown index is dropped;
    /// neither disturbs anything else.
    pub fn handle_backend_result(&mut self, callback_index: u32, outcome: CommandOutcome) -> (r:
        Option<Response>)
        requires
            old(self).well_formed(),
        ensures
            final(self).well_formed(),
            final(self).conn_state() == old(self).conn_state(),
            final(self).buffered() == old(self).buffered(),
            (old(self).conn_state() == ConnectionState::Reading && old(
                self,
            ).pending_indexes().contains(callback_index)) ==> {
                &&& (r matches Some(resp) && resp.callback_index == callback_index && match outcome {
                    CommandOutcome::Nil => resp.response_type == ResponseType::Null
                        && resp.payload@ == Seq::<u8>::empty(),
                    CommandOutcome::Value(v) => resp.response_type == ResponseType::String
                        && resp.payload@ == v@,
                    CommandOutcome::Error(m) => resp.response_type == ResponseType::RequestError
                        && resp.payload@ == m@,
                })
                &&& final(self).pending_indexes() == old(self).pending_indexes().remove_value(
                    callback_index,
                )
                &&& !final(self).pending_indexes().contains(callback_index)
            },
            !(old(self).conn_state() == ConnectionState::Reading && old(
                self,
            ).pending_indexes().contains(callback_index)) ==> r is None
                && final(self).pending_indexes() == old(self).pending_indexes(),
    {
        if !matches!(self.state, ConnectionState::Reading) {
            return None;
        }
        let delivered = self.router.resolve(callback_index);
        if !delivered {
            return None;
        }
        let resp = match outcome {
            CommandOutcome::Nil => Response {
                callback_index,
                response_type: ResponseType::Null,
                payload: Vec::new(),
            },
            CommandOutcome::Value(v) => Response {
                callback_index,
                response_type: ResponseType::String,
                payload: v,
            },
            CommandOutcome::Error(m) => Response {
                callback_index,
                response_type: ResponseType::RequestError,
                payload: m,
            },
        };
        Some(resp)
    }

    /// Tears the connection down: synthesizes a closing-error response,
    /// carrying `reason`, for every request still pending, in
    /// registration order, releases the buffer and closes the router so
    /// that registration after teardown fails immediately. Callable at
    /// most once — the connection is Closed afterwards and every teardown
    /// path runs through here exactly once.
    pub fn teardown(&mut self, reason: &Vec<u8>) -> (out: Vec<Response>)
        requires
            old(self).well_formed(),
            old(self).conn_state() != ConnectionState::Closed,
        ensures
            final(self).well_formed(),
            final(self).conn_state() == ConnectionState::Closed,
            final(self).pending_indexes() == Seq::<u32>::empty(),
            final(self).buffered() == Seq::<u8>::empty(),
            out@.len() == old(self).pending_indexes().len(),
            forall|i: int|
                0 <= i < out@.len() ==> (#[trigger] out@[i]).callback_index == old(
                    self,
                ).pending_indexes()[i] && out@[i].response_type == ResponseType::ClosingError
                    && out@[i].payload@ == reason@,
    {
        let out = self.router.fail_all(reason);
        self.buffer = RotatingBuffer::new();
        self.state = ConnectionState::Closed;
        out
    }
}

} // verus!
