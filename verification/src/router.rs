//! Correlation of in-flight requests with their responses.
//!
//! Each request registers its caller-assigned callback index; the matching
//! response resolves it, removing the entry, so that every index receives
//! exactly one terminal response. Resolving an unknown index is a logged
//! protocol violation: the response is dropped and nothing else is
//! affected. Teardown fails every still-pending entry at once and closes
//! the router; registration after teardown fails immediately.

use vstd::prelude::*;
use crate::protocol::{Response, ResponseType};

verus! {

/// Why a registration was refused.
#[derive(Clone, Copy, PartialEq, Eq, Structural, Debug)]
pub enum RegisterError {
    /// The router was torn down: no further request is accepted.
    Closed,
    /// The callback index is already awaiting its response.
    DuplicateIndex,
}

/// The table of still-pending callback indexes of one connection.
pub struct RequestRouter {
    pending: Vec<u32>,
    closed: bool,
}

impl RequestRouter {
    /// Pending callback indexes, in registration order.
    pub closed spec fn pending_indexes(&self) -> Seq<u32> {
        self.pending@
    }

    /// A torn-down router accepts no further registration.
    pub closed spec fn is_closed(&self) -> bool {
        self.closed
    }

    /// Each pending index appears once: the ground of exactly-once
    /// response delivery.
    pub open spec fn well_formed(&self) -> bool {
        forall|i: int, j: int|
            0 <= i < j < self.pending_indexes().len() ==> self.pending_indexes()[i]
                != self.pending_indexes()[j]
    }

    /// An open router with no pending request.
    pub fn new() -> (r: RequestRouter)
        ensures
            r.well_formed(),
            r.pending_indexes() == Seq::<u32>::empty(),
            !r.is_closed(),
    {
        RequestRouter { pending: Vec::new(), closed: false }
    }

    /// Whether `callback_index` is awaiting its response.
    pub fn is_pending(&self, callback_index: u32) -> (r: bool)
        ensures
            r == self.pending_indexes().contains(callback_index),
    {
        let mut i: usize = 0;
        while i < self.pending.len()
            invariant
                i <= self.pending@.len(),
                forall|j: int| 0 <= j < i ==> self.pending@[j] != callback_index,
            decreases self.pending@.len() - i,
        {
            if self.pending[i] == callback_index {
                assert(self.pending_indexes()[i as int] == callback_index);
                return true;
            }
            i = i + 1;
        }
        assert(!self.pending_indexes().contains(callback_index));
        false
    }

    /// Records a request as awaiting its response. Fails immediately on a
    /// torn-down router, and on an index that is already pending; in both
    /// cases nothing changes.
    pub fn register(&mut self, callback_index: u32) -> (r: Result<(), RegisterError>)
        requires
            old(self).well_formed(),
        ensures
            final(self).well_formed(),
            old(self).is_closed() ==> r == Err::<(), RegisterError>(RegisterError::Closed)
                && *final(self) == *old(self),
            !old(self).is_closed() && old(self).pending_indexes().contains(callback_index) ==> r
                == Err::<(), RegisterError>(RegisterError::DuplicateIndex) && *final(self) == *old(
                self,
            ),
            !old(self).is_closed() && !old(self).pending_indexes().contains(callback_index) ==> r
                == Ok::<(), RegisterError>(()) && final(self).pending_indexes() == old(
                self,
            ).pending_indexes().push(callback_index) && !final(self).is_closed(),
    {
        if self.closed {
            return Err(RegisterError::Closed);
        }
        if self.is_pending(callback_index) {
            return Err(RegisterError::DuplicateIndex);
        }
        self.pending.push(callback_index);
        assert(self.well_formed());
        Ok(())
    }

    /// Delivers a response to its pending entry, removing the entry, and
    /// reports whether one existed. An unknown index delivers nothing and
    /// changes nothing: the response is dropped.
    pub fn resolve(&mut self, callback_index: u32) -> (delivered: bool)
        requires
            old(self).well_formed(),
        ensures
            final(self).well_formed(),
            final(self).is_closed() == old(self).is_closed(),
            delivered == old(self).pending_indexes().contains(callback_index),
            !delivered ==> *final(self) == *old(self),
            delivered ==> final(self).pending_indexes() == old(self).pending_indexes().remove_value(
                callback_index,
            ),
            !final(self).pending_indexes().contains(callback_index),
    {
        let ghost pre = self.pending@;
        let mut i: usize = 0;
        while i < self.pending.len()
            invariant
                *self == *old(self),
                pre == old(self).pending_indexes(),
                forall|a: int, b: int| 0 <= a < b < pre.len() ==> pre[a] != pre[b],
                i <= pre.len(),
                forall|j: int| 0 <= j < i ==> pre[j] != callback_index,
            decreases pre.len() - i,
        {
            if self.pending[i] == callback_index {
                self.pending.remove(i);
                proof {
                    assert(pre.contains(callback_index));
                    pre.index_of_first_ensures(callback_index);
                    assert(pre.index_of_first(callback_index) == Some(i as int));
                    assert(self.pending@ =~= pre.remove_value(callback_index));
                    assert forall|j: int|
                        0 <= j < self.pending@.len() implies self.pending@[j]
                        != callback_index by {
                        if j < i {
                            assert(self.pending@[j] == pre[j]);
                        } else {
                            assert(self.pending@[j] == pre[j + 1]);
                        }
                    }
                }
                return true;
            }
            i = i + 1;
        }
        assert(!pre.contains(callback_index));
        false
    }

    /// Tears the router down: synthesizes a closing-error response,
    /// carrying `reason`, for every still-pending entry, in registration
    /// order, empties the table and closes the router. Exactly one
    /// response per pending index.
    pub fn fail_all(&mut self, reason: &Vec<u8>) -> (out: Vec<Response>)
        requires
            old(self).well_formed(),
        ensures
            final(self).well_formed(),
            final(self).is_closed(),
            final(self).pending_indexes() == Seq::<u32>::empty(),
            out@.len() == old(self).pending_indexes().len(),
            forall|i: int|
                0 <= i < out@.len() ==> (#[trigger] out@[i]).callback_index == old(
                    self,
                ).pending_indexes()[i] && out@[i].response_type == ResponseType::ClosingError
                    && out@[i].payload@ == reason@,
    {
        let mut out: Vec<Response> = Vec::new();
        let mut i: usize = 0;
        while i < self.pending.len()
            invariant
                self.pending@ == old(self).pending_indexes(),
                i <= self.pending@.len(),
                out@.len() == i,
                forall|j: int|
                    0 <= j < i ==> (#[trigger] out@[j]).callback_index == old(
                        self,
                    ).pending_indexes()[j] && out@[j].response_type == ResponseType::ClosingError
                        && out@[j].payload@ == reason@,
            decreases self.pending@.len() - i,
        {
            let mut payload: Vec<u8> = Vec::new();
            crate::codec::push_bytes(&mut payload, reason);
            assert(payload@ =~= reason@);
            out.push(
                Response {
                    callback_index: self.pending[i],
                    response_type: ResponseType::ClosingError,
                    payload,
                },
            );
            i = i + 1;
        }
        self.pending = Vec::new();
        self.closed = true;
        assert(self.pending_indexes() =~= Seq::<u32>::empty());
        out
    }
}

/// Exactly-once delivery: once a pending index is resolved, it is pending
/// no longer, so a second response to the same index finds no entry and is
/// dropped — one registration yields at most one delivered response, and
/// resolution touches no other entry.
pub proof fn lemma_resolve_exactly_once(pending: Seq<u32>, k: u32, other: u32)
    requires
        forall|i: int, j: int| 0 <= i < j < pending.len() ==> pending[i] != pending[j],
        pending.contains(k),
    ensures
        !pending.remove_value(k).contains(k),
        other != k && pending.contains(other) ==> pending.remove_value(k).contains(other),
{
    pending.index_of_first_ensures(k);
    let idx = pending.index_of_first(k)->Some_0;
    let removed = pending.remove_value(k);
    assert forall|j: int| 0 <= j < removed.len() implies removed[j] != k by {
        if j < idx {
            assert(removed[j] == pending[j]);
        } else {
            assert(removed[j] == pending[j + 1]);
        }
    }
    if other != k && pending.contains(other) {
        let oi = choose|oi: int| 0 <= oi < pending.len() && pending[oi] == other;
        if oi < idx {
            assert(removed[oi] == other);
        } else {
            assert(removed[oi - 1] == other);
        }
    }
}

} // verus!
