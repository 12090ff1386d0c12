//! Decision logic of the backend connection manager.
//!
//! The manager owns a multiplexed link to the backend store and executes
//! commands against it; the link itself and the command I/O live outside
//! this crate. What is decided here: how a failure is classified and what
//! follows from it — surface it to the one requesting caller, retry after
//! a backoff delay, or escalate to closing the connection.

use vstd::prelude::*;
use crate::errors::{BackendError, BackendErrorKind};
use crate::retry::{
    RetryDecision, RetryState, min_int, next_retry, spec_attempts_left, spec_delay_ms,
    spec_jittered,
};

verus! {

/// Parameters supplied once to construct the backend connection manager:
/// where to connect, how, and how stubbornly to retry. Connect retries
/// and per-command retries are configured independently.
pub struct ConnectionRequest {
    pub address: Vec<u8>,
    pub tls_enabled: bool,
    pub cluster_mode: bool,
    pub connect_retry: RetryState,
    pub command_retry: RetryState,
}

/// What the manager does about one backend failure.
#[derive(Clone, Copy, PartialEq, Eq, Structural, Debug)]
pub enum FailureAction {
    /// Transient failure with attempts left: wait this many milliseconds
    /// and run the command again.
    RetryAfter(u64),
    /// Surface the failure to the one requesting caller as a request
    /// error; the connection stays open.
    SurfaceError,
    /// The link itself is unusable: escalate to a closing error for every
    /// pending request on the connection.
    CloseConnection,
}

/// Decides what follows from one backend failure. A command-level failure
/// is surfaced to its caller alone; a transient failure is retried with
/// backoff until the attempts are exhausted, then surfaced; a
/// connection-level failure closes the connection. Only a transient
/// failure consumes a retry attempt.
pub fn decide_failure(err: &BackendError, retry: &mut RetryState, jitter_percent: u64) -> (a:
    FailureAction)
    requires
        50 <= jitter_percent < 150,
        old(retry).max_delay_ms <= u64::MAX as int / 150,
    ensures
        final(retry).base_delay_ms == old(retry).base_delay_ms,
        final(retry).max_delay_ms == old(retry).max_delay_ms,
        final(retry).max_attempts == old(retry).max_attempts,
        err.kind == BackendErrorKind::CommandFailure ==> a == FailureAction::SurfaceError
            && *final(retry) == *old(retry),
        err.kind == BackendErrorKind::ConnectionFailure ==> a == FailureAction::CloseConnection
            && *final(retry) == *old(retry),
        err.kind == BackendErrorKind::Transient && !spec_attempts_left(*old(retry)) ==> a
            == FailureAction::SurfaceError && *final(retry) == *old(retry),
        err.kind == BackendErrorKind::Transient && spec_attempts_left(*old(retry)) ==> a
            == FailureAction::RetryAfter(
            spec_jittered(
                spec_delay_ms(
                    old(retry).base_delay_ms,
                    old(retry).max_delay_ms,
                    old(retry).attempt_count as nat,
                ) as u64,
                jitter_percent,
            ) as u64,
        ) && final(retry).attempt_count == min_int(old(retry).attempt_count + 1, u32::MAX as int),
    {
    match err.kind {
        BackendErrorKind::CommandFailure => FailureAction::SurfaceError,
        BackendErrorKind::ConnectionFailure => FailureAction::CloseConnection,
        BackendErrorKind::Transient => {
            match next_retry(retry, jitter_percent) {
                RetryDecision::RetryAfter(d) => FailureAction::RetryAfter(d),
                RetryDecision::GiveUp => FailureAction::SurfaceError,
            }
        },
    }
}

} // verus!
