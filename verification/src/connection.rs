use vstd::prelude::*;

verus! {

/// The lifecycle of one connection.
#[derive(Debug, Clone, Copy, PartialEq, Eq, Structural)]
pub enum ConnectionState {
    New,
    Reading,
    Processing,
    Writing,
    Closing,
    Closed,
}

/// Which transitions the connection lifecycle allows: forward through the
/// read/process/write pipeline, back to reading when a response has drained,
/// and into closing from any live state; a closed connection stays closed.
pub open spec fn spec_can_transition(from: ConnectionState, to: ConnectionState) -> bool {
    match (from, to) {
        (ConnectionState::New, ConnectionState::Reading) => true,
        (ConnectionState::Reading, ConnectionState::Reading) => true,
        (ConnectionState::Reading, ConnectionState::Processing) => true,
        (ConnectionState::Processing, ConnectionState::Writing) => true,
        (ConnectionState::Writing, ConnectionState::Writing) => true,
        (ConnectionState::Writing, ConnectionState::Reading) => true,
        (_, ConnectionState::Closing) => from != ConnectionState::Closed,
        (ConnectionState::Closing, ConnectionState::Closed) => true,
        _ => false,
    }
}

/// Whether a connection is past the point of doing any further I/O.
pub fn is_terminal(state: ConnectionState) -> (r: bool)
    ensures
        r == (state == ConnectionState::Closing || state == ConnectionState::Closed),
{
    state == ConnectionState::Closing || state == ConnectionState::Closed
}

/// Whether a connection has timed out: its last activity lies further in
/// the past than its timeout allows. A clock that moved backwards counts as
/// recent activity.
pub fn is_timed_out(last_activity_ms: u64, now_ms: u64, timeout_ms: u64) -> (r: bool)
    ensures
        r == (now_ms > last_activity_ms && now_ms - last_activity_ms > timeout_ms),
{
    if now_ms > last_activity_ms {
        now_ms - last_activity_ms > timeout_ms
    } else {
        false
    }
}

} // verus!
