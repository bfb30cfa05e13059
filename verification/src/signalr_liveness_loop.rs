//! The liveness monitor's decisions: when it takes up its work and after
//! each wait, whether the connection is still to be watched or has to go.

use crate::signal_r_connections_list::SignalrConnectionsList;
use vstd::prelude::*;

verus! {

/// The seconds that the monitor waits between two looks at a connection.
pub const POLL_INTERVAL_SECONDS: u64 = 5;

/// What the monitor does after a look at its connection.
#[derive(Debug, Clone, Copy, PartialEq, Eq, Structural)]
pub enum LivenessStep {
    /// Wait for the poll interval and look again.
    Wait,
    /// Stop watching and take the connection out of the registry.
    Disconnect,
}

/// The time in nanoseconds from `last_incoming` to `now`, both in
/// microseconds; zero where `now` is the earlier one.
pub open spec fn silence_nanos(now: i64, last_incoming: i64) -> int {
    if now >= last_incoming {
        (now - last_incoming) * 1000
    } else {
        0
    }
}

/// Whether a connection that was last heard of at `last_incoming` has been
/// silent at `now` for longer than `ping_disconnect_nanos`.
pub open spec fn is_expired(now: i64, last_incoming: i64, ping_disconnect_nanos: u128) -> bool {
    silence_nanos(now, last_incoming) > ping_disconnect_nanos
}

/// Whether a connection that was last heard of at `last_incoming`, in
/// microseconds, has been silent at `now` for longer than
/// `ping_disconnect_nanos`.
pub fn has_expired(now: i64, last_incoming: i64, ping_disconnect_nanos: u128) -> (expired: bool)
    ensures
        expired == is_expired(now, last_incoming, ping_disconnect_nanos),
{
    if now < last_incoming {
        return false;
    }
    let silence_micros: u128 = (now as i128 - last_incoming as i128) as u128;
    silence_micros * 1000 > ping_disconnect_nanos
}

/// The monitor takes up its work on the connection under `list_index`: it
/// waits for the poll interval where the connection is registered and
/// connected; else the connection has to go at once.
pub fn start<TCtx>(sockets_list: &SignalrConnectionsList<TCtx>, list_index: &str) -> (step:
    LivenessStep)
    requires
        sockets_list.wf(),
    ensures
        step == LivenessStep::Wait <==> {
            &&& sockets_list.connections().contains_key(list_index@)
            &&& sockets_list.connections()[list_index@].connected
        },
{
    match sockets_list.get_by_connection_token(list_index) {
        Some(connection) => {
            if connection.is_connected() {
                LivenessStep::Wait
            } else {
                LivenessStep::Disconnect
            }
        },
        None => LivenessStep::Disconnect,
    }
}

/// The monitor's look at the connection under `list_index` after a wait, at
/// `now`. It waits on while the connection is registered, is connected and
/// has not been silent for longer than `ping_disconnect_nanos`; else the
/// connection has to go.
pub fn look<TCtx>(
    sockets_list: &SignalrConnectionsList<TCtx>,
    list_index: &str,
    now: i64,
    ping_disconnect_nanos: u128,
) -> (step: LivenessStep)
    requires
        sockets_list.wf(),
    ensures
        step == LivenessStep::Wait <==> {
            &&& sockets_list.connections().contains_key(list_index@)
            &&& sockets_list.connections()[list_index@].connected
            &&& !is_expired(
                now,
                sockets_list.connections()[list_index@].last_incoming_moment,
                ping_disconnect_nanos,
            )
        },
{
    match sockets_list.get_by_connection_token(list_index) {
        Some(connection) => {
            if has_expired(now, connection.get_last_incoming(), ping_disconnect_nanos) {
                LivenessStep::Disconnect
            } else if connection.is_connected() {
                LivenessStep::Wait
            } else {
                LivenessStep::Disconnect
            }
        },
        None => LivenessStep::Disconnect,
    }
}

/// A connection that is registered and connected and was heard of no longer
/// ago than the threshold is not taken for dead: while its client sends
/// frames at shorter intervals than the threshold, every look ends in a
/// wait.
pub proof fn lemma_heard_in_time_is_alive(now: i64, last_incoming: i64, ping_disconnect_nanos: u128)
    requires
        now - last_incoming <= ping_disconnect_nanos / 1000,
    ensures
        !is_expired(now, last_incoming, ping_disconnect_nanos),
{
}

} // verus!
