//! Read-only (assistant and player) views: how often they poll the worker,
//! and where their event cache lives.
use vstd::prelude::*;

use crate::text::{chars_of, push_all, string_from_chars};

verus! {

/// The fast polling interval, used after new events arrived.
pub const READ_ONLY_POLL_INTERVAL_MS: u32 = 60_000;

/// The longest interval a quiet read-only view backs off to.
pub const READ_ONLY_MAX_POLL_INTERVAL_MS: u32 = 600_000;

/// The interval after a poll: back to the fast interval when the poll saw
/// new events; otherwise double the current interval (never starting below
/// the fast one) up to the cap.
pub open spec fn next_poll_interval(current_ms: int, saw_new_events: bool) -> int {
    if saw_new_events {
        READ_ONLY_POLL_INTERVAL_MS as int
    } else {
        let base = if current_ms < READ_ONLY_POLL_INTERVAL_MS {
            READ_ONLY_POLL_INTERVAL_MS as int
        } else {
            current_ms
        };
        if 2 * base < READ_ONLY_MAX_POLL_INTERVAL_MS {
            2 * base
        } else {
            READ_ONLY_MAX_POLL_INTERVAL_MS as int
        }
    }
}

/// Quiet read-only views back off after empty polls without hurting
/// score-entry latency, because the user can still force a refresh.
pub fn next_read_only_poll_interval_ms(current_ms: u32, saw_new_events: bool) -> (r: u32)
    ensures
        r == next_poll_interval(current_ms as int, saw_new_events),
{
    if saw_new_events {
        return READ_ONLY_POLL_INTERVAL_MS;
    }
    let base = if current_ms < READ_ONLY_POLL_INTERVAL_MS {
        READ_ONLY_POLL_INTERVAL_MS
    } else {
        current_ms
    };
    let doubled: u64 = (base as u64) * 2;
    if doubled < READ_ONLY_MAX_POLL_INTERVAL_MS as u64 {
        doubled as u32
    } else {
        READ_ONLY_MAX_POLL_INTERVAL_MS
    }
}

/// The interval after any poll lies between the fast interval and the cap.
pub proof fn lemma_poll_interval_bounded(current_ms: int, saw_new_events: bool)
    ensures
        READ_ONLY_POLL_INTERVAL_MS <= next_poll_interval(current_ms, saw_new_events)
            <= READ_ONLY_MAX_POLL_INTERVAL_MS,
{
}

/// An empty poll never shortens an interval that is within the bounds.
pub proof fn lemma_quiet_poll_never_speeds_up(current_ms: int)
    requires
        current_ms <= READ_ONLY_MAX_POLL_INTERVAL_MS,
    ensures
        current_ms <= next_poll_interval(current_ms, false),
{
}

/// Four empty polls in a row reach the cap, whatever the interval was.
pub proof fn lemma_quiet_polls_reach_cap(current_ms: int)
    ensures
        next_poll_interval(
            next_poll_interval(
                next_poll_interval(next_poll_interval(current_ms, false), false),
                false,
            ),
            false,
        ) == READ_ONLY_MAX_POLL_INTERVAL_MS,
{
}

/// The cache key of a read-only session's event log.
pub fn read_only_event_cache_key(session_id: &str) -> (r: String)
    ensures
        r@ == "pcpp_read_only_events_"@ + session_id@,
{
    let mut key = chars_of("pcpp_read_only_events_");
    push_all(&mut key, chars_of(session_id).as_slice());
    string_from_chars(key.as_slice())
}

} // verus!
