//! Poll health: counting poll cycles that fail in a row, and when that
//! becomes a critical failure.

use vstd::prelude::*;
use crate::text::{take_chars, take_chars_seq, u64_to_text, decimal_seq};

verus! {

/// After this many failed poll cycles in a row the failure is critical.
pub const SUSTAINED_FAILURE_COUNT: u64 = 5;

/// How many characters of the last error are kept.
pub const MAX_ERROR_CHARS: usize = 2000;

/// A local time: seconds and nanoseconds since the epoch, and the offset
/// from UTC in seconds.
#[derive(Debug, Clone, Copy, PartialEq, Eq, Structural)]
pub struct LocalStamp {
    pub secs: i64,
    pub nanos: u32,
    pub offset_secs: i32,
}

/// The stored record of failing poll cycles.
#[derive(Debug)]
pub struct PollHealth {
    /// When the current run of failures began.
    pub streak_started_at: Option<LocalStamp>,
    pub consecutive_failures: u64,
    pub last_error: Option<String>,
}

impl PollHealth {
    pub open spec fn is_clear(&self) -> bool {
        &&& self.streak_started_at is None
        &&& self.consecutive_failures == 0
        &&& self.last_error is None
    }
}

impl Default for PollHealth {
    fn default() -> (r: Self)
        ensures
            r.is_clear(),
    {
        PollHealth { streak_started_at: None, consecutive_failures: 0, last_error: None }
    }
}

/// A successful poll clears the record.
pub fn record_poll_success(state: &mut PollHealth)
    ensures
        final(state).is_clear(),
{
    *state = PollHealth::default();
}

/// The critical-failure message after `count` failures in a row.
pub open spec fn critical_message(count: u64, error: Seq<char>) -> Seq<char> {
    "Every poll cycle has failed "@ + decimal_seq(count as nat) + " times in a row (threshold is "@
        + decimal_seq(SUSTAINED_FAILURE_COUNT as nat) + "). Last error:\n"@ + error
        + "\n\nSee state/error.log \u{2014} fix the issue and restart."@
}

/// Records a failed poll cycle at `now`: the run of failures starts now if
/// none was running, the count goes up, and the error is kept (its first
/// 2000 characters). From the fifth failure in a row on, returns the message
/// of a critical failure.
pub fn record_poll_failure(state: &mut PollHealth, error: &str, now: LocalStamp) -> (r: Option<
    String,
>)
    requires
        old(state).consecutive_failures < u64::MAX,
    ensures
        final(state).streak_started_at == if old(state).streak_started_at is None {
            Some(now)
        } else {
            old(state).streak_started_at
        },
        final(state).consecutive_failures == old(state).consecutive_failures + 1,
        final(state).last_error matches Some(e) && e@ == take_chars_seq(error@, 2000),
        r is Some <==> final(state).consecutive_failures >= SUSTAINED_FAILURE_COUNT,
        r matches Some(m) ==> m@ == critical_message(final(state).consecutive_failures, error@),
{
    if state.streak_started_at.is_none() {
        state.streak_started_at = Some(now);
    }
    state.consecutive_failures = state.consecutive_failures + 1;
    state.last_error = Some(take_chars(error, MAX_ERROR_CHARS));
    let count = state.consecutive_failures;
    if count < SUSTAINED_FAILURE_COUNT {
        return None;
    }
    let mut m = String::from_str("Every poll cycle has failed ");
    m.append(u64_to_text(count).as_str());
    m.append(" times in a row (threshold is ");
    m.append(u64_to_text(SUSTAINED_FAILURE_COUNT).as_str());
    m.append("). Last error:\n");
    m.append(error);
    m.append("\n\nSee state/error.log \u{2014} fix the issue and restart.");
    Some(m)
}

/// Records a failed poll cycle; returns the critical-failure message to
/// report (and stop on) when failures have become sustained.
pub fn maybe_critical_fail_on_poll_error(state: &mut PollHealth, error: &str, now: LocalStamp) -> (r:
    Option<String>)
    requires
        old(state).consecutive_failures < u64::MAX,
    ensures
        final(state).streak_started_at == if old(state).streak_started_at is None {
            Some(now)
        } else {
            old(state).streak_started_at
        },
        final(state).consecutive_failures == old(state).consecutive_failures + 1,
        final(state).last_error matches Some(e) && e@ == take_chars_seq(error@, 2000),
        r is Some <==> final(state).consecutive_failures >= SUSTAINED_FAILURE_COUNT,
        r matches Some(m) ==> m@ == critical_message(final(state).consecutive_failures, error@),
{
    record_poll_failure(state, error, now)
}

/// The failure count after a sequence of poll outcomes (`true` for a
/// success), from a record with count `start`: a success clears it
/// (`record_poll_success`), a failure adds one (`record_poll_failure`).
pub open spec fn count_after_events(start: nat, events: Seq<bool>) -> nat
    decreases events.len(),
{
    if events.len() == 0 {
        start
    } else if events.last() {
        0
    } else {
        count_after_events(start, events.drop_last()) + 1
    }
}

/// The last `m` poll cycles all failed.
pub open spec fn last_failed(events: Seq<bool>, m: nat) -> bool {
    m <= events.len() && forall|i: int| events.len() - m <= i < events.len() ==> !#[trigger] events[i]
}

/// From a clear record, the failure is critical (`record_poll_failure`
/// gives a message) exactly when the last five poll cycles all failed.
pub proof fn law_critical_after_five_failed_cycles(events: Seq<bool>)
    ensures
        (count_after_events(0, events) >= SUSTAINED_FAILURE_COUNT) <==> last_failed(events, 5),
{
    lemma_count_is_failure_run(events, 5);
}

/// The count reaches `m` exactly when the last `m` cycles failed.
proof fn lemma_count_is_failure_run(events: Seq<bool>, m: nat)
    ensures
        (count_after_events(0, events) >= m) <==> last_failed(events, m),
    decreases events.len(),
{
    if events.len() > 0 && m > 0 {
        let prev = events.drop_last();
        lemma_count_is_failure_run(prev, (m - 1) as nat);
        if last_failed(events, m) {
            assert(!events[events.len() - 1]);
            assert forall|i: int| prev.len() - (m - 1) <= i < prev.len() implies !#[trigger] prev[i] by {
                assert(prev[i] == events[i]);
                assert(!events[i]);
            }
        }
        if count_after_events(0, events) >= m {
            assert(!events.last());
            assert forall|i: int| events.len() - m <= i < events.len() implies !#[trigger] events[i] by {
                if i < events.len() - 1 {
                    assert(prev[i] == events[i]);
                }
            }
        }
    } else if m > 0 {
        assert(!last_failed(events, m));
    }
}

/// After a successful poll, failed cycles are counted from zero: the first
/// four in a row are not critical, and the fifth and every later one in the
/// same run are.
pub proof fn law_fifth_failure_after_success_is_critical(start: nat, events: Seq<bool>, k: nat)
    ensures
        count_after_events(start, events.push(true) + Seq::new(k, |i: int| false)) == k,
        (count_after_events(start, events.push(true) + Seq::new(k, |i: int| false))
            >= SUSTAINED_FAILURE_COUNT) <==> k >= 5,
    decreases k,
{
    let run = events.push(true) + Seq::new(k, |i: int| false);
    if k == 0 {
        assert(run == events.push(true));
    } else {
        law_fifth_failure_after_success_is_critical(start, events, (k - 1) as nat);
        assert(run.drop_last() == events.push(true) + Seq::new((k - 1) as nat, |i: int| false));
        assert(!run.last());
    }
}

} // verus!
