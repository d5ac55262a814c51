//! Critical failures: whether and with what text the user is alerted, and
//! which browser processes a recovery stops.

use vstd::prelude::*;
use crate::text::{ascii_lower_eq, ascii_lower_seq, parse_u32, parse_u32_spec, take_chars, trim,
    trim_seq};

verus! {

/// The longest alert text shown, in characters.
pub const MAX_ALERT_CHARS: usize = 3500;

/// The alert's text: the message, cut to 3500 characters with an ellipsis
/// where it is longer.
pub open spec fn alert_text(message: Seq<char>) -> Seq<char> {
    if message.len() > MAX_ALERT_CHARS {
        message.take(MAX_ALERT_CHARS as int) + "\u{2026}"@
    } else {
        message
    }
}

pub fn truncate(message: &str) -> (r: String)
    ensures
        r@ == alert_text(message@),
{
    if message.unicode_len() > MAX_ALERT_CHARS {
        let mut s = take_chars(message, MAX_ALERT_CHARS);
        s.append("\u{2026}");
        s
    } else {
        String::from_str(message)
    }
}

/// Alerts are silenced when `TTA_SILENT_CRIT_ALERT` is `1`, `true` or `yes`
/// (in any ASCII case).
pub open spec fn silenced(setting: Option<Seq<char>>) -> bool {
    match setting {
        Some(v) => {
            let l = ascii_lower_seq(v);
            l == "1"@ || l == "true"@ || l == "yes"@
        },
        None => false,
    }
}

/// Whether the setting `TTA_SILENT_CRIT_ALERT` silences alerts.
pub fn alerts_disabled(setting: Option<&str>) -> (r: bool)
    ensures
        r == silenced(
            match setting {
                Some(v) => Some(v@),
                None => None,
            },
        ),
{
    match setting {
        Some(v) => ascii_lower_eq(v, "1") || ascii_lower_eq(v, "true") || ascii_lower_eq(v, "yes"),
        None => false,
    }
}

/// An alert to show the user.
#[derive(Debug)]
pub struct Alert {
    pub title: String,
    pub body: String,
}

/// The alert for a critical failure, unless alerts are silenced.
pub fn alert_critical_failure(message: &str, setting: Option<&str>) -> (r: Option<Alert>)
    ensures
        r is None <==> silenced(
            match setting {
                Some(v) => Some(v@),
                None => None,
            },
        ),
        r matches Some(a) ==> a.title@ == "Tiktok-Archiver"@ && a.body@ == alert_text(message@),
{
    if alerts_disabled(setting) {
        return None;
    }
    Some(Alert { title: String::from_str("Tiktok-Archiver"), body: truncate(message) })
}

/// The alert for a video whose downloads were paused (a critical-failure
/// alert).
pub fn alert_download_unavailable(message: &str, setting: Option<&str>) -> (r: Option<Alert>)
    ensures
        r is None <==> silenced(
            match setting {
                Some(v) => Some(v@),
                None => None,
            },
        ),
        r matches Some(a) ==> a.title@ == "Tiktok-Archiver"@ && a.body@ == alert_text(message@),
{
    alert_critical_failure(message, setting)
}

/// The process id on one line of the process listing, if the trimmed line
/// is one.
pub open spec fn line_pid(line: Seq<char>) -> Seq<u32> {
    match parse_u32_spec(trim_seq(line)) {
        Some(p) => seq![p],
        None => Seq::empty(),
    }
}

/// Where the first line ends, if some newline follows.
pub open spec fn first_newline(s: Seq<char>) -> int {
    choose|i: int| 0 <= i < s.len() && s[i] == '\n' && forall|j: int| 0 <= j < i ==> #[trigger] s[j] != '\n'
}

pub open spec fn has_newline(s: Seq<char>) -> bool {
    exists|i: int| 0 <= i < s.len() && s[i] == '\n'
}

/// The process ids of a listing, one per line, skipping lines that hold
/// none.
#[verifier::opaque]
pub open spec fn pids_of(s: Seq<char>) -> Seq<u32>
    decreases s.len(),
{
    if has_newline(s) {
        let i = first_newline(s);
        if 0 <= i < s.len() {
            line_pid(s.take(i)) + pids_of(s.skip(i + 1))
        } else {
            Seq::empty()
        }
    } else {
        line_pid(s)
    }
}

proof fn lemma_first_newline(s: Seq<char>, i: int)
    requires
        0 <= i < s.len(),
        s[i] == '\n',
        forall|j: int| 0 <= j < i ==> #[trigger] s[j] != '\n',
    ensures
        has_newline(s),
        first_newline(s) == i,
{
    assert(s[i] == '\n');
    let w = first_newline(s);
    if w < i {
        assert(s[w] != '\n');
    } else if w > i {
        assert(s[i] != '\n');
    }
}

proof fn lemma_pids_line(s: Seq<char>, start: int, i: int)
    requires
        0 <= start <= i < s.len(),
        s[i] == '\n',
        forall|j: int| start <= j < i ==> #[trigger] s[j] != '\n',
    ensures
        pids_of(s.skip(start)) == line_pid(s.subrange(start, i)) + pids_of(s.skip(i + 1)),
{
    let rest = s.skip(start);
    assert forall|j: int| 0 <= j < i - start implies #[trigger] rest[j] != '\n' by {
        assert(rest[j] == s[start + j]);
    }
    assert(rest[i - start] == s[i]);
    lemma_first_newline(rest, i - start);
    assert(rest.take(i - start) == s.subrange(start, i));
    assert(rest.skip(i - start + 1) == s.skip(i + 1));
    reveal(pids_of);
}

proof fn lemma_pids_last(s: Seq<char>, start: int)
    requires
        0 <= start <= s.len(),
        forall|j: int| start <= j < s.len() ==> #[trigger] s[j] != '\n',
    ensures
        pids_of(s.skip(start)) == line_pid(s.subrange(start, s.len() as int)),
{
    let rest = s.skip(start);
    assert forall|j: int| 0 <= j < rest.len() implies rest[j] != '\n' by {
        assert(rest[j] == s[start + j]);
    }
    assert(!has_newline(rest));
    assert(rest == s.subrange(start, s.len() as int));
    reveal(pids_of);
}

fn line_pid_of(s: &str, from: usize, to: usize) -> (r: Option<u32>)
    requires
        from <= to <= s@.len(),
    ensures
        match r {
            Some(p) => line_pid(s@.subrange(from as int, to as int)) == seq![p],
            None => line_pid(s@.subrange(from as int, to as int)) == Seq::<u32>::empty(),
        },
{
    parse_u32(trim(s.substring_char(from, to)))
}

/// The process ids that a process listing names, one per line
/// (`lines()`, each trimmed and parsed as a `u32`).
pub fn parse_pid_lines(text: &str) -> (r: Vec<u32>)
    ensures
        r@ == pids_of(text@),
{
    let n = text.unicode_len();
    let mut r: Vec<u32> = Vec::new();
    let mut start: usize = 0;
    let mut i: usize = 0;
    assert(text@.skip(0) == text@);
    assert(r@ + pids_of(text@.skip(0)) =~= pids_of(text@));
    while i < n
        invariant
            n == text@.len(),
            start <= i <= n,
            forall|j: int| start <= j < i ==> #[trigger] text@[j] != '\n',
            pids_of(text@) == r@ + pids_of(text@.skip(start as int)),
        decreases n - i,
    {
        if text.get_char(i) == '\n' {
            proof {
                lemma_pids_line(text@, start as int, i as int);
            }
            let ghost before = r@;
            match line_pid_of(text, start, i) {
                Some(p) => {
                    r.push(p);
                },
                None => {},
            }
            assert(r@ =~= before + line_pid(text@.subrange(start as int, i as int)));
            assert(pids_of(text@) =~= r@ + pids_of(text@.skip(i + 1)));
            start = i + 1;
        }
        i = i + 1;
    }
    proof {
        lemma_pids_last(text@, start as int);
    }
    let ghost before = r@;
    match line_pid_of(text, start, n) {
        Some(p) => {
            r.push(p);
        },
        None => {},
    }
    assert(r@ =~= before + line_pid(text@.subrange(start as int, n as int)));
    r
}

/// What the watcher does when poll failures have become sustained.
#[derive(Debug, Clone, Copy, PartialEq, Eq, Structural)]
pub enum CriticalPollAction {
    /// Record the failure, stop the archiver's browsers and exit so that the
    /// supervisor restarts it: the recovery retry, without an alert.
    RecoverAndRestart,
    /// The recovery retry did not help: record it, alert the user (unless
    /// alerts are silenced) and exit.
    AlertAndExit,
}

/// Whether a recovery retry awaits a successful poll after the outcomes
/// `events` (`true` for a successful poll, `false` for a sustained failure),
/// starting from `start`.
pub open spec fn recovery_pending_after(start: bool, events: Seq<bool>) -> bool
    decreases events.len(),
{
    if events.len() == 0 {
        start
    } else if events.last() {
        false
    } else {
        true
    }
}

/// The action for a sustained failure: a recovery retry unless one is
/// already pending, in which case the user is alerted.
pub open spec fn action_for(recovery_pending: bool) -> CriticalPollAction {
    if recovery_pending {
        CriticalPollAction::AlertAndExit
    } else {
        CriticalPollAction::RecoverAndRestart
    }
}

/// The action for a sustained failure, given whether a recovery retry is
/// pending.
pub fn critical_poll_action(recovery_pending: bool) -> (r: CriticalPollAction)
    ensures
        r == action_for(recovery_pending),
{
    if recovery_pending {
        CriticalPollAction::AlertAndExit
    } else {
        CriticalPollAction::RecoverAndRestart
    }
}

/// After a successful poll the next sustained failure is a recovery retry
/// with no alert, and a second sustained failure before any successful poll
/// alerts the user.
pub proof fn law_alert_only_after_failed_recovery(start: bool, events: Seq<bool>)
    ensures
        action_for(recovery_pending_after(start, events.push(true)))
            == CriticalPollAction::RecoverAndRestart,
        action_for(recovery_pending_after(start, events.push(true).push(false)))
            == CriticalPollAction::AlertAndExit,
{
}

} // verus!
