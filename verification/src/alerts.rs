//! Alert decisions with a per-alert cooldown.
//!
//! Times are readings of a monotonic clock in nanoseconds, taken by the
//! caller; the caller also decides whether a metric is past its threshold
//! and shows the desktop notification for an alert that fires.

use vstd::prelude::*;

use crate::fmt::{decimal, push_decimal};
use crate::text::push_char;

verus! {

/// Minimum time between the same alert firing again: 60 seconds, in nanoseconds.
pub const COOLDOWN_NS: u64 = 60_000_000_000;

/// Nanoseconds in one second.
pub const NS_PER_SEC: u64 = 1_000_000_000;

/// Which alert condition was triggered.
#[derive(Debug, Clone, Copy, PartialEq, Eq, Structural)]
pub enum AlertKind {
    HighUsage,
    LowRatio,
}

/// A record of an alert that has fired.
#[derive(Debug, Clone, Copy, PartialEq, Eq, Structural)]
pub struct AlertEvent {
    pub kind: AlertKind,
    /// Clock reading, in nanoseconds, when the alert fired.
    pub fired_at: u64,
}

/// Tracks the last time each alert was dispatched to enforce cooldowns.
pub struct AlertState {
    last_usage_alert: Option<u64>,
    last_ratio_alert: Option<u64>,
    /// Most recent alert event, exposed to the TUI through `last_event()`.
    last_event: Option<AlertEvent>,
}

/// The state of the alert tracker as plain values.
pub struct AlertStateView {
    pub last_usage_alert: Option<u64>,
    pub last_ratio_alert: Option<u64>,
    pub last_event: Option<AlertEvent>,
}

impl View for AlertState {
    type V = AlertStateView;

    closed spec fn view(&self) -> AlertStateView {
        AlertStateView {
            last_usage_alert: self.last_usage_alert,
            last_ratio_alert: self.last_ratio_alert,
            last_event: self.last_event,
        }
    }
}

/// Time from `then` to `now`, zero when `now` is earlier (as `Instant::duration_since` saturates).
pub open spec fn elapsed(now: u64, then: u64) -> nat {
    if now >= then { (now - then) as nat } else { 0 }
}

/// An alert last fired at `last` may fire again at `now`.
pub open spec fn cooled_down(last: Option<u64>, now: u64) -> bool {
    match last {
        None => true,
        Some(t) => elapsed(now, t) >= COOLDOWN_NS,
    }
}

/// An alert last fired at `last` is still within its cooldown at `now`.
pub open spec fn recently_fired(last: Option<u64>, now: u64) -> bool {
    match last {
        None => false,
        Some(t) => elapsed(now, t) < COOLDOWN_NS,
    }
}

/// One check at time `now`: the high-usage alert is considered first, and
/// only if it does not fire is the low-ratio alert considered.
pub open spec fn step(s: AlertStateView, now: u64, usage_high: bool, ratio_low: bool) -> (AlertStateView, Option<AlertKind>) {
    if usage_high && cooled_down(s.last_usage_alert, now) {
        (
            AlertStateView {
                last_usage_alert: Some(now),
                last_ratio_alert: s.last_ratio_alert,
                last_event: Some(AlertEvent { kind: AlertKind::HighUsage, fired_at: now }),
            },
            Some(AlertKind::HighUsage),
        )
    } else if ratio_low && cooled_down(s.last_ratio_alert, now) {
        (
            AlertStateView {
                last_usage_alert: s.last_usage_alert,
                last_ratio_alert: Some(now),
                last_event: Some(AlertEvent { kind: AlertKind::LowRatio, fired_at: now }),
            },
            Some(AlertKind::LowRatio),
        )
    } else {
        (s, None)
    }
}

/// The text that tells how long ago the last alert fired.
pub open spec fn age_text(last: Option<AlertEvent>, now: u64) -> Seq<char> {
    match last {
        None => "--"@,
        Some(ev) => {
            let secs = elapsed(now, ev.fired_at) / (NS_PER_SEC as nat);
            if secs < 60 {
                decimal(secs) + "s ago"@
            } else {
                decimal(secs / 60) + "m ago"@
            }
        },
    }
}

fn elapsed_ns(now: u64, then: u64) -> (d: u64)
    ensures
        d == elapsed(now, then),
{
    if now >= then { now - then } else { 0 }
}

impl AlertState {
    /// A tracker with no alert fired yet.
    pub fn new() -> (s: Self)
        ensures
            s@.last_usage_alert is None,
            s@.last_ratio_alert is None,
            s@.last_event is None,
    {
        AlertState { last_usage_alert: None, last_ratio_alert: None, last_event: None }
    }

    /// Checks the metrics at time `now` and returns the alert that fires, if any.
    /// `usage_high` tells whether ZRAM usage is above its threshold, `ratio_low`
    /// whether the compression ratio is positive and below its threshold. An
    /// alert fires when its condition holds and it has not fired within the
    /// cooldown; the caller then shows its notification.
    pub fn check(&mut self, now: u64, usage_high: bool, ratio_low: bool) -> (fired: Option<AlertKind>)
        ensures
            (final(self)@, fired) == step(old(self)@, now, usage_high, ratio_low),
            fired is None ==> final(self)@ == old(self)@,
            fired matches Some(k) ==> final(self)@.last_event == Some(AlertEvent { kind: k, fired_at: now }),
            fired == Some(AlertKind::HighUsage) ==> usage_high && final(self)@.last_usage_alert == Some(now)
                && final(self)@.last_ratio_alert == old(self)@.last_ratio_alert,
            fired == Some(AlertKind::LowRatio) ==> ratio_low && final(self)@.last_ratio_alert == Some(now)
                && final(self)@.last_usage_alert == old(self)@.last_usage_alert,
    {
        if usage_high {
            let should_fire = match self.last_usage_alert {
                None => true,
                Some(t) => elapsed_ns(now, t) >= COOLDOWN_NS,
            };
            if should_fire {
                self.last_usage_alert = Some(now);
                self.last_event = Some(AlertEvent { kind: AlertKind::HighUsage, fired_at: now });
                return Some(AlertKind::HighUsage);
            }
        }
        if ratio_low {
            let should_fire = match self.last_ratio_alert {
                None => true,
                Some(t) => elapsed_ns(now, t) >= COOLDOWN_NS,
            };
            if should_fire {
                self.last_ratio_alert = Some(now);
                self.last_event = Some(AlertEvent { kind: AlertKind::LowRatio, fired_at: now });
                return Some(AlertKind::LowRatio);
            }
        }
        None
    }

    /// The most recent alert event.
    pub fn last_event(&self) -> (e: Option<AlertEvent>)
        ensures
            e == self@.last_event,
    {
        self.last_event
    }

    /// Human-readable time since the last alert at time `now`, for TUI display.
    pub fn last_alert_display(&self, now: u64) -> (text: String)
        ensures
            text@ == age_text(self@.last_event, now),
    {
        match &self.last_event {
            None => {
                let mut s = String::new();
                push_char(&mut s, '-');
                push_char(&mut s, '-');
                assert(s@ == "--"@) by {
                    reveal_strlit("--");
                }
                s
            },
            Some(ev) => {
                let secs = elapsed_ns(now, ev.fired_at) / NS_PER_SEC;
                let mut s = String::new();
                if secs < 60 {
                    push_decimal(&mut s, secs);
                    push_char(&mut s, 's');
                } else {
                    push_decimal(&mut s, secs / 60);
                    push_char(&mut s, 'm');
                }
                push_char(&mut s, ' ');
                push_char(&mut s, 'a');
                push_char(&mut s, 'g');
                push_char(&mut s, 'o');
                proof {
                    reveal_strlit("s ago");
                    reveal_strlit("m ago");
                    assert(seq!['s', ' ', 'a', 'g', 'o'] == "s ago"@);
                    assert(seq!['m', ' ', 'a', 'g', 'o'] == "m ago"@);
                }
                s
            },
        }
    }

    /// Whether the high-usage alert is in an active (recently fired) state at time `now`.
    pub fn usage_alert_active(&self, now: u64) -> (active: bool)
        ensures
            active == recently_fired(self@.last_usage_alert, now),
    {
        match self.last_usage_alert {
            None => false,
            Some(t) => elapsed_ns(now, t) < COOLDOWN_NS,
        }
    }

    /// Whether the low-ratio alert is in an active (recently fired) state at time `now`.
    pub fn ratio_alert_active(&self, now: u64) -> (active: bool)
        ensures
            active == recently_fired(self@.last_ratio_alert, now),
    {
        match self.last_ratio_alert {
            None => false,
            Some(t) => elapsed_ns(now, t) < COOLDOWN_NS,
        }
    }
}


/// What one check is given: the clock reading and the two threshold tests.
pub struct Tick {
    pub now: u64,
    pub usage_high: bool,
    pub ratio_low: bool,
}

/// The state after a series of checks from `s`, and the alert each check returned.
pub open spec fn run(s: AlertStateView, ticks: Seq<Tick>) -> (AlertStateView, Seq<Option<AlertKind>>)
    decreases ticks.len(),
{
    if ticks.len() == 0 {
        (s, seq![])
    } else {
        let (mid, fired) = run(s, ticks.drop_last());
        let t = ticks.last();
        let (next, out) = step(mid, t.now, t.usage_high, t.ratio_low);
        (next, fired.push(out))
    }
}

/// When an alert of `kind` last fired, as the state records it.
pub open spec fn last_fired(v: AlertStateView, kind: AlertKind) -> Option<u64> {
    match kind {
        AlertKind::HighUsage => v.last_usage_alert,
        AlertKind::LowRatio => v.last_ratio_alert,
    }
}

/// The clock never goes back over the series of checks.
pub open spec fn times_nondecreasing(ticks: Seq<Tick>) -> bool {
    forall|a: int, b: int| 0 <= a <= b < ticks.len() ==> ticks[a].now <= ticks[b].now
}

/// An alert that fired within the cooldown does not fire again, and its
/// cooldown is not restarted; the check leaves that alert's record as it was.
pub proof fn lemma_no_repeat_within_cooldown(s: AlertStateView, now: u64, usage_high: bool, ratio_low: bool, kind: AlertKind)
    requires
        recently_fired(last_fired(s, kind), now),
    ensures
        step(s, now, usage_high, ratio_low).1 != Some(kind),
        last_fired(step(s, now, usage_high, ratio_low).0, kind) == last_fired(s, kind),
{
}

/// A condition that holds is never ignored once its cooldown is over: the
/// high-usage alert fires, and the low-ratio alert fires unless the
/// high-usage alert fired in the same check.
pub proof fn lemma_due_alert_fires(s: AlertStateView, now: u64, usage_high: bool, ratio_low: bool)
    ensures
        usage_high && cooled_down(s.last_usage_alert, now)
            ==> step(s, now, usage_high, ratio_low).1 == Some(AlertKind::HighUsage),
        ratio_low && cooled_down(s.last_ratio_alert, now)
            ==> step(s, now, usage_high, ratio_low).1 is Some,
        !usage_high && !ratio_low ==> step(s, now, usage_high, ratio_low) == (s, None::<AlertKind>),
{
}

/// An alert that fires is recorded as the last event and is active from then on
/// until its cooldown ends.
pub proof fn lemma_fired_alert_is_active(s: AlertStateView, now: u64, usage_high: bool, ratio_low: bool, later: u64)
    requires
        step(s, now, usage_high, ratio_low).1 is Some,
        now <= later < now + COOLDOWN_NS,
    ensures
        ({
            let (next, fired) = step(s, now, usage_high, ratio_low);
            let kind = fired->0;
            &&& next.last_event == Some(AlertEvent { kind, fired_at: now })
            &&& recently_fired(last_fired(next, kind), later)
        }),
{
}

proof fn lemma_run_prefix(s: AlertStateView, ticks: Seq<Tick>, k: int)
    requires
        0 <= k <= ticks.len(),
    ensures
        run(s, ticks.take(k)).1 == run(s, ticks).1.take(k),
        run(s, ticks).1.len() == ticks.len(),
    decreases ticks.len(),
{
    if ticks.len() > 0 {
        lemma_run_prefix(s, ticks.drop_last(), if k == ticks.len() { k - 1 } else { k });
        if k == ticks.len() {
            assert(ticks.take(k) == ticks);
            assert(run(s, ticks).1.take(k) == run(s, ticks).1);
        } else {
            assert(ticks.drop_last().take(k) == ticks.take(k));
            assert(run(s, ticks).1.take(k) == run(s, ticks.drop_last()).1.take(k));
        }
    }
}

/// After an alert of `kind` fired at check `i`, the state records a firing of
/// that kind no earlier than check `i`.
proof fn lemma_run_remembers(s: AlertStateView, ticks: Seq<Tick>, kind: AlertKind, i: int)
    requires
        times_nondecreasing(ticks),
        0 <= i < ticks.len(),
        run(s, ticks).1[i] == Some(kind),
    ensures
        last_fired(run(s, ticks).0, kind) matches Some(t) && t >= ticks[i].now,
    decreases ticks.len(),
{
    let n = ticks.len() - 1;
    lemma_run_prefix(s, ticks.drop_last(), n);
    if i < n {
        assert(run(s, ticks).1[i] == run(s, ticks.drop_last()).1[i]);
        lemma_run_remembers(s, ticks.drop_last(), kind, i);
        assert(ticks.drop_last()[i] == ticks[i]);
        assert(ticks[i].now <= ticks[n].now);
    }
}

/// Two firings of the same alert in a series of checks are at least the
/// cooldown apart, when the clock never goes back.
pub proof fn lemma_alerts_spaced_by_cooldown(s: AlertStateView, ticks: Seq<Tick>, kind: AlertKind, i: int, j: int)
    requires
        times_nondecreasing(ticks),
        0 <= i < j < ticks.len(),
        run(s, ticks).1[i] == Some(kind),
        run(s, ticks).1[j] == Some(kind),
    ensures
        ticks[j].now - ticks[i].now >= COOLDOWN_NS,
{
    let pre = ticks.take(j);
    let upto = ticks.take(j + 1);
    lemma_run_prefix(s, ticks, j + 1);
    lemma_run_prefix(s, upto, j);
    assert(upto.drop_last() == pre);
    assert(upto.take(j) == pre);
    assert(run(s, upto).1[j] == Some(kind));
    assert(run(s, upto).1[i] == run(s, pre).1[i]);
    assert forall|a: int, b: int| 0 <= a <= b < pre.len() implies pre[a].now <= pre[b].now by {
        assert(pre[a] == ticks[a] && pre[b] == ticks[b]);
    }
    lemma_run_remembers(s, pre, kind, i);
    assert(upto.last() == ticks[j]);
    assert(pre[i] == ticks[i]);
}

/// The clock reading of the latest check in `ticks` that fired an alert of
/// `kind`, given what each check returned (`fired`).
pub open spec fn latest_firing(ticks: Seq<Tick>, fired: Seq<Option<AlertKind>>, kind: AlertKind) -> Option<u64>
    decreases ticks.len(),
{
    if ticks.len() == 0 || fired.len() == 0 {
        None
    } else if fired.last() == Some(kind) {
        Some(ticks.last().now)
    } else {
        latest_firing(ticks.drop_last(), fired.drop_last(), kind)
    }
}

/// After a series of checks, the state records for each kind the time of the
/// latest check that fired that kind (or what it held before, if none did);
/// alerts of the other kind never touch it.
pub proof fn lemma_run_records_latest_firing(s: AlertStateView, ticks: Seq<Tick>, kind: AlertKind)
    ensures
        last_fired(run(s, ticks).0, kind) == match latest_firing(ticks, run(s, ticks).1, kind) {
            Some(t) => Some(t),
            None => last_fired(s, kind),
        },
    decreases ticks.len(),
{
    if ticks.len() > 0 {
        lemma_run_records_latest_firing(s, ticks.drop_last(), kind);
        lemma_run_prefix(s, ticks, ticks.len() - 1);
        let fired = run(s, ticks).1;
        assert(fired.drop_last() == run(s, ticks.drop_last()).1) by {
            assert(ticks.take(ticks.len() - 1) == ticks.drop_last());
        }
    }
}

/// For a tracker that has just been created and then checked over `ticks`, an
/// alert of `kind` is active at `now` exactly when some check fired it and
/// the latest such check was less than the cooldown before `now`.
pub proof fn lemma_alert_active_after_checks(ticks: Seq<Tick>, kind: AlertKind, now: u64)
    ensures
        ({
            let start = AlertStateView { last_usage_alert: None, last_ratio_alert: None, last_event: None };
            let (end, fired) = run(start, ticks);
            recently_fired(last_fired(end, kind), now) <==> match latest_firing(ticks, fired, kind) {
                Some(t) => elapsed(now, t) < COOLDOWN_NS,
                None => false,
            }
        }),
{
    let start = AlertStateView { last_usage_alert: None, last_ratio_alert: None, last_event: None };
    lemma_run_records_latest_firing(start, ticks, kind);
}

/// A check that fires nothing changes nothing: neither cooldown is
/// restarted and the last event stays the one of the last alert that fired.
pub proof fn lemma_quiet_check_keeps_state(s: AlertStateView, now: u64, usage_high: bool, ratio_low: bool)
    ensures
        step(s, now, usage_high, ratio_low).1 is None ==> step(s, now, usage_high, ratio_low).0 == s,
        step(s, now, usage_high, ratio_low).1 matches Some(k)
            ==> step(s, now, usage_high, ratio_low).0.last_event == Some(AlertEvent { kind: k, fired_at: now }),
{
}

/// The event of the latest check in `ticks` that fired an alert of either
/// kind, given what each check returned (`fired`).
pub open spec fn latest_event(ticks: Seq<Tick>, fired: Seq<Option<AlertKind>>) -> Option<AlertEvent>
    decreases ticks.len(),
{
    if ticks.len() == 0 || fired.len() == 0 {
        None
    } else if fired.last() is Some {
        Some(AlertEvent { kind: fired.last()->0, fired_at: ticks.last().now })
    } else {
        latest_event(ticks.drop_last(), fired.drop_last())
    }
}

/// After a series of checks, the last event is that of the latest check
/// that fired an alert (or the one held before, if none fired).
pub proof fn lemma_run_last_event(s: AlertStateView, ticks: Seq<Tick>)
    ensures
        run(s, ticks).0.last_event == match latest_event(ticks, run(s, ticks).1) {
            Some(e) => Some(e),
            None => s.last_event,
        },
    decreases ticks.len(),
{
    if ticks.len() > 0 {
        lemma_run_last_event(s, ticks.drop_last());
        lemma_run_prefix(s, ticks, ticks.len() - 1);
        assert(ticks.take(ticks.len() - 1) == ticks.drop_last());
        let fired = run(s, ticks).1;
        assert(fired.drop_last() == run(s, ticks.drop_last()).1);
        let t = ticks.last();
        lemma_quiet_check_keeps_state(run(s, ticks.drop_last()).0, t.now, t.usage_high, t.ratio_low);
    }
}

} // verus!
