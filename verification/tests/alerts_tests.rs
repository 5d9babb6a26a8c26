use z_sight::alerts::{AlertEvent, AlertKind, AlertState, COOLDOWN_NS};

const SEC: u64 = 1_000_000_000;

#[test]
fn new_state_is_quiet() {
    let s = AlertState::new();
    assert_eq!(s.last_alert_display(123), "--");
    assert!(!s.usage_alert_active(0));
    assert!(!s.ratio_alert_active(0));
    assert!(s.last_event().is_none());
}

#[test]
fn high_usage_fires_then_waits_for_cooldown() {
    let mut s = AlertState::new();
    let t0 = 1_000 * SEC;
    assert_eq!(s.check(t0, true, false), Some(AlertKind::HighUsage));
    assert_eq!(s.last_event(), Some(AlertEvent { kind: AlertKind::HighUsage, fired_at: t0 }));
    assert!(s.usage_alert_active(t0));
    assert!(!s.ratio_alert_active(t0));
    // Within the cooldown nothing fires again.
    assert_eq!(s.check(t0 + 30 * SEC, true, false), None);
    assert_eq!(s.check(t0 + COOLDOWN_NS - 1, true, false), None);
    assert!(s.usage_alert_active(t0 + COOLDOWN_NS - 1));
    assert!(!s.usage_alert_active(t0 + COOLDOWN_NS));
    // Exactly at the end of the cooldown it fires again.
    assert_eq!(s.check(t0 + COOLDOWN_NS, true, false), Some(AlertKind::HighUsage));
}

#[test]
fn usage_alert_takes_precedence_over_ratio() {
    let mut s = AlertState::new();
    assert_eq!(s.check(0, true, true), Some(AlertKind::HighUsage));
    // Usage is cooling down, so the ratio alert gets its turn.
    assert_eq!(s.check(SEC, true, true), Some(AlertKind::LowRatio));
    assert_eq!(s.check(2 * SEC, true, true), None);
    assert!(s.usage_alert_active(2 * SEC));
    assert!(s.ratio_alert_active(2 * SEC));
    assert_eq!(s.last_event().unwrap().kind, AlertKind::LowRatio);
}

#[test]
fn cooldowns_are_independent() {
    let mut s = AlertState::new();
    assert_eq!(s.check(0, false, true), Some(AlertKind::LowRatio));
    assert_eq!(s.check(SEC, true, false), Some(AlertKind::HighUsage));
    assert_eq!(s.check(COOLDOWN_NS, false, true), Some(AlertKind::LowRatio));
    assert_eq!(s.check(COOLDOWN_NS, true, false), None);
}

#[test]
fn no_condition_no_change() {
    let mut s = AlertState::new();
    assert_eq!(s.check(5, false, false), None);
    assert_eq!(s.last_alert_display(5), "--");
}

#[test]
fn clock_going_back_counts_as_no_time() {
    let mut s = AlertState::new();
    assert_eq!(s.check(100 * SEC, true, false), Some(AlertKind::HighUsage));
    assert_eq!(s.check(10 * SEC, true, false), None);
    assert!(s.usage_alert_active(0));
    assert_eq!(s.last_alert_display(0), "0s ago");
}

#[test]
fn last_alert_display_text() {
    let mut s = AlertState::new();
    s.check(0, true, false);
    assert_eq!(s.last_alert_display(0), "0s ago");
    assert_eq!(s.last_alert_display(SEC - 1), "0s ago");
    assert_eq!(s.last_alert_display(59 * SEC + SEC / 2), "59s ago");
    assert_eq!(s.last_alert_display(60 * SEC), "1m ago");
    assert_eq!(s.last_alert_display(3_599 * SEC), "59m ago");
    assert_eq!(s.last_alert_display(7_200 * SEC), "120m ago");
}

#[test]
fn firings_of_one_alert_are_a_cooldown_apart() {
    let mut s = AlertState::new();
    let mut fired_at: Vec<u64> = Vec::new();
    let mut t: u64 = 0;
    while t < 600 * SEC {
        if s.check(t, true, false) == Some(AlertKind::HighUsage) {
            fired_at.push(t);
        }
        t += 7 * SEC;
    }
    assert!(fired_at.len() > 1);
    for w in fired_at.windows(2) {
        assert!(w[1] - w[0] >= COOLDOWN_NS);
    }
}

#[test]
fn last_event_getter() {
    let mut s = AlertState::new();
    assert_eq!(s.last_event(), None);
    s.check(7, false, true);
    assert_eq!(s.last_event(), Some(AlertEvent { kind: AlertKind::LowRatio, fired_at: 7 }));
}
