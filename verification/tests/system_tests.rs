use std::collections::VecDeque;

use z_sight::history::{push_history, HISTORY_LEN};
use z_sight::processes::{ProcessScanner, TOP_N};

#[test]
fn history_keeps_latest_values() {
    let mut buf: VecDeque<u32> = VecDeque::new();
    for v in 0..(HISTORY_LEN as u32 + 25) {
        push_history(&mut buf, v);
        assert!(buf.len() <= HISTORY_LEN);
        assert_eq!(*buf.back().unwrap(), v);
    }
    assert_eq!(buf.len(), HISTORY_LEN);
    assert_eq!(*buf.front().unwrap(), 25);
}

#[test]
fn history_short_run_keeps_everything() {
    let mut buf: VecDeque<f64> = VecDeque::new();
    push_history(&mut buf, 1.5);
    push_history(&mut buf, 2.5);
    assert_eq!(buf, VecDeque::from(vec![1.5, 2.5]));
}

#[test]
fn scanner_reports_a_sorted_leaderboard() {
    let mut scanner = ProcessScanner::new();
    if let Some(top) = scanner.top() {
        assert!(top.len() <= TOP_N);
        for w in top.windows(2) {
            assert!(w[0].memory >= w[1].memory);
        }
        for p in &top {
            assert!(p.name.len() <= 14 || p.name.ends_with('…'));
        }
    }
}

#[test]
fn ram_snapshot_reads() {
    let mut sys = sysinfo::System::new();
    let stats = z_sight::system::read_stats(&mut sys);
    assert_eq!(stats.used, stats.total.saturating_sub(stats.available));
}
