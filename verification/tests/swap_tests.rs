use z_sight::swap::{checked_totals, parse_swaps, parse_swaps_checked, swap_sizes_fit, totals, SwapEntry};

fn make_entry(size: u64, used: u64) -> SwapEntry {
    SwapEntry {
        name: "/test".into(),
        display_name: "test".into(),
        kind: "file".into(),
        size,
        used,
        priority: 0,
    }
}

/// The usage percentage that the dashboard derives from the totals.
fn used_pct(total_used: u64, total_size: u64) -> f64 {
    if total_size == 0 {
        0.0
    } else {
        (total_used as f64 / total_size as f64) * 100.0
    }
}

#[test]
fn totals_basic() {
    let entries = vec![
        make_entry(4 * 1024 * 1024 * 1024, 1024 * 1024 * 1024),
        make_entry(2 * 1024 * 1024 * 1024, 1024 * 1024 * 1024),
    ];
    let t = totals(&entries);
    assert_eq!(t.total_size, 6 * 1024 * 1024 * 1024);
    assert_eq!(t.total_used, 2 * 1024 * 1024 * 1024);
    assert!((used_pct(t.total_used, t.total_size) - 33.33).abs() < 0.1);
}

#[test]
fn totals_empty() {
    let t = totals(&[]);
    assert_eq!(used_pct(t.total_used, t.total_size), 0.0);
    assert_eq!((t.total_size, t.total_used), (0, 0));
}

#[test]
fn checked_totals_detects_overflow() {
    let entries = vec![make_entry(u64::MAX, 1), make_entry(1, 1)];
    assert!(checked_totals(&entries).is_none());
    let ok = vec![make_entry(u64::MAX - 1, 1), make_entry(1, 1)];
    let t = checked_totals(&ok).unwrap();
    assert_eq!((t.total_size, t.total_used), (u64::MAX, 2));
}

const SAMPLE: &str = "Filename\t\t\t\tType\t\tSize\t\tUsed\t\tPriority
/swapfile                               file\t\t2097148\t\t1024\t\t-2
/dev/zram0                              partition\t4194300\t\t2048\t\t100
/dev/sdb2                               partition\t1000\t\t0\t\t-2
";

#[test]
fn parse_swaps_orders_by_priority() {
    let e = parse_swaps(SAMPLE);
    assert_eq!(e.len(), 3);
    assert_eq!(e[0].name, "/dev/zram0");
    assert_eq!(e[0].display_name, "zram0");
    assert_eq!(e[0].kind, "partition");
    assert_eq!(e[0].size, 4_194_300 * 1024);
    assert_eq!(e[0].used, 2048 * 1024);
    assert_eq!(e[0].priority, 100);
    // Equal priorities keep the order of the file.
    assert_eq!(e[1].name, "/swapfile");
    assert_eq!(e[1].display_name, "swapfile");
    assert_eq!(e[2].name, "/dev/sdb2");
}

#[test]
fn parse_swaps_skips_header_and_short_rows() {
    assert!(parse_swaps("").is_empty());
    assert!(parse_swaps("/a file 1 2 3\n").is_empty());
    let e = parse_swaps("header\n\nshort row\n/a file x -5 junk\r\nnoslash t 3 4 7 extra\n");
    assert_eq!(e.len(), 2);
    assert_eq!(e[0].name, "noslash");
    assert_eq!(e[0].display_name, "noslash");
    assert_eq!((e[0].size, e[0].used, e[0].priority), (3072, 4096, 7));
    // Unparsable numbers count as zero.
    assert_eq!((e[1].size, e[1].used, e[1].priority), (0, 0, 0));
}

#[test]
fn base_name_takes_text_after_last_slash() {
    let e = parse_swaps("h\n/a/b/ file 1 1 1\n/x/y/z file 1 1 0\n");
    assert_eq!(e[0].display_name, "");
    assert_eq!(e[1].display_name, "z");
}

#[test]
fn oversized_entries_are_refused_by_the_checked_parser() {
    let big = "h\n/a file 18014398509481984 0 0\n";
    assert!(!swap_sizes_fit(big));
    assert!(parse_swaps_checked(big).is_none());
    let edge = "h\n/a file 18014398509481983 0 0\n";
    assert!(swap_sizes_fit(edge));
    let e = parse_swaps_checked(edge).unwrap();
    assert_eq!(e[0].size, 18_014_398_509_481_983 * 1024);
    assert!(parse_swaps_checked(SAMPLE).is_some());
}
