use z_sight::logger::{display_path, iso8601_from_secs};
use z_sight::ui::{fmt_bytes, swap_kind_cell, swap_name_cell, swap_priority_cell};

const GIB: u64 = 1_073_741_824;
const MIB: u64 = 1_048_576;
const KIB: u64 = 1_024;

/// The figures as printing the floating-point quotient gives them.
fn float_text(bytes: u64) -> String {
    if bytes >= GIB {
        format!("{:.2} GB", bytes as f64 / GIB as f64)
    } else if bytes >= MIB {
        format!("{:.0} MB", bytes as f64 / MIB as f64)
    } else if bytes >= KIB {
        format!("{:.0} KB", bytes as f64 / KIB as f64)
    } else {
        format!("{bytes} B")
    }
}

#[test]
fn fmt_bytes_examples() {
    assert_eq!(fmt_bytes(0), "0 B");
    assert_eq!(fmt_bytes(1023), "1023 B");
    assert_eq!(fmt_bytes(1024), "1 KB");
    assert_eq!(fmt_bytes(1536), "2 KB");
    assert_eq!(fmt_bytes(2560), "2 KB");
    assert_eq!(fmt_bytes(MIB), "1 MB");
    assert_eq!(fmt_bytes(931 * MIB), "931 MB");
    assert_eq!(fmt_bytes(GIB), "1.00 GB");
    assert_eq!(fmt_bytes(4 * GIB), "4.00 GB");
    assert_eq!(fmt_bytes(2_254_857_830), "2.10 GB");
}

#[test]
fn fmt_bytes_agrees_with_float_formatting() {
    let mut values: Vec<u64> = vec![
        u64::MAX,
        u64::MAX - 1,
        u64::MAX - 1024,
        1 << 53,
        (1 << 53) + 1,
        (1 << 53) + 3,
        (1 << 54) + 2,
        (1 << 54) + 6,
        GIB - 1,
        GIB + 1,
        MIB - 1,
        MIB + 1,
        KIB - 1,
        MIB / 2 * 3,
        MIB / 2 * 5,
        KIB / 2 * 3,
        KIB / 2 * 5,
        GIB - MIB / 2,
        MIB - KIB / 2,
    ];
    // Ties in the hundredths of a gigabyte: 100 * x = (2k + 1) * 2^29.
    for k in 0u64..400 {
        let n = (2 * k + 1) * (1u64 << 29);
        if n % 100 == 0 {
            values.push(n / 100);
        }
    }
    let mut x: u64 = 0x9E37_79B9_7F4A_7C15;
    for _ in 0..20000 {
        x ^= x << 13;
        x ^= x >> 7;
        x ^= x << 17;
        values.push(x >> (x % 64));
        values.push(x % (4 * GIB));
    }
    for v in values {
        assert_eq!(fmt_bytes(v), float_text(v), "{v}");
    }
}

#[test]
fn iso8601_examples() {
    assert_eq!(iso8601_from_secs(0), "1970-01-01T00:00:00Z");
    assert_eq!(iso8601_from_secs(59), "1970-01-01T00:00:59Z");
    assert_eq!(iso8601_from_secs(86_399), "1970-01-01T23:59:59Z");
    assert_eq!(iso8601_from_secs(364 * 86_400), "1970-12-31T00:00:00Z");
    assert_eq!(iso8601_from_secs(424 * 86_400), "1971-03-01T00:00:00Z");
    assert_eq!(iso8601_from_secs(1_776_463_200), "2026-04-17T22:00:00Z");
    assert_eq!(iso8601_from_secs(951_782_400), "2000-02-29T00:00:00Z");
    assert_eq!(iso8601_from_secs(4_107_542_400), "2100-03-01T00:00:00Z");
    assert_eq!(iso8601_from_secs(u64::MAX), "584554051223-11-09T07:00:15Z");
}

/// Year, month and day of the day `z` days after 1970-01-01 (the days-to-civil
/// algorithm of H. Hinnant).
fn civil(z: i128) -> (i128, i128, i128) {
    let z = z + 719_468;
    let era = z.div_euclid(146_097);
    let doe = z - era * 146_097;
    let yoe = (doe - doe / 1460 + doe / 36_524 - doe / 146_096) / 365;
    let y = yoe + era * 400;
    let doy = doe - (365 * yoe + yoe / 4 - yoe / 100);
    let mp = (5 * doy + 2) / 153;
    let d = doy - (153 * mp + 2) / 5 + 1;
    let m = if mp < 10 { mp + 3 } else { mp - 9 };
    (if m <= 2 { y + 1 } else { y }, m, d)
}

fn iso_reference(secs: u64) -> String {
    let s = secs % 60;
    let m = (secs / 60) % 60;
    let h = (secs / 3600) % 24;
    let (year, month, day) = civil((secs / 86400) as i128);
    format!("{year:04}-{month:02}-{day:02}T{h:02}:{m:02}:{s:02}Z")
}

#[test]
fn iso8601_agrees_with_civil_calendar() {
    let mut x: u64 = 12345;
    for _ in 0..5000 {
        x = x.wrapping_mul(6364136223846793005).wrapping_add(1442695040888963407);
        let v = x >> (x % 64);
        assert_eq!(iso8601_from_secs(v), iso_reference(v));
    }
    for day in 0u64..(3 * 146_097) {
        let v = day * 86_400 + day % 86_400;
        assert_eq!(iso8601_from_secs(v), iso_reference(v));
    }
}

#[test]
fn display_path_replaces_first_home() {
    assert_eq!(
        display_path("/home/ana/.local/share/z-sight/peak_usage.log", "/home/ana"),
        "~/.local/share/z-sight/peak_usage.log"
    );
    assert_eq!(display_path("/tmp/.local/x.log", "/home/ana"), "/tmp/.local/x.log");
    assert_eq!(display_path("/a/a/a", "/a"), "~/a/a");
    // Without a home directory the path is shown as it is.
    assert_eq!(display_path("/tmp/.local/share/z-sight/peak_usage.log", ""), "/tmp/.local/share/z-sight/peak_usage.log");
    assert_eq!(display_path("", ""), "");
    for (p, h) in [("xaaay", "aa"), ("/root/root", "root"), ("é/é", "é"), ("abc", "abcd")] {
        assert_eq!(display_path(p, h), p.replacen(h, "~", 1));
    }
}

#[test]
fn swap_row_cells() {
    for name in ["zram0", "", "exactly-sixteen!", "a-very-long-swapfile-name", "zré"] {
        assert_eq!(swap_name_cell(name), format!("{:<16}", name));
    }
    assert_eq!(swap_kind_cell("partition"), "[partition]");
    assert_eq!(swap_kind_cell("file"), "[file     ]");
    assert_eq!(swap_kind_cell("Partition"), "[file     ]");
    for p in [0, 5, 100, -2, i32::MIN, i32::MAX] {
        let expected = if p >= 0 { format!("  prio +{p}") } else { format!("  prio {p}") };
        assert_eq!(swap_priority_cell(p), expected);
    }
}

#[test]
fn ram_stats_difference() {
    let s = z_sight::system::ram_stats(8, 3);
    assert_eq!((s.total, s.used, s.available), (8, 5, 3));
    let s = z_sight::system::ram_stats(3, 8);
    assert_eq!((s.total, s.used, s.available), (3, 0, 8));
}

#[test]
fn civil_from_days_over_the_whole_range() {
    for d in [0u64, 59, 365, 10_956, 146_097, 1 << 48, u64::MAX / 3, u64::MAX - 1, u64::MAX] {
        let (y, m, day) = z_sight::calendar::civil_from_days(d);
        assert_eq!((y as i128, m as i128, day as i128), civil(d as i128), "{d}");
    }
}
