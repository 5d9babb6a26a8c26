use z_sight::num::{parse_i32, parse_u64, IntErrorKind};
use z_sight::zram::{parse_mm_stat, parse_stat_value, Health, StatParseError};

fn chars(s: &str) -> Vec<char> {
    s.chars().collect()
}

#[test]
fn parse_mm_stat_valid() {
    // Sample line matching real kernel output
    let line = "1825492992 601143966 614608896 0 810680320 38614 1029435 26721 475378";
    let s = parse_mm_stat(line).unwrap();
    assert_eq!(s.orig_data_size, 1_825_492_992);
    assert_eq!(s.compr_data_size, 601_143_966);
    assert_eq!(s.mem_used_total, 614_608_896);
}

#[test]
fn parse_mm_stat_too_short() {
    assert!(parse_mm_stat("100 200").is_err());
}

#[test]
fn parse_mm_stat_reports_too_few_fields() {
    assert_eq!(parse_mm_stat("100 200"), Err(StatParseError::TooFewFields));
    assert_eq!(parse_mm_stat(""), Err(StatParseError::TooFewFields));
    assert_eq!(parse_mm_stat("   \t\n "), Err(StatParseError::TooFewFields));
    assert_eq!(
        StatParseError::TooFewFields.description(),
        "mm_stat has fewer than 3 fields"
    );
}

#[test]
fn parse_mm_stat_exactly_three_fields_and_odd_spacing() {
    let s = parse_mm_stat("\t 7  8\t\t9 \n").unwrap();
    assert_eq!((s.orig_data_size, s.compr_data_size, s.mem_used_total), (7, 8, 9));
}

#[test]
fn parse_mm_stat_first_bad_field_decides() {
    assert_eq!(
        parse_mm_stat("1 x 99999999999999999999"),
        Err(StatParseError::Int(IntErrorKind::InvalidDigit))
    );
    assert_eq!(
        parse_mm_stat("1 99999999999999999999 x"),
        Err(StatParseError::Int(IntErrorKind::PosOverflow))
    );
    assert_eq!(
        parse_mm_stat("-1 2 3"),
        Err(StatParseError::Int(IntErrorKind::InvalidDigit))
    );
    // Fields after the third are never read.
    assert!(parse_mm_stat("1 2 3 garbage").is_ok());
}

#[test]
fn parse_mm_stat_unicode_whitespace_separates() {
    let s = parse_mm_stat("1\u{3000}2\u{a0}3").unwrap();
    assert_eq!((s.orig_data_size, s.compr_data_size, s.mem_used_total), (1, 2, 3));
}

#[test]
fn parse_u64_matches_std() {
    let cases = [
        "0", "42", "+42", "+", "-", "-0", "", "18446744073709551615", "18446744073709551616",
        "99999999999999999999x", "12a", "a12", "007", "1 2", "١٢", "+-1", "++1",
    ];
    for c in cases {
        let ours = parse_u64(&chars(c));
        let std = c.parse::<u64>().map_err(|e| e.kind().clone());
        match (ours, std) {
            (Ok(a), Ok(b)) => assert_eq!(a, b, "{c}"),
            (Err(a), Err(b)) => assert_eq!(format!("{a:?}"), format!("{b:?}"), "{c}"),
            (a, b) => panic!("{c}: {a:?} vs {b:?}"),
        }
    }
}

#[test]
fn parse_i32_matches_std() {
    let cases = [
        "0", "-0", "+7", "-7", "2147483647", "2147483648", "-2147483648", "-2147483649",
        "-", "+", "", "--1", "-x", "1x", "-99999999999", "99999999999",
    ];
    for c in cases {
        let ours = parse_i32(&chars(c));
        let std = c.parse::<i32>().map_err(|e| e.kind().clone());
        match (ours, std) {
            (Ok(a), Ok(b)) => assert_eq!(a, b, "{c}"),
            (Err(a), Err(b)) => assert_eq!(format!("{a:?}"), format!("{b:?}"), "{c}"),
            (a, b) => panic!("{c}: {a:?} vs {b:?}"),
        }
    }
}

#[test]
fn int_error_messages_match_std() {
    let std_msg = |s: &str| s.parse::<u64>().unwrap_err().to_string();
    assert_eq!(IntErrorKind::Empty.description(), std_msg(""));
    assert_eq!(IntErrorKind::InvalidDigit.description(), std_msg("x"));
    assert_eq!(IntErrorKind::PosOverflow.description(), std_msg("99999999999999999999"));
    assert_eq!(
        IntErrorKind::NegOverflow.description(),
        "-99999999999".parse::<i32>().unwrap_err().to_string()
    );
}

#[test]
fn parse_stat_value_trims() {
    assert_eq!(parse_stat_value("4294967296\n"), Ok(4_294_967_296));
    assert_eq!(parse_stat_value("  17 \t"), Ok(17));
    assert_eq!(parse_stat_value("\n"), Err(IntErrorKind::Empty));
    assert_eq!(parse_stat_value("1 2"), Err(IntErrorKind::InvalidDigit));
}

#[test]
fn health_labels() {
    assert_eq!(Health::Normal.label(), "NORMAL");
    assert_eq!(Health::Pressure.label(), "PRESSURE");
    assert_eq!(Health::Critical.label(), "CRITICAL");
}
