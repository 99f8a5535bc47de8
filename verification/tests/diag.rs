use devlaunch::diag::{civil_from_unix, log_line, timestamp_of};

#[test]
fn civil_from_unix_matches_known_instants() {
    assert_eq!(civil_from_unix(0), (1970, 1, 1, 0, 0, 0));
    assert_eq!(civil_from_unix(1_789_948_800), (2026, 9, 21, 0, 0, 0));
    assert_eq!(civil_from_unix(1_709_164_800), (2024, 2, 29, 0, 0, 0));
    assert_eq!(civil_from_unix(1_735_689_599), (2024, 12, 31, 23, 59, 59));
    assert_eq!(civil_from_unix(951_782_400), (2000, 2, 29, 0, 0, 0));
}

#[test]
fn civil_from_unix_handles_the_largest_time() {
    let (y, m, d, h, mi, s) = civil_from_unix(u64::MAX);
    assert!(y > 1970);
    assert!((1..=12).contains(&m) && (1..=31).contains(&d));
    assert_eq!((h, mi, s), ((u64::MAX % 86400 / 3600) as u32, (u64::MAX % 3600 / 60) as u32, (u64::MAX % 60) as u32));
}

#[test]
fn timestamp_is_zero_padded() {
    assert_eq!(timestamp_of(0), "1970-01-01 00:00:00");
    assert_eq!(timestamp_of(1_735_689_599), "2024-12-31 23:59:59");
}

#[test]
fn log_line_flattens_newlines() {
    assert_eq!(log_line("T", "ERROR", "a\nb\r\nc"), "T [ERROR] a b  c\n");
}
