use living_postmortem_mcp::timestamp::{Timestamp, MAX_UNIX_SECS, MIN_UNIX_SECS};

#[test]
fn range_matches_chrono() {
    for (secs, nanos) in [
        (MIN_UNIX_SECS, 0u32),
        (MAX_UNIX_SECS, 999_999_999),
        (MIN_UNIX_SECS - 1, 0),
        (MAX_UNIX_SECS + 1, 0),
        (59, 1_500_000_000),
        (58, 1_500_000_000),
        (-1, 1_000_000_000),
        (-2, 1_000_000_000),
        (0, 2_000_000_000),
    ] {
        let ours = Timestamp::from_unix(secs, nanos).is_some();
        let chrono = chrono::DateTime::from_timestamp(secs, nanos).is_some();
        assert_eq!(ours, chrono, "({secs}, {nanos})");
    }
}

#[test]
fn rfc3339_text_and_parse() {
    let t = Timestamp::parse_rfc3339("2026-05-01T10:00:00Z").unwrap();
    assert_eq!(t.unix_secs(), 1_777_629_600);
    assert_eq!(t.subsec_nanos(), 0);
    assert_eq!(t.to_rfc3339(), "2026-05-01T10:00:00+00:00");
    assert_eq!(t.compact(), "20260501100000");
    assert!(Timestamp::parse_rfc3339("yesterday").is_err());
}

#[test]
fn extreme_years_render_with_sign() {
    let t = Timestamp::from_unix(MIN_UNIX_SECS, 0).unwrap();
    assert_eq!(t.to_rfc3339(), "-262143-01-01T00:00:00+00:00");
    let u = Timestamp::from_unix(MAX_UNIX_SECS, 0).unwrap();
    assert_eq!(u.compact(), "+2621421231235959");
}
