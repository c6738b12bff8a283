use ttl_sweep::path::CanonPath;
use ttl_sweep::time::Timestamp;
use ttl_sweep::time::Ttl;
use ttl_sweep::time::timestamp;
use ttl_sweep::ttl::find_ttl;
use ttl_sweep::ttl::parse_ttl;

fn p(components: &[&str]) -> CanonPath {
    CanonPath { components: components.iter().map(|c| c.as_bytes().to_vec()).collect() }
}

#[test]
fn parse_ttl_seconds() {
    assert_eq!(parse_ttl(&b"ttl=10s".to_vec()), Some(Ttl { secs: 10, nanos: 0 }));
}

#[test]
fn parse_ttl_composed_units() {
    assert_eq!(parse_ttl(&b"ttl=1h30m".to_vec()), Some(Ttl { secs: 5400, nanos: 0 }));
    assert_eq!(parse_ttl(&b"ttl=1d".to_vec()), Some(Ttl { secs: 86400, nanos: 0 }));
    assert_eq!(parse_ttl(&b"ttl=90m".to_vec()), Some(Ttl { secs: 5400, nanos: 0 }));
}

#[test]
fn parse_ttl_subsecond() {
    assert_eq!(parse_ttl(&b"ttl=500ms".to_vec()), Some(Ttl { secs: 0, nanos: 500_000_000 }));
    assert_eq!(parse_ttl(&b"ttl=4.2s".to_vec()), Some(Ttl { secs: 4, nanos: 200_000_000 }));
}

#[test]
fn parse_ttl_rejects_missing_prefix() {
    assert_eq!(parse_ttl(&b"10s".to_vec()), None);
    assert_eq!(parse_ttl(&b"x=10s".to_vec()), None);
    assert_eq!(parse_ttl(&b"tt=10s".to_vec()), None);
}

#[test]
fn parse_ttl_rejects_invalid_remainder() {
    assert_eq!(parse_ttl(&b"ttl=".to_vec()), None);
    assert_eq!(parse_ttl(&b"ttl=bogus".to_vec()), None);
    assert_eq!(parse_ttl(&b"ttl=10".to_vec()), None);
}

#[test]
fn find_ttl_nearest_component_wins() {
    let path = p(&["root", "ttl=1h", "ttl=10s", "data.bin"]);
    assert_eq!(find_ttl(&path), Some(Ttl { secs: 10, nanos: 0 }));
}

#[test]
fn find_ttl_invalid_remainder_falls_back_to_ancestor() {
    let path = p(&["root", "ttl=10s", "ttl=bogus", "data.bin"]);
    assert_eq!(find_ttl(&path), Some(Ttl { secs: 10, nanos: 0 }));
}

#[test]
fn find_ttl_none_without_marker() {
    assert_eq!(find_ttl(&p(&["root", "a", "b.txt"])), None);
    assert_eq!(find_ttl(&p(&["root", "ttl=", "b.txt"])), None);
    assert_eq!(find_ttl(&p(&[])), None);
}

#[test]
fn find_ttl_on_filename_itself() {
    assert_eq!(find_ttl(&p(&["root", "ttl=5m"])), Some(Ttl { secs: 300, nanos: 0 }));
}

#[test]
fn timestamp_reports_whole_seconds() {
    assert_eq!(timestamp(&Timestamp { secs: 42, nanos: 999_999_999 }), 42);
    assert_eq!(timestamp(&Timestamp::from_secs(7)), 7);
}

#[test]
fn parse_ttl_accepts_verbose_spellings() {
    assert_eq!(parse_ttl(&b"ttl=1hour30minutes".to_vec()), Some(Ttl { secs: 5400, nanos: 0 }));
    assert_eq!(
        parse_ttl(&b"ttl=100d12h30m45s".to_vec()),
        Some(Ttl { secs: 8_685_045, nanos: 0 }),
    );
    assert_eq!(
        parse_ttl(&b"ttl=1h30m10s500ms".to_vec()),
        Some(Ttl { secs: 5410, nanos: 500_000_000 }),
    );
}

#[test]
fn parse_ttl_digit_limit() {
    // within the machine limit: up to eleven digit bytes
    assert_eq!(parse_ttl(&b"ttl=1000000000ns".to_vec()), Some(Ttl { secs: 1, nanos: 0 }));
    assert_eq!(
        parse_ttl(&b"ttl=99999999999s".to_vec()),
        Some(Ttl { secs: 99_999_999_999, nanos: 0 }),
    );
    // a twelfth digit puts the magnitude over the limit
    assert_eq!(parse_ttl(&b"ttl=999999999999s".to_vec()), None);
    assert_eq!(parse_ttl(&b"ttl=11111111111111111111s".to_vec()), None);
    // the carry edge in the parser: must be rejected, never reached
    assert_eq!(parse_ttl(&b"ttl=18446744073709551615s1000000000ns".to_vec()), None);
}

#[test]
fn find_ttl_oversized_marker_falls_back_to_ancestor() {
    let path = p(&["root", "ttl=10s", "ttl=18446744073709551615s1000000000ns", "f"]);
    assert_eq!(find_ttl(&path), Some(Ttl { secs: 10, nanos: 0 }));
    assert_eq!(find_ttl(&p(&["ttl=11111111111111111111s", "f"])), None);
}
