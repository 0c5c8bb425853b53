use rust_vcs::commit::{calculate_hash, hex_id, Commit};
use rust_vcs::error::VCSError;

#[test]
fn hex_id_has_no_leading_zeros() {
    assert_eq!(hex_id(0), "0");
    assert_eq!(hex_id(15), "f");
    assert_eq!(hex_id(255), "ff");
    assert_eq!(hex_id(0x1a2b), "1a2b");
    assert_eq!(hex_id(u64::MAX), "ffffffffffffffff");
}

#[test]
fn commit_id_is_lowercase_hex_and_stable() {
    let a = calculate_hash(1_700_000_000, 5);
    let b = calculate_hash(1_700_000_000, 5);
    assert_eq!(a, b);
    assert!(!a.is_empty() && a.len() <= 16);
    assert!(a.chars().all(|c| c.is_ascii_hexdigit() && !c.is_ascii_uppercase()));
    assert_ne!(calculate_hash(1_700_000_000, 5), calculate_hash(1_700_000_001, 5));
}

#[test]
fn commit_time_is_utc_text() {
    let c = Commit::new("first".to_string(), 0, 0).unwrap();
    assert_eq!(c.time, "1970/01/01 00:00:00");
    assert_eq!(c.message, "first");
    let c2 = Commit::new("m".to_string(), 1_000_000_000, 0).unwrap();
    assert_eq!(c2.time, "2001/09/09 01:46:40");
}

#[test]
fn log_line_is_tab_separated() {
    let c = Commit::new("hello world".to_string(), 86_400, 0).unwrap();
    assert_eq!(c.to_log_line(), format!("{}\t1970/01/02 00:00:00\thello world", c.id));
}

#[test]
fn commit_time_out_of_range_is_refused() {
    assert!(matches!(Commit::new("m".to_string(), i64::MAX, 0), Err(VCSError::Other(_))));
}
