use lfs_locks::listing::{holding_of_entry, parse_listing, parse_lock_line, MARKER_LENGTH};
use lfs_locks::protocol::{Failure, LockEntry, Owner};
use lfs_locks::registry::Holding;

fn holding(path: &str, owner: &str, id: u32) -> Holding {
    Holding { path: path.to_string(), owner: owner.to_string(), id }
}

fn entry(id: &str, path: &str, owner: &str) -> LockEntry {
    LockEntry {
        id: id.to_string(),
        path: path.to_string(),
        owner: Owner { name: owner.to_string() },
        locked_at: "2024-01-01T00:00:00Z".to_string(),
    }
}

#[test]
fn marker_has_three_characters() {
    assert_eq!(MARKER_LENGTH, 3);
}

#[test]
fn line_with_three_tokens_is_read() {
    assert_eq!(parse_lock_line("art/tex.png\talice\tID:1"), Some(holding("art/tex.png", "alice", 1)));
    assert_eq!(parse_lock_line("  a.bin   bob   ID:4294967295  "), Some(holding("a.bin", "bob", u32::MAX)));
}

#[test]
fn line_marker_is_skipped_not_checked() {
    assert_eq!(parse_lock_line("a.bin bob xyz42"), Some(holding("a.bin", "bob", 42)));
    assert_eq!(parse_lock_line("a.bin bob 12345"), Some(holding("a.bin", "bob", 45)));
    assert_eq!(parse_lock_line("a.bin bob ééé7"), Some(holding("a.bin", "bob", 7)));
}

#[test]
fn line_tokens_after_the_third_are_not_read() {
    assert_eq!(parse_lock_line("a.bin bob ID:7 extra words"), Some(holding("a.bin", "bob", 7)));
}

#[test]
fn malformed_lines_give_nothing() {
    assert_eq!(parse_lock_line(""), None);
    assert_eq!(parse_lock_line("   "), None);
    assert_eq!(parse_lock_line("a.bin"), None);
    assert_eq!(parse_lock_line("a.bin bob"), None);
    assert_eq!(parse_lock_line("a.bin bob ID"), None);
    assert_eq!(parse_lock_line("a.bin bob ID:"), None);
    assert_eq!(parse_lock_line("a.bin bob ID:x"), None);
    assert_eq!(parse_lock_line("a.bin bob ID:-1"), None);
    assert_eq!(parse_lock_line("a.bin bob ID:1.5"), None);
    assert_eq!(parse_lock_line("a.bin bob ID:4294967296"), None);
}

#[test]
fn listing_is_read_line_by_line() {
    let lines = vec!["a.bin bob ID:1".to_string(), "b.bin eve ID:2".to_string()];
    assert_eq!(parse_listing(&lines), Ok(vec![holding("a.bin", "bob", 1), holding("b.bin", "eve", 2)]));
    assert_eq!(parse_listing(&Vec::new()), Ok(Vec::new()));
}

#[test]
fn listing_fails_on_its_first_malformed_line() {
    let lines = vec![
        "a.bin bob ID:1".to_string(),
        "broken line".to_string(),
        "b.bin eve ID:2".to_string(),
        "also broken".to_string(),
    ];
    assert_eq!(
        parse_listing(&lines),
        Err(Failure::MalformedAdapterOutput { text: "broken line".to_string() })
    );
}

#[test]
fn entry_number_is_read_whole() {
    assert_eq!(holding_of_entry(&entry("1", "art/tex.png", "alice")), Some(holding("art/tex.png", "alice", 1)));
    assert_eq!(holding_of_entry(&entry("0012", "p", "o")), Some(holding("p", "o", 12)));
    assert_eq!(holding_of_entry(&entry("", "p", "o")), None);
    assert_eq!(holding_of_entry(&entry("ID:1", "p", "o")), None);
    assert_eq!(holding_of_entry(&entry("4294967296", "p", "o")), None);
}
