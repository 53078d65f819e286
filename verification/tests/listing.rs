use unix_tools::filesize::SIZE_LIMIT;
use unix_tools::listing::{collect_entries, show_directory, Entry, ShowError};
use unix_tools::timestamp::{LocalDateTime, Timestamp};

fn t() -> Option<Timestamp> {
    Some(Timestamp { secs: 995_198_400, nanos: 0 })
}

fn date() -> LocalDateTime {
    LocalDateTime { year: 2024, month: 1, day: 2, hour: 3, minute: 4 }
}

fn names(entries: &[Entry]) -> Vec<String> {
    entries.iter().map(|e| e.filename.clone()).collect()
}

#[test]
fn entry_new_keeps_values() {
    let e = Entry::new("a.txt", 12, 0o100644, 1000, None);
    assert_eq!(e.filename, "a.txt");
    assert_eq!(e.size.0, 12);
    assert_eq!(e.permissions.mode, 0o100644);
    assert_eq!(e.uid, 1000);
    assert!(e.modified.is_none());
}

#[test]
fn sorts_by_name() {
    let entries = vec![
        Entry::new("b", 1, 0o100644, 0, t()),
        Entry::new("a", 2, 0o100644, 0, t()),
        Entry::new("c", 3, 0o100644, 0, t()),
        Entry::new("ab", 4, 0o100644, 0, t()),
    ];
    assert_eq!(names(&collect_entries(entries)), vec!["a", "ab", "b", "c"]);
}

#[test]
fn sorts_as_byte_order() {
    let raw = vec!["z", "Z", "é", "a", "_", "10", "9", "€", "😀", ""];
    let entries = raw.iter().map(|n| Entry::new(n, 0, 0o100644, 0, t())).collect();
    let mut expected: Vec<String> = raw.iter().map(|n| n.to_string()).collect();
    expected.sort();
    assert_eq!(names(&collect_entries(entries)), expected);
}

#[test]
fn sort_keeps_order_of_equal_names() {
    let entries = vec![
        Entry::new("x", 1, 0o100644, 0, t()),
        Entry::new("a", 2, 0o100644, 0, t()),
        Entry::new("x", 3, 0o100644, 0, t()),
        Entry::new("x", 4, 0o100644, 0, t()),
    ];
    let sorted = collect_entries(entries);
    let sizes: Vec<u64> = sorted.iter().map(|e| e.size.0).collect();
    assert_eq!(sizes, vec![2, 1, 3, 4]);
}

#[test]
fn sorting_sorted_entries_changes_nothing() {
    let entries = vec![
        Entry::new("a", 1, 0o100644, 0, t()),
        Entry::new("b", 2, 0o100644, 0, t()),
    ];
    let once = collect_entries(entries);
    let twice = collect_entries(once);
    assert_eq!(names(&twice), vec!["a", "b"]);
}

#[test]
fn line_of_an_entry() {
    let e = Entry::new("foo.txt", 1536, 0o100644, 0, t());
    assert_eq!(e.line("root", "2024-01-01 00:00"), ".rw-r--r--    2k root 2024-01-01 00:00 foo.txt");
    let d = Entry::new("dir", 4096, 0o040755, 1000, t());
    assert_eq!(d.line("1000", "2001-07-15 12:00"), "drwxr-xr-x    4k 1000 2001-07-15 12:00 dir");
}

#[test]
fn show_an_entry() {
    let e = Entry::new("foo", 10, 0o100600, 0, t());
    let line = e.show().unwrap();
    assert!(line.starts_with(".rw-------   10  root 2001-07-1") || line.starts_with(".rw-------   10  000 2001-07-1"), "{}", line);
    assert!(line.ends_with(" foo"));
}

#[test]
fn show_errors() {
    assert_eq!(Entry::new("x", 1, 0o100644, 0, None).show(), Err(ShowError::ModifiedUnavailable));
    assert_eq!(Entry::new("x", SIZE_LIMIT, 0o100644, 0, t()).show(), Err(ShowError::SizeOutOfRange));
    assert_eq!(Entry::new("x", SIZE_LIMIT, 0o100644, 0, None).show(), Err(ShowError::ModifiedUnavailable));
    let far = Some(Timestamp { secs: i64::MAX, nanos: 0 });
    assert_eq!(Entry::new("x", 1, 0o100644, 0, far).show(), Err(ShowError::TimeOutOfRange));
    assert_eq!(Entry::new("x", SIZE_LIMIT, 0o100644, 0, far).show(), Err(ShowError::TimeOutOfRange));
}

#[test]
fn show_with_given_owner_and_time() {
    let e = Entry::new("notes", 2048, 0o100640, 7, t());
    assert_eq!(
        e.show_with(Some("alice".to_string()), Some(date())),
        Ok(".rw-r-----    2k alice 2024-01-02 03:04 notes".to_string())
    );
    assert_eq!(
        e.show_with(None, Some(date())),
        Ok(".rw-r-----    2k 007 2024-01-02 03:04 notes".to_string())
    );
    assert_eq!(e.show_with(None, None), Err(ShowError::TimeOutOfRange));
    let big = Entry::new("big", SIZE_LIMIT, 0o100640, 7, t());
    assert_eq!(big.show_with(None, Some(date())), Err(ShowError::SizeOutOfRange));
    let unknown = Entry::new("u", 1, 0o100640, 7, None);
    assert_eq!(unknown.show_with(None, Some(date())), Err(ShowError::ModifiedUnavailable));
}

#[test]
fn directory_lines_in_name_order() {
    let entries = vec![
        Entry::new("b", 1, 0o100644, 0, t()),
        Entry::new("a", 2, 0o100644, 0, t()),
    ];
    let (sorted, lines) = show_directory(entries);
    assert_eq!(names(&sorted), vec!["a", "b"]);
    assert_eq!(lines.len(), 2);
    assert!(lines[0].as_ref().unwrap().ends_with(" a"));
    assert!(lines[1].as_ref().unwrap().ends_with(" b"));
}

#[test]
fn directory_listing_stops_at_first_failure() {
    let entries = vec![
        Entry::new("c", 1, 0o100644, 0, t()),
        Entry::new("b", 1, 0o100644, 0, None),
        Entry::new("a", 1, 0o100644, 0, t()),
    ];
    let (sorted, lines) = show_directory(entries);
    assert_eq!(names(&sorted), vec!["a", "b", "c"]);
    assert_eq!(lines.len(), 2);
    assert!(lines[0].is_ok());
    assert_eq!(lines[1], Err(ShowError::ModifiedUnavailable));
}

#[test]
fn empty_directory() {
    let (sorted, lines) = show_directory(Vec::new());
    assert!(sorted.is_empty());
    assert!(lines.is_empty());
}
