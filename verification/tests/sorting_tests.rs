use file_triage::domain::sorting::{entry_le, reverse_entries, sort_entries};
use file_triage::domain::text::{is_hidden_name, str_eq, str_le};
use file_triage::domain::{FileEntry, FileType, SortBy, Timestamp};
use std::path::PathBuf;

fn entry(name: &str, size: u64, secs: i64, file_type: FileType) -> FileEntry {
    FileEntry {
        path: PathBuf::from(name),
        name: name.to_string(),
        size,
        modified_date: Timestamp { secs, nanos: 0 },
        file_type,
    }
}

fn names_of(files: &[FileEntry]) -> Vec<String> {
    files.iter().map(|f| f.name.clone()).collect()
}

#[test]
fn sort_of_nothing_and_of_one() {
    assert!(sort_entries(SortBy::Name, vec![]).is_empty());
    let one = sort_entries(SortBy::Size, vec![entry("a", 1, 0, FileType::Text)]);
    assert_eq!(names_of(&one), vec!["a"]);
}

#[test]
fn sort_by_each_key() {
    let files = || {
        vec![
            entry("c", 2, 30, FileType::Text),
            entry("a", 3, 20, FileType::Binary),
            entry("b", 1, 10, FileType::Pdf),
            entry("d", 0, 40, FileType::Image),
        ]
    };
    assert_eq!(names_of(&sort_entries(SortBy::Name, files())), vec!["a", "b", "c", "d"]);
    assert_eq!(names_of(&sort_entries(SortBy::Size, files())), vec!["d", "b", "c", "a"]);
    assert_eq!(names_of(&sort_entries(SortBy::Date, files())), vec!["b", "a", "c", "d"]);
    assert_eq!(names_of(&sort_entries(SortBy::Type, files())), vec!["a", "d", "b", "c"]);
}

#[test]
fn sort_keeps_ties_in_order() {
    let files = vec![
        entry("e", 1, 0, FileType::Text),
        entry("d", 0, 0, FileType::Text),
        entry("c", 1, 0, FileType::Text),
        entry("b", 0, 0, FileType::Text),
        entry("a", 1, 0, FileType::Text),
        entry("z", 0, 0, FileType::Text),
        entry("y", 1, 0, FileType::Text),
    ];
    let sorted = sort_entries(SortBy::Size, files);
    assert_eq!(names_of(&sorted), vec!["d", "b", "z", "e", "c", "a", "y"]);
}

#[test]
fn reverse_of_a_list() {
    let files = vec![
        entry("a", 0, 0, FileType::Text),
        entry("b", 0, 0, FileType::Text),
        entry("c", 0, 0, FileType::Text),
    ];
    assert_eq!(names_of(&reverse_entries(files)), vec!["c", "b", "a"]);
    assert!(reverse_entries(vec![]).is_empty());
}

#[test]
fn order_of_two_entries() {
    let a = entry("a", 5, 9, FileType::Text);
    let b = entry("b", 5, 3, FileType::Image);
    assert!(entry_le(SortBy::Name, &a, &b));
    assert!(!entry_le(SortBy::Name, &b, &a));
    assert!(entry_le(SortBy::Size, &a, &b));
    assert!(entry_le(SortBy::Size, &b, &a));
    assert!(!entry_le(SortBy::Date, &a, &b));
    assert!(entry_le(SortBy::Date, &b, &a));
    assert!(!entry_le(SortBy::Type, &a, &b));
    assert!(entry_le(SortBy::Type, &b, &a));
}

#[test]
fn order_of_strings() {
    let words = ["", "a", "A", "ab", "abc", "b", "\u{e9}", "\u{1F600}", "\u{ffff}", "a\u{0}", "."];
    for x in words {
        for y in words {
            assert_eq!(str_le(x, y), x <= y, "{:?} {:?}", x, y);
            assert_eq!(str_eq(x, y), x == y, "{:?} {:?}", x, y);
        }
    }
}

#[test]
fn hidden_names() {
    assert!(is_hidden_name(".hidden.txt"));
    assert!(is_hidden_name("."));
    assert!(is_hidden_name(".."));
    assert!(!is_hidden_name(""));
    assert!(!is_hidden_name("visible.txt"));
    assert!(!is_hidden_name("a.b"));
    assert!(!is_hidden_name("\u{2024}profile"));
}
