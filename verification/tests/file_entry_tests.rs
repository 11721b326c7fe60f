use chrono::{NaiveDate, TimeZone, Utc};
use file_triage::domain::{
    FileEntry, FileMetadata, FileType, FilesystemError, FilesystemErrorKind, PathParts, Timestamp,
};
use std::path::{Path, PathBuf};

fn split(path: &Path) -> PathParts {
    PathParts {
        path: path.to_path_buf(),
        file_name: path
            .file_name()
            .and_then(|n| n.to_str())
            .map(|n| n.to_string()),
        extension: path
            .extension()
            .and_then(|e| e.to_str())
            .map(|e| e.to_string()),
    }
}

fn at_noon(size: u64) -> FileMetadata {
    FileMetadata {
        size,
        modified: Timestamp {
            secs: 43_200,
            nanos: 0,
        },
    }
}

#[test]
fn test_file_entry_from_path() {
    let path = Path::new("/tmp/.tmpGx3kQ9");

    let entry = FileEntry::from_path(split(path), Ok(at_noon(12))).unwrap();

    assert_eq!(entry.path, path);
    assert!(entry.name.len() > 0);
    assert_eq!(entry.size, 12);
    assert_eq!(entry.file_type, FileType::Binary);
}

#[test]
fn test_file_entry_from_path_with_extension() {
    let path = Path::new("/tmp/.tmpGx3kQ9");
    let txt_path = path.with_extension("txt");

    let entry = FileEntry::from_path(split(&txt_path), Ok(at_noon(5))).unwrap();

    assert_eq!(entry.file_type, FileType::Text);
    assert_eq!(entry.size, 5);
}

#[test]
fn test_file_entry_nonexistent_file() {
    let result = FileEntry::from_path(
        split(Path::new("/nonexistent/file.txt")),
        Err(FilesystemError {
            kind: FilesystemErrorKind::NotFound,
            message: "No such file or directory (os error 2)".to_string(),
        }),
    );
    assert!(result.is_err());
}

#[test]
fn refusal_of_metadata_is_handed_on() {
    let refusal = FilesystemError {
        kind: FilesystemErrorKind::PermissionDenied,
        message: "Permission denied (os error 13)".to_string(),
    };
    let error = FileEntry::from_path(split(Path::new("/root/secret.txt")), Err(refusal)).unwrap_err();
    assert_eq!(error.kind, FilesystemErrorKind::PermissionDenied);
    assert_eq!(error.message, "Permission denied (os error 13)");
}

#[test]
fn entry_holds_what_it_was_given() {
    let path = Path::new("/home/user/Report.PDF");
    let metadata = FileMetadata {
        size: 123_456,
        modified: Timestamp {
            secs: 1_431_648_000,
            nanos: 250_000_000,
        },
    };
    let entry = FileEntry::from_parts(split(path), metadata);
    assert_eq!(entry.path, PathBuf::from("/home/user/Report.PDF"));
    assert_eq!(entry.name, "Report.PDF");
    assert_eq!(entry.size, 123_456);
    assert_eq!(entry.modified_date, metadata.modified);
    assert_eq!(entry.file_type, FileType::Pdf);
}

#[test]
fn missing_name_and_extension() {
    let parts = PathParts {
        path: PathBuf::from("/tmp/.."),
        file_name: None,
        extension: None,
    };
    let entry = FileEntry::from_parts(parts, at_noon(0));
    assert_eq!(entry.name, "unknown");
    assert_eq!(entry.file_type, FileType::Binary);
    assert_eq!(entry.path, PathBuf::from("/tmp/.."));
}

#[test]
fn timestamp_of_a_chrono_date() {
    let date = Utc.with_ymd_and_hms(2015, 5, 15, 0, 0, 0).unwrap();
    assert_eq!(
        Timestamp::from_naive_utc(&date.naive_utc()),
        Timestamp {
            secs: 1_431_648_000,
            nanos: 0
        }
    );
    let date = NaiveDate::from_ymd_opt(1969, 12, 31)
        .unwrap()
        .and_hms_nano_opt(23, 59, 59, 123_456_789)
        .unwrap();
    assert_eq!(
        Timestamp::from_naive_utc(&date),
        Timestamp {
            secs: -1,
            nanos: 123_456_789
        }
    );
    let leap = NaiveDate::from_ymd_opt(2016, 12, 31)
        .unwrap()
        .and_hms_milli_opt(23, 59, 59, 1_500)
        .unwrap();
    assert_eq!(
        Timestamp::from_naive_utc(&leap),
        Timestamp {
            secs: 1_483_228_799,
            nanos: 1_500_000_000
        }
    );
}

#[test]
fn timestamps_are_ordered_as_chrono_dates_are() {
    let dates = [
        NaiveDate::from_ymd_opt(1969, 12, 31)
            .unwrap()
            .and_hms_nano_opt(23, 59, 59, 999_999_999)
            .unwrap(),
        NaiveDate::from_ymd_opt(1970, 1, 1)
            .unwrap()
            .and_hms_opt(0, 0, 0)
            .unwrap(),
        NaiveDate::from_ymd_opt(2016, 12, 31)
            .unwrap()
            .and_hms_nano_opt(23, 59, 59, 999_999_999)
            .unwrap(),
        NaiveDate::from_ymd_opt(2016, 12, 31)
            .unwrap()
            .and_hms_milli_opt(23, 59, 59, 1_000)
            .unwrap(),
        NaiveDate::from_ymd_opt(2017, 1, 1)
            .unwrap()
            .and_hms_opt(0, 0, 0)
            .unwrap(),
        NaiveDate::from_ymd_opt(2017, 1, 1)
            .unwrap()
            .and_hms_nano_opt(0, 0, 0, 1)
            .unwrap(),
    ];
    for a in dates.iter() {
        for b in dates.iter() {
            let x = Timestamp::from_naive_utc(a);
            let y = Timestamp::from_naive_utc(b);
            assert_eq!(x.is_at_most(&y), a.and_utc() <= b.and_utc());
            assert_eq!(x == y, a.and_utc() == b.and_utc());
        }
    }
}

#[test]
fn timestamp_order() {
    let t = |secs: i64, nanos: u32| Timestamp { secs, nanos };
    assert!(t(1, 0).is_at_most(&t(1, 0)));
    assert!(t(1, 0).is_at_most(&t(1, 1)));
    assert!(!t(1, 1).is_at_most(&t(1, 0)));
    assert!(t(1, 999).is_at_most(&t(2, 0)));
    assert!(!t(2, 0).is_at_most(&t(1, 999)));
    assert!(t(-1, 5).is_at_most(&t(0, 0)));
}
