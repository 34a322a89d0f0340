use std::num::NonZeroU16;
use typst_lua::package::{package_to_text, PackageSpec, PackageVersion};
use typst_lua::world::{
    column_number, file_display_name, line_index, FileCache, line_range, source_root, today_date, trim_bom, FileEntry, FileEntryError,
    LocationError,
};
use typst_syntax::{FileId, Lines, VirtualPath};

fn some_id() -> FileId {
    FileId::new(None, VirtualPath::new("main.typ"))
}

#[test]
fn file_entry_keeps_its_bytes() {
    let entry = FileEntry::new(vec![1, 2, 3], None);
    assert_eq!(entry.bytes.as_slice(), &[1, 2, 3]);
    assert!(entry.source.is_none());
}

#[test]
fn file_entry_parses_without_byte_order_marks() {
    let mut bytes = "\u{feff}\u{feff}= Title".as_bytes().to_vec();
    bytes.push(b'\n');
    let mut entry = FileEntry::new(bytes, None);
    let id = some_id();
    let source = entry.source(id).expect("valid UTF-8");
    assert_eq!(source.text(), "= Title\n");
    assert_eq!(source.id(), id);
    assert!(entry.source.is_some());
}

#[test]
fn file_entry_gives_back_the_same_source() {
    let mut entry = FileEntry::new("hello".as_bytes().to_vec(), None);
    let first = entry.source(some_id()).unwrap();
    let other_id = FileId::from_raw(NonZeroU16::new(first.id().into_raw().get().wrapping_add(1).max(1)).unwrap());
    let second = entry.source(other_id).unwrap();
    assert_eq!(second.id(), first.id());
    assert_eq!(second.text(), "hello");
}

#[test]
fn file_entry_refuses_invalid_utf8() {
    let mut entry = FileEntry::new(vec![0x61, 0xff], None);
    assert_eq!(entry.source(some_id()).err(), Some(FileEntryError::InvalidUtf8));
    assert!(entry.source.is_none());
}

#[test]
fn cloned_file_entry_shares_its_source() {
    let mut entry = FileEntry::new("x".as_bytes().to_vec(), None);
    entry.source(some_id()).unwrap();
    let copy = entry.clone();
    assert_eq!(copy.bytes.as_slice(), b"x");
    assert_eq!(copy.source.unwrap().text(), "x");
}

#[test]
fn byte_order_marks_are_trimmed_only_at_the_start() {
    assert_eq!(trim_bom("\u{feff}a\u{feff}b"), "a\u{feff}b");
    assert_eq!(trim_bom("plain"), "plain");
    assert_eq!(trim_bom("\u{feff}\u{feff}"), "");
    assert_eq!(trim_bom(""), "");
}

#[test]
fn line_lookups_report_their_errors() {
    let lines = Lines::new("ab\ncd".to_string());
    assert_eq!(line_index(&lines, 0), Ok(0));
    assert_eq!(line_index(&lines, 4), Ok(1));
    assert_eq!(line_index(&lines, 9), Err(LocationError::IndexTooLarge { given: 9, max: 5 }));
    assert_eq!(line_range(&lines, 1), Ok(3..5));
    assert_eq!(line_range(&lines, 2), Err(LocationError::LineTooLarge { given: 2, max: 2 }));
}

#[test]
fn column_lookup_reports_its_errors() {
    let lines = Lines::new("aé\nb".to_string());
    assert_eq!(column_number(&lines, 1), Ok(1));
    assert_eq!(column_number(&lines, 2), Err(LocationError::InvalidCharBoundary { given: 2 }));
    assert_eq!(column_number(&lines, 10), Err(LocationError::IndexTooLarge { given: 10, max: 5 }));
}

#[test]
fn today_in_an_offset() {
    let now = time::Date::from_calendar_date(2024, time::Month::March, 1)
        .unwrap()
        .with_hms(23, 30, 0)
        .unwrap()
        .assume_utc();
    assert_eq!(today_date(now, None), Some(now.date()));
    let later = today_date(now, Some(2)).unwrap();
    assert_eq!(later, time::Date::from_calendar_date(2024, time::Month::March, 2).unwrap());
    assert_eq!(today_date(now, Some(26)), None);
    assert_eq!(today_date(now, Some(-26)), None);
    assert_eq!(today_date(now, Some(1000)), None);
}

#[test]
fn root_is_the_input_directory() {
    assert_eq!(source_root("docs/main.typ"), "docs");
    assert_eq!(source_root("main.typ"), "");
    assert_eq!(source_root("/"), ".");
}

#[test]
fn file_cache_keeps_the_first_read() {
    let mut cache = FileCache::new();
    let id = some_id();
    assert!(cache.get(id).is_none());
    let first = cache.insert_read(id, b"first".to_vec());
    assert_eq!(first.bytes.as_slice(), b"first");
    let again = cache.insert_read(id, b"second".to_vec());
    assert_eq!(again.bytes.as_slice(), b"first");
    assert_eq!(cache.get(id).unwrap().bytes.as_slice(), b"first");
    assert_eq!(cache.entries.len(), 1);
}

fn cetz_spec() -> PackageSpec {
    PackageSpec {
        namespace: "preview".to_string(),
        name: "cetz".to_string(),
        version: PackageVersion { major: 0, minor: 3, patch: 4 },
    }
}

#[test]
fn package_renders_as_at_namespace_name_version() {
    assert_eq!(package_to_text(&cetz_spec()), "@preview/cetz:0.3.4");
}

#[test]
fn package_file_is_named_by_package_and_rooted_path() {
    let spec = cetz_spec();
    let name = file_display_name(Some(&spec), "/src/lib.typ", Some("/cache/lib.typ".to_string()), "src/lib.typ");
    assert_eq!(name, "@preview/cetz:0.3.4/src/lib.typ");
}

#[test]
fn project_file_is_named_by_its_resolved_path_else_its_relative_path() {
    assert_eq!(file_display_name(None, "/main.typ", Some("/home/doc/main.typ".to_string()), "main.typ"), "/home/doc/main.typ");
    assert_eq!(file_display_name(None, "/main.typ", None, "main.typ"), "main.typ");
}
