use attache::install::{check_destination, DestinationStatus};
use attache::manifest::{parse, parse_line, sha256_hex, verify, ManifestEntry, ParseError, VerifyReport};
use attache::path::UnixPath;

fn entry(name: &str, content: &[u8]) -> ManifestEntry {
    ManifestEntry { hash: sha256_hex(content), path: UnixPath::new(name) }
}

#[test]
fn parses_a_single_valid_line() {
    let hash = "a".repeat(64);
    let text = format!("{hash}  hello.txt");

    let entries = parse(&text).unwrap();

    assert_eq!(entries, vec![ManifestEntry { hash, path: UnixPath::new("hello.txt") }]);
}

#[test]
fn parses_multiple_lines_and_skips_blank_lines() {
    let hash_a = "a".repeat(64);
    let hash_b = "b".repeat(64);
    let text = format!("{hash_a}  a.txt\n\n{hash_b}  sub/b.txt\n");

    let entries = parse(&text).unwrap();

    assert_eq!(entries.len(), 2);
    assert_eq!(entries[1].path, UnixPath::new("sub/b.txt"));
}

#[test]
fn rejects_a_malformed_line() {
    let err = parse("not-a-valid-manifest-line").unwrap_err();

    assert_eq!(err.line_number, 1);
}

#[test]
fn verify_reports_all_ok_when_files_match() {
    let entries = vec![entry("a.txt", b"hello"), entry("b.txt", b"world")];

    let report = verify(&entries, &[Some(b"hello".to_vec()), Some(b"world".to_vec())]);

    assert!(report.all_ok());
    assert_eq!(report.ok.len(), 2);
}

#[test]
fn verify_reports_a_tampered_file_as_mismatched_others_still_ok() {
    let good = entry("good.txt", b"unchanged");
    let tampered = entry("tampered.txt", b"original");

    let report = verify(
        &[good.clone(), tampered.clone()],
        &[Some(b"unchanged".to_vec()), Some(b"tampered!".to_vec())],
    );

    assert!(!report.all_ok());
    assert_eq!(report.ok, vec![good.path]);
    assert_eq!(report.mismatched, vec![tampered.path]);
    assert!(report.missing.is_empty());
}

#[test]
fn verify_reports_a_missing_file() {
    let entries =
        vec![ManifestEntry { hash: "a".repeat(64), path: UnixPath::new("never-written.txt") }];

    let report = verify(&entries, &[None]);

    assert!(!report.all_ok());
    assert_eq!(report.missing, vec![UnixPath::new("never-written.txt")]);
}

#[test]
fn verify_ignores_extra_files_not_in_the_manifest() {
    let listed = entry("listed.txt", b"content");

    let report = verify(&[listed], &[Some(b"content".to_vec())]);

    assert!(report.all_ok());
}

#[test]
fn nonexistent_destination_is_clear() {
    assert_eq!(check_destination(None, false), DestinationStatus::Clear);
    assert!(check_destination(None, false).is_safe());
}

#[test]
fn empty_destination_is_clear() {
    assert_eq!(check_destination(Some(false), false), DestinationStatus::Clear);
    assert!(check_destination(Some(false), false).is_safe());
}

#[test]
fn non_empty_destination_without_force_is_refused() {
    let status = check_destination(Some(true), false);

    assert_eq!(status, DestinationStatus::NonEmptyRefused);
    assert!(!status.is_safe());
}

#[test]
fn non_empty_destination_with_force_is_allowed() {
    let status = check_destination(Some(true), true);

    assert_eq!(status, DestinationStatus::NonEmptyForced);
    assert!(status.is_safe());
}

#[test]
fn a_digest_is_read_in_either_case() {
    let upper = "ABCDEF".repeat(10) + "0123";
    let found = parse_line(&format!("{upper}  x")).unwrap();
    assert_eq!(found.hash, "abcdef".repeat(10) + "0123");
    assert_eq!(found.path, UnixPath::new("x"));
}

#[test]
fn lines_that_are_not_entries_are_refused() {
    let hash = "a".repeat(64);
    assert_eq!(parse_line(&format!("{hash} one-space")), None);
    assert_eq!(parse_line(&format!("{hash}  ")), None);
    assert_eq!(parse_line(&format!("{}  short", "a".repeat(63))), None);
    assert_eq!(parse_line(&format!("{}  long", "a".repeat(65))), None);
    assert_eq!(parse_line(&format!("{}g  letter", "a".repeat(63))), None);
    assert_eq!(parse_line(&format!("{}\u{e9}  accent", "a".repeat(62))), None);
    assert_eq!(parse_line(&format!(" {}  leading", "a".repeat(63))), None);
}

#[test]
fn a_path_may_begin_with_a_space_and_hold_two() {
    let hash = "a".repeat(64);
    assert_eq!(parse_line(&format!("{hash}   a")).unwrap().path.bytes, b" a");
    assert_eq!(parse_line(&format!("{hash}  a  b")).unwrap().path.bytes, b"a  b");
}

#[test]
fn the_first_malformed_line_is_reported_with_its_number() {
    let hash = "a".repeat(64);
    let text = format!("{hash}  a\r\n   \n\tbad line\nworse");
    assert_eq!(
        parse(&text).unwrap_err(),
        ParseError { line_number: 3, line: "\tbad line".to_string() }
    );
    assert_eq!(parse(" \n\u{3000}\n").unwrap(), vec![]);
    assert_eq!(parse(&format!("{hash}  a\r\n")).unwrap()[0].path.bytes, b"a");
}

#[test]
fn a_written_manifest_is_read_back() {
    let content = b"some file";
    let line = format!("{}  dir/file name", sha256_hex(content));
    let entries = parse(&line).unwrap();
    assert_eq!(entries, vec![entry("dir/file name", content)]);
    assert!(verify(&entries, &[Some(content.to_vec())]).all_ok());
}

#[test]
fn digests_are_the_published_ones() {
    assert_eq!(
        sha256_hex(b"hello"),
        "2cf24dba5fb0a30e26e83b2ac5b9e29e1b161e5c1fa7425e73043362938b9824"
    );
}

#[test]
fn a_report_on_no_files_is_clean() {
    assert!(VerifyReport::default().all_ok());
    assert_eq!(verify(&[], &[]), VerifyReport::default());
}

#[test]
fn a_whole_manifest_is_read_back() {
    let files: [(&str, &[u8]); 3] = [("a", b"1"), ("sub/b c", b"2"), ("\u{e9}\r.txt", b"3")];
    let text: String =
        files.iter().map(|(name, held)| format!("{}  {name}\n", sha256_hex(held))).collect();
    let expected: Vec<ManifestEntry> =
        files.iter().map(|(name, held)| entry(name, held)).collect();
    assert_eq!(parse(&text).unwrap(), expected);
}
