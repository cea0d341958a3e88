use pmv::collect::Collector;
use pmv::dir::{Directory, InputDir, MovePlan, PathError};
use pmv::path::{is_absolute, join, leaf, parent};
use pmv::rewrite::replace_all;
use pmv::scan::{collect_if_text_file, is_text_file, is_text_mime, FileProbe, ScanEntry};

fn chars(s: &str) -> Vec<char> {
    s.chars().collect()
}

fn replace(s: &str, from: &str, to: &str) -> String {
    replace_all(&chars(s), &chars(from), &chars(to)).into_iter().collect()
}

fn probe(path: &str, is_file: bool, mime: Option<&str>) -> FileProbe {
    FileProbe {
        path: path.as_bytes().to_vec(),
        is_file,
        mime: mime.map(|m| m.as_bytes().to_vec()),
    }
}

#[test]
fn replace_in_sentence() {
    assert_eq!(replace("hello foo world", "foo", "bar"), "hello bar world");
}

#[test]
fn replace_adjacent_occurrences() {
    assert_eq!(replace("foofoo", "foo", "x"), "xx");
}

#[test]
fn replace_is_non_overlapping() {
    assert_eq!(replace("aaaa", "aa", "b"), "bb");
    assert_eq!(replace("aaa", "aa", "b"), "ba");
}

#[test]
fn replace_inside_larger_token() {
    assert_eq!(replace("fooBarService", "foo", "new"), "newBarService");
}

#[test]
fn replace_without_occurrence_keeps_text() {
    assert_eq!(replace("nothing here", "foo", "bar"), "nothing here");
    assert_eq!(replace("", "foo", "bar"), "");
    assert_eq!(replace("fo", "foo", "bar"), "fo");
}

#[test]
fn replace_with_empty_pattern_matches_std() {
    assert_eq!(replace("ab", "", "x"), "ab".replace("", "x"));
    assert_eq!(replace("", "", "x"), "x");
}

#[test]
fn replace_non_ascii_text() {
    assert_eq!(replace("ünïcödé foo ü", "ü", "u"), "ünïcödé foo ü".replace("ü", "u"));
}

#[test]
fn replace_with_longer_and_empty_name() {
    assert_eq!(replace("a foo b foo", "foo", "project"), "a project b project");
    assert_eq!(replace("a foo b", "foo", ""), "a  b");
}

#[test]
fn text_mime_is_recognised() {
    assert!(is_text_mime(b"text/plain"));
    assert!(is_text_mime(b"application/x-text"));
    assert!(!is_text_mime(b"image/png"));
    assert!(!is_text_mime(b"tex"));
    assert!(!is_text_mime(b""));
}

#[test]
fn text_file_needs_regular_file_and_text_mime() {
    assert!(is_text_file(&probe("/p/a.txt", true, Some("text/plain"))));
    assert!(!is_text_file(&probe("/p/logo.png", true, Some("image/png"))));
    assert!(!is_text_file(&probe("/p/sub", false, Some("text/plain"))));
    assert!(!is_text_file(&probe("/p/unknown", true, None)));
}

#[test]
fn collect_keeps_text_and_errors_only() {
    match collect_if_text_file(Ok(probe("/p/a.txt", true, Some("text/plain")))) {
        Some(ScanEntry::Accepted(p)) => assert_eq!(p, b"/p/a.txt".to_vec()),
        other => panic!("unexpected {:?}", other),
    }
    assert!(collect_if_text_file(Ok(probe("/p/logo.png", true, Some("image/png")))).is_none());
    match collect_if_text_file(Err(b"permission denied".to_vec())) {
        Some(ScanEntry::Error(m)) => assert_eq!(m, b"permission denied".to_vec()),
        other => panic!("unexpected {:?}", other),
    }
}

#[test]
fn collector_reports_and_keeps_in_arrival_order() {
    let mut c = Collector::new();
    let l1 = c.receive(ScanEntry::Accepted(b"/p/b.txt".to_vec()));
    let l2 = c.receive(ScanEntry::Error(b"oops".to_vec()));
    let l3 = c.receive(ScanEntry::Accepted(b"/p/a.txt".to_vec()));
    assert_eq!(l1, b"renaming: /p/b.txt\n".to_vec());
    assert_eq!(l2, b"oops\n".to_vec());
    assert_eq!(l3, b"renaming: /p/a.txt\n".to_vec());
    assert_eq!(c.finish(), vec![b"/p/b.txt".to_vec(), b"/p/a.txt".to_vec()]);
}

#[test]
fn collector_loses_nothing_beyond_channel_capacity() {
    let mut c = Collector::new();
    let mut lines = 0usize;
    let mut errors = 0usize;
    for i in 0..250usize {
        let entry = if i % 5 == 0 {
            errors += 1;
            ScanEntry::Error(format!("error {i}").into_bytes())
        } else {
            ScanEntry::Accepted(format!("/p/f{i}.txt").into_bytes())
        };
        c.receive(entry);
        lines += 1;
    }
    let paths = c.finish();
    assert_eq!(lines, 250);
    assert_eq!(paths.len() + errors, 250);
    let mut sorted = paths.clone();
    sorted.sort();
    sorted.dedup();
    assert_eq!(sorted.len(), paths.len());
}

#[test]
fn arrival_order_does_not_change_kept_set() {
    let entries = ["/p/a", "/p/b", "/p/c"];
    let mut forward = Collector::new();
    for e in entries.iter() {
        forward.receive(ScanEntry::Accepted(e.as_bytes().to_vec()));
    }
    let mut backward = Collector::new();
    for e in entries.iter().rev() {
        backward.receive(ScanEntry::Accepted(e.as_bytes().to_vec()));
    }
    let mut f = forward.finish();
    let mut b = backward.finish();
    f.sort();
    b.sort();
    assert_eq!(f, b);
}

#[test]
fn input_dir_absolute_or_relative() {
    assert!(matches!(InputDir::from_bytes(b"/home/u/proj".to_vec()), InputDir::Absolute(_)));
    assert!(matches!(InputDir::from_bytes(b"proj".to_vec()), InputDir::Relative(_)));
    assert!(matches!(InputDir::from_bytes(b"".to_vec()), InputDir::Relative(_)));
    let parsed: InputDir = "../proj".parse().unwrap();
    assert!(matches!(parsed, InputDir::Relative(ref p) if p == b"../proj"));
}

#[test]
fn input_dir_parses_every_string() {
    let abs: InputDir = "/home/user/foo".parse().unwrap();
    assert!(matches!(abs, InputDir::Absolute(ref p) if p == b"/home/user/foo"));
    let rel: InputDir = "foo".parse().unwrap();
    assert!(matches!(rel, InputDir::Relative(ref p) if p == b"foo"));
    let empty: InputDir = "".parse().unwrap();
    assert!(matches!(empty, InputDir::Relative(ref p) if p.is_empty()));
}

#[test]
fn input_dir_full_path() {
    let rel = InputDir::from_bytes(b"proj".to_vec());
    assert_eq!(rel.full_path(b"/home/u"), b"/home/u/proj".to_vec());
    assert_eq!(rel.full_path(b"/home/u/"), b"/home/u/proj".to_vec());
    let abs = InputDir::from_bytes(b"/srv/proj".to_vec());
    assert_eq!(abs.full_path(b"/home/u"), b"/srv/proj".to_vec());
}

#[test]
fn path_helpers() {
    assert!(is_absolute(b"/a"));
    assert!(!is_absolute(b"a"));
    assert_eq!(join(b"/a", b"/b"), b"/b".to_vec());
    assert_eq!(join(b"", b"b"), b"b".to_vec());
    assert_eq!(join(b"a", b""), b"a/".to_vec());
    assert_eq!(leaf(b"/home/u/proj"), Some(b"proj".to_vec()));
    assert_eq!(leaf(b"/home/u/proj/"), Some(b"proj".to_vec()));
    assert_eq!(leaf(b"/"), Some(b"/".to_vec()));
    assert_eq!(leaf(b""), None);
    assert_eq!(parent(b"/home/u/proj"), Some(b"/home/u".to_vec()));
    assert_eq!(parent(b"/proj"), Some(b"/".to_vec()));
    assert_eq!(parent(b"/a//b"), Some(b"/a".to_vec()));
    assert_eq!(parent(b"proj"), Some(b"".to_vec()));
    assert_eq!(parent(b"/"), None);
}

#[test]
fn directory_from_canonical() {
    let d = Directory::from_canonical(b"/home/u/foo".to_vec(), true, true).unwrap();
    assert_eq!(d.name, b"foo".to_vec());
    assert_eq!(d.path, b"/home/u/foo".to_vec());
    assert!(Directory::from_canonical(b"/home/u/bar".to_vec(), false, false).is_ok());
    assert_eq!(
        Directory::from_canonical(b"/home/u/file".to_vec(), true, false).err(),
        Some(PathError::NotADirectory)
    );
    assert_eq!(Directory::from_canonical(b"".to_vec(), false, false).err(), Some(PathError::EmptyPath));
}

#[test]
fn destination_is_sibling() {
    let d = Directory::from_canonical(b"/home/u/foo".to_vec(), true, true).unwrap();
    assert_eq!(d.destination(b"bar").unwrap(), b"/home/u/bar".to_vec());
    let root = Directory::from_canonical(b"/".to_vec(), true, true).unwrap();
    assert_eq!(root.destination(b"bar"), Err(PathError::NoParent));
    let top = Directory::from_canonical(b"/foo".to_vec(), true, true).unwrap();
    assert_eq!(top.destination(b"bar"), Ok(b"/bar".to_vec()));
}

#[test]
fn collision_is_refused() {
    let d = Directory::from_canonical(b"/tmp/proj".to_vec(), true, true).unwrap();
    let dest = d.destination(b"taken").unwrap();
    assert_eq!(d.check_destination(&dest, true), Err(PathError::DestinationExists));
    assert_eq!(d.check_destination(&dest, false), Ok(MovePlan::Rename));
    assert_eq!(d.check_destination(b"/tmp/proj", false), Ok(MovePlan::SamePath));
}

#[test]
fn rename_project_foo_to_bar() {
    let d = Directory::from_canonical(b"/tmp/proj".to_vec(), true, true).unwrap();
    let dest = d.destination(b"bar").unwrap();
    assert_eq!(dest, b"/tmp/bar".to_vec());
    assert_eq!(d.check_destination(&dest, false), Ok(MovePlan::Rename));
    let mut c = Collector::new();
    for item in [
        Ok(probe("/tmp/bar/a.txt", true, Some("text/plain"))),
        Ok(probe("/tmp/bar/logo.png", true, Some("image/png"))),
    ] {
        if let Some(entry) = collect_if_text_file(item) {
            c.receive(entry);
        }
    }
    let paths = c.finish();
    assert_eq!(paths, vec![b"/tmp/bar/a.txt".to_vec()]);
    assert_eq!(replace("hello foo world", "foo", "bar"), "hello bar world");
}

#[test]
fn nested_file_with_adjacent_names() {
    let mut c = Collector::new();
    if let Some(entry) = collect_if_text_file(Ok(probe("/tmp/x/sub/name.txt", true, Some("text/plain")))) {
        c.receive(entry);
    }
    assert_eq!(c.finish(), vec![b"/tmp/x/sub/name.txt".to_vec()]);
    assert_eq!(replace("foofoo", "foo", "x"), "xx");
}

#[test]
fn destination_is_existing_sibling() {
    let d = Directory::from_canonical(b"/tmp/proj".to_vec(), true, true).unwrap();
    let dest = d.destination(b"other").unwrap();
    assert_eq!(dest, b"/tmp/other".to_vec());
    assert_eq!(d.check_destination(&dest, true), Err(PathError::DestinationExists));
}
