use see::extract::{join_path, strip_wrapper, Extraction, Target, Unpacked};
use see::fetch::FetchError;

fn bytes(s: &str) -> Vec<u8> {
    s.as_bytes().to_vec()
}

#[test]
fn one_leading_component_is_stripped() {
    assert_eq!(strip_wrapper(b"repo-main/src/lib.txt"), Some(bytes("src/lib.txt")));
    assert_eq!(strip_wrapper(b"a/b"), Some(bytes("b")));
    assert_eq!(strip_wrapper(b"a/b/"), Some(bytes("b/")));
    assert_eq!(strip_wrapper(b"repo-main/repo-main/x"), Some(bytes("repo-main/x")));
}

#[test]
fn wrapper_itself_leaves_nothing() {
    assert_eq!(strip_wrapper(b"repo-main/"), None);
    assert_eq!(strip_wrapper(b"repo-main"), None);
    assert_eq!(strip_wrapper(b"repo-main///"), None);
    assert_eq!(strip_wrapper(b""), None);
    assert_eq!(strip_wrapper(b"/"), None);
}

#[test]
fn separators_behind_the_wrapper_are_stripped_with_it() {
    assert_eq!(strip_wrapper(b"repo-main//src"), Some(bytes("src")));
    assert_eq!(strip_wrapper(b"/abs/x"), Some(bytes("abs/x")));
}

#[test]
fn names_that_are_no_text_are_kept_as_they_are() {
    assert_eq!(strip_wrapper(b"w/caf\xe9/\xff.txt"), Some(b"caf\xe9/\xff.txt".to_vec()));
    let mut e = Extraction::new(b"out");
    let t = e.next_target(Some(b"w/\xff\xfe")).unwrap();
    assert_eq!(t.relative, b"\xff\xfe".to_vec());
    assert_eq!(t.full, b"out/\xff\xfe".to_vec());
    e.unpacked(t, true);
    assert_eq!(e.finish(true), Ok(Unpacked { paths: vec![b"\xff\xfe".to_vec()], skipped: 0 }));
}

#[test]
fn joining_paths() {
    assert_eq!(join_path(b"out", b"src/lib.txt"), bytes("out/src/lib.txt"));
    assert_eq!(join_path(b"out/", b"src/lib.txt"), bytes("out/src/lib.txt"));
    assert_eq!(join_path(b"", b"src/lib.txt"), bytes("src/lib.txt"));
    assert_eq!(join_path(b".", b"a"), bytes("./a"));
    assert_eq!(join_path(b"/", b"a"), bytes("/a"));
    assert_eq!(join_path(b"out", b""), bytes("out/"));
}

#[test]
fn entry_is_written_under_the_destination() {
    let mut e = Extraction::new(b"dest");
    let t = e.next_target(Some(b"repo-main/src/lib.txt"));
    assert_eq!(t, Some(Target { relative: bytes("src/lib.txt"), full: bytes("dest/src/lib.txt") }));
}

#[test]
fn wrapper_entry_produces_no_output() {
    let mut e = Extraction::new(b"dest");
    assert_eq!(e.next_target(Some(b"repo-main/")), None);
    assert_eq!(e.finish(true), Ok(Unpacked { paths: vec![], skipped: 1 }));
}

#[test]
fn extraction_lists_what_was_written_and_counts_the_rest() {
    let mut e = Extraction::new(b"out");
    assert_eq!(e.last_written(), None);
    assert_eq!(e.next_target(Some(b"w/")), None);
    let a = e.next_target(Some(b"w/a.txt")).unwrap();
    assert_eq!(a.full, bytes("out/a.txt"));
    e.unpacked(a, true);
    assert_eq!(e.last_written(), Some(bytes("a.txt")));
    // an entry without a path
    assert_eq!(e.next_target(None), None);
    // an entry that could not be written
    let b = e.next_target(Some(b"w/dir/b.txt")).unwrap();
    e.unpacked(b, false);
    assert_eq!(e.last_written(), Some(bytes("a.txt")));
    let c = e.next_target(Some(b"w/dir/c.txt")).unwrap();
    e.unpacked(c, true);
    assert_eq!(e.last_written(), Some(bytes("dir/c.txt")));
    assert_eq!(
        e.finish(true),
        Ok(Unpacked { paths: vec![bytes("a.txt"), bytes("dir/c.txt")], skipped: 3 })
    );
}

#[test]
fn broken_stream_fails_the_extraction() {
    let mut e = Extraction::new(b"out");
    let a = e.next_target(Some(b"w/a.txt")).unwrap();
    e.unpacked(a, true);
    assert_eq!(e.finish(false), Err(FetchError::Network));
}

#[test]
fn empty_archive_unpacks_nothing() {
    assert_eq!(Extraction::new(b"out").finish(true), Ok(Unpacked { paths: vec![], skipped: 0 }));
}
