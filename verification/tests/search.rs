use co_worker::error::Error;
use co_worker::search::{
    file_too_large, looks_binary, search_cap, skip_entry_name, Search, SearchMatch,
};

fn m(path: &str, line_number: u32, line: &str) -> SearchMatch {
    SearchMatch { path: path.to_string(), line_number, line: line.to_string() }
}

#[test]
fn empty_query_is_refused() {
    match Search::new("", None, false) {
        Err(e) => assert_eq!(e, Error::BadArgs("query must not be empty".to_string())),
        Ok(_) => panic!("empty query accepted"),
    }
}

#[test]
fn caps() {
    assert_eq!(search_cap(None), 100);
    assert_eq!(search_cap(Some(7)), 7);
    assert_eq!(search_cap(Some(5000)), 1000);
    assert_eq!(search_cap(Some(1000)), 1000);
}

#[test]
fn skipped_entries() {
    assert!(skip_entry_name(".git"));
    assert!(skip_entry_name("node_modules"));
    assert!(skip_entry_name("target"));
    assert!(skip_entry_name("dist"));
    assert!(skip_entry_name("dist-js"));
    assert!(!skip_entry_name("src"));
    assert!(!skip_entry_name("distro"));
}

#[test]
fn binary_and_large_files() {
    assert!(looks_binary(&[b'a', 0, b'b']));
    assert!(!looks_binary(b"plain text"));
    let mut late_nul = vec![b'a'; 8192];
    late_nul.push(0);
    assert!(!looks_binary(&late_nul));
    assert!(file_too_large(4 * 1024 * 1024 + 1));
    assert!(!file_too_large(4 * 1024 * 1024));
}

#[test]
fn matching_lines_are_recorded_relative_to_the_root() {
    let mut s = Search::new("fn", None, false).unwrap();
    s.begin("/w".to_string(), "/w".to_string());
    assert_eq!(s.pop_dir(), Some("/w".to_string()));
    assert_eq!(s.pop_dir(), None);
    assert!(s.scan_file("/w/src/a.rs", "fn main() {\n    let x = 1;\nFN upper\n"));
    assert_eq!(s.files_scanned(), 1);
    assert!(!s.stop_if_full());
    let r = s.finish();
    assert_eq!(r.query, "fn");
    assert_eq!(r.matches, vec![m("src/a.rs", 1, "fn main() {")]);
    assert!(!r.truncated);
    assert_eq!(r.files_scanned, 1);
}

#[test]
fn case_insensitive_search() {
    let mut s = Search::new("Fn", None, true).unwrap();
    s.begin("/w".to_string(), "/w".to_string());
    assert!(s.scan_file("/w/a.rs", "fn main\nnothing\nFN upper"));
    let r = s.finish();
    assert_eq!(r.matches, vec![m("a.rs", 1, "fn main"), m("a.rs", 3, "FN upper")]);
}

#[test]
fn the_cap_truncates() {
    let mut s = Search::new("x", Some(2), false).unwrap();
    s.begin("/w".to_string(), "/w".to_string());
    assert!(s.scan_file("/w/f", "x1\nx2\nx3\n"));
    assert!(s.stop_if_full());
    let r = s.finish();
    assert_eq!(r.matches, vec![m("f", 1, "x1"), m("f", 2, "x2")]);
    assert!(r.truncated);
}

#[test]
fn reaching_the_cap_exactly_marks_truncation() {
    let mut s = Search::new("x", Some(2), false).unwrap();
    s.begin("/w".to_string(), "/w".to_string());
    assert!(s.scan_file("/w/f", "x1\nno\nx2"));
    let r = s.finish();
    assert_eq!(r.matches.len(), 2);
    assert!(r.truncated);
}

#[test]
fn later_files_add_to_the_matches() {
    let mut s = Search::new("todo", None, false).unwrap();
    s.begin("/w".to_string(), "/w/sub".to_string());
    s.push_dir("/w/sub/deeper".to_string());
    assert_eq!(s.pop_dir(), Some("/w/sub/deeper".to_string()));
    assert!(s.scan_file("/w/sub/a", "todo: one"));
    assert!(s.scan_file("/elsewhere/b", "nothing"));
    assert!(s.scan_file("/w/sub/c", "a\r\ntodo two\r\n"));
    let r = s.finish();
    assert_eq!(r.files_scanned, 3);
    assert_eq!(r.matches, vec![m("sub/a", 1, "todo: one"), m("sub/c", 2, "todo two")]);
}

#[test]
fn long_lines_are_clipped() {
    let mut s = Search::new("a", None, false).unwrap();
    s.begin("/w".to_string(), "/w".to_string());
    let line = "a".repeat(500);
    assert!(s.scan_file("/w/f", &line));
    let r = s.finish();
    assert_eq!(r.matches, vec![m("f", 1, &format!("{}…", "a".repeat(400)))]);
}

#[test]
fn a_clip_inside_a_character_stops_the_search() {
    let mut s = Search::new("a", None, false).unwrap();
    s.begin("/w".to_string(), "/w".to_string());
    let line = format!("{}é tail", "a".repeat(399));
    assert!(!s.scan_file("/w/f", &line));
}
