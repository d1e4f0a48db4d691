use co_worker::error::Error;
use co_worker::tools::{
    check_delete_target, create_dir_result, delete_result, entry_kind, entry_size, list_dir_result,
    move_result, name_less, read_cap, read_file_result, sort_entries, write_file_result,
    write_preview, DirEntry, DEFAULT_READ_BYTES, MAX_READ_BYTES_HARD,
};

fn entry(name: &str, kind: &'static str, size: Option<u64>) -> DirEntry {
    DirEntry { name: name.to_string(), kind, size_bytes: size }
}

#[test]
fn entry_kinds() {
    assert_eq!(entry_kind(true, false), "dir");
    assert_eq!(entry_kind(true, true), "dir");
    assert_eq!(entry_kind(false, true), "symlink");
    assert_eq!(entry_kind(false, false), "file");
}

#[test]
fn listings_are_sorted_by_name_stably() {
    let entries = vec![
        entry("b.txt", "file", Some(3)),
        entry("B", "dir", None),
        entry("a", "file", Some(1)),
        entry("a", "symlink", None),
        entry("ä", "file", Some(2)),
    ];
    let r = list_dir_result("/w", "/w/sub", entries);
    assert_eq!(r.path, "sub");
    let names: Vec<(&str, &str)> = r.entries.iter().map(|e| (e.name.as_str(), e.kind)).collect();
    assert_eq!(
        names,
        vec![("B", "dir"), ("a", "file"), ("a", "symlink"), ("b.txt", "file"), ("ä", "file")]
    );
}

#[test]
fn sort_agrees_with_std() {
    let names = ["zeta", "alpha", "Alpha", "al", "", "alpha", "ζ", "z"];
    let entries: Vec<DirEntry> = names.iter().map(|n| entry(n, "file", None)).collect();
    let mut expected = entries.clone();
    expected.sort_by(|a, b| a.name.cmp(&b.name));
    assert_eq!(sort_entries(entries), expected);
    assert!(name_less("a", "b"));
    assert!(name_less("a", "ab"));
    assert!(!name_less("b", "a"));
    assert!(!name_less("a", "a"));
    assert!(name_less("Z", "a"));
}

#[test]
fn read_caps() {
    assert_eq!(read_cap(None), DEFAULT_READ_BYTES);
    assert_eq!(read_cap(Some(10)), 10);
    assert_eq!(read_cap(Some(u64::MAX)), MAX_READ_BYTES_HARD);
}

#[test]
fn reads_are_truncated_at_the_cap() {
    let r = read_file_result("/w", "/w/f.txt", b"hello world", Some(5));
    assert_eq!(r.path, "f.txt");
    assert_eq!(r.content, "hello");
    assert!(r.truncated);
    assert_eq!(r.bytes_read, 5);
    let r = read_file_result("/w", "/w/f.txt", b"hello", Some(5));
    assert!(!r.truncated);
    assert_eq!(r.bytes_read, 5);
}

#[test]
fn invalid_utf8_is_replaced() {
    let r = read_file_result("/w", "/w/f", &[b'a', 0xff, b'b'], None);
    assert_eq!(r.content, "a\u{FFFD}b");
    assert_eq!(r.bytes_read, 3);
    // Cutting inside a character leaves a replacement character.
    let r = read_file_result("/w", "/w/f", "é".as_bytes(), Some(1));
    assert_eq!(r.content, "\u{FFFD}");
}

#[test]
fn write_results_count_bytes() {
    let r = write_file_result("/w", "/w/d/n.txt", "héllo", false);
    assert_eq!(r.path, "d/n.txt");
    assert_eq!(r.bytes_written, 6);
    assert!(r.created);
    assert!(!write_file_result("/w", "/w/x", "", true).created);
}

#[test]
fn deleting_the_root_is_refused() {
    assert_eq!(
        check_delete_target("/w/", "/w"),
        Err(Error::ToolBadPath("refusing to delete the workspace root".to_string()))
    );
    assert_eq!(check_delete_target("/w/a", "/w"), Ok(()));
    let r = delete_result("/w", "/w/old", true);
    assert_eq!(r.path, "old");
    assert!(r.was_dir);
}

#[test]
fn moves_and_directories() {
    let r = move_result("/w", "/w/a.txt", "/w/b/c.txt");
    assert_eq!((r.from.as_str(), r.to.as_str()), ("a.txt", "b/c.txt"));
    assert_eq!(create_dir_result("/w", "/w/new/dir").path, "new/dir");
}

#[test]
fn write_previews() {
    let p = write_preview("/w", "/w/f.txt", true, "a\nb\n", "a\nc\n");
    assert_eq!(p.path, "f.txt");
    assert!(p.exists);
    assert_eq!(p.diff, "  a\n- b\n+ c\n");
    assert_eq!(p.old_bytes, 4);
    assert_eq!(p.new_bytes, 4);
    let p = write_preview("/w", "/w/new.txt", false, "", "é");
    assert_eq!(p.diff, "+ é\n");
    assert_eq!(p.new_bytes, 2);
}

#[test]
fn entry_sizes() {
    assert_eq!(entry_size(true, Some(12)), Some(12));
    assert_eq!(entry_size(true, None), None);
    assert_eq!(entry_size(false, Some(12)), None);
}
