use std::path::Path;

use co_worker::paths::{display_relative, file_name, is_absolute, join, parent, paths_equal, starts_with};

#[test]
fn relative_display_inside_the_root() {
    assert_eq!(display_relative("/w", "/w/a/b.txt"), "a/b.txt");
    assert_eq!(display_relative("/w/", "/w//a"), "a");
    assert_eq!(display_relative("/w", "/w"), "");
}

#[test]
fn relative_display_falls_back_to_the_full_path() {
    assert_eq!(display_relative("/w", "/wx/y"), "/wx/y");
    assert_eq!(display_relative("/w/a", "/w"), "/w");
}

#[test]
fn joining_paths() {
    assert_eq!(join("/w", "a"), "/w/a");
    assert_eq!(join("/w/", "a"), "/w/a");
    assert_eq!(join("/w", "/etc"), "/etc");
    assert_eq!(join("", "a"), "a");
    assert_eq!(Path::new("/w").join("a/b"), Path::new(&join("/w", "a/b")));
}

#[test]
fn parents() {
    assert_eq!(parent("/w/a/"), Some("/w".to_string()));
    assert_eq!(parent("/w"), Some("/".to_string()));
    assert_eq!(parent("a"), Some(String::new()));
    assert_eq!(parent("/"), None);
    assert_eq!(parent(""), None);
    for p in ["/w/a/b", "a/b/", "./a", "/a/./b", "a//b"] {
        let expected = Path::new(p).parent().map(|q| q.to_str().unwrap().to_string());
        assert_eq!(parent(p), expected, "{p}");
    }
}

#[test]
fn file_names() {
    assert_eq!(file_name("/w/a.txt"), Some("a.txt".to_string()));
    assert_eq!(file_name("/w/.."), None);
    assert_eq!(file_name("/"), None);
    assert_eq!(file_name("a/."), Some("a".to_string()));
    for p in ["/w/a/b", "a/b/", ".", "..", "/a/./b/."] {
        let expected = Path::new(p).file_name().map(|q| q.to_str().unwrap().to_string());
        assert_eq!(file_name(p), expected, "{p}");
    }
}

#[test]
fn prefixes_are_by_component() {
    assert!(starts_with("/w/a", "/w"));
    assert!(starts_with("/w/./a", "/w/"));
    assert!(!starts_with("/wx", "/w"));
    assert!(!starts_with("w/a", "/w"));
    assert!(paths_equal("/w/", "/w"));
    assert!(!paths_equal("/w/a", "/w/b"));
    assert!(is_absolute("/x"));
    assert!(!is_absolute("x/y"));
}

#[test]
fn relative_forms_join_back() {
    for (root, full) in [("/w", "/w/a/b.txt"), ("/w/", "/w//a/./b"), ("/w", "/w"), (".", "./x/y"), ("/", "/etc")] {
        let r = display_relative(root, full);
        assert!(!is_absolute(&r), "{root} {full}");
        assert!(paths_equal(&join(root, &r), full), "{root} {full}");
        assert_eq!(Path::new(root).join(&r), Path::new(full));
    }
}

#[test]
fn an_empty_root_shows_paths_whole() {
    assert_eq!(display_relative("", "a/b"), "a/b");
    assert_eq!(display_relative("", "./a/"), "./a");
    assert_eq!(display_relative("", "/a"), "/a");
    for full in ["a/b", "./a/", "/a", ""] {
        let r = display_relative("", full);
        assert!(paths_equal(&join("", &r), full), "{full}");
    }
}
