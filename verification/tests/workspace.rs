use std::io::Write;
use std::path::{Path, PathBuf};

use co_worker::error::Error;
use co_worker::workspace::{contains_nul, parent_probe, resolve, resolve_with};
use tempfile::TempDir;

fn canonical_root(tmp: &TempDir) -> PathBuf {
    tmp.path().canonicalize().unwrap()
}

/// Creates `dir/name` holding `content`.
fn put_file(dir: &Path, name: &str, content: &str) {
    let mut f = tempfile::NamedTempFile::new_in(dir).unwrap();
    f.write_all(content.as_bytes()).unwrap();
    f.persist(dir.join(name)).unwrap();
}

fn text(p: &PathBuf) -> String {
    p.to_str().unwrap().to_string()
}

#[test]
fn refuses_escape_via_dotdot() {
    let tmp = TempDir::new().unwrap();
    let root = canonical_root(&tmp);
    let result = resolve(&text(&root), "../etc/passwd", false);
    // Either "outside workspace" (resolved successfully but escaped)
    // or "bad path" (parent didn't exist) is acceptable — both refuse.
    assert!(matches!(
        result,
        Err(Error::ToolOutsideWorkspace(..)) | Err(Error::ToolBadPath(..))
    ));
}

#[test]
fn refuses_absolute_outside_root() {
    let tmp = TempDir::new().unwrap();
    let root = canonical_root(&tmp);
    let result = resolve(&text(&root), "/etc/passwd", false);
    assert!(matches!(
        result,
        Err(Error::ToolOutsideWorkspace(..)) | Err(Error::ToolBadPath(..))
    ));
}

#[test]
fn accepts_normal_relative_path() {
    let tmp = TempDir::new().unwrap();
    let root = canonical_root(&tmp);
    put_file(&root, "a.txt", "hi");
    let resolved = resolve(&text(&root), "a.txt", true).unwrap();
    assert_eq!(PathBuf::from(resolved), root.join("a.txt"));
}

#[test]
fn write_target_can_be_new_file_with_existing_parent() {
    let tmp = TempDir::new().unwrap();
    let root = canonical_root(&tmp);
    let resolved = resolve(&text(&root), "new.txt", false).unwrap();
    assert_eq!(PathBuf::from(resolved), root.join("new.txt"));
}

#[test]
fn nul_in_request_is_refused() {
    let tmp = TempDir::new().unwrap();
    let root = canonical_root(&tmp);
    let result = resolve(&text(&root), "a\0b", false);
    assert_eq!(result, Err(Error::ToolBadPath("path contains NUL byte".to_string())));
    assert!(contains_nul("x\0"));
    assert!(!contains_nul("plain"));
}

#[test]
fn missing_file_is_a_bad_path_when_it_must_exist() {
    let tmp = TempDir::new().unwrap();
    let root = canonical_root(&tmp);
    match resolve(&text(&root), "nope.txt", true) {
        Err(Error::ToolBadPath(m)) => assert!(m.starts_with("could not resolve `nope.txt`: ")),
        other => panic!("unexpected {other:?}"),
    }
}

#[test]
fn missing_parent_is_reported() {
    let tmp = TempDir::new().unwrap();
    let root = canonical_root(&tmp);
    match resolve(&text(&root), "no/such/dir/f.txt", false) {
        Err(Error::ToolBadPath(m)) => {
            assert!(m.starts_with("parent of `no/such/dir/f.txt` does not exist: "))
        }
        other => panic!("unexpected {other:?}"),
    }
}

#[test]
fn dotdot_inside_the_root_is_accepted() {
    let tmp = TempDir::new().unwrap();
    let root = canonical_root(&tmp);
    let sub = tempfile::Builder::new().prefix("sub").tempdir_in(&root).unwrap();
    let sub_name = sub.path().file_name().unwrap().to_str().unwrap().to_string();
    put_file(&root, "b.txt", "x");
    let resolved = resolve(&text(&root), &format!("{sub_name}/../b.txt"), true).unwrap();
    assert_eq!(PathBuf::from(resolved), root.join("b.txt"));
}

#[test]
fn a_final_dotdot_is_stepped_over_for_writes() {
    let tmp = TempDir::new().unwrap();
    let root = canonical_root(&tmp);
    let sub = tempfile::Builder::new().prefix("sub").tempdir_in(&root).unwrap();
    let sub_name = sub.path().file_name().unwrap().to_str().unwrap().to_string();
    let up = format!("{sub_name}/..");
    assert_eq!(resolve(&text(&root), &up, false), Ok(text(&root)));
    assert_eq!(resolve(&text(&root), &up, true), Ok(text(&root)));
    assert!(matches!(resolve(&text(&root), "..", false), Err(Error::ToolOutsideWorkspace(..))));
    assert!(matches!(resolve(&text(&root), "..", true), Err(Error::ToolOutsideWorkspace(..))));
}

#[test]
fn existing_write_targets_are_followed() {
    let tmp = TempDir::new().unwrap();
    let root = canonical_root(&tmp);
    put_file(&root, "old.txt", "x");
    let resolved = resolve(&text(&root), "old.txt", false).unwrap();
    assert_eq!(PathBuf::from(resolved), root.join("old.txt"));
}

#[test]
fn parent_probe_paths() {
    assert_eq!(parent_probe("/w", "a/b.txt"), Some("/w/a".to_string()));
    assert_eq!(parent_probe("", "b.txt"), Some(String::new()));
    assert_eq!(parent_probe("/w", "/"), None);
}

fn ok(s: &str) -> Result<String, String> {
    Ok(s.to_string())
}

fn err(s: &str) -> Result<String, String> {
    Err(s.to_string())
}

#[test]
fn resolve_with_given_outcomes() {
    // A new file: its canonical parent with the name joined on.
    let r = resolve_with("/w", "a/b.txt", false, err("missing"), ok("/real/w/a"), ok("/real/w"));
    assert_eq!(r, Ok("/real/w/a/b.txt".to_string()));
    // An existing write target that is a link leading outside is refused.
    let r = resolve_with("/w", "l", false, ok("/etc/passwd"), err(""), ok("/real/w"));
    assert_eq!(r, Err(Error::ToolOutsideWorkspace("l".to_string(), "/real/w".to_string())));
    let r = resolve_with("/w", "../x", true, ok("/real/x"), err(""), ok("/real/w"));
    assert_eq!(r, Err(Error::ToolOutsideWorkspace("../x".to_string(), "/real/w".to_string())));
    let r = resolve_with("/w", "../wx", true, ok("/real/wx"), err(""), ok("/real/w"));
    assert!(matches!(r, Err(Error::ToolOutsideWorkspace(..))));
    let r = resolve_with("/w", "a", true, ok("/real/w/a"), err(""), err("gone"));
    assert_eq!(r, Err(Error::ToolBadPath("workspace root invalid: gone".to_string())));
    let r = resolve_with("/w", "a", true, err("nope"), err(""), ok("/real/w"));
    assert_eq!(r, Err(Error::ToolBadPath("could not resolve `a`: nope".to_string())));
    let r = resolve_with("/w", "d/f", false, err("x"), err("enoent"), ok("/real/w"));
    assert_eq!(r, Err(Error::ToolBadPath("parent of `d/f` does not exist: enoent".to_string())));
    let r = resolve_with("/w", "/", false, err(""), err(""), err(""));
    assert_eq!(r, Err(Error::ToolBadPath("`/` has no parent directory".to_string())));
}
