//! The workspace sandbox: every tool path is resolved against the chosen
//! root directory, canonicalized, and refused when it escapes the root.
use vstd::prelude::*;

use crate::error::{Error, ErrorView};
use crate::paths::{
    file_name, file_name_of, has_root, join, join_path, parent, parent_path, path_starts_with,
    starts_with, components,
};
use crate::text::{chars_of, push_str};

verus! {

/// What `Path::canonicalize` can return on success: an absolute path with no
/// `..` component left.
pub open spec fn canonical_form(c: Seq<char>) -> bool {
    &&& has_root(c)
    &&& forall|k: int| 0 <= k < components(c).len() ==> #[trigger] components(c)[k] != seq!['.', '.']
}

/// An outcome `Path::canonicalize` may have: an error message, or a path in canonical form.
pub open spec fn canonical_outcome(r: Result<Seq<char>, Seq<char>>) -> bool {
    r matches Ok(c) ==> canonical_form(c)
}

/// `c` is a canonical form that `Path::canonicalize` can give for `p`: a
/// relation between the path handed over and the path returned. It claims
/// nothing of which outcome the disk gives, or that two calls agree.
pub uninterp spec fn may_canonicalize(p: Seq<char>, c: Seq<char>) -> bool;

/// An outcome of canonicalizing `p`: an error message, or a canonical form
/// that canonicalizing `p` can give.
pub open spec fn canonical_outcome_of(p: Seq<char>, r: Result<Seq<char>, Seq<char>>) -> bool {
    r matches Ok(c) ==> canonical_form(c) && may_canonicalize(p, c)
}

/// `Path::canonicalize` (file system dependent): the absolute path with
/// `.`/`..` removed and symbolic links resolved, or the I/O error's message.
/// Which outcome comes depends on the disk; what is stated is that a
/// success is in canonical form and is a canonical form of `p` itself
/// (`may_canonicalize`). A canonical path that is not valid UTF-8 comes
/// back with its invalid bytes replaced by U+FFFD (`to_string_lossy`), as
/// the library holds paths as text.
#[verifier::external_body]
fn canonicalize(p: &str) -> (r: Result<String, String>)
    ensures
        r matches Ok(c) ==> canonical_form(c@) && may_canonicalize(p@, c@),
{
    match std::path::Path::new(p).canonicalize() {
        Ok(c) => Ok(c.to_string_lossy().into_owned()),
        Err(e) => Err(e.to_string()),
    }
}

/// `s` contains a NUL character.
pub open spec fn has_nul(s: Seq<char>) -> bool {
    exists|i: int| 0 <= i < s.len() && s[i] == '\0'
}

/// Whether `s` contains a NUL character.
pub fn contains_nul(s: &str) -> (r: bool)
    ensures
        r == has_nul(s@),
{
    let v = chars_of(s);
    let mut i: usize = 0;
    while i < v.len()
        invariant
            v@ == s@,
            i <= v@.len(),
            forall|k: int| 0 <= k < i ==> v@[k] != '\0',
        decreases v@.len() - i,
    {
        if v[i] == '\0' {
            return true;
        }
        i = i + 1;
    }
    false
}

/// The path canonicalized in place of a write target that does not exist
/// yet: the joined path's parent, or the root when that parent is empty.
/// `None` when the joined path has no parent.
pub open spec fn parent_probe_path(root: Seq<char>, requested: Seq<char>) -> Option<Seq<char>> {
    match parent_path(join_path(root, requested)) {
        None => None,
        Some(par) => Some(
            if par.len() == 0 {
                root
            } else {
                par
            },
        ),
    }
}

/// The outcome of `resolve`, given the outcomes of canonicalizing the
/// joined path itself (`whole`), the parent probe path (`parent_canon`, see
/// `parent_probe_path`) and the root (`root_canon`).
///
/// The joined path is followed when it exists, so a final symbolic link or
/// `..` is resolved before the containment test. Only a write target that
/// does not exist yet falls back to its canonical parent with the final
/// name joined on.
pub open spec fn resolve_result(
    root: Seq<char>,
    requested: Seq<char>,
    must_exist: bool,
    whole: Result<Seq<char>, Seq<char>>,
    parent_canon: Result<Seq<char>, Seq<char>>,
    root_canon: Result<Seq<char>, Seq<char>>,
) -> Result<Seq<char>, ErrorView> {
    let cand = join_path(root, requested);
    let canonical: Result<Seq<char>, ErrorView> = if must_exist {
        match whole {
            Ok(c) => Ok(c),
            Err(e) => Err(
                ErrorView::ToolBadPath("could not resolve `"@ + requested + "`: "@ + e),
            ),
        }
    } else {
        match parent_path(cand) {
            None => Err(ErrorView::ToolBadPath("`"@ + requested + "` has no parent directory"@)),
            Some(par) => match whole {
                Ok(c) => Ok(c),
                Err(_) => match parent_canon {
                    Err(e) => Err(
                        ErrorView::ToolBadPath(
                            if par.len() == 0 {
                                "workspace root invalid: "@ + e
                            } else {
                                "parent of `"@ + requested + "` does not exist: "@ + e
                            },
                        ),
                    ),
                    Ok(pc) => Ok(
                        match file_name_of(cand) {
                            Some(name) => join_path(pc, name),
                            None => pc,
                        },
                    ),
                },
            },
        }
    };
    if has_nul(requested) {
        Err(ErrorView::ToolBadPath("path contains NUL byte"@))
    } else {
        match canonical {
            Err(e) => Err(e),
            Ok(c) => match root_canon {
                Err(e) => Err(ErrorView::ToolBadPath("workspace root invalid: "@ + e)),
                Ok(rc) => if path_starts_with(c, rc) {
                    Ok(c)
                } else {
                    Err(ErrorView::ToolOutsideWorkspace(requested, rc))
                },
            },
        }
    }
}

/// An executable result agrees with a specification result.
pub open spec fn result_is(r: Result<String, Error>, s: Result<Seq<char>, ErrorView>) -> bool {
    match s {
        Ok(p) => r matches Ok(q) && q@ == p,
        Err(e) => r matches Err(f) && f@ == e,
    }
}

/// The path canonicalized for a write target that does not exist yet (see
/// `parent_probe_path`).
pub fn parent_probe(root: &str, requested: &str) -> (r: Option<String>)
    ensures
        r matches Some(p) ==> parent_probe_path(root@, requested@) == Some(p@),
        r is None ==> parent_probe_path(root@, requested@) is None,
{
    let cand = join(root, requested);
    match parent(cand.as_str()) {
        None => None,
        Some(par) => {
            if par.as_str().is_empty() {
                Some(root.to_owned())
            } else {
                Some(par)
            }
        },
    }
}

/// `a` followed by `b`.
fn cat(a: &str, b: &str) -> (r: String)
    ensures
        r@ == a@ + b@,
{
    let mut r = a.to_owned();
    push_str(&mut r, b);
    r
}

/// The outcome as a specification value.
pub open spec fn outcome_view(r: Result<String, String>) -> Result<Seq<char>, Seq<char>> {
    match r {
        Ok(p) => Ok(p@),
        Err(e) => Err(e@),
    }
}

/// Finishes `resolve` from the outcomes of the canonicalizations: of the
/// joined path, of the parent probe path and of the root.
pub fn resolve_with(
    root: &str,
    requested: &str,
    must_exist: bool,
    whole: Result<String, String>,
    parent_canon: Result<String, String>,
    root_canon: Result<String, String>,
) -> (r: Result<String, Error>)
    ensures
        result_is(
            r,
            resolve_result(
                root@,
                requested@,
                must_exist,
                outcome_view(whole),
                outcome_view(parent_canon),
                outcome_view(root_canon),
            ),
        ),
{
    if contains_nul(requested) {
        return Err(Error::ToolBadPath("path contains NUL byte".to_owned()));
    }
    let cand = join(root, requested);
    let canonical: String;
    if must_exist {
        match whole {
            Ok(c) => {
                canonical = c;
            },
            Err(e) => {
                let m = cat(cat(cat("could not resolve `", requested).as_str(), "`: ").as_str(), e.as_str());
                return Err(Error::ToolBadPath(m));
            },
        }
    } else {
        match parent(cand.as_str()) {
            None => {
                let m = cat(cat("`", requested).as_str(), "` has no parent directory");
                return Err(Error::ToolBadPath(m));
            },
            Some(par) => match whole {
                Ok(c) => {
                    canonical = c;
                },
                Err(_) => match parent_canon {
                    Err(e) => {
                        if par.as_str().is_empty() {
                            return Err(Error::ToolBadPath(cat("workspace root invalid: ", e.as_str())));
                        } else {
                            let m = cat(
                                cat(cat("parent of `", requested).as_str(), "` does not exist: ").as_str(),
                                e.as_str(),
                            );
                            return Err(Error::ToolBadPath(m));
                        }
                    },
                    Ok(pc) => {
                        canonical = match file_name(cand.as_str()) {
                            Some(name) => join(pc.as_str(), name.as_str()),
                            None => pc,
                        };
                    },
                },
            },
        }
    }
    match root_canon {
        Err(e) => Err(Error::ToolBadPath(cat("workspace root invalid: ", e.as_str()))),
        Ok(rc) => {
            if starts_with(canonical.as_str(), rc.as_str()) {
                Ok(canonical)
            } else {
                Err(Error::ToolOutsideWorkspace(requested.to_owned(), rc))
            }
        },
    }
}

/// Resolves a workspace-relative (or absolute, as long as it stays inside)
/// path to its canonical absolute form under `root`.
///
/// The joined path is canonicalized (symbolic links followed, `.` and `..`
/// resolved); with `must_exist` it has to exist. Without it, a target that
/// does not exist yet is resolved through its canonical parent (the root
/// when the parent is empty) with the final name joined back on. The result
/// must lie under the canonical root.
///
/// A final component that is a dangling symbolic link does not exist for
/// canonicalization, so it is resolved like a new file through its parent:
/// writing to the result then follows the link wherever it points.
///
/// The disk decides what each canonicalization returns; the result is
/// `resolve_result` for some outcomes that canonicalization can give for
/// the paths actually handed to it (the joined path, the parent probe path,
/// the root). A success is absolute and lies under a canonical form of the
/// root.
pub fn resolve(root: &str, requested: &str, must_exist: bool) -> (r: Result<String, Error>)
    ensures
        exists|
            whole: Result<Seq<char>, Seq<char>>,
            parent_canon: Result<Seq<char>, Seq<char>>,
            root_canon: Result<Seq<char>, Seq<char>>,
        |
            {
                &&& canonical_outcome_of(join_path(root@, requested@), whole)
                &&& match parent_probe_path(root@, requested@) {
                    Some(pp) => canonical_outcome_of(pp, parent_canon),
                    None => parent_canon is Err,
                }
                &&& canonical_outcome_of(root@, root_canon)
                &&& #[trigger] result_is(
                    r,
                    resolve_result(root@, requested@, must_exist, whole, parent_canon, root_canon),
                )
            },
        r matches Ok(p) ==> has_root(p@) && exists|rc: Seq<char>|
            #![trigger may_canonicalize(root@, rc)]
            may_canonicalize(root@, rc) && canonical_form(rc) && path_starts_with(p@, rc),
{
    let none: Result<String, String> = Err(String::new());
    assert(canonical_outcome_of(root@, outcome_view(none)));
    if contains_nul(requested) {
        return resolve_with(root, requested, must_exist, Err(String::new()), Err(String::new()), Err(String::new()));
    }
    let cand = join(root, requested);
    let probe = if must_exist {
        None
    } else {
        match parent_probe(root, requested) {
            None => {
                return resolve_with(root, requested, must_exist, Err(String::new()), Err(String::new()), Err(String::new()));
            },
            Some(p) => Some(p),
        }
    };
    let whole = canonicalize(cand.as_str());
    let ghost wv = outcome_view(whole);
    let parent_canon: Result<String, String> = if whole.is_ok() {
        Err(String::new())
    } else {
        match probe {
            None => {
                return resolve_with(root, requested, must_exist, whole, Err(String::new()), Err(String::new()));
            },
            Some(p) => canonicalize(p.as_str()),
        }
    };
    let ghost pv = outcome_view(parent_canon);
    if whole.is_err() && parent_canon.is_err() {
        return resolve_with(root, requested, must_exist, whole, parent_canon, Err(String::new()));
    }
    let root_canon = canonicalize(root);
    let ghost rv = outcome_view(root_canon);
    let r = resolve_with(root, requested, must_exist, whole, parent_canon, root_canon);
    proof {
        resolved_paths_stay_inside(root@, requested@, must_exist, wv, pv, rv);
        if let Ok(rc) = rv {
            assert(may_canonicalize(root@, rc));
        }
    }
    assert(result_is(r, resolve_result(root@, requested@, must_exist, wv, pv, rv)));
    r
}

/// `join_path` onto an absolute base gives an absolute path.
proof fn lemma_join_keeps_root(base: Seq<char>, p: Seq<char>)
    requires
        has_root(base),
    ensures
        has_root(join_path(base, p)),
{
    if !has_root(p) {
        if base.len() > 0 && base.last() != '/' {
            assert((base + seq!['/'] + p)[0] == base[0]);
        } else {
            assert((base + p)[0] == base[0]);
        }
    }
}

/// The sandbox never lets a path out: whenever resolution succeeds, the
/// resolved path is absolute and has the canonical root's components as a
/// prefix, whatever the canonicalizations returned.
pub proof fn resolved_paths_stay_inside(
    root: Seq<char>,
    requested: Seq<char>,
    must_exist: bool,
    whole: Result<Seq<char>, Seq<char>>,
    parent_canon: Result<Seq<char>, Seq<char>>,
    root_canon: Result<Seq<char>, Seq<char>>,
)
    requires
        canonical_outcome(whole),
        canonical_outcome(parent_canon),
    ensures
        resolve_result(root, requested, must_exist, whole, parent_canon, root_canon) matches Ok(p)
            ==> (root_canon matches Ok(rc) && path_starts_with(p, rc) && has_root(p)),
{
    if let Ok(pc) = parent_canon {
        let cand = join_path(root, requested);
        if let Some(name) = file_name_of(cand) {
            lemma_join_keeps_root(pc, name);
        }
    }
}

/// The sandbox refuses exactly what escapes: once the target and the root
/// have canonical forms, a target under the root is accepted as its
/// canonical form, at any depth, and one outside it is refused as outside
/// the workspace (for a request without NUL that has a parent when the
/// target may be new).
pub proof fn contained_paths_are_accepted(
    root: Seq<char>,
    requested: Seq<char>,
    must_exist: bool,
    c: Seq<char>,
    parent_canon: Result<Seq<char>, Seq<char>>,
    rc: Seq<char>,
)
    requires
        !has_nul(requested),
        must_exist || parent_path(join_path(root, requested)) is Some,
    ensures
        path_starts_with(c, rc) ==> resolve_result(
            root,
            requested,
            must_exist,
            Ok(c),
            parent_canon,
            Ok(rc),
        ) == Ok::<Seq<char>, ErrorView>(c),
        !path_starts_with(c, rc) ==> resolve_result(
            root,
            requested,
            must_exist,
            Ok(c),
            parent_canon,
            Ok(rc),
        ) == Err::<Seq<char>, ErrorView>(ErrorView::ToolOutsideWorkspace(requested, rc)),
{
}

/// A write target that does not exist yet is placed in its parent: with
/// the parent's canonical form `pc` and the root's `rc`, the result is `pc`
/// with the requested final name joined on when that lies under the root,
/// and is refused as outside the workspace otherwise. When the parent
/// cannot be canonicalized either, the request is refused as a bad path.
pub proof fn new_targets_are_placed_in_their_parent(
    root: Seq<char>,
    requested: Seq<char>,
    e: Seq<char>,
    parent_canon: Result<Seq<char>, Seq<char>>,
    rc: Seq<char>,
)
    requires
        !has_nul(requested),
        parent_path(join_path(root, requested)) is Some,
    ensures
        ({
            let r = resolve_result(root, requested, false, Err(e), parent_canon, Ok(rc));
            let name = file_name_of(join_path(root, requested));
            match parent_canon {
                Ok(pc) => {
                    let placed = match name {
                        Some(n) => join_path(pc, n),
                        None => pc,
                    };
                    &&& path_starts_with(placed, rc) ==> r == Ok::<Seq<char>, ErrorView>(placed)
                    &&& !path_starts_with(placed, rc) ==> r == Err::<Seq<char>, ErrorView>(
                        ErrorView::ToolOutsideWorkspace(requested, rc),
                    )
                },
                Err(_) => r is Err && r->Err_0 is ToolBadPath,
            }
        }),
{
}

/// A path containing NUL is always refused as a bad path, whatever the disk holds.
pub proof fn nul_paths_are_refused(
    root: Seq<char>,
    requested: Seq<char>,
    must_exist: bool,
    whole: Result<Seq<char>, Seq<char>>,
    parent_canon: Result<Seq<char>, Seq<char>>,
    root_canon: Result<Seq<char>, Seq<char>>,
)
    requires
        has_nul(requested),
    ensures
        resolve_result(root, requested, must_exist, whole, parent_canon, root_canon) == Err::<
            Seq<char>,
            ErrorView,
        >(ErrorView::ToolBadPath("path contains NUL byte"@)),
{
}

/// A write target that exists is resolved like a read: both follow the
/// joined path to its canonical form, so a final symbolic link or `..` is
/// judged by where it leads.
pub proof fn existing_targets_resolve_alike(
    root: Seq<char>,
    requested: Seq<char>,
    c: Seq<char>,
    parent_canon: Result<Seq<char>, Seq<char>>,
    root_canon: Result<Seq<char>, Seq<char>>,
)
    requires
        parent_path(join_path(root, requested)) is Some,
    ensures
        resolve_result(root, requested, false, Ok(c), parent_canon, root_canon) == resolve_result(
            root,
            requested,
            true,
            Ok(c),
            parent_canon,
            root_canon,
        ),
{
}

} // verus!
