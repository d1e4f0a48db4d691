//! The workspace tools' results, and the decisions the tools make between
//! their file-system steps: how much of a file to return, how directory
//! listings are ordered, when a delete is refused, and what a write
//! preview shows.
use vstd::prelude::*;

use crate::diff::{diff_renderable, diff_text, render_unified_diff};
use crate::error::{Error, ErrorView};
use crate::paths::{display_relative, paths_equal, relative_display, same_path};
use crate::text::{byte_len, chars_of, spec_utf8_lossy, utf8_lossy};

verus! {

/// Reads return at most this many bytes unless asked for more.
pub const DEFAULT_READ_BYTES: u64 = 262144;

/// Reads never return more than this many bytes.
pub const MAX_READ_BYTES_HARD: u64 = 4194304;

/// One entry of a directory listing.
#[derive(Debug, Clone, PartialEq, Eq)]
pub struct DirEntry {
    pub name: String,
    /// `"dir"`, `"file"`, or `"symlink"`.
    pub kind: &'static str,
    /// Size of a regular file; `None` for directories and links.
    pub size_bytes: Option<u64>,
}

/// A directory listing, entries ordered by name.
#[derive(Debug, Clone, PartialEq, Eq)]
pub struct ListDirResult {
    pub path: String,
    pub entries: Vec<DirEntry>,
}

/// The (possibly truncated) text of a file.
#[derive(Debug, Clone, PartialEq, Eq)]
pub struct ReadFileResult {
    pub path: String,
    pub content: String,
    pub truncated: bool,
    pub bytes_read: u64,
}

/// Outcome of a write or an append.
#[derive(Debug, Clone, PartialEq, Eq)]
pub struct WriteFileResult {
    pub path: String,
    pub bytes_written: u64,
    pub created: bool,
}

/// Outcome of a delete.
#[derive(Debug, Clone, PartialEq, Eq)]
pub struct DeleteResult {
    pub path: String,
    pub was_dir: bool,
}

/// Outcome of a move.
#[derive(Debug, Clone, PartialEq, Eq)]
pub struct MoveResult {
    pub from: String,
    pub to: String,
}

/// Outcome of a directory creation.
#[derive(Debug, Clone, PartialEq, Eq)]
pub struct CreateDirResult {
    pub path: String,
}

/// Preview of a write, shown before it is approved.
#[derive(Debug, Clone, PartialEq, Eq)]
pub struct WritePreview {
    pub path: String,
    pub exists: bool,
    /// Up to 256 lines of diff rendered with line markers (`-`/`+`/` `).
    pub diff: String,
    pub old_bytes: u64,
    pub new_bytes: u64,
}

// ----- listing -----

/// The kind shown for a directory entry: `dir` for a directory, else
/// `symlink` for a symbolic link, else `file`.
pub open spec fn entry_kind_of(is_dir: bool, is_symlink: bool) -> Seq<char> {
    if is_dir {
        "dir"@
    } else if is_symlink {
        "symlink"@
    } else {
        "file"@
    }
}

/// The kind of a directory entry (see `entry_kind_of`).
pub fn entry_kind(is_dir: bool, is_symlink: bool) -> (r: &'static str)
    ensures
        r@ == entry_kind_of(is_dir, is_symlink),
{
    if is_dir {
        "dir"
    } else if is_symlink {
        "symlink"
    } else {
        "file"
    }
}

/// The size shown for a directory entry: its length for a regular file
/// whose metadata could be read, nothing otherwise.
pub open spec fn entry_size_of(is_file: bool, len: Option<u64>) -> Option<u64> {
    if is_file {
        len
    } else {
        None
    }
}

/// The size shown for a directory entry (see `entry_size_of`); `len` is the
/// file's length when its metadata could be read.
pub fn entry_size(is_file: bool, len: Option<u64>) -> (r: Option<u64>)
    ensures
        r == entry_size_of(is_file, len),
{
    if is_file {
        len
    } else {
        None
    }
}

// ----- reading -----

/// How many bytes a read returns at most: the requested cap (default 256
/// KiB), never more than 4 MiB.
pub open spec fn read_cap_of(max_bytes: Option<u64>) -> u64 {
    let asked = match max_bytes {
        Some(m) => m,
        None => DEFAULT_READ_BYTES,
    };
    if asked < MAX_READ_BYTES_HARD {
        asked
    } else {
        MAX_READ_BYTES_HARD
    }
}

/// The read cap for an optional requested maximum.
pub fn read_cap(max_bytes: Option<u64>) -> (r: u64)
    ensures
        r == read_cap_of(max_bytes),
{
    let asked = match max_bytes {
        Some(m) => m,
        None => DEFAULT_READ_BYTES,
    };
    if asked < MAX_READ_BYTES_HARD {
        asked
    } else {
        MAX_READ_BYTES_HARD
    }
}

/// A requested cap is honoured up to 4 MiB: a cap at or below the hard cap
/// is used exactly, a larger one is cut to the hard cap, and without a
/// request the cap is 256 KiB.
pub proof fn requested_read_caps_are_honoured(m: u64)
    ensures
        m <= MAX_READ_BYTES_HARD ==> read_cap_of(Some(m)) == m,
        m > MAX_READ_BYTES_HARD ==> read_cap_of(Some(m)) == MAX_READ_BYTES_HARD,
        read_cap_of(None) == DEFAULT_READ_BYTES,
        DEFAULT_READ_BYTES == 262144 && MAX_READ_BYTES_HARD == 4194304,
{
}

/// A read never returns more than 4 MiB, whatever cap is asked for, and
/// never more than the file holds.
pub proof fn reads_stay_under_the_hard_cap(max_bytes: Option<u64>, file_len: nat)
    ensures
        read_cap_of(max_bytes) <= MAX_READ_BYTES_HARD,
        ({
            let read = if file_len > read_cap_of(max_bytes) {
                read_cap_of(max_bytes) as nat
            } else {
                file_len
            };
            read <= MAX_READ_BYTES_HARD && read <= file_len
        }),
{
}

/// The result of reading a file whose whole contents are `bytes`: at most
/// the cap of bytes, decoded lossily, with `truncated` telling whether any
/// were left out. `path` is `target` shown relative to `root`.
pub fn read_file_result(root: &str, target: &str, bytes: &[u8], max_bytes: Option<u64>) -> (r:
    ReadFileResult)
    ensures
        r.path@ == relative_display(root@, target@),
        r.truncated == (bytes@.len() > read_cap_of(max_bytes)),
        r.bytes_read == if r.truncated {
            read_cap_of(max_bytes) as int
        } else {
            bytes@.len() as int
        },
        r.content@ == spec_utf8_lossy(bytes@.take(r.bytes_read as int)),
        vstd::utf8::valid_utf8(bytes@.take(r.bytes_read as int)) ==> r.content@
            == vstd::utf8::decode_utf8(bytes@.take(r.bytes_read as int)),
{
    let cap = read_cap(max_bytes);
    let truncated = (bytes.len() as u64) > cap;
    let shown: usize = if truncated {
        cap as usize
    } else {
        bytes.len()
    };
    let slice = vstd::slice::slice_subrange(bytes, 0, shown);
    assert(slice@ =~= bytes@.take(shown as int));
    let content = utf8_lossy(slice);
    ReadFileResult {
        path: display_relative(root, target),
        content,
        truncated,
        bytes_read: shown as u64,
    }
}

// ----- writing, deleting, moving -----

/// The result of writing or appending `content` to `target`; `existed`
/// tells whether the file was there before.
pub fn write_file_result(root: &str, target: &str, content: &str, existed: bool) -> (r:
    WriteFileResult)
    ensures
        r.path@ == relative_display(root@, target@),
        r.bytes_written as int == vstd::utf8::encode_utf8(content@).len(),
        r.created == !existed,
{
    WriteFileResult {
        path: display_relative(root, target),
        bytes_written: byte_len(content) as u64,
        created: !existed,
    }
}

/// A delete of `target` is refused when it is the workspace root itself.
pub fn check_delete_target(target: &str, root_canon: &str) -> (r: Result<(), Error>)
    ensures
        same_path(target@, root_canon@) ==> (r matches Err(e) && e@ == ErrorView::ToolBadPath(
            "refusing to delete the workspace root"@,
        )),
        !same_path(target@, root_canon@) ==> r is Ok,
{
    if paths_equal(target, root_canon) {
        Err(Error::ToolBadPath("refusing to delete the workspace root".to_owned()))
    } else {
        Ok(())
    }
}

/// The result of deleting `target` (a directory when `was_dir`).
pub fn delete_result(root: &str, target: &str, was_dir: bool) -> (r: DeleteResult)
    ensures
        r.path@ == relative_display(root@, target@),
        r.was_dir == was_dir,
{
    DeleteResult { path: display_relative(root, target), was_dir }
}

/// The result of moving `from` to `to`.
pub fn move_result(root: &str, from: &str, to: &str) -> (r: MoveResult)
    ensures
        r.from@ == relative_display(root@, from@),
        r.to@ == relative_display(root@, to@),
{
    MoveResult { from: display_relative(root, from), to: display_relative(root, to) }
}

/// The result of creating the directory `target`.
pub fn create_dir_result(root: &str, target: &str) -> (r: CreateDirResult)
    ensures
        r.path@ == relative_display(root@, target@),
{
    CreateDirResult { path: display_relative(root, target) }
}

/// The preview of replacing `old` (the current text of `target`, empty when
/// it does not exist) with `new_content`.
pub fn write_preview(root: &str, target: &str, exists: bool, old: &str, new_content: &str) -> (r:
    WritePreview)
    requires
        diff_renderable(old@, new_content@),
    ensures
        r.path@ == relative_display(root@, target@),
        r.exists == exists,
        r.diff@ == diff_text(old@, new_content@),
        r.old_bytes as int == vstd::utf8::encode_utf8(old@).len(),
        r.new_bytes as int == vstd::utf8::encode_utf8(new_content@).len(),
{
    WritePreview {
        path: display_relative(root, target),
        exists,
        diff: render_unified_diff(old, new_content),
        old_bytes: byte_len(old) as u64,
        new_bytes: byte_len(new_content) as u64,
    }
}

// ----- ordering entries by name -----

/// `a` sorts strictly before `b`: the order of `String`'s `Ord`, which for
/// UTF-8 text is the lexicographic order of code points.
pub open spec fn name_lt(a: Seq<char>, b: Seq<char>) -> bool
    decreases a.len(),
{
    if a.len() == 0 {
        b.len() > 0
    } else if b.len() == 0 {
        false
    } else if a[0] != b[0] {
        (a[0] as u32) < (b[0] as u32)
    } else {
        name_lt(a.drop_first(), b.drop_first())
    }
}

/// Where a stable insertion puts `e` into `s`: before the first entry whose
/// name sorts after `e`'s, so after every entry with an equal name.
pub open spec fn insert_pos(s: Seq<DirEntry>, name: Seq<char>) -> int
    decreases s.len(),
{
    if s.len() == 0 {
        0
    } else if name_lt(name, s[0].name@) {
        0
    } else {
        1 + insert_pos(s.drop_first(), name)
    }
}

/// `s` ordered by name with a stable sort: entries with equal names keep
/// their order.
pub open spec fn sorted_by_name(s: Seq<DirEntry>) -> Seq<DirEntry>
    decreases s.len(),
{
    if s.len() == 0 {
        s
    } else {
        let r = sorted_by_name(s.drop_last());
        r.insert(insert_pos(r, s.last().name@), s.last())
    }
}

/// `a` sorts before `b` in code-point order: `a` is a proper prefix of
/// `b`, or the first character where they differ is smaller in `a`.
pub open spec fn code_point_before(a: Seq<char>, b: Seq<char>) -> bool {
    ||| (a.len() < b.len() && b.take(a.len() as int) == a)
    ||| exists|i: int|
        #![trigger a.take(i), b.take(i)]
        0 <= i < a.len() && i < b.len() && a.take(i) == b.take(i) && (a[i] as u32) < (b[i] as u32)
}

/// Names are ordered by code point, as `String`'s order does for UTF-8
/// text: `a` sorts strictly before `b` exactly when `a` is a proper prefix
/// of `b` or the first differing character of `a` has the smaller code
/// point.
pub proof fn names_sort_by_code_point(a: Seq<char>, b: Seq<char>)
    ensures
        name_lt(a, b) <==> code_point_before(a, b),
    decreases a.len(),
{
    if a.len() > 0 && b.len() > 0 {
        let a1 = a.drop_first();
        let b1 = b.drop_first();
        names_sort_by_code_point(a1, b1);
        if a[0] == b[0] {
            if code_point_before(a1, b1) {
                if a1.len() < b1.len() && b1.take(a1.len() as int) == a1 {
                    assert(b.take(a.len() as int) =~= seq![b[0]] + b1.take(a1.len() as int));
                    assert(a =~= seq![a[0]] + a1);
                } else {
                    let i = choose|i: int|
                        #![trigger a1.take(i), b1.take(i)]
                        0 <= i < a1.len() && i < b1.len() && a1.take(i) == b1.take(i) && (
                        a1[i] as u32) < (b1[i] as u32);
                    assert(a.take(i + 1) =~= seq![a[0]] + a1.take(i));
                    assert(b.take(i + 1) =~= seq![b[0]] + b1.take(i));
                    assert(a[i + 1] == a1[i] && b[i + 1] == b1[i]);
                }
            }
            if code_point_before(a, b) {
                if a.len() < b.len() && b.take(a.len() as int) == a {
                    assert(b1.take(a1.len() as int) =~= b.take(a.len() as int).drop_first());
                    assert(a1 =~= a.drop_first());
                } else {
                    let i = choose|i: int|
                        #![trigger a.take(i), b.take(i)]
                        0 <= i < a.len() && i < b.len() && a.take(i) == b.take(i) && (a[i] as u32)
                            < (b[i] as u32);
                    if i == 0 {
                        assert(false);
                    }
                    assert(a1.take(i - 1) =~= a.take(i).drop_first());
                    assert(b1.take(i - 1) =~= b.take(i).drop_first());
                    assert(a1[i - 1] == a[i] && b1[i - 1] == b[i]);
                }
            }
        } else {
            vstd::utf8::char_u32_cast(a[0], a[0] as u32);
            vstd::utf8::char_u32_cast(b[0], b[0] as u32);
            assert(a.take(0) =~= b.take(0));
            if code_point_before(a, b) {
                if a.len() < b.len() && b.take(a.len() as int) == a {
                    assert(b.take(a.len() as int)[0] == b[0]);
                } else {
                    let i = choose|i: int|
                        #![trigger a.take(i), b.take(i)]
                        0 <= i < a.len() && i < b.len() && a.take(i) == b.take(i) && (a[i] as u32)
                            < (b[i] as u32);
                    if i > 0 {
                        assert(a.take(i)[0] == b.take(i)[0]);
                    }
                }
            }
        }
    } else if a.len() == 0 {
        if b.len() > 0 {
            assert(b.take(0) =~= a);
        }
    } else {
        if code_point_before(a, b) {
            let i = choose|i: int|
                #![trigger a.take(i), b.take(i)]
                0 <= i < a.len() && i < b.len() && a.take(i) == b.take(i) && (a[i] as u32)
                    < (b[i] as u32);
        }
    }
}

/// Whether `a` sorts strictly before `b`.
pub fn name_less(a: &str, b: &str) -> (r: bool)
    ensures
        r == name_lt(a@, b@),
{
    let av = chars_of(a);
    let bv = chars_of(b);
    let mut i: usize = 0;
    assert(av@.skip(0) =~= av@);
    assert(bv@.skip(0) =~= bv@);
    while i < av.len() && i < bv.len() && av[i] == bv[i]
        invariant
            i <= av@.len(),
            i <= bv@.len(),
            name_lt(a@, b@) == name_lt(av@.skip(i as int), bv@.skip(i as int)),
            av@ == a@,
            bv@ == b@,
        decreases av@.len() - i,
    {
        assert(av@.skip(i as int).drop_first() =~= av@.skip(i + 1));
        assert(bv@.skip(i as int).drop_first() =~= bv@.skip(i + 1));
        i = i + 1;
    }
    assert(i < av@.len() ==> av@.skip(i as int)[0] == av@[i as int]);
    assert(i < bv@.len() ==> bv@.skip(i as int)[0] == bv@[i as int]);
    if i == av.len() {
        i < bv.len()
    } else if i == bv.len() {
        false
    } else {
        (av[i] as u32) < (bv[i] as u32)
    }
}

proof fn lemma_insert_pos_bound(s: Seq<DirEntry>, name: Seq<char>)
    ensures
        0 <= insert_pos(s, name) <= s.len(),
    decreases s.len(),
{
    if s.len() > 0 {
        lemma_insert_pos_bound(s.drop_first(), name);
    }
}

/// The stable position for `name` in `r`, found by a scan from the front.
fn find_insert_pos(r: &Vec<DirEntry>, name: &str) -> (p: usize)
    ensures
        p as int == insert_pos(r@, name@),
{
    let mut k: usize = 0;
    proof {
        assert(r@.skip(0) =~= r@);
    }
    while k < r.len()
        invariant
            k <= r@.len(),
            insert_pos(r@, name@) == k + insert_pos(r@.skip(k as int), name@),
        decreases r@.len() - k,
    {
        if name_less(name, r[k].name.as_str()) {
            return k;
        }
        assert(r@.skip(k as int).drop_first() =~= r@.skip(k + 1));
        k = k + 1;
    }
    k
}

/// Orders directory entries by name, keeping the order of entries with
/// equal names.
pub fn sort_entries(entries: Vec<DirEntry>) -> (r: Vec<DirEntry>)
    ensures
        r@ == sorted_by_name(entries@),
{
    let ghost orig = entries@;
    let mut rest = entries;
    let mut rev: Vec<DirEntry> = Vec::new();
    while rest.len() > 0
        invariant
            rest@.len() + rev@.len() == orig.len(),
            rest@ == orig.take(rest@.len() as int),
            forall|j: int| 0 <= j < rev@.len() ==> #[trigger] rev@[j] == orig[orig.len() - 1 - j],
        decreases rest@.len(),
    {
        let e = rest.pop().unwrap();
        assert(e == orig[orig.len() - 1 - rev@.len()]);
        assert(rest@ =~= orig.take(rest@.len() as int));
        rev.push(e);
    }
    let mut r: Vec<DirEntry> = Vec::new();
    assert(orig.take(0) =~= Seq::<DirEntry>::empty());
    while rev.len() > 0
        invariant
            rev@.len() <= orig.len(),
            forall|j: int| 0 <= j < rev@.len() ==> #[trigger] rev@[j] == orig[orig.len() - 1 - j],
            r@ == sorted_by_name(orig.take(orig.len() - rev@.len())),
        decreases rev@.len(),
    {
        let i: Ghost<int> = Ghost(orig.len() - rev@.len());
        let e = rev.pop().unwrap();
        assert(e == orig[i@]);
        let p = find_insert_pos(&r, e.name.as_str());
        proof {
            lemma_insert_pos_bound(r@, e.name@);
            assert(orig.take(i@ + 1).drop_last() =~= orig.take(i@));
            assert(orig.take(i@ + 1).last() == orig[i@]);
        }
        r.insert(p, e);
    }
    assert(orig.take(orig.len() as int) =~= orig);
    r
}

proof fn lemma_name_lt_irreflexive(a: Seq<char>)
    ensures
        !name_lt(a, a),
    decreases a.len(),
{
    if a.len() > 0 {
        lemma_name_lt_irreflexive(a.drop_first());
    }
}

proof fn lemma_name_lt_transitive(a: Seq<char>, b: Seq<char>, c: Seq<char>)
    requires
        name_lt(a, b),
        name_lt(b, c),
    ensures
        name_lt(a, c),
    decreases a.len(),
{
    if a.len() > 0 && b.len() > 0 && c.len() > 0 && a[0] == b[0] && b[0] == c[0] {
        lemma_name_lt_transitive(a.drop_first(), b.drop_first(), c.drop_first());
    }
}

proof fn lemma_name_lt_total(a: Seq<char>, b: Seq<char>)
    ensures
        name_lt(a, b) || name_lt(b, a) || a == b,
    decreases a.len(),
{
    if a.len() > 0 && b.len() > 0 {
        if a[0] == b[0] {
            lemma_name_lt_total(a.drop_first(), b.drop_first());
            if a.drop_first() == b.drop_first() {
                assert(a =~= seq![a[0]] + a.drop_first());
                assert(b =~= seq![b[0]] + b.drop_first());
            }
        } else {
            vstd::utf8::char_u32_cast(a[0], a[0] as u32);
            vstd::utf8::char_u32_cast(b[0], b[0] as u32);
        }
    } else if a.len() == 0 && b.len() == 0 {
        assert(a =~= b);
    }
}

/// Entries are in name order: no entry sorts strictly before an earlier one.
pub open spec fn names_ordered(s: Seq<DirEntry>) -> bool {
    forall|i: int, j: int| 0 <= i < j < s.len() ==> !name_lt(#[trigger] s[j].name@, #[trigger] s[i].name@)
}

proof fn lemma_insert_pos_facts(s: Seq<DirEntry>, name: Seq<char>)
    ensures
        forall|k: int| 0 <= k < insert_pos(s, name) ==> !name_lt(name, #[trigger] s[k].name@),
        insert_pos(s, name) < s.len() ==> name_lt(name, s[insert_pos(s, name)].name@),
    decreases s.len(),
{
    lemma_insert_pos_bound(s, name);
    if s.len() > 0 && !name_lt(name, s[0].name@) {
        lemma_insert_pos_facts(s.drop_first(), name);
        assert forall|k: int| 0 <= k < insert_pos(s, name) implies !name_lt(
            name,
            #[trigger] s[k].name@,
        ) by {
            if k > 0 {
                assert(s[k] == s.drop_first()[k - 1]);
            }
        }
        let q = insert_pos(s.drop_first(), name);
        lemma_insert_pos_bound(s.drop_first(), name);
        assert(insert_pos(s, name) == q + 1);
        if q < s.drop_first().len() {
            assert(s[insert_pos(s, name)] == s.drop_first()[q]);
        }
    }
}

/// A stable sort by name yields the same entries, in name order.
pub proof fn sorted_by_name_is_ordered_permutation(s: Seq<DirEntry>)
    ensures
        names_ordered(sorted_by_name(s)),
        sorted_by_name(s).to_multiset() == s.to_multiset(),
        sorted_by_name(s).len() == s.len(),
    decreases s.len(),
{
    broadcast use vstd::seq_lib::to_multiset_insert;

    if s.len() > 0 {
        let r = sorted_by_name(s.drop_last());
        sorted_by_name_is_ordered_permutation(s.drop_last());
        let e = s.last();
        let p = insert_pos(r, e.name@);
        lemma_insert_pos_bound(r, e.name@);
        lemma_insert_pos_facts(r, e.name@);
        let r2 = r.insert(p, e);
        assert forall|k: int| p <= k < r.len() implies name_lt(e.name@, #[trigger] r[k].name@) by {
            if k > p {
                assert(!name_lt(r[k].name@, r[p].name@));
                lemma_name_lt_total(r[p].name@, r[k].name@);
                if name_lt(r[p].name@, r[k].name@) {
                    lemma_name_lt_transitive(e.name@, r[p].name@, r[k].name@);
                }
            }
        }
        assert forall|i: int, j: int| 0 <= i < j < r2.len() implies !name_lt(
            #[trigger] r2[j].name@,
            #[trigger] r2[i].name@,
        ) by {
            if i < p && j < p {
                assert(r2[i] == r[i] && r2[j] == r[j]);
            } else if i < p && j == p {
                assert(r2[i] == r[i]);
            } else if i < p {
                assert(r2[i] == r[i] && r2[j] == r[j - 1]);
                assert(!name_lt(r[j - 1].name@, r[i].name@));
            } else if i == p {
                assert(r2[j] == r[j - 1]);
                let a = e.name@;
                let b = r[j - 1].name@;
                if name_lt(b, a) {
                    lemma_name_lt_transitive(a, b, a);
                    lemma_name_lt_irreflexive(a);
                }
            } else {
                assert(r2[i] == r[i - 1] && r2[j] == r[j - 1]);
            }
        }
        assert(s =~= s.drop_last().push(e));
        vstd::seq_lib::to_multiset_build(s.drop_last(), e);
    }
}

/// The listing of `target`: entries ordered by name (stably), and the path
/// shown relative to `root`.
pub fn list_dir_result(root: &str, target: &str, entries: Vec<DirEntry>) -> (r: ListDirResult)
    ensures
        r.path@ == relative_display(root@, target@),
        r.entries@ == sorted_by_name(entries@),
{
    ListDirResult { path: display_relative(root, target), entries: sort_entries(entries) }
}

} // verus!
