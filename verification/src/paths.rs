//! Unix path strings and their components, as `std::path::Path` parses
//! them: a leading `/` is the root, a leading `.` of a relative path is the
//! current directory, the rest splits at `/` with empty and `.` parts
//! skipped. Joining, parents, file names, prefix tests and prefix stripping
//! are defined over these components and the spans they occupy in the text.
use vstd::prelude::*;

use crate::text::{chars_of, push_char, push_str, string_of_range};

verus! {

/// The path starts at the root directory.
pub open spec fn has_root(s: Seq<char>) -> bool {
    s.len() > 0 && s[0] == '/'
}

/// A relative path whose first component is `.` (the text is `.` or starts with `./`).
pub open spec fn has_cur_dir(s: Seq<char>) -> bool {
    !has_root(s) && s.len() > 0 && s[0] == '.' && (s.len() == 1 || s[1] == '/')
}

/// Where the `/`-separated body begins: after the root or leading `.`, if any.
pub open spec fn body_start(s: Seq<char>) -> int {
    if has_root(s) || has_cur_dir(s) {
        1
    } else {
        0
    }
}

/// The first `/` at or after `i`, or the end of the text.
pub open spec fn next_sep(s: Seq<char>, i: int) -> int
    decreases s.len() - i,
{
    if i >= s.len() {
        s.len() as int
    } else if s[i] == '/' {
        i
    } else {
        next_sep(s, i + 1)
    }
}

/// `next_sep` stays within the text and finds the first `/` at or after `i`.
pub proof fn lemma_next_sep(s: Seq<char>, i: int)
    requires
        0 <= i,
    ensures
        i <= s.len() ==> i <= next_sep(s, i) <= s.len(),
        i > s.len() ==> next_sep(s, i) == s.len(),
        next_sep(s, i) < s.len() ==> s[next_sep(s, i)] == '/',
        forall|k: int| i <= k < next_sep(s, i) ==> s[k] != '/',
    decreases s.len() - i,
{
    if i < s.len() && s[i] != '/' {
        lemma_next_sep(s, i + 1);
    }
}

/// Spans `[start, end)` of the body components at or after part start `i`:
/// every `/`-separated part except empty ones and `.`.
pub open spec fn spans_from(s: Seq<char>, i: int) -> Seq<(int, int)>
    decreases s.len() - i,
{
    if i < 0 || i >= s.len() {
        seq![]
    } else {
        let j = next_sep(s, i);
        proof {
            lemma_next_sep(s, i);
        }
        let rest = if j < s.len() {
            spans_from(s, j + 1)
        } else {
            seq![]
        };
        if j == i || (j == i + 1 && s[i] == '.') {
            rest
        } else {
            seq![(i, j)] + rest
        }
    }
}

/// Spans of all components: the root or leading `.` (as `[0, 1)`), then the body ones.
pub open spec fn comp_spans(s: Seq<char>) -> Seq<(int, int)> {
    (if body_start(s) == 1 {
        seq![(0int, 1int)]
    } else {
        seq![]
    }) + spans_from(s, body_start(s))
}

/// The text of a span.
pub open spec fn span_text(s: Seq<char>, sp: (int, int)) -> Seq<char> {
    s.subrange(sp.0, sp.1)
}

/// The components of a path, each as its text (`/` for the root, `.` for a
/// leading current directory, `..` for a parent step).
pub open spec fn components(s: Seq<char>) -> Seq<Seq<char>> {
    comp_spans(s).map_values(|sp: (int, int)| span_text(s, sp))
}

/// `a` is a prefix of `b`.
pub open spec fn is_prefix<A>(a: Seq<A>, b: Seq<A>) -> bool {
    a.len() <= b.len() && b.take(a.len() as int) == a
}

/// `Path::starts_with`: the components of `base` begin the components of `p`.
pub open spec fn path_starts_with(p: Seq<char>, base: Seq<char>) -> bool {
    is_prefix(components(base), components(p))
}

/// `Path::eq`: the two paths have the same components.
pub open spec fn same_path(a: Seq<char>, b: Seq<char>) -> bool {
    components(a) == components(b)
}

/// `Path::join`: an absolute `p` replaces `base`; otherwise `p` is appended,
/// with a `/` in between unless `base` is empty or already ends with one.
pub open spec fn join_path(base: Seq<char>, p: Seq<char>) -> Seq<char> {
    if has_root(p) {
        p
    } else if base.len() > 0 && base.last() != '/' {
        base + seq!['/'] + p
    } else {
        base + p
    }
}

/// `Path::parent`: `None` for an empty path or the bare root; otherwise the
/// text up to the end of the next-to-last component (empty when there is
/// only one).
pub open spec fn parent_path(s: Seq<char>) -> Option<Seq<char>> {
    let sp = comp_spans(s);
    if sp.len() == 0 || (sp.len() == 1 && has_root(s)) {
        None
    } else if sp.len() == 1 {
        Some(Seq::<char>::empty())
    } else {
        Some(s.take(sp[sp.len() - 2].1))
    }
}

/// `Path::file_name`: the last component when it is a normal name (not the
/// root, a leading `.`, or `..`).
pub open spec fn file_name_of(s: Seq<char>) -> Option<Seq<char>> {
    let sp = comp_spans(s);
    if sp.len() == 0 || sp.last().0 < body_start(s) || span_text(s, sp.last()) == seq!['.', '.'] {
        None
    } else {
        Some(span_text(s, sp.last()))
    }
}

/// The text left after the first `k` components, without leading or
/// trailing separators (what `Path::strip_prefix` returns).
pub open spec fn rest_after(s: Seq<char>, k: int) -> Seq<char> {
    let sp = comp_spans(s);
    if k >= sp.len() {
        Seq::<char>::empty()
    } else {
        s.subrange(sp[k].0, sp.last().1)
    }
}

/// `full` shown relative to `root`: the rest after `root`'s components when
/// `full` lies under `root`, else `full` unchanged.
pub open spec fn relative_display(root: Seq<char>, full: Seq<char>) -> Seq<char> {
    if path_starts_with(full, root) {
        rest_after(full, components(root).len() as int)
    } else {
        full
    }
}

/// An executable span list agrees with a specification span list.
pub open spec fn spans_match(v: Seq<(usize, usize)>, sp: Seq<(int, int)>) -> bool {
    &&& v.len() == sp.len()
    &&& forall|k: int| #![trigger v[k]] 0 <= k < v.len() ==> v[k].0 == sp[k].0 && v[k].1 == sp[k].1
}

/// Every span is a non-empty piece of a text of length `n`.
pub open spec fn spans_within(sp: Seq<(int, int)>, n: int) -> bool {
    forall|k: int| #![trigger sp[k]] 0 <= k < sp.len() ==> 0 <= sp[k].0 < sp[k].1 <= n
}

proof fn lemma_spans_from_within(s: Seq<char>, i: int)
    requires
        0 <= i,
    ensures
        spans_within(spans_from(s, i), s.len() as int),
        forall|k: int| 0 <= k < spans_from(s, i).len() ==> i <= #[trigger] spans_from(s, i)[k].0,
    decreases s.len() - i,
{
    if i < s.len() {
        lemma_next_sep(s, i);
        let j = next_sep(s, i);
        if j < s.len() {
            lemma_spans_from_within(s, j + 1);
        }
    }
}

/// The component spans of `s` are non-empty pieces of the text, in
/// increasing order.
pub proof fn lemma_comp_spans_within(s: Seq<char>)
    ensures
        spans_within(comp_spans(s), s.len() as int),
        forall|k: int|
            1 <= k < comp_spans(s).len() ==> comp_spans(s)[k - 1].1 <= #[trigger] comp_spans(
                s,
            )[k].0,
{
    lemma_spans_from_within(s, body_start(s));
    lemma_spans_ordered(s, body_start(s));
}

proof fn lemma_spans_ordered(s: Seq<char>, i: int)
    requires
        0 <= i,
    ensures
        forall|k: int|
            1 <= k < spans_from(s, i).len() ==> spans_from(s, i)[k - 1].1 < #[trigger] spans_from(
                s,
                i,
            )[k].0,
        forall|k: int| 0 <= k < spans_from(s, i).len() ==> i <= #[trigger] spans_from(s, i)[k].0,
    decreases s.len() - i,
{
    if i < s.len() {
        lemma_next_sep(s, i);
        let j = next_sep(s, i);
        if j < s.len() {
            lemma_spans_ordered(s, j + 1);
            lemma_spans_from_within(s, j + 1);
        }
    }
}

/// The component spans of `s`, computed by one scan.
pub fn component_spans(s: &Vec<char>) -> (r: Vec<(usize, usize)>)
    ensures
        spans_match(r@, comp_spans(s@)),
{
    let n = s.len();
    let mut r: Vec<(usize, usize)> = Vec::new();
    let root = n > 0 && s[0] == '/';
    let cur = !root && n > 0 && s[0] == '.' && (n == 1 || s[1] == '/');
    let ghost mut g: Seq<(int, int)> = seq![];
    let start: usize = if root || cur {
        r.push((0, 1));
        proof {
            g = seq![(0int, 1int)];
        }
        1
    } else {
        0
    };
    assert(start as int == body_start(s@));
    let mut i = start;
    assert(g + spans_from(s@, i as int) =~= comp_spans(s@));
    while i < n
        invariant
            n == s@.len(),
            start <= i <= n,
            spans_match(r@, g),
            g + spans_from(s@, i as int) == comp_spans(s@),
        decreases n - i,
    {
        let mut j = i;
        while j < n && s[j] != '/'
            invariant
                n == s@.len(),
                i <= j <= n,
                next_sep(s@, i as int) == next_sep(s@, j as int),
            decreases n - j,
        {
            j = j + 1;
        }
        assert(j == next_sep(s@, i as int));
        let ghost old_g = g;
        if !(j == i || (j == i + 1 && s[i] == '.')) {
            r.push((i, j));
            proof {
                g = g.push((i as int, j as int));
            }
        }
        if j < n {
            assert(old_g + spans_from(s@, i as int) =~= g + spans_from(s@, (j + 1) as int));
            i = j + 1;
        } else {
            assert(old_g + spans_from(s@, i as int) =~= g + spans_from(s@, n as int));
            i = n;
        }
    }
    assert(g + spans_from(s@, i as int) =~= g);
    r
}

/// Whether `a[sa]` and `b[sb]` hold the same text.
fn span_eq(a: &Vec<char>, sa: (usize, usize), b: &Vec<char>, sb: (usize, usize)) -> (r: bool)
    requires
        sa.0 <= sa.1 <= a@.len(),
        sb.0 <= sb.1 <= b@.len(),
    ensures
        r == (a@.subrange(sa.0 as int, sa.1 as int) == b@.subrange(sb.0 as int, sb.1 as int)),
{
    if sa.1 - sa.0 != sb.1 - sb.0 {
        assert(a@.subrange(sa.0 as int, sa.1 as int).len() != b@.subrange(
            sb.0 as int,
            sb.1 as int,
        ).len());
        return false;
    }
    let len = sa.1 - sa.0;
    let mut k: usize = 0;
    while k < len
        invariant
            len == sa.1 - sa.0,
            len == sb.1 - sb.0,
            sa.0 <= sa.1 <= a@.len(),
            sb.0 <= sb.1 <= b@.len(),
            k <= len,
            forall|t: int|
                0 <= t < k ==> #[trigger] a@.subrange(sa.0 as int, sa.1 as int)[t] == b@.subrange(
                    sb.0 as int,
                    sb.1 as int,
                )[t],
        decreases len - k,
    {
        if a[sa.0 + k] != b[sb.0 + k] {
            assert(a@.subrange(sa.0 as int, sa.1 as int)[k as int] != b@.subrange(
                sb.0 as int,
                sb.1 as int,
            )[k as int]);
            return false;
        }
        k = k + 1;
    }
    assert(a@.subrange(sa.0 as int, sa.1 as int) =~= b@.subrange(sb.0 as int, sb.1 as int));
    true
}

/// Whether the first `k` components of `p` equal the first `k` of `q`,
/// given their span lists.
fn components_agree(
    p: &Vec<char>,
    ps: &Vec<(usize, usize)>,
    q: &Vec<char>,
    qs: &Vec<(usize, usize)>,
    count: usize,
) -> (r: bool)
    requires
        spans_match(ps@, comp_spans(p@)),
        spans_match(qs@, comp_spans(q@)),
        count <= ps@.len(),
        count <= qs@.len(),
    ensures
        r == (components(p@).take(count as int) == components(q@).take(count as int)),
{
    proof {
        lemma_comp_spans_within(p@);
        lemma_comp_spans_within(q@);
    }
    let mut k: usize = 0;
    while k < count
        invariant
            spans_match(ps@, comp_spans(p@)),
            spans_match(qs@, comp_spans(q@)),
            spans_within(comp_spans(p@), p@.len() as int),
            spans_within(comp_spans(q@), q@.len() as int),
            count <= ps@.len(),
            count <= qs@.len(),
            k <= count,
            forall|t: int| 0 <= t < k ==> components(p@)[t] == components(q@)[t],
        decreases count - k,
    {
        assert(0 <= comp_spans(p@)[k as int].0 < comp_spans(p@)[k as int].1 <= p@.len());
        assert(0 <= comp_spans(q@)[k as int].0 < comp_spans(q@)[k as int].1 <= q@.len());
        if !span_eq(p, ps[k], q, qs[k]) {
            assert(components(p@).take(count as int)[k as int] != components(q@).take(
                count as int,
            )[k as int]);
            return false;
        }
        k = k + 1;
    }
    assert(components(p@).take(count as int) =~= components(q@).take(count as int));
    true
}

/// `Path::starts_with`: whether `base`'s components begin `p`'s.
pub fn starts_with(p: &str, base: &str) -> (r: bool)
    ensures
        r == path_starts_with(p@, base@),
{
    let pv = chars_of(p);
    let bv = chars_of(base);
    let ps = component_spans(&pv);
    let bs = component_spans(&bv);
    if bs.len() > ps.len() {
        return false;
    }
    let r = components_agree(&pv, &ps, &bv, &bs, bs.len());
    assert(components(bv@).take(bs@.len() as int) =~= components(bv@));
    r
}

/// `Path::eq`: whether two paths have the same components.
pub fn paths_equal(a: &str, b: &str) -> (r: bool)
    ensures
        r == same_path(a@, b@),
{
    let av = chars_of(a);
    let bv = chars_of(b);
    let sa = component_spans(&av);
    let sb = component_spans(&bv);
    if sa.len() != sb.len() {
        assert(components(a@).len() != components(b@).len());
        return false;
    }
    let r = components_agree(&av, &sa, &bv, &sb, sa.len());
    assert(components(a@).take(sa@.len() as int) =~= components(a@));
    assert(components(b@).take(sb@.len() as int) =~= components(b@));
    r
}

proof fn lemma_span_chain(s: Seq<char>, k: int, l: int)
    requires
        0 <= k <= l < comp_spans(s).len(),
    ensures
        comp_spans(s)[k].0 < comp_spans(s)[l].1,
    decreases l - k,
{
    lemma_comp_spans_within(s);
    let sp = comp_spans(s);
    assert(0 <= sp[l].0 < sp[l].1 <= s.len());
    if k < l {
        lemma_span_chain(s, k, l - 1);
        assert(sp[l - 1].1 <= sp[l].0);
    }
}

/// Where the body of `v` begins (see `body_start`).
fn body_start_of(v: &Vec<char>) -> (r: usize)
    ensures
        r as int == body_start(v@),
{
    let n = v.len();
    let root = n > 0 && v[0] == '/';
    let cur = !root && n > 0 && v[0] == '.' && (n == 1 || v[1] == '/');
    if root || cur {
        1
    } else {
        0
    }
}

/// `Path::is_absolute` on Unix: the path starts at the root.
pub fn is_absolute(p: &str) -> (r: bool)
    ensures
        r == has_root(p@),
{
    let v = chars_of(p);
    v.len() > 0 && v[0] == '/'
}

/// `Path::join`.
pub fn join(base: &str, p: &str) -> (r: String)
    ensures
        r@ == join_path(base@, p@),
{
    if is_absolute(p) {
        return p.to_owned();
    }
    let bv = chars_of(base);
    let mut out = base.to_owned();
    if bv.len() > 0 && bv[bv.len() - 1] != '/' {
        push_char(&mut out, '/');
    }
    push_str(&mut out, p);
    out
}

/// `Path::parent`.
pub fn parent(p: &str) -> (r: Option<String>)
    ensures
        r matches Some(s) ==> parent_path(p@) == Some(s@),
        r is None ==> parent_path(p@) is None,
{
    let v = chars_of(p);
    let sp = component_spans(&v);
    let n = sp.len();
    if n == 0 || (n == 1 && v[0] == '/') {
        return None;
    }
    if n == 1 {
        return Some(String::new());
    }
    proof {
        lemma_comp_spans_within(v@);
    }
    assert(0 <= comp_spans(v@)[n - 2].0 < comp_spans(v@)[n - 2].1 <= v@.len());
    let end = sp[n - 2].1;
    let r = string_of_range(&v, 0, end);
    assert(r@ =~= v@.take(end as int));
    Some(r)
}

/// `Path::file_name`.
pub fn file_name(p: &str) -> (r: Option<String>)
    ensures
        r matches Some(s) ==> file_name_of(p@) == Some(s@),
        r is None ==> file_name_of(p@) is None,
{
    let v = chars_of(p);
    let sp = component_spans(&v);
    let n = sp.len();
    if n == 0 {
        return None;
    }
    proof {
        lemma_comp_spans_within(v@);
    }
    let last = sp[n - 1];
    assert(0 <= comp_spans(v@)[n - 1].0 < comp_spans(v@)[n - 1].1 <= v@.len());
    if last.0 < body_start_of(&v) {
        return None;
    }
    let text = string_of_range(&v, last.0, last.1);
    if last.1 - last.0 == 2 && v[last.0] == '.' && v[last.0 + 1] == '.' {
        assert(text@ =~= seq!['.', '.']);
        return None;
    }
    assert(text@.len() != 2 || text@[0] != '.' || text@[1] != '.');
    Some(text)
}

/// Renders `full` relative to `root`: the part of `full` after `root`'s
/// components when `full` lies under `root` (as `Path::strip_prefix` gives
/// it), and `full` unchanged otherwise.
pub fn display_relative(root: &str, full: &str) -> (r: String)
    ensures
        r@ == relative_display(root@, full@),
{
    let fv = chars_of(full);
    let rv = chars_of(root);
    let fs = component_spans(&fv);
    let rs = component_spans(&rv);
    let k = rs.len();
    if k <= fs.len() && components_agree(&fv, &fs, &rv, &rs, k) {
        assert(components(rv@).take(k as int) =~= components(rv@));
        assert(path_starts_with(full@, root@));
        if k >= fs.len() {
            return String::new();
        }
        let n = fs.len();
        proof {
            lemma_comp_spans_within(fv@);
            lemma_span_chain(fv@, k as int, n - 1);
        }
        assert(0 <= comp_spans(fv@)[n - 1].0 < comp_spans(fv@)[n - 1].1 <= fv@.len());
        string_of_range(&fv, fs[k].0, fs[n - 1].1)
    } else {
        proof {
            if path_starts_with(full@, root@) {
                assert(components(rv@).take(k as int) =~= components(rv@));
            }
        }
        full.to_owned()
    }
}

// ----- spans of pieces of a path -----

/// Spans moved `d` characters to the right.
pub open spec fn shift_spans(sp: Seq<(int, int)>, d: int) -> Seq<(int, int)> {
    sp.map_values(|x: (int, int)| (x.0 + d, x.1 + d))
}

proof fn lemma_next_sep_shift(p: Seq<char>, t: Seq<char>, i: int)
    requires
        0 <= i,
    ensures
        next_sep(p + t, p.len() + i) == p.len() + next_sep(t, i),
    decreases t.len() - i,
{
    if i < t.len() {
        assert((p + t)[p.len() + i] == t[i]);
        if t[i] != '/' {
            lemma_next_sep_shift(p, t, i + 1);
        }
    }
}

proof fn lemma_spans_shift(p: Seq<char>, t: Seq<char>, i: int)
    requires
        0 <= i,
    ensures
        spans_from(p + t, p.len() + i) == shift_spans(spans_from(t, i), p.len() as int),
    decreases t.len() - i,
{
    let s = p + t;
    if i >= t.len() {
        assert(shift_spans(spans_from(t, i), p.len() as int) =~= Seq::<(int, int)>::empty());
    } else {
        lemma_next_sep_shift(p, t, i);
        lemma_next_sep(t, i);
        let j = next_sep(t, i);
        assert(s[p.len() + i] == t[i]);
        if j < t.len() {
            lemma_spans_shift(p, t, j + 1);
            assert(p.len() + j + 1 == p.len() + (j + 1));
        }
        assert(spans_from(s, p.len() + i) =~= shift_spans(spans_from(t, i), p.len() as int));
    }
}

/// Every span found from `i` is a whole `/`-separated part: it ends at the
/// next separator, and it is neither empty nor `.`.
proof fn lemma_span_parts(s: Seq<char>, i: int)
    requires
        0 <= i,
    ensures
        forall|k: int|
            0 <= k < spans_from(s, i).len() ==> {
                let sp = #[trigger] spans_from(s, i)[k];
                &&& i <= sp.0
                &&& sp.1 == next_sep(s, sp.0)
                &&& sp.1 != sp.0
                &&& !(sp.1 == sp.0 + 1 && s[sp.0] == '.')
            },
    decreases s.len() - i,
{
    if 0 <= i < s.len() {
        lemma_next_sep(s, i);
        let j = next_sep(s, i);
        let l = spans_from(s, i);
        if j < s.len() {
            lemma_span_parts(s, j + 1);
            let r = spans_from(s, j + 1);
            assert forall|k: int| 0 <= k < l.len() implies {
                let sp = #[trigger] l[k];
                &&& i <= sp.0
                &&& sp.1 == next_sep(s, sp.0)
                &&& sp.1 != sp.0
                &&& !(sp.1 == sp.0 + 1 && s[sp.0] == '.')
            } by {
                if !(j == i || (j == i + 1 && s[i] == '.')) {
                    if k > 0 {
                        assert(l[k] == r[k - 1]);
                    }
                } else {
                    assert(l[k] == r[k]);
                }
            }
        }
    }
}

proof fn lemma_spans_suffix(s: Seq<char>, i: int, m: int)
    requires
        0 <= i,
        0 <= m < spans_from(s, i).len(),
    ensures
        spans_from(s, spans_from(s, i)[m].0) == spans_from(s, i).skip(m),
    decreases s.len() - i,
{
    let l = spans_from(s, i);
    lemma_next_sep(s, i);
    let j = next_sep(s, i);
    if j == i || (j == i + 1 && s[i] == '.') {
        lemma_spans_suffix(s, j + 1, m);
    } else if m == 0 {
        assert(l.skip(0) =~= l);
    } else {
        let r = spans_from(s, j + 1);
        assert(l[m] == r[m - 1]);
        lemma_spans_suffix(s, j + 1, m - 1);
        assert(r.skip(m - 1) =~= l.skip(m));
    }
}

proof fn lemma_spans_take(s: Seq<char>, e: int, i: int)
    requires
        0 <= i,
        0 <= e <= s.len(),
        e == s.len() || s[e] == '/',
        forall|k: int| 0 <= k < spans_from(s, i).len() ==> #[trigger] spans_from(s, i)[k].1 <= e,
    ensures
        spans_from(s.take(e), i) == spans_from(s, i),
    decreases s.len() - i,
{
    let l = spans_from(s, i);
    lemma_span_parts(s, i);
    lemma_spans_from_within(s, i);
    if i >= e {
        if l.len() > 0 {
            assert(l[0].1 <= e);
            assert(false);
        }
        assert(spans_from(s.take(e), i) =~= l);
    } else {
        lemma_next_sep(s, i);
        lemma_next_sep_take(s, e, i);
        let j = next_sep(s, i);
        assert(s.take(e)[i] == s[i]);
        if j < e {
            let r = spans_from(s, j + 1);
            assert forall|k: int| 0 <= k < r.len() implies #[trigger] r[k].1 <= e by {
                if j == i || (j == i + 1 && s[i] == '.') {
                    assert(r[k] == l[k]);
                } else {
                    assert(r[k] == l[k + 1]);
                }
            }
            lemma_spans_take(s, e, j + 1);
        } else if j < s.len() {
            let r = spans_from(s, j + 1);
            lemma_spans_from_within(s, j + 1);
            lemma_span_parts(s, j + 1);
            if r.len() > 0 {
                if j == i || (j == i + 1 && s[i] == '.') {
                    assert(r[0] == l[0]);
                } else {
                    assert(r[0] == l[1]);
                }
                assert(false);
            }
        }
        assert(spans_from(s.take(e), i) =~= l);
    }
}

proof fn lemma_next_sep_take(s: Seq<char>, e: int, i: int)
    requires
        0 <= i <= e <= s.len(),
        e == s.len() || s[e] == '/',
    ensures
        next_sep(s.take(e), i) == next_sep(s, i),
    decreases e - i,
{
    if i < e {
        assert(s.take(e)[i] == s[i]);
        if s[i] != '/' {
            lemma_next_sep_take(s, e, i + 1);
        }
    }
}

proof fn lemma_span_ends_chain(s: Seq<char>, q: int, l: int)
    requires
        0 <= q <= l < comp_spans(s).len(),
    ensures
        comp_spans(s)[q].1 <= comp_spans(s)[l].1,
    decreases l - q,
{
    lemma_comp_spans_within(s);
    let sp = comp_spans(s);
    assert(0 <= sp[l].0 < sp[l].1 <= s.len());
    if q < l {
        lemma_span_ends_chain(s, q, l - 1);
        assert(sp[l - 1].1 <= sp[l].0);
    }
}

/// The body spans of `s` after the first `k` components, with `k` at least
/// one: the spans found from where component `k` starts.
proof fn lemma_comp_spans_from(s: Seq<char>, k: int)
    requires
        1 <= k < comp_spans(s).len(),
    ensures
        spans_from(s, comp_spans(s)[k].0) == comp_spans(s).skip(k),
        comp_spans(s)[k].0 >= body_start(s),
{
    let bs = body_start(s);
    let pre: Seq<(int, int)> = if bs == 1 {
        seq![(0int, 1int)]
    } else {
        seq![]
    };
    let l = spans_from(s, bs);
    let sp = comp_spans(s);
    assert(sp == pre + l);
    let m = k - pre.len();
    assert(sp[k] == l[m]);
    lemma_spans_suffix(s, bs, m);
    lemma_span_parts(s, bs);
    assert(l.skip(m) =~= sp.skip(k));
}

/// The span list of the text from component `k` to the end of the last
/// component, shifted back by where it starts, is the rest of the span list.
proof fn lemma_tail_spans(full: Seq<char>, k: int)
    requires
        1 <= k < comp_spans(full).len(),
    ensures
        ({
            let sp = comp_spans(full);
            let st = sp[k].0;
            let e = sp[sp.len() - 1].1;
            &&& 0 <= st < e <= full.len()
            &&& shift_spans(spans_from(full.subrange(st, e), 0), st) == sp.skip(k)
        }),
{
    let sp = comp_spans(full);
    let last = sp.len() - 1;
    let st = sp[k].0;
    let e = sp[last].1;
    lemma_tail_bounds(full, k);
    lemma_spans_take(full, e, st);
    let t = full.subrange(st, e);
    let pfx = full.take(st);
    assert(pfx + t =~= full.take(e));
    lemma_spans_shift(pfx, t, 0);
    lemma_comp_spans_from(full, k);
}

proof fn lemma_tail_bounds(full: Seq<char>, k: int)
    requires
        1 <= k < comp_spans(full).len(),
    ensures
        ({
            let sp = comp_spans(full);
            let st = sp[k].0;
            let e = sp[sp.len() - 1].1;
            &&& 0 <= st < e <= full.len()
            &&& e == full.len() || full[e] == '/'
            &&& forall|q: int|
                0 <= q < spans_from(full, st).len() ==> #[trigger] spans_from(full, st)[q].1 <= e
        }),
{
    let sp = comp_spans(full);
    let last = sp.len() - 1;
    let st = sp[k].0;
    let e = sp[last].1;
    lemma_comp_spans_within(full);
    lemma_span_chain(full, k, last);
    assert(0 <= sp[last].0 < sp[last].1 <= full.len());
    assert(e == full.len() || full[e] == '/') by {
        lemma_comp_spans_from(full, last);
        lemma_span_parts(full, sp[last].0);
        assert(sp.skip(last)[0] == sp[last]);
        assert(spans_from(full, sp[last].0)[0] == sp[last]);
        lemma_next_sep(full, sp[last].0);
    }
    lemma_comp_spans_from(full, k);
    assert forall|q: int| 0 <= q < spans_from(full, st).len() implies #[trigger] spans_from(
        full,
        st,
    )[q].1 <= e by {
        assert(spans_from(full, st)[q] == sp.skip(k)[q]);
        assert(sp.skip(k)[q] == sp[k + q]);
        lemma_span_ends_chain(full, k + q, last);
    }
}

/// The text from a component past the first to the end of the last one
/// neither starts at the root nor with a `.` component.
proof fn lemma_tail_body_start(full: Seq<char>, k: int)
    requires
        1 <= k < comp_spans(full).len(),
        0 <= comp_spans(full)[k].0 < comp_spans(full)[comp_spans(full).len() - 1].1 <= full.len(),
    ensures
        ({
            let sp = comp_spans(full);
            let t = full.subrange(sp[k].0, sp[sp.len() - 1].1);
            &&& !has_root(t)
            &&& !has_cur_dir(t)
        }),
{
    let sp = comp_spans(full);
    let st = sp[k].0;
    let e = sp[sp.len() - 1].1;
    let t = full.subrange(st, e);
    lemma_comp_spans_from(full, k);
    lemma_comp_spans_within(full);
    lemma_span_ends_chain(full, k, sp.len() - 1);
    lemma_span_parts(full, st);
    assert(spans_from(full, st)[0] == sp[k]);
    let e1 = sp[k].1;
    lemma_next_sep(full, st);
    assert(st < e1 <= e);
    assert(t[0] == full[st]);
    assert(full[st] != '/');
    if t.len() > 1 {
        assert(t[1] == full[st + 1]);
        if full[st] == '.' && full[st + 1] == '/' {
            assert(e1 == st + 1);
        }
    } else {
        assert(e1 == st + 1);
    }
}

/// What `full` is shown as relative to `root` (when `full` lies under a
/// `root` with at least one component) is a relative path, not starting
/// with `.` either, whose components are those of `full` after `root`'s.
pub proof fn relative_display_components(root: Seq<char>, full: Seq<char>)
    requires
        path_starts_with(full, root),
        components(root).len() > 0,
    ensures
        !has_root(relative_display(root, full)),
        !has_cur_dir(relative_display(root, full)),
        components(relative_display(root, full)) == components(full).skip(
            components(root).len() as int,
        ),
{
    let sp = comp_spans(full);
    let k = components(root).len() as int;
    let t = relative_display(root, full);
    if k >= sp.len() {
        assert(t.len() == 0);
        assert(comp_spans(t) =~= Seq::<(int, int)>::empty());
        assert(components(t) =~= components(full).skip(k));
    } else {
        lemma_tail_spans(full, k);
        let st = sp[k].0;
        let e = sp[sp.len() - 1].1;
        assert(t == full.subrange(st, e));
        lemma_tail_body_start(full, k);
        let tl = spans_from(t, 0);
        assert(comp_spans(t) =~= tl);
        lemma_spans_from_within(t, 0);
        assert(shift_spans(tl, st) == sp.skip(k));
        assert(shift_spans(tl, st).len() == tl.len());
        assert(sp.skip(k).len() == sp.len() - k);
        assert(tl.len() == sp.len() - k);
        assert forall|q: int| 0 <= q < components(t).len() implies #[trigger] components(t)[q]
            == components(full).skip(k)[q] by {
            assert(shift_spans(tl, st)[q] == sp[k + q]);
            assert(0 <= tl[q].0 < tl[q].1 <= t.len());
            assert(t.subrange(tl[q].0, tl[q].1) =~= full.subrange(sp[k + q].0, sp[k + q].1));
        }
        assert(components(t) =~= components(full).skip(k));
    }
}

proof fn lemma_spans_before_sep(p: Seq<char>, t: Seq<char>, i: int)
    requires
        p.len() > 0,
        p.last() == '/',
        0 <= i <= p.len(),
    ensures
        spans_from(p + t, i) == spans_from(p, i) + spans_from(p + t, p.len() as int),
    decreases p.len() - i,
{
    let s = p + t;
    if i == p.len() {
        assert(spans_from(p, i) =~= Seq::<(int, int)>::empty());
        assert(spans_from(s, i) =~= spans_from(p, i) + spans_from(s, p.len() as int));
    } else {
        let e = p.len() - 1;
        assert(s[e] == '/');
        lemma_next_sep_take(s, e, i);
        lemma_next_sep_take(p, e, i);
        assert(s.take(e) =~= p.take(e));
        lemma_next_sep(p, i);
        let j = next_sep(p, i);
        assert(j == next_sep(s, i));
        assert(j <= e);
        assert(s[i] == p[i]);
        lemma_spans_before_sep(p, t, j + 1);
        assert(spans_from(s, i) =~= spans_from(p, i) + spans_from(s, p.len() as int));
    }
}

proof fn lemma_trailing_sep(root: Seq<char>)
    requires
        root.len() > 0,
        root.last() != '/',
    ensures
        components(root.push('/')) == components(root),
{
    let p = root.push('/');
    let n = root.len() as int;
    assert(p.take(n) =~= root);
    assert(body_start(p) == body_start(root)) by {
        if n == 1 {
            assert(p[1] == '/');
        } else {
            assert(p[1] == root[1]);
        }
        assert(p[0] == root[0]);
    }
    let bs = body_start(root);
    lemma_span_parts(p, bs);
    lemma_spans_from_within(p, bs);
    assert forall|q: int| 0 <= q < spans_from(p, bs).len() implies #[trigger] spans_from(p, bs)[q].1
        <= n by {
        let sp = spans_from(p, bs)[q];
        lemma_next_sep(p, sp.0);
        if sp.1 > n {
            assert(p[n] == '/');
        }
    }
    lemma_spans_take(p, n, bs);
    assert(comp_spans(p) == comp_spans(root));
    lemma_comp_spans_within(root);
    assert forall|q: int| 0 <= q < components(p).len() implies #[trigger] components(p)[q]
        == components(root)[q] by {
        let sp = comp_spans(root)[q];
        assert(0 <= sp.0 < sp.1 <= n);
        assert(p.subrange(sp.0, sp.1) =~= root.subrange(sp.0, sp.1));
    }
    assert(components(p) =~= components(root));
}

proof fn lemma_join_components(base: Seq<char>, t: Seq<char>)
    requires
        base.len() > 0,
        base.last() == '/',
        !has_root(t),
        !has_cur_dir(t),
    ensures
        components(base + t) == components(base) + components(t),
{
    let s = base + t;
    let n = base.len() as int;
    assert(body_start(s) == body_start(base)) by {
        assert(s[0] == base[0]);
        if n > 1 {
            assert(s[1] == base[1]);
        }
    }
    let bs = body_start(base);
    lemma_spans_before_sep(base, t, bs);
    assert(s.subrange(n, s.len() as int) =~= t);
    assert(base + t == s);
    lemma_spans_shift(base, t, 0);
    let tl = spans_from(t, 0);
    assert(comp_spans(t) =~= tl);
    assert(comp_spans(s) =~= comp_spans(base) + shift_spans(tl, n));
    lemma_comp_spans_within(base);
    lemma_spans_from_within(t, 0);
    let cb = components(base);
    let ct = components(t);
    assert(shift_spans(tl, n).len() == tl.len());
    assert forall|q: int| 0 <= q < components(s).len() implies #[trigger] components(s)[q] == (cb
        + ct)[q] by {
        if q < cb.len() {
            let sp = comp_spans(base)[q];
            assert(0 <= sp.0 < sp.1 <= n);
            assert(s.subrange(sp.0, sp.1) =~= base.subrange(sp.0, sp.1));
        } else {
            let r = q - cb.len();
            assert(shift_spans(tl, n)[r] == (tl[r].0 + n, tl[r].1 + n));
            assert(0 <= tl[r].0 < tl[r].1 <= t.len());
            assert(s.subrange(tl[r].0 + n, tl[r].1 + n) =~= t.subrange(tl[r].0, tl[r].1));
        }
    }
    assert(components(s) =~= cb + ct);
}

proof fn lemma_nonempty_has_component(s: Seq<char>)
    requires
        s.len() > 0,
    ensures
        comp_spans(s).len() > 0,
{
    if body_start(s) == 0 {
        lemma_next_sep(s, 0);
        assert(spans_from(s, 0).len() > 0) by {
            let j = next_sep(s, 0);
            if j == 1 && s[0] == '.' {
                assert(s.len() == 1 || s[1] == '/');
            }
        }
    }
}

/// A path and its text up to the end of its last component have the same
/// components, and the first component starts the text.
proof fn lemma_whole_take(full: Seq<char>)
    requires
        comp_spans(full).len() > 0,
    ensures
        comp_spans(full)[0].0 == 0,
        0 < comp_spans(full)[comp_spans(full).len() - 1].1 <= full.len(),
        components(full.take(comp_spans(full)[comp_spans(full).len() - 1].1)) == components(full),
{
    let sp = comp_spans(full);
    let last = sp.len() - 1;
    let e = sp[last].1;
    let bs = body_start(full);
    let t = full.take(e);
    lemma_comp_spans_within(full);
    assert(0 <= sp[last].0 < sp[last].1 <= full.len());
    lemma_span_parts(full, bs);
    lemma_next_sep(full, 0);
    if bs == 0 {
        let j = next_sep(full, 0);
        assert(full[0] != '/');
        if j == 1 && full[0] == '.' {
            assert(full.len() == 1 || full[1] == '/');
        }
        assert(sp[0] == (0int, j));
    }
    lemma_span_ends_chain(full, 0, last);
    assert(body_start(t) == bs) by {
        assert(t[0] == full[0]);
        if e >= 2 {
            assert(t[1] == full[1]);
        } else if full.len() > 1 && full[0] == '.' && full[1] != '/' {
            assert(bs == 0);
            assert(sp[0].1 == next_sep(full, 0));
            lemma_next_sep(full, 1);
            assert(next_sep(full, 0) == next_sep(full, 1));
        }
    }
    if bs == 1 && last == 0 {
        assert(spans_from(full, 1) =~= Seq::<(int, int)>::empty()) by {
            assert(sp == seq![(0int, 1int)] + spans_from(full, 1));
        }
        assert(spans_from(t, 1) =~= Seq::<(int, int)>::empty());
    } else {
        assert(e == full.len() || full[e] == '/') by {
            let m = last - (if bs == 1 { 1int } else { 0int });
            assert(sp[last] == spans_from(full, bs)[m]);
            lemma_next_sep(full, sp[last].0);
        }
        assert forall|q: int| 0 <= q < spans_from(full, bs).len() implies #[trigger] spans_from(
            full,
            bs,
        )[q].1 <= e by {
            let m = q + (if bs == 1 { 1int } else { 0int });
            assert(spans_from(full, bs)[q] == sp[m]);
            lemma_span_ends_chain(full, m, last);
        }
        lemma_spans_take(full, e, bs);
    }
    assert(comp_spans(t) =~= sp);
    assert forall|q: int| 0 <= q < components(t).len() implies #[trigger] components(t)[q]
        == components(full)[q] by {
        assert(0 <= sp[q].0 < sp[q].1 <= full.len());
        lemma_span_ends_chain(full, q, last);
        assert(t.subrange(sp[q].0, sp[q].1) =~= full.subrange(sp[q].0, sp[q].1));
    }
    assert(components(t) =~= components(full));
}

/// Showing a path relative to the workspace root loses nothing: when
/// `full` lies under `root`, joining the shown form onto `root` gives a
/// path with the same components as `full`. The shown form is a relative
/// path when `root` is not empty, or when `full` itself is relative (with
/// an empty root an absolute `full` is shown unchanged).
pub proof fn relative_display_joins_back(root: Seq<char>, full: Seq<char>)
    requires
        path_starts_with(full, root),
    ensures
        same_path(join_path(root, relative_display(root, full)), full),
        root.len() > 0 || !has_root(full) ==> !has_root(relative_display(root, full)),
{
    let t = relative_display(root, full);
    let k = components(root).len() as int;
    if root.len() == 0 {
        assert(comp_spans(root) =~= Seq::<(int, int)>::empty());
        let sp = comp_spans(full);
        if sp.len() == 0 {
            assert(t.len() == 0);
            assert(join_path(root, t) =~= t);
            assert(comp_spans(t) =~= Seq::<(int, int)>::empty());
            assert(components(t) =~= components(full));
        } else {
            lemma_whole_take(full);
            let e = sp[sp.len() - 1].1;
            assert(t =~= full.take(e));
            assert(join_path(root, t) =~= t);
            assert(t[0] == full[0]);
        }
    } else {
        lemma_nonempty_has_component(root);
        relative_display_components(root, full);
        let base = if root.last() != '/' {
            lemma_trailing_sep(root);
            root.push('/')
        } else {
            root
        };
        assert(join_path(root, t) =~= base + t);
        lemma_join_components(base, t);
        assert(components(full).take(k) == components(root));
        assert(components(root) + components(full).skip(k) =~= components(full));
    }
}

} // verus!
