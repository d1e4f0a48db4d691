//! Line diff used to preview a file write: a longest-common-subsequence
//! table, a backtrack to an edit script, and a capped textual rendering.
use vstd::prelude::*;

use crate::text::{
    clip, clip_line, clip_ok, decimal, lines, lines_of, push_char, push_decimal, push_str,
    split_lines_from, strip_cr, utf8_len,
};

verus! {

/// At most this many edit lines are rendered.
pub const DIFF_MAX_LINES: usize = 256;

/// Above this many line pairs (`old lines * new lines`) no table is built.
pub const DIFF_MAX_CELLS: u128 = 2_000_000;

/// One line of an edit script: `' '` kept, `'+'` added, `'-'` removed.
pub type SpecEdit = (char, Seq<char>);

/// Length of a longest common subsequence of `x[..i]` and `y[..j]`.
pub open spec fn lcs(x: Seq<Seq<char>>, y: Seq<Seq<char>>, i: int, j: int) -> nat
    decreases i + j,
{
    if i <= 0 || j <= 0 {
        0
    } else if x[i - 1] == y[j - 1] {
        lcs(x, y, i - 1, j - 1) + 1
    } else {
        let up = lcs(x, y, i - 1, j);
        let left = lcs(x, y, i, j - 1);
        if up >= left { up } else { left }
    }
}

/// The edit script from `x[..i]` to `y[..j]` read back from the LCS table:
/// a common line is kept, otherwise an addition is preferred whenever it
/// does not shorten the common subsequence.
pub open spec fn edit_script(x: Seq<Seq<char>>, y: Seq<Seq<char>>, i: nat, j: nat) -> Seq<SpecEdit>
    decreases i + j,
{
    if i == 0 && j == 0 {
        seq![]
    } else if i > 0 && j > 0 && x[i - 1] == y[j - 1] {
        edit_script(x, y, (i - 1) as nat, (j - 1) as nat).push((' ', x[i - 1]))
    } else if j > 0 && (i == 0 || lcs(x, y, i as int, j - 1) >= lcs(x, y, i - 1, j as int)) {
        edit_script(x, y, i, (j - 1) as nat).push(('+', y[j - 1]))
    } else {
        edit_script(x, y, (i - 1) as nat, j).push(('-', x[i - 1]))
    }
}

/// The full edit script between two line sequences.
pub open spec fn diff_edits(x: Seq<Seq<char>>, y: Seq<Seq<char>>) -> Seq<SpecEdit> {
    edit_script(x, y, x.len(), y.len())
}

/// One rendered edit: its marker, a space, the clipped line, a newline.
pub open spec fn edit_text(e: SpecEdit) -> Seq<char> {
    seq![e.0, ' '] + clip_line(e.1) + seq!['\n']
}

/// The rendering of the first `k` edits.
pub open spec fn edits_text(es: Seq<SpecEdit>, k: int) -> Seq<char>
    decreases k,
{
    if k <= 0 {
        seq![]
    } else {
        edits_text(es, k - 1) + edit_text(es[k - 1])
    }
}

/// The diff is small enough to render from a table.
pub open spec fn diff_fits(a: Seq<char>, b: Seq<char>) -> bool {
    lines_of(a).len() * lines_of(b).len() <= DIFF_MAX_CELLS
}

/// Every edit line that is rendered can be clipped without splitting a character.
pub open spec fn diff_renderable(a: Seq<char>, b: Seq<char>) -> bool {
    diff_fits(a, b) ==> {
        let es = diff_edits(lines_of(a), lines_of(b));
        forall|k: int| 0 <= k < es.len() && k < DIFF_MAX_LINES ==> #[trigger] clip_ok(es[k].1)
    }
}

/// The preview text for replacing `a` by `b`.
pub open spec fn diff_text(a: Seq<char>, b: Seq<char>) -> Seq<char> {
    let x = lines_of(a);
    let y = lines_of(b);
    if !diff_fits(a, b) {
        "(diff too large to render: "@ + decimal(x.len()) + " → "@ + decimal(y.len())
            + " lines)"@
    } else {
        let es = diff_edits(x, y);
        if es.len() == 0 {
            "(no textual changes)\n"@
        } else if es.len() <= DIFF_MAX_LINES {
            edits_text(es, es.len() as int)
        } else {
            edits_text(es, DIFF_MAX_LINES as int) + "… "@ + decimal(
                (es.len() - DIFF_MAX_LINES) as nat,
            ) + " more change line(s) hidden\n"@
        }
    }
}

/// The LCS length is bounded by both prefix lengths.
pub proof fn lemma_lcs_bounded(x: Seq<Seq<char>>, y: Seq<Seq<char>>, i: int, j: int)
    requires
        0 <= i,
        0 <= j,
    ensures
        lcs(x, y, i, j) <= i,
        lcs(x, y, i, j) <= j,
    decreases i + j,
{
    if i > 0 && j > 0 {
        lemma_lcs_bounded(x, y, i - 1, j - 1);
        lemma_lcs_bounded(x, y, i - 1, j);
        lemma_lcs_bounded(x, y, i, j - 1);
    }
}

/// Views a vector of strings as the sequence of their characters.
pub open spec fn strings_view(v: Seq<String>) -> Seq<Seq<char>> {
    v.map_values(|s: String| s@)
}

/// Builds the LCS table: row `i`, column `j` holds `lcs(x, y, i, j)`.
fn lcs_table(a_lines: &Vec<String>, b_lines: &Vec<String>) -> (dp: Vec<Vec<u32>>)
    requires
        a_lines@.len() * b_lines@.len() <= DIFF_MAX_CELLS,
    ensures
        dp@.len() == a_lines@.len() + 1,
        forall|r: int| 0 <= r < dp@.len() ==> #[trigger] dp@[r]@.len() == b_lines@.len() + 1,
        forall|r: int, c: int|
            0 <= r < dp@.len() && 0 <= c <= b_lines@.len() ==> #[trigger] dp@[r]@[c] as int
                == lcs(strings_view(a_lines@), strings_view(b_lines@), r, c),
{
    let ghost x = strings_view(a_lines@);
    let ghost y = strings_view(b_lines@);
    let n = a_lines.len();
    let m = b_lines.len();
    let mut row0: Vec<u32> = Vec::new();
    row0.push(0);
    let mut j: usize = 0;
    while j < m
        invariant
            m == b_lines@.len(),
            j <= m,
            row0@.len() == j + 1,
            forall|c: int| 0 <= c < row0@.len() ==> #[trigger] row0@[c] == 0,
        decreases m - j,
    {
        row0.push(0);
        j = j + 1;
    }
    let mut dp: Vec<Vec<u32>> = Vec::new();
    dp.push(row0);
    let mut i: usize = 0;
    while i < n
        invariant
            n == a_lines@.len(),
            m == b_lines@.len(),
            n * m <= DIFF_MAX_CELLS,
            x == strings_view(a_lines@),
            y == strings_view(b_lines@),
            i <= n,
            dp@.len() == i + 1,
            forall|r: int| 0 <= r < dp@.len() ==> #[trigger] dp@[r]@.len() == m + 1,
            forall|r: int, c: int|
                0 <= r < dp@.len() && 0 <= c <= m ==> #[trigger] dp@[r]@[c] as int == lcs(
                    x,
                    y,
                    r,
                    c,
                ),
        decreases n - i,
    {
        let mut row: Vec<u32> = Vec::new();
        row.push(0);
        let mut j: usize = 0;
        if m > 0 {
            assert(n <= DIFF_MAX_CELLS) by (nonlinear_arith)
                requires
                    n * m <= DIFF_MAX_CELLS,
                    m > 0,
            ;
        }
        while j < m
            invariant
                n == a_lines@.len(),
                m == b_lines@.len(),
                m > 0 ==> n <= DIFF_MAX_CELLS,
                x == strings_view(a_lines@),
                y == strings_view(b_lines@),
                i < n,
                j <= m,
                dp@.len() == i + 1,
                forall|r: int| 0 <= r < dp@.len() ==> #[trigger] dp@[r]@.len() == m + 1,
                forall|r: int, c: int|
                    0 <= r < dp@.len() && 0 <= c <= m ==> #[trigger] dp@[r]@[c] as int == lcs(
                        x,
                        y,
                        r,
                        c,
                    ),
                row@.len() == j + 1,
                forall|c: int| 0 <= c <= j ==> #[trigger] row@[c] as int == lcs(x, y, i + 1, c),
            decreases m - j,
        {
            proof {
                lemma_lcs_bounded(x, y, i as int, j as int);
            }
            let v = if a_lines[i] == b_lines[j] {
                dp[i][j] + 1
            } else {
                let left = row[j];
                let up = dp[i][j + 1];
                if up >= left { up } else { left }
            };
            row.push(v);
            j = j + 1;
        }
        dp.push(row);
        i = i + 1;
    }
    dp
}

/// The edit script, built last edit first: `edits[k]` is the edit at
/// position `len - 1 - k` of `diff_edits`.
fn backtrack(a_lines: &Vec<String>, b_lines: &Vec<String>, dp: &Vec<Vec<u32>>) -> (edits: Vec<
    (char, String),
>)
    requires
        dp@.len() == a_lines@.len() + 1,
        forall|r: int| 0 <= r < dp@.len() ==> #[trigger] dp@[r]@.len() == b_lines@.len() + 1,
        forall|r: int, c: int|
            0 <= r < dp@.len() && 0 <= c <= b_lines@.len() ==> #[trigger] dp@[r]@[c] as int
                == lcs(strings_view(a_lines@), strings_view(b_lines@), r, c),
    ensures
        ({
            let es = diff_edits(strings_view(a_lines@), strings_view(b_lines@));
            &&& edits@.len() == es.len()
            &&& forall|k: int|
                0 <= k < edits@.len() ==> (#[trigger] edits@[k]).0 == es[es.len() - 1 - k].0
                    && edits@[k].1@ == es[es.len() - 1 - k].1
        }),
{
    let ghost x = strings_view(a_lines@);
    let ghost y = strings_view(b_lines@);
    let ghost total = diff_edits(x, y);
    let ghost mut suffix: Seq<SpecEdit> = seq![];
    let mut edits: Vec<(char, String)> = Vec::new();
    let mut i = a_lines.len();
    let mut j = b_lines.len();
    assert(total =~= edit_script(x, y, i as nat, j as nat) + suffix);
    while i > 0 || j > 0
        invariant
            x == strings_view(a_lines@),
            y == strings_view(b_lines@),
            i <= a_lines@.len(),
            j <= b_lines@.len(),
            dp@.len() == a_lines@.len() + 1,
            forall|r: int| 0 <= r < dp@.len() ==> #[trigger] dp@[r]@.len() == b_lines@.len() + 1,
            forall|r: int, c: int|
                0 <= r < dp@.len() && 0 <= c <= b_lines@.len() ==> #[trigger] dp@[r]@[c] as int
                    == lcs(x, y, r, c),
            total == edit_script(x, y, i as nat, j as nat) + suffix,
            edits@.len() == suffix.len(),
            forall|k: int|
                0 <= k < edits@.len() ==> (#[trigger] edits@[k]).0 == suffix[suffix.len() - 1
                    - k].0 && edits@[k].1@ == suffix[suffix.len() - 1 - k].1,
        decreases i + j,
    {
        let ghost old_edits = edits@;
        let ghost old_suffix = suffix;
        let e: (char, String);
        if i > 0 && j > 0 && a_lines[i - 1] == b_lines[j - 1] {
            e = (' ', a_lines[i - 1].clone());
            i = i - 1;
            j = j - 1;
        } else if j > 0 && (i == 0 || dp[i][j - 1] >= dp[i - 1][j]) {
            e = ('+', b_lines[j - 1].clone());
            j = j - 1;
        } else {
            e = ('-', a_lines[i - 1].clone());
            i = i - 1;
        }
        proof {
            suffix = seq![(e.0, e.1@)] + old_suffix;
            assert(total =~= edit_script(x, y, i as nat, j as nat) + suffix);
        }
        edits.push(e);
        assert forall|k: int| 0 <= k < edits@.len() implies (#[trigger] edits@[k]).0
            == suffix[suffix.len() - 1 - k].0 && edits@[k].1@ == suffix[suffix.len() - 1 - k].1 by {
            if k < old_edits.len() {
                assert(edits@[k] == old_edits[k]);
            }
        }
    }
    assert(total =~= suffix);
    edits
}

/// Renders the diff preview, or returns `None` when a shown edit line
/// would have to be clipped inside a character (see `diff_renderable`).
pub fn try_render_unified_diff(a: &str, b: &str) -> (out: Option<String>)
    ensures
        out is Some <==> diff_renderable(a@, b@),
        out matches Some(o) ==> o@ == diff_text(a@, b@),
{
    let a_lines = lines(a);
    let b_lines = lines(b);
    let ghost x = lines_of(a@);
    let ghost y = lines_of(b@);
    assert(strings_view(a_lines@) =~= x);
    assert(strings_view(b_lines@) =~= y);
    let n = a_lines.len();
    let m = b_lines.len();
    assert((n as u128) * (m as u128) <= u128::MAX) by (nonlinear_arith)
        requires
            n <= usize::MAX,
            m <= usize::MAX,
    ;
    let cells = (n as u128) * (m as u128);
    if cells > DIFF_MAX_CELLS {
        let mut out = String::new();
        push_str(&mut out, "(diff too large to render: ");
        push_decimal(&mut out, n as u64);
        push_str(&mut out, " → ");
        push_decimal(&mut out, m as u64);
        push_str(&mut out, " lines)");
        return Some(out);
    }
    let dp = lcs_table(&a_lines, &b_lines);
    let edits = backtrack(&a_lines, &b_lines, &dp);
    let ghost es = diff_edits(x, y);
    let total = edits.len();
    let shown = if total < DIFF_MAX_LINES { total } else { DIFF_MAX_LINES };
    let mut out = String::new();
    let mut k: usize = 0;
    while k < shown
        invariant
            es == diff_edits(x, y),
            diff_fits(a@, b@),
            x == lines_of(a@),
            y == lines_of(b@),
            total == edits@.len(),
            total == es.len(),
            shown <= total,
            shown <= DIFF_MAX_LINES,
            shown == total || shown == DIFF_MAX_LINES,
            k <= shown,
            forall|t: int|
                0 <= t < edits@.len() ==> (#[trigger] edits@[t]).0 == es[es.len() - 1 - t].0
                    && edits@[t].1@ == es[es.len() - 1 - t].1,
            forall|t: int| 0 <= t < k ==> #[trigger] clip_ok(es[t].1),
            out@ == edits_text(es, k as int),
        decreases shown - k,
    {
        let e = &edits[total - 1 - k];
        assert(e.0 == es[k as int].0 && e.1@ == es[k as int].1);
        push_char(&mut out, e.0);
        push_char(&mut out, ' ');
        match clip(e.1.as_str()) {
            Some(c) => push_str(&mut out, c.as_str()),
            None => {
                assert(!clip_ok(es[k as int].1));
                return None;
            },
        }
        push_char(&mut out, '\n');
        assert(out@ =~= edits_text(es, k as int) + edit_text(es[k as int]));
        k = k + 1;
    }
    if total > DIFF_MAX_LINES {
        push_str(&mut out, "… ");
        push_decimal(&mut out, (total - DIFF_MAX_LINES) as u64);
        push_str(&mut out, " more change line(s) hidden\n");
    }
    if total == 0 {
        push_str(&mut out, "(no textual changes)\n");
    }
    Some(out)
}

/// Renders the changes from `a` to `b` line by line, each line marked
/// `' '` (kept), `'+'` (added) or `'-'` (removed), using a longest common
/// subsequence. At most 256 lines are shown (with a count of the hidden
/// ones), long lines are clipped at 400 bytes, and when the LCS table would
/// exceed two million cells only the two line counts are reported.
pub fn render_unified_diff(a: &str, b: &str) -> (out: String)
    requires
        diff_renderable(a@, b@),
    ensures
        out@ == diff_text(a@, b@),
{
    match try_render_unified_diff(a, b) {
        Some(o) => o,
        None => {
            assert(false);
            String::new()
        },
    }
}

/// The lines an edit script reads from the old text (kept and removed ones).
pub open spec fn old_side(es: Seq<SpecEdit>) -> Seq<Seq<char>>
    decreases es.len(),
{
    if es.len() == 0 {
        seq![]
    } else if es.last().0 == '+' {
        old_side(es.drop_last())
    } else {
        old_side(es.drop_last()).push(es.last().1)
    }
}

/// The lines an edit script writes to the new text (kept and added ones).
pub open spec fn new_side(es: Seq<SpecEdit>) -> Seq<Seq<char>>
    decreases es.len(),
{
    if es.len() == 0 {
        seq![]
    } else if es.last().0 == '-' {
        new_side(es.drop_last())
    } else {
        new_side(es.drop_last()).push(es.last().1)
    }
}

/// Number of kept lines in an edit script.
pub open spec fn kept_count(es: Seq<SpecEdit>) -> nat
    decreases es.len(),
{
    if es.len() == 0 {
        0
    } else if es.last().0 == ' ' {
        kept_count(es.drop_last()) + 1
    } else {
        kept_count(es.drop_last())
    }
}

proof fn lemma_edit_script(x: Seq<Seq<char>>, y: Seq<Seq<char>>, i: nat, j: nat)
    requires
        i <= x.len(),
        j <= y.len(),
    ensures
        old_side(edit_script(x, y, i, j)) == x.take(i as int),
        new_side(edit_script(x, y, i, j)) == y.take(j as int),
        kept_count(edit_script(x, y, i, j)) == lcs(x, y, i as int, j as int),
    decreases i + j,
{
    let es = edit_script(x, y, i, j);
    if i == 0 && j == 0 {
        assert(x.take(0) =~= Seq::<Seq<char>>::empty());
        assert(y.take(0) =~= Seq::<Seq<char>>::empty());
    } else if i > 0 && j > 0 && x[i - 1] == y[j - 1] {
        lemma_edit_script(x, y, (i - 1) as nat, (j - 1) as nat);
        assert(es.drop_last() == edit_script(x, y, (i - 1) as nat, (j - 1) as nat));
        assert(x.take(i as int) =~= x.take(i - 1).push(x[i - 1]));
        assert(y.take(j as int) =~= y.take(j - 1).push(y[j - 1]));
    } else if j > 0 && (i == 0 || lcs(x, y, i as int, j - 1) >= lcs(x, y, i - 1, j as int)) {
        lemma_edit_script(x, y, i, (j - 1) as nat);
        assert(es.drop_last() == edit_script(x, y, i, (j - 1) as nat));
        assert(y.take(j as int) =~= y.take(j - 1).push(y[j - 1]));
    } else {
        lemma_edit_script(x, y, (i - 1) as nat, j);
        assert(es.drop_last() == edit_script(x, y, (i - 1) as nat, j));
        assert(x.take(i as int) =~= x.take(i - 1).push(x[i - 1]));
    }
}

/// The preview's edit script turns the old lines into the new ones: its
/// kept and removed lines are exactly the old lines, its kept and added
/// lines exactly the new lines, and it keeps as many lines as a longest
/// common subsequence of the two has.
pub proof fn diff_edits_reconstruct(x: Seq<Seq<char>>, y: Seq<Seq<char>>)
    ensures
        old_side(diff_edits(x, y)) == x,
        new_side(diff_edits(x, y)) == y,
        kept_count(diff_edits(x, y)) == lcs(x, y, x.len() as int, y.len() as int),
{
    lemma_edit_script(x, y, x.len(), y.len());
    assert(x.take(x.len() as int) =~= x);
    assert(y.take(y.len() as int) =~= y);
}

proof fn lemma_lcs_steps(x: Seq<Seq<char>>, y: Seq<Seq<char>>, i: int, j: int)
    requires
        0 <= i,
        0 <= j,
    ensures
        i > 0 ==> lcs(x, y, i - 1, j) <= lcs(x, y, i, j) <= lcs(x, y, i - 1, j) + 1,
        j > 0 ==> lcs(x, y, i, j - 1) <= lcs(x, y, i, j) <= lcs(x, y, i, j - 1) + 1,
    decreases i + j,
{
    if i > 0 && j > 0 {
        lemma_lcs_steps(x, y, i - 1, j);
        lemma_lcs_steps(x, y, i, j - 1);
        lemma_lcs_steps(x, y, i - 1, j - 1);
    }
}

proof fn lemma_push_take(s: Seq<Seq<char>>, a: Seq<char>, t: Seq<Seq<char>>, i: int)
    requires
        0 <= i <= t.len(),
        s.push(a) == t.take(i),
    ensures
        i > 0,
        s == t.take(i - 1),
        a == t[i - 1],
{
    assert(s.push(a).len() == i);
    assert(s.push(a)[i - 1] == t.take(i)[i - 1]);
    assert forall|k: int| 0 <= k < s.len() implies s[k] == t.take(i - 1)[k] by {
        assert(s.push(a)[k] == t.take(i)[k]);
    }
    assert(s =~= t.take(i - 1));
}

proof fn lemma_script_keeps_at_most_lcs(
    es: Seq<SpecEdit>,
    x: Seq<Seq<char>>,
    y: Seq<Seq<char>>,
    i: int,
    j: int,
)
    requires
        0 <= i <= x.len(),
        0 <= j <= y.len(),
        old_side(es) == x.take(i),
        new_side(es) == y.take(j),
    ensures
        kept_count(es) <= lcs(x, y, i, j),
    decreases es.len(),
{
    if es.len() == 0 {
        assert(x.take(i).len() == 0);
        assert(y.take(j).len() == 0);
    } else {
        let e = es.last();
        let rest = es.drop_last();
        if e.0 == '+' {
            lemma_push_take(new_side(rest), e.1, y, j);
            lemma_script_keeps_at_most_lcs(rest, x, y, i, j - 1);
            lemma_lcs_steps(x, y, i, j);
        } else if e.0 == '-' {
            lemma_push_take(old_side(rest), e.1, x, i);
            lemma_script_keeps_at_most_lcs(rest, x, y, i - 1, j);
            lemma_lcs_steps(x, y, i, j);
        } else {
            lemma_push_take(old_side(rest), e.1, x, i);
            lemma_push_take(new_side(rest), e.1, y, j);
            lemma_script_keeps_at_most_lcs(rest, x, y, i - 1, j - 1);
            lemma_lcs_steps(x, y, i - 1, j);
            lemma_lcs_steps(x, y, i, j);
        }
    }
}

/// The preview's diff is minimal: any edit script whose kept and removed
/// lines are the old lines and whose kept and added lines are the new
/// lines keeps no more lines than the preview's script does, so the
/// preview shows the fewest added and removed lines possible.
pub proof fn diff_edits_minimal(x: Seq<Seq<char>>, y: Seq<Seq<char>>, es: Seq<SpecEdit>)
    requires
        old_side(es) == x,
        new_side(es) == y,
    ensures
        kept_count(es) <= kept_count(diff_edits(x, y)),
{
    diff_edits_reconstruct(x, y);
    assert(x.take(x.len() as int) =~= x);
    assert(y.take(y.len() as int) =~= y);
    lemma_script_keeps_at_most_lcs(es, x, y, x.len() as int, y.len() as int);
}

proof fn lemma_edit_script_same(x: Seq<Seq<char>>, i: nat)
    requires
        i <= x.len(),
    ensures
        edit_script(x, x, i, i) == Seq::new(i, |k: int| (' ', x[k])),
    decreases i,
{
    if i > 0 {
        lemma_edit_script_same(x, (i - 1) as nat);
        assert(edit_script(x, x, i, i) =~= Seq::new(i, |k: int| (' ', x[k])));
    }
}

/// The rendering of the first `k` lines of `ls` as kept lines.
pub open spec fn kept_lines_text(ls: Seq<Seq<char>>, k: int) -> Seq<char>
    decreases k,
{
    if k <= 0 {
        seq![]
    } else {
        kept_lines_text(ls, k - 1) + seq![' ', ' '] + clip_line(ls[k - 1]) + seq!['\n']
    }
}

proof fn lemma_kept_text(es: Seq<SpecEdit>, x: Seq<Seq<char>>, k: int)
    requires
        0 <= k <= x.len(),
        es == Seq::new(x.len(), |i: int| (' ', x[i])),
    ensures
        edits_text(es, k) == kept_lines_text(x, k),
    decreases k,
{
    if k > 0 {
        lemma_kept_text(es, x, k - 1);
        assert(edit_text(es[k - 1]) =~= seq![' ', ' '] + clip_line(x[k - 1]) + seq!['\n']);
    }
}

/// A text compared with itself shows every one of its lines as kept (a
/// `'  '` line each, clipped as usual), never an added or removed line nor
/// the no-changes note, as long as it has between 1 and 256 lines.
pub proof fn diff_of_a_text_with_itself(a: Seq<char>)
    requires
        1 <= lines_of(a).len() <= DIFF_MAX_LINES,
    ensures
        diff_text(a, a) == kept_lines_text(lines_of(a), lines_of(a).len() as int),
{
    let x = lines_of(a);
    let n = x.len();
    assert(n * n <= DIFF_MAX_CELLS) by (nonlinear_arith)
        requires
            n <= 256,
    ;
    lemma_edit_script_same(x, n);
    lemma_kept_text(diff_edits(x, x), x, n as int);
}

// ----- reading the rendered text back -----

/// `s` holds no line break.
pub open spec fn no_newline(s: Seq<char>) -> bool {
    forall|i: int| 0 <= i < s.len() ==> s[i] != '\n'
}

/// One rendered edit line without its line break.
pub open spec fn edit_line(e: SpecEdit) -> Seq<char> {
    seq![e.0, ' '] + clip_line(e.1)
}

/// The lines of an edit script not marked `mark`, in order.
pub open spec fn lines_without(es: Seq<SpecEdit>, mark: char) -> Seq<Seq<char>>
    decreases es.len(),
{
    if es.len() == 0 {
        seq![]
    } else if es.last().0 == mark {
        lines_without(es.drop_last(), mark)
    } else {
        lines_without(es.drop_last(), mark).push(es.last().1)
    }
}

/// The rendered lines not marked `mark`, each without its two-character
/// marker.
pub open spec fn unmarked(r: Seq<Seq<char>>, mark: char) -> Seq<Seq<char>>
    decreases r.len(),
{
    if r.len() == 0 {
        seq![]
    } else if r.last().len() > 0 && r.last()[0] == mark {
        unmarked(r.drop_last(), mark)
    } else {
        unmarked(r.drop_last(), mark).push(r.last().skip(2))
    }
}

proof fn lemma_split_append(t: Seq<char>, v: Seq<char>, cur: Seq<char>)
    requires
        t.len() == 0 ==> cur.len() == 0,
        t.len() > 0 ==> t.last() == '\n',
    ensures
        split_lines_from(t + v, cur) == split_lines_from(t, cur) + split_lines_from(v, seq![]),
    decreases t.len(),
{
    if t.len() == 0 {
        assert(t + v =~= v);
        assert(cur =~= Seq::<char>::empty());
        assert(split_lines_from(t, cur) =~= Seq::<Seq<char>>::empty());
        assert(split_lines_from(t, cur) + split_lines_from(v, seq![]) =~= split_lines_from(
            v,
            seq![],
        ));
    } else {
        let tv = t + v;
        let t1 = t.drop_first();
        assert(tv.len() > 0);
        assert(tv[0] == t[0]);
        assert(tv.drop_first() =~= t1 + v);
        if t[0] == '\n' {
            lemma_split_append(t1, v, seq![]);
            assert(split_lines_from(tv, cur) == seq![strip_cr(cur)] + split_lines_from(
                t1 + v,
                seq![],
            ));
            assert(split_lines_from(t, cur) == seq![strip_cr(cur)] + split_lines_from(t1, seq![]));
            assert(split_lines_from(tv, cur) =~= split_lines_from(t, cur) + split_lines_from(
                v,
                seq![],
            ));
        } else {
            assert(t1.len() > 0);
            assert(t1.last() == t.last());
            lemma_split_append(t1, v, cur.push(t[0]));
            assert(split_lines_from(tv, cur) == split_lines_from(t1 + v, cur.push(t[0])));
            assert(split_lines_from(t, cur) == split_lines_from(t1, cur.push(t[0])));
        }
    }
}

proof fn lemma_split_single(u: Seq<char>, cur: Seq<char>)
    requires
        no_newline(u),
    ensures
        split_lines_from(u + seq!['\n'], cur) == seq![strip_cr(cur + u)],
    decreases u.len(),
{
    let w = u + seq!['\n'];
    if u.len() == 0 {
        assert(w =~= seq!['\n']);
        assert(cur + u =~= cur);
        assert(w.drop_first() =~= Seq::<char>::empty());
        assert(split_lines_from(w.drop_first(), seq![]) =~= Seq::<Seq<char>>::empty());
        assert(split_lines_from(w, cur) == seq![strip_cr(cur)] + split_lines_from(
            w.drop_first(),
            seq![],
        ));
        assert(split_lines_from(w, cur) =~= seq![strip_cr(cur + u)]);
    } else {
        let u1 = u.drop_first();
        assert(u[0] != '\n');
        assert(w[0] == u[0]);
        assert(w.drop_first() =~= u1 + seq!['\n']);
        assert(no_newline(u1)) by {
            assert forall|i: int| 0 <= i < u1.len() implies u1[i] != '\n' by {
                assert(u1[i] == u[i + 1]);
            }
        }
        lemma_split_single(u1, cur.push(u[0]));
        assert(split_lines_from(w, cur) == split_lines_from(u1 + seq!['\n'], cur.push(u[0])));
        assert(cur.push(u[0]) + u1 =~= cur + u);
    }
}

proof fn lemma_rendered_lines(es: Seq<SpecEdit>, k: int)
    requires
        0 <= k <= es.len(),
        forall|i: int| 0 <= i < k ==> no_newline(#[trigger] edit_line(es[i])),
    ensures
        lines_of(edits_text(es, k)) == Seq::new(k as nat, |i: int| strip_cr(edit_line(es[i]))),
        k > 0 ==> edits_text(es, k).len() > 0 && edits_text(es, k).last() == '\n',
    decreases k,
{
    if k == 0 {
        assert(lines_of(edits_text(es, k)) =~= Seq::<Seq<char>>::empty());
    } else {
        lemma_rendered_lines(es, k - 1);
        let t = edits_text(es, k - 1);
        let l = edit_line(es[k - 1]);
        assert(edit_text(es[k - 1]) =~= l + seq!['\n']);
        lemma_split_append(t, l + seq!['\n'], seq![]);
        lemma_split_single(l, seq![]);
        assert(Seq::<char>::empty() + l =~= l);
        assert(lines_of(edits_text(es, k)) =~= Seq::new(
            k as nat,
            |i: int| strip_cr(edit_line(es[i])),
        ));
    }
}

proof fn lemma_lines_no_newline(s: Seq<char>, cur: Seq<char>)
    requires
        no_newline(cur),
    ensures
        forall|k: int|
            0 <= k < split_lines_from(s, cur).len() ==> no_newline(
                #[trigger] split_lines_from(s, cur)[k],
            ),
    decreases s.len(),
{
    let r = split_lines_from(s, cur);
    if s.len() == 0 {
        assert forall|k: int| 0 <= k < r.len() implies no_newline(#[trigger] r[k]) by {
            assert(r[k] == cur);
        }
    } else if s[0] == '\n' {
        let s1 = s.drop_first();
        lemma_lines_no_newline(s1, seq![]);
        let head = strip_cr(cur);
        assert(no_newline(head)) by {
            assert forall|i: int| 0 <= i < head.len() implies head[i] != '\n' by {
                assert(head[i] == cur[i]);
            }
        }
        let rest = split_lines_from(s1, seq![]);
        assert(r == seq![head] + rest);
        assert forall|k: int| 0 <= k < r.len() implies no_newline(#[trigger] r[k]) by {
            if k == 0 {
                assert(r[k] == head);
            } else {
                assert(r[k] == rest[k - 1]);
            }
        }
    } else {
        let c2 = cur.push(s[0]);
        assert(no_newline(c2)) by {
            assert forall|i: int| 0 <= i < c2.len() implies c2[i] != '\n' by {
                if i < cur.len() {
                    assert(c2[i] == cur[i]);
                }
            }
        }
        lemma_lines_no_newline(s.drop_first(), c2);
        assert(r == split_lines_from(s.drop_first(), c2));
    }
}

proof fn lemma_side_membership(es: Seq<SpecEdit>)
    ensures
        forall|k: int|
            0 <= k < es.len() ==> ((#[trigger] es[k]).0 != '+' ==> old_side(es).contains(es[k].1))
                && (es[k].0 != '-' ==> new_side(es).contains(es[k].1)),
    decreases es.len(),
{
    if es.len() > 0 {
        let d = es.drop_last();
        lemma_side_membership(d);
        assert forall|k: int| 0 <= k < es.len() implies ((#[trigger] es[k]).0 != '+'
            ==> old_side(es).contains(es[k].1)) && (es[k].0 != '-' ==> new_side(es).contains(
            es[k].1,
        )) by {
            if k < d.len() {
                assert(es[k] == d[k]);
                if es[k].0 != '+' {
                    let j = choose|j: int| 0 <= j < old_side(d).len() && old_side(d)[j] == es[k].1;
                    assert(old_side(es)[j] == old_side(d)[j]);
                }
                if es[k].0 != '-' {
                    let j = choose|j: int| 0 <= j < new_side(d).len() && new_side(d)[j] == es[k].1;
                    assert(new_side(es)[j] == new_side(d)[j]);
                }
            } else {
                if es[k].0 != '+' {
                    assert(old_side(es)[old_side(d).len() as int] == es[k].1);
                }
                if es[k].0 != '-' {
                    assert(new_side(es)[new_side(d).len() as int] == es[k].1);
                }
            }
        }
    }
}

proof fn lemma_marks(x: Seq<Seq<char>>, y: Seq<Seq<char>>, i: nat, j: nat)
    ensures
        forall|k: int|
            0 <= k < edit_script(x, y, i, j).len() ==> {
                let m = (#[trigger] edit_script(x, y, i, j)[k]).0;
                m == ' ' || m == '+' || m == '-'
            },
    decreases i + j,
{
    let es = edit_script(x, y, i, j);
    if !(i == 0 && j == 0) {
        let sub = if i > 0 && j > 0 && x[i - 1] == y[j - 1] {
            lemma_marks(x, y, (i - 1) as nat, (j - 1) as nat);
            edit_script(x, y, (i - 1) as nat, (j - 1) as nat)
        } else if j > 0 && (i == 0 || lcs(x, y, i as int, j - 1) >= lcs(x, y, i - 1, j as int)) {
            lemma_marks(x, y, i, (j - 1) as nat);
            edit_script(x, y, i, (j - 1) as nat)
        } else {
            lemma_marks(x, y, (i - 1) as nat, j);
            edit_script(x, y, (i - 1) as nat, j)
        };
        assert(es.drop_last() == sub);
        assert forall|k: int| 0 <= k < es.len() implies {
            let m = (#[trigger] es[k]).0;
            m == ' ' || m == '+' || m == '-'
        } by {
            if k < sub.len() {
                assert(es[k] == sub[k]);
            }
        }
    }
}

proof fn lemma_sides_are_lines_without(es: Seq<SpecEdit>)
    ensures
        old_side(es) == lines_without(es, '+'),
        new_side(es) == lines_without(es, '-'),
    decreases es.len(),
{
    if es.len() > 0 {
        lemma_sides_are_lines_without(es.drop_last());
    }
}

proof fn lemma_unmark(es: Seq<SpecEdit>, k: int, mark: char)
    requires
        0 <= k <= es.len(),
        forall|i: int| 0 <= i < k ==> clip_line(#[trigger] es[i].1) == es[i].1,
    ensures
        unmarked(Seq::new(k as nat, |i: int| edit_line(es[i])), mark) == lines_without(
            es.take(k),
            mark,
        ),
    decreases k,
{
    let r = Seq::new(k as nat, |i: int| edit_line(es[i]));
    if k == 0 {
        assert(es.take(0) =~= Seq::<SpecEdit>::empty());
    } else {
        lemma_unmark(es, k - 1, mark);
        assert(r.drop_last() =~= Seq::new((k - 1) as nat, |i: int| edit_line(es[i])));
        assert(es.take(k).drop_last() =~= es.take(k - 1));
        assert(es.take(k).last() == es[k - 1]);
        let _ = es[k - 1].1;
        assert(clip_line(es[k - 1].1) == es[k - 1].1);
        assert(r.last()[0] == es[k - 1].0);
        assert(r.last().skip(2) =~= es[k - 1].1);
    }
}

proof fn lemma_edit_count(x: Seq<Seq<char>>, y: Seq<Seq<char>>, i: nat, j: nat)
    ensures
        edit_script(x, y, i, j).len() + lcs(x, y, i as int, j as int) == i + j,
    decreases i + j,
{
    if i == 0 && j == 0 {
    } else if i > 0 && j > 0 && x[i - 1] == y[j - 1] {
        lemma_edit_count(x, y, (i - 1) as nat, (j - 1) as nat);
    } else if j > 0 && (i == 0 || lcs(x, y, i as int, j - 1) >= lcs(x, y, i - 1, j as int)) {
        lemma_edit_count(x, y, i, (j - 1) as nat);
    } else {
        lemma_edit_count(x, y, (i - 1) as nat, j);
    }
}

/// The preview's edit script has one line per old line and one per new
/// line, less one for each line of a longest common subsequence (which is
/// shown once, as kept).
pub proof fn diff_edit_count(x: Seq<Seq<char>>, y: Seq<Seq<char>>)
    ensures
        diff_edits(x, y).len() == x.len() + y.len() - lcs(x, y, x.len() as int, y.len() as int),
{
    lemma_edit_count(x, y, x.len(), y.len());
}

/// The shape of the preview, by the number of changed and kept lines: with
/// `n` old lines, `m` new lines and a longest common subsequence of `l`,
/// there are `n + m - l` edit lines; a preview with none happens exactly
/// when both texts have no lines and says so; past 256 edit lines it ends
/// by counting the `n + m - l - 256` hidden ones; and when `n * m` exceeds
/// two million only the two line counts, old first, are reported.
pub proof fn diff_preview_shape(a: Seq<char>, b: Seq<char>)
    ensures
        ({
            let n = lines_of(a).len();
            let m = lines_of(b).len();
            let l = lcs(lines_of(a), lines_of(b), n as int, m as int);
            let total = n + m - l;
            let t = diff_text(a, b);
            &&& n * m > 2_000_000 ==> t == "(diff too large to render: "@ + decimal(n) + " → "@
                + decimal(m) + " lines)"@
            &&& n * m <= 2_000_000 ==> (t == "(no textual changes)\n"@ <==> n == 0 && m == 0)
            &&& n * m <= 2_000_000 && total > 256 ==> t == edits_text(
                diff_edits(lines_of(a), lines_of(b)),
                256,
            ) + "… "@ + decimal((total - 256) as nat) + " more change line(s) hidden\n"@
        }),
{
    let x = lines_of(a);
    let y = lines_of(b);
    let n = x.len();
    let m = y.len();
    diff_edit_count(x, y);
    lemma_lcs_bounded(x, y, n as int, m as int);
    let es = diff_edits(x, y);
    lemma_marks(x, y, n, m);
    if es.len() > 0 {
        assert(es[0].0 == ' ' || es[0].0 == '+' || es[0].0 == '-');
    }
    if n * m <= 2_000_000 {
        if es.len() > 0 && es.len() <= DIFF_MAX_LINES {
            let t = edits_text(es, es.len() as int);
            lemma_edits_text_ends(es, es.len() as int);
            assert(t.last() == '\n');
            let note = "(no textual changes)\n"@;
            reveal_strlit("(no textual changes)\n");
            if t == note {
                lemma_edits_text_starts(es, es.len() as int);
                assert(t[0] == note[0]);
            }
        }
        if es.len() > DIFF_MAX_LINES {
            let t = diff_text(a, b);
            let note = "(no textual changes)\n"@;
            reveal_strlit("(no textual changes)\n");
            lemma_edits_text_starts(es, 256);
            let p = edits_text(es, 256);
            assert(t[0] == p[0]);
            assert(t != note) by {
                assert(t[0] != note[0]);
            }
        }
    }
}

proof fn lemma_edits_text_ends(es: Seq<SpecEdit>, k: int)
    requires
        0 < k <= es.len(),
    ensures
        edits_text(es, k).len() > 0 && edits_text(es, k).last() == '\n',
{
    let t = edits_text(es, k);
    assert(t == edits_text(es, k - 1) + edit_text(es[k - 1]));
}

proof fn lemma_edits_text_starts(es: Seq<SpecEdit>, k: int)
    requires
        0 < k <= es.len(),
        es[0].0 == ' ' || es[0].0 == '+' || es[0].0 == '-',
    ensures
        edits_text(es, k).len() > 0 && (edits_text(es, k)[0] == ' ' || edits_text(es, k)[0] == '+'
            || edits_text(es, k)[0] == '-'),
    decreases k,
{
    if k == 1 {
        assert(edits_text(es, 0) =~= Seq::<char>::empty());
        assert(edits_text(es, 1) =~= edit_text(es[0]));
    } else {
        lemma_edits_text_starts(es, k - 1);
        assert(edits_text(es, k)[0] == edits_text(es, k - 1)[0]);
    }
}

/// Both texts can be read back from the rendered preview: when every edit
/// line is shown (old plus new lines, less a longest common subsequence,
/// at most 256) and no line is longer than 400
/// bytes or ends in a carriage return, the rendered lines not marked `+`,
/// without their markers, are the old lines, and those not marked `-` are
/// the new lines.
pub proof fn diff_text_gives_back_both_texts(a: Seq<char>, b: Seq<char>)
    requires
        diff_fits(a, b),
        lines_of(a).len() + lines_of(b).len() > 0,
        lines_of(a).len() + lines_of(b).len() - lcs(
            lines_of(a),
            lines_of(b),
            lines_of(a).len() as int,
            lines_of(b).len() as int,
        ) <= DIFF_MAX_LINES,
        forall|i: int|
            0 <= i < lines_of(a).len() ==> utf8_len(#[trigger] lines_of(a)[i]) <= 400 && (
            lines_of(a)[i].len() == 0 || lines_of(a)[i].last() != '\r'),
        forall|i: int|
            0 <= i < lines_of(b).len() ==> utf8_len(#[trigger] lines_of(b)[i]) <= 400 && (
            lines_of(b)[i].len() == 0 || lines_of(b)[i].last() != '\r'),
    ensures
        unmarked(lines_of(diff_text(a, b)), '+') == lines_of(a),
        unmarked(lines_of(diff_text(a, b)), '-') == lines_of(b),
{
    let x = lines_of(a);
    let y = lines_of(b);
    let es = diff_edits(x, y);
    diff_edit_count(x, y);
    diff_edits_reconstruct(x, y);
    lemma_side_membership(es);
    lemma_lines_no_newline(a, seq![]);
    lemma_lines_no_newline(b, seq![]);
    lemma_sides_are_lines_without(es);
    assert(es.len() > 0) by {
        if es.len() == 0 {
            assert(old_side(es).len() == 0 && new_side(es).len() == 0);
        }
    }
    lemma_marks(x, y, x.len(), y.len());
    assert forall|i: int| 0 <= i < es.len() implies {
        &&& clip_line(#[trigger] es[i].1) == es[i].1
        &&& no_newline(edit_line(es[i]))
        &&& strip_cr(edit_line(es[i])) == edit_line(es[i])
    } by {
        let l = es[i].1;
        let m = es[i].0;
        assert(m == ' ' || m == '+' || m == '-');
        if m != '+' {
            assert(old_side(es).contains(l));
            let j = choose|j: int| 0 <= j < x.len() && x[j] == l;
            assert(utf8_len(x[j]) <= 400 && (x[j].len() == 0 || x[j].last() != '\r'));
            assert(no_newline(split_lines_from(a, seq![])[j]));
        } else {
            assert(new_side(es).contains(l));
            let j = choose|j: int| 0 <= j < y.len() && y[j] == l;
            assert(utf8_len(y[j]) <= 400 && (y[j].len() == 0 || y[j].last() != '\r'));
            assert(no_newline(split_lines_from(b, seq![])[j]));
        }
        assert(utf8_len(l) <= 400 && no_newline(l) && (l.len() == 0 || l.last() != '\r'));
        assert(clip_line(l) == l);
        let e = edit_line(es[i]);
        assert(e =~= seq![m, ' '] + l);
        assert(no_newline(e)) by {
            assert forall|q: int| 0 <= q < e.len() implies e[q] != '\n' by {
                if q >= 2 {
                    assert(e[q] == l[q - 2]);
                }
            }
        }
        assert(e.last() != '\r');
    }
    lemma_rendered_lines(es, es.len() as int);
    let r = lines_of(diff_text(a, b));
    assert(r =~= Seq::new(es.len(), |i: int| edit_line(es[i])));
    lemma_unmark(es, es.len() as int, '+');
    lemma_unmark(es, es.len() as int, '-');
    assert(es.take(es.len() as int) =~= es);
}

} // verus!
