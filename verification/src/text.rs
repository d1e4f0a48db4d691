//! Character-level string helpers shared by the rest of the library:
//! decimal rendering, substring search and line splitting, each with a
//! specification over `Seq<char>`.
use vstd::prelude::*;
use vstd::string::StringSliceAdditionalSpecFns;

verus! {

// ---------------------------------------------------------------------------
// Thin bridges to `std` string operations.
// ---------------------------------------------------------------------------

/// `str::chars` collected into a vector: the characters of `s`, in order.
#[verifier::external_body]
pub(crate) fn chars_of(s: &str) -> (v: Vec<char>)
    ensures
        v@ == s@,
{
    s.chars().collect()
}

/// `String::push`: appends one character.
#[verifier::external_body]
pub(crate) fn push_char(s: &mut String, c: char)
    ensures
        final(s)@ == old(s)@.push(c),
{
    s.push(c)
}

/// `String::push_str`: appends a string slice.
#[verifier::external_body]
pub(crate) fn push_str(s: &mut String, t: &str)
    ensures
        final(s)@ == old(s)@ + t@,
{
    s.push_str(t)
}

/// `str::len`: the length of `s` in bytes, that is, of its UTF-8 encoding
/// (a length in memory, so it fits a `usize`).
#[verifier::external_body]
pub(crate) fn byte_len(s: &str) -> (n: usize)
    ensures
        n as int == vstd::utf8::encode_utf8(s@).len(),
{
    s.len()
}

/// `std` lower-casing of a string (`str::to_lowercase`), as a function of its characters.
pub uninterp spec fn spec_lowercase(s: Seq<char>) -> Seq<char>;

/// `str::to_lowercase`. The Unicode case tables are not restated here: the
/// result is the named function `spec_lowercase` of the input characters.
#[verifier::external_body]
pub(crate) fn to_lowercase(s: &str) -> (r: String)
    ensures
        r@ == spec_lowercase(s@),
{
    s.to_lowercase()
}

/// The Unicode `White_Space` property, which `char::is_whitespace` and
/// `str::trim` go by: tab through carriage return, space, next line,
/// no-break space, ogham space mark, en quad through hair space, line and
/// paragraph separators, narrow no-break space, medium mathematical space
/// and ideographic space.
pub open spec fn white_space(c: char) -> bool {
    let u = c as u32;
    ||| 0x09 <= u <= 0x0D
    ||| u == 0x20 || u == 0x85 || u == 0xA0 || u == 0x1680
    ||| 0x2000 <= u <= 0x200A
    ||| u == 0x2028 || u == 0x2029 || u == 0x202F || u == 0x205F || u == 0x3000
}

/// Whether `c` is white space (see `white_space`).
pub fn is_whitespace(c: char) -> (r: bool)
    ensures
        r == white_space(c),
{
    let u = c as u32;
    (0x09 <= u && u <= 0x0D) || u == 0x20 || u == 0x85 || u == 0xA0 || u == 0x1680 || (0x2000
        <= u && u <= 0x200A) || u == 0x2028 || u == 0x2029 || u == 0x202F || u == 0x205F || u
        == 0x3000
}

/// `String::from_utf8_lossy` as a function of the input bytes.
pub uninterp spec fn spec_utf8_lossy(bytes: Seq<u8>) -> Seq<char>;

/// `String::from_utf8_lossy(..).into_owned()`. Valid UTF-8 decodes exactly
/// (as its documentation states); how invalid sequences are replaced by
/// U+FFFD is left to the named function `spec_utf8_lossy`.
#[verifier::external_body]
pub(crate) fn utf8_lossy(bytes: &[u8]) -> (s: String)
    ensures
        s@ == spec_utf8_lossy(bytes@),
        vstd::utf8::valid_utf8(bytes@) ==> s@ == vstd::utf8::decode_utf8(bytes@),
{
    String::from_utf8_lossy(bytes).into_owned()
}

// ---------------------------------------------------------------------------
// Decimal rendering.
// ---------------------------------------------------------------------------

/// The ASCII digit for `d` (`d < 10`).
pub open spec fn digit_char(d: nat) -> char {
    if d == 0 { '0' }
    else if d == 1 { '1' }
    else if d == 2 { '2' }
    else if d == 3 { '3' }
    else if d == 4 { '4' }
    else if d == 5 { '5' }
    else if d == 6 { '6' }
    else if d == 7 { '7' }
    else if d == 8 { '8' }
    else { '9' }
}

/// The shortest base-10 rendering of `n` (as `Display` for integers prints it).
pub open spec fn decimal(n: nat) -> Seq<char>
    decreases n,
{
    if n < 10 {
        seq![digit_char(n)]
    } else {
        decimal(n / 10).push(digit_char(n % 10))
    }
}

/// Base-10 rendering of a signed integer, with a leading `-` when negative.
pub open spec fn signed_decimal(n: int) -> Seq<char> {
    if n < 0 {
        seq!['-'] + decimal((-n) as nat)
    } else {
        decimal(n as nat)
    }
}

fn digit(d: u64) -> (c: char)
    requires
        d < 10,
    ensures
        c == digit_char(d as nat),
{
    if d == 0 { '0' }
    else if d == 1 { '1' }
    else if d == 2 { '2' }
    else if d == 3 { '3' }
    else if d == 4 { '4' }
    else if d == 5 { '5' }
    else if d == 6 { '6' }
    else if d == 7 { '7' }
    else if d == 8 { '8' }
    else { '9' }
}

/// Appends the decimal rendering of `n` to `s`.
pub fn push_decimal(s: &mut String, n: u64)
    ensures
        final(s)@ == old(s)@ + decimal(n as nat),
    decreases n,
{
    if n >= 10 {
        push_decimal(s, n / 10);
    }
    push_char(s, digit(n % 10));
    proof {
        if n < 10 {
            assert(old(s)@ + decimal(n as nat) =~= old(s)@.push(digit_char(n as nat)));
        } else {
            assert(old(s)@ + decimal(n as nat) =~= (old(s)@ + decimal((n / 10) as nat)).push(
                digit_char((n % 10) as nat),
            ));
        }
    }
}

/// Appends the decimal rendering of a signed `n` to `s`.
pub fn push_signed_decimal(s: &mut String, n: i64)
    ensures
        final(s)@ == old(s)@ + signed_decimal(n as int),
{
    if n < 0 {
        push_char(s, '-');
        let m: u64 = (-(n as i128)) as u64;
        push_decimal(s, m);
        assert(old(s)@ + signed_decimal(n as int) =~= old(s)@.push('-') + decimal(m as nat));
    } else {
        push_decimal(s, n as u64);
    }
}

// ---------------------------------------------------------------------------
// Substring search.
// ---------------------------------------------------------------------------

/// `needle` occurs in `hay` starting at position `i`.
pub open spec fn occurs_at(hay: Seq<char>, needle: Seq<char>, i: int) -> bool {
    0 <= i && i + needle.len() <= hay.len() && hay.subrange(i, i + needle.len()) == needle
}

/// `needle` occurs somewhere in `hay` (`str::contains` with a string pattern).
pub open spec fn contains(hay: Seq<char>, needle: Seq<char>) -> bool {
    exists|i: int| occurs_at(hay, needle, i)
}

fn matches_at(hay: &Vec<char>, needle: &Vec<char>, i: usize) -> (r: bool)
    requires
        i + needle@.len() <= hay@.len(),
    ensures
        r == occurs_at(hay@, needle@, i as int),
{
    let mut k: usize = 0;
    while k < needle.len()
        invariant
            k <= needle@.len(),
            i + needle@.len() <= hay@.len(),
            forall|t: int| 0 <= t < k ==> hay@[i + t] == needle@[t],
        decreases needle@.len() - k,
    {
        assert(i + k < hay@.len());
        assert(hay@.len() == hay.len());
        if hay[i + k] != needle[k] {
            assert(hay@.subrange(i as int, i + needle@.len())[k as int] != needle@[k as int]);
            return false;
        }
        k = k + 1;
    }
    assert(hay@.subrange(i as int, i + needle@.len()) =~= needle@);
    true
}

/// Whether `needle` occurs in `hay`.
pub fn contains_chars(hay: &Vec<char>, needle: &Vec<char>) -> (r: bool)
    ensures
        r == contains(hay@, needle@),
{
    if needle.len() > hay.len() {
        return false;
    }
    let last = hay.len() - needle.len();
    let mut i: usize = 0;
    loop
        invariant
            last == hay@.len() - needle@.len(),
            needle@.len() <= hay@.len(),
            i <= last,
            forall|j: int| 0 <= j < i ==> !occurs_at(hay@, needle@, j),
        ensures
            forall|j: int| 0 <= j <= last ==> !occurs_at(hay@, needle@, j),
        decreases last - i,
    {
        if matches_at(hay, needle, i) {
            return true;
        }
        if i == last {
            break;
        }
        i = i + 1;
    }
    assert forall|j: int| !occurs_at(hay@, needle@, j) by {
        if 0 <= j && j + needle@.len() <= hay@.len() {
            assert(j <= last);
        }
    }
    false
}

// ---------------------------------------------------------------------------
// Line splitting (`str::lines`).
// ---------------------------------------------------------------------------

/// A line with one trailing carriage return removed, if it has one.
pub open spec fn strip_cr(l: Seq<char>) -> Seq<char> {
    if l.len() > 0 && l.last() == '\r' {
        l.drop_last()
    } else {
        l
    }
}

/// The lines of `cur + s`, where `cur` is the part of the current line read
/// so far: lines end at `\n`, a `\r` just before a `\n` is dropped, and a
/// final line ending adds no empty line.
pub open spec fn split_lines_from(s: Seq<char>, cur: Seq<char>) -> Seq<Seq<char>>
    decreases s.len(),
{
    if s.len() == 0 {
        if cur.len() == 0 {
            seq![]
        } else {
            seq![cur]
        }
    } else if s[0] == '\n' {
        seq![strip_cr(cur)] + split_lines_from(s.drop_first(), seq![])
    } else {
        split_lines_from(s.drop_first(), cur.push(s[0]))
    }
}

/// The lines of `s`, as `str::lines` yields them.
pub open spec fn lines_of(s: Seq<char>) -> Seq<Seq<char>> {
    split_lines_from(s, seq![])
}

/// The string made of `v[start..end]`.
pub fn string_of_range(v: &Vec<char>, start: usize, end: usize) -> (s: String)
    requires
        start <= end <= v@.len(),
    ensures
        s@ == v@.subrange(start as int, end as int),
{
    let mut s = String::new();
    let mut k = start;
    while k < end
        invariant
            start <= k <= end <= v@.len(),
            s@ == v@.subrange(start as int, k as int),
        decreases end - k,
    {
        push_char(&mut s, v[k]);
        assert(v@.subrange(start as int, k + 1) =~= v@.subrange(start as int, k as int).push(
            v@[k as int],
        ));
        k = k + 1;
    }
    s
}

/// Splits `s` into lines, as `str::lines` does.
pub fn lines(s: &str) -> (r: Vec<String>)
    ensures
        r@.len() == lines_of(s@).len(),
        forall|k: int| 0 <= k < r@.len() ==> #[trigger] r@[k]@ == lines_of(s@)[k],
{
    let v = chars_of(s);
    let n = v.len();
    let mut r: Vec<String> = Vec::new();
    let ghost mut rv: Seq<Seq<char>> = seq![];
    let mut start: usize = 0;
    let mut i: usize = 0;
    assert(v@.skip(0) =~= v@);
    assert(v@.subrange(0, 0) =~= Seq::<char>::empty());
    assert(rv + lines_of(s@) =~= lines_of(s@));
    while i < n
        invariant
            n == v@.len(),
            v@ == s@,
            start <= i <= n,
            r@.len() == rv.len(),
            forall|k: int| 0 <= k < r@.len() ==> #[trigger] r@[k]@ == rv[k],
            rv + split_lines_from(v@.skip(i as int), v@.subrange(start as int, i as int))
                == lines_of(s@),
        decreases n - i,
    {
        let ghost cur = v@.subrange(start as int, i as int);
        assert(v@.skip(i as int).drop_first() =~= v@.skip(i + 1));
        assert(v@.skip(i as int)[0] == v@[i as int]);
        if v[i] == '\n' {
            let mut end = i;
            if end > start && v[end - 1] == '\r' {
                end = end - 1;
                assert(strip_cr(cur) =~= v@.subrange(start as int, end as int));
            } else {
                assert(strip_cr(cur) =~= v@.subrange(start as int, end as int));
            }
            let line = string_of_range(&v, start, end);
            r.push(line);
            proof {
                rv = rv.push(strip_cr(cur));
                assert(rv + split_lines_from(v@.skip(i + 1), seq![]) =~= (rv.drop_last() + (
                seq![strip_cr(cur)] + split_lines_from(v@.skip(i + 1), seq![]))));
                assert(v@.subrange((i + 1) as int, (i + 1) as int) =~= Seq::<char>::empty());
            }
            start = i + 1;
        } else {
            assert(v@.subrange(start as int, i + 1) =~= cur.push(v@[i as int]));
        }
        i = i + 1;
    }
    assert(v@.skip(n as int) =~= Seq::<char>::empty());
    if start < n {
        let line = string_of_range(&v, start, n);
        r.push(line);
        proof {
            rv = rv.push(v@.subrange(start as int, n as int));
        }
    }
    r
}

// ---------------------------------------------------------------------------
// Clipping long lines for display.
// ---------------------------------------------------------------------------

/// Lines longer than this many UTF-8 bytes are clipped in tool output.
pub const LINE_CLIP_BYTES: usize = 400;

/// Length of `s` in UTF-8 bytes (what `str::len` returns).
pub open spec fn utf8_len(s: Seq<char>) -> nat {
    vstd::utf8::encode_utf8(s).len()
}

/// Byte `LINE_CLIP_BYTES` of `l` falls on a character boundary, or `l` is
/// short enough not to be clipped: slicing `&l[..400]` does not panic.
pub open spec fn clip_ok(l: Seq<char>) -> bool {
    utf8_len(l) <= LINE_CLIP_BYTES || vstd::utf8::is_char_boundary(
        vstd::utf8::encode_utf8(l),
        LINE_CLIP_BYTES as int,
    )
}

/// `l` as shown in tool output: its first 400 bytes followed by `…` when it
/// is longer than that, else `l` itself.
pub open spec fn clip_line(l: Seq<char>) -> Seq<char> {
    if utf8_len(l) > LINE_CLIP_BYTES {
        vstd::utf8::decode_utf8(vstd::utf8::encode_utf8(l).take(LINE_CLIP_BYTES as int)).push('…')
    } else {
        l
    }
}

/// Clips `line` for display; `None` exactly when byte 400 would split a
/// character.
pub fn clip(line: &str) -> (r: Option<String>)
    ensures
        r is Some <==> clip_ok(line@),
        r matches Some(c) ==> c@ == clip_line(line@),
{
    broadcast use vstd::utf8::encode_utf8_valid_utf8, vstd::utf8::encode_utf8_decode_utf8;

    if byte_len(line) > LINE_CLIP_BYTES {
        if !line.is_char_boundary(LINE_CLIP_BYTES) {
            return None;
        }
        let (head, _tail) = line.split_at(LINE_CLIP_BYTES);
        let mut out = head.to_owned();
        push_char(&mut out, '…');
        proof {
            assert(head.spec_bytes() =~= vstd::utf8::encode_utf8(line@).take(LINE_CLIP_BYTES as int));
            assert(vstd::utf8::decode_utf8(vstd::utf8::encode_utf8(head@)) == head@);
        }
        Some(out)
    } else {
        Some(line.to_owned())
    }
}

/// Clipping keeps a line of at most 400 bytes as it is; a longer line is
/// clipped (when byte 400 starts a character) to a shorter text ending in
/// `…`.
pub proof fn clipping_keeps_short_lines(l: Seq<char>)
    ensures
        utf8_len(l) <= 400 ==> clip_ok(l) && clip_line(l) == l,
        utf8_len(l) > 400 ==> (clip_ok(l) <==> vstd::utf8::is_char_boundary(
            vstd::utf8::encode_utf8(l),
            400,
        )),
        utf8_len(l) > 400 ==> clip_line(l).len() > 0 && clip_line(l).last() == '…',
{
}

} // verus!
