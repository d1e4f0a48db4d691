//! Plain-substring search across the files of a workspace. The directory
//! walk is driven from outside (it reads the disk); every decision — which
//! entries to skip, which files look binary, which lines match, when to
//! stop — is made here.
use vstd::prelude::*;

use crate::error::{Error, ErrorView};
use crate::paths::{display_relative, is_prefix, relative_display};
use crate::text::{
    chars_of, clip, clip_line, clip_ok, contains, contains_chars, lines, lines_of, spec_lowercase,
    to_lowercase,
};

verus! {

/// Results are never capped above this.
pub const SEARCH_MAX_CEILING: u32 = 1000;

/// Result cap when none is asked for.
pub const SEARCH_DEFAULT_CAP: u32 = 100;

/// Files larger than this are not searched.
pub const SEARCH_MAX_FILE_BYTES: u64 = 4194304;

/// A file with a NUL among its first this-many bytes is taken as binary.
pub const BINARY_PROBE_BYTES: usize = 8192;

/// One matching line.
#[derive(Debug, Clone, PartialEq, Eq)]
pub struct SearchMatch {
    /// The file, relative to the workspace root.
    pub path: String,
    /// 1-based line number.
    pub line_number: u32,
    /// The line, clipped at 400 bytes.
    pub line: String,
}

/// Outcome of a search.
#[derive(Debug, Clone, PartialEq, Eq)]
pub struct SearchResult {
    pub query: String,
    pub matches: Vec<SearchMatch>,
    /// The cap was reached, so later matches may be missing.
    pub truncated: bool,
    pub files_scanned: u32,
}

/// The result cap: the one asked for (default 100), at most 1000.
pub open spec fn search_cap_of(max_results: Option<u32>) -> u32 {
    let asked = match max_results {
        Some(m) => m,
        None => SEARCH_DEFAULT_CAP,
    };
    if asked < SEARCH_MAX_CEILING {
        asked
    } else {
        SEARCH_MAX_CEILING
    }
}

/// The walk skips hidden entries (a name starting with `.`) and the four
/// dependency and build directories, and nothing else: any other name,
/// such as a file name with an extension, is walked.
pub proof fn only_hidden_and_vendor_entries_are_skipped(name: Seq<char>)
    ensures
        name.len() > 0 && name[0] == '.' ==> skipped_name(name),
        name == "node_modules"@ || name == "target"@ || name == "dist"@ || name == "dist-js"@
            ==> skipped_name(name),
        (name.len() == 0 || name[0] != '.') && name != "node_modules"@ && name != "target"@
            && name != "dist"@ && name != "dist-js"@ ==> !skipped_name(name),
{
}

/// The limits of the walk: a file looks binary exactly when a NUL byte is
/// among its first 8192 bytes, files over 4 MiB are not searched, and
/// without a requested cap at most 100 matches are recorded.
pub proof fn search_limits(bytes: Seq<u8>, len: u64)
    ensures
        looks_binary_bytes(bytes) <==> exists|i: int|
            0 <= i < bytes.len() && i < 8192 && #[trigger] bytes[i] == 0,
        len > SEARCH_MAX_FILE_BYTES <==> len > 4194304,
        search_cap_of(None) == 100,
{
}

/// The result cap never exceeds 1000, and a requested cap below that is
/// used as is.
pub proof fn search_cap_bounded(max_results: Option<u32>)
    ensures
        search_cap_of(max_results) <= SEARCH_MAX_CEILING,
        SEARCH_MAX_CEILING == 1000,
        max_results matches Some(m) ==> (m <= SEARCH_MAX_CEILING ==> search_cap_of(max_results)
            == m),
{
}

/// Directory entries the walk never enters or reads: hidden names and
/// dependency / build output directories.
pub open spec fn skipped_name(name: Seq<char>) -> bool {
    ||| (name.len() > 0 && name[0] == '.')
    ||| name == "node_modules"@
    ||| name == "target"@
    ||| name == "dist"@
    ||| name == "dist-js"@
}

/// Whether the walk skips an entry of this name.
pub fn skip_entry_name(name: &str) -> (r: bool)
    ensures
        r == skipped_name(name@),
{
    let v = chars_of(name);
    if v.len() > 0 && v[0] == '.' {
        return true;
    }
    let s = name.to_owned();
    s == "node_modules".to_owned() || s == "target".to_owned() || s == "dist".to_owned() || s
        == "dist-js".to_owned()
}

/// A file of `len` bytes is too large to search.
pub fn file_too_large(len: u64) -> (r: bool)
    ensures
        r == (len > SEARCH_MAX_FILE_BYTES),
{
    len > SEARCH_MAX_FILE_BYTES
}

/// The file looks binary: a NUL byte among its first 8192 bytes.
pub open spec fn looks_binary_bytes(bytes: Seq<u8>) -> bool {
    exists|i: int| 0 <= i < bytes.len() && i < BINARY_PROBE_BYTES && bytes[i] == 0
}

/// Whether a file's contents look binary.
pub fn looks_binary(bytes: &[u8]) -> (r: bool)
    ensures
        r == looks_binary_bytes(bytes@),
{
    let end = if bytes.len() < BINARY_PROBE_BYTES {
        bytes.len()
    } else {
        BINARY_PROBE_BYTES
    };
    let mut i: usize = 0;
    while i < end
        invariant
            end <= bytes@.len(),
            end <= BINARY_PROBE_BYTES,
            end == bytes@.len() || end == BINARY_PROBE_BYTES,
            i <= end,
            forall|k: int| 0 <= k < i ==> bytes@[k] != 0,
        decreases end - i,
    {
        if bytes[i] == 0 {
            return true;
        }
        i = i + 1;
    }
    false
}

/// A line matches: it contains the query, or, in a case-insensitive
/// search, its lower-cased form contains the lower-cased query.
pub open spec fn line_hits(line: Seq<char>, query: Seq<char>, case_insensitive: bool) -> bool {
    if case_insensitive {
        contains(spec_lowercase(line), spec_lowercase(query))
    } else {
        contains(line, query)
    }
}

/// The matching lines of `ls`, in order, each with its 0-based index.
pub open spec fn hits(ls: Seq<Seq<char>>, query: Seq<char>, case_insensitive: bool) -> Seq<
    (int, Seq<char>),
>
    decreases ls.len(),
{
    if ls.len() == 0 {
        seq![]
    } else {
        let h = hits(ls.drop_last(), query, case_insensitive);
        if line_hits(ls.last(), query, case_insensitive) {
            h.push(((ls.len() - 1) as int, ls.last()))
        } else {
            h
        }
    }
}

/// A match as the specification sees it: path, line number, line.
pub type MatchView = (Seq<char>, u32, Seq<char>);

/// The match recorded for hit `h` of the file shown as `path`.
pub open spec fn match_of(path: Seq<char>, h: (int, Seq<char>)) -> MatchView {
    (path, (h.0 + 1) as u32, clip_line(h.1))
}

/// The views of recorded matches.
pub open spec fn matches_view(ms: Seq<SearchMatch>) -> Seq<MatchView> {
    ms.map_values(|m: SearchMatch| (m.path@, m.line_number, m.line@))
}

/// Abstract state of a search.
pub struct SearchView {
    pub query: Seq<char>,
    pub case_insensitive: bool,
    pub cap: nat,
    pub root: Seq<char>,
    pub pending: Seq<Seq<char>>,
    pub matches: Seq<MatchView>,
    pub truncated: bool,
    pub files_scanned: u32,
}

/// A search in progress: the query, the directories still to visit (a
/// stack), and the matches found so far.
pub struct Search {
    query: String,
    query_chars: Vec<char>,
    needle_lower: Vec<char>,
    case_insensitive: bool,
    cap: usize,
    root: String,
    pending: Vec<String>,
    matches: Vec<SearchMatch>,
    truncated: bool,
    files_scanned: u32,
}

impl View for Search {
    type V = SearchView;

    closed spec fn view(&self) -> SearchView {
        SearchView {
            query: self.query@,
            case_insensitive: self.case_insensitive,
            cap: self.cap as nat,
            root: self.root@,
            pending: self.pending@.map_values(|d: String| d@),
            matches: matches_view(self.matches@),
            truncated: self.truncated,
            files_scanned: self.files_scanned,
        }
    }
}

proof fn lemma_hits_step(ls: Seq<Seq<char>>, idx: int, query: Seq<char>, ci: bool)
    requires
        0 <= idx < ls.len(),
    ensures
        hits(ls.take(idx + 1), query, ci) == if line_hits(ls[idx], query, ci) {
            hits(ls.take(idx), query, ci).push((idx, ls[idx]))
        } else {
            hits(ls.take(idx), query, ci)
        },
{
    assert(ls.take(idx + 1).drop_last() =~= ls.take(idx));
    assert(ls.take(idx + 1).last() == ls[idx]);
}

proof fn lemma_hits_prefix(ls: Seq<Seq<char>>, i: int, query: Seq<char>, ci: bool)
    requires
        0 <= i <= ls.len(),
    ensures
        is_prefix(hits(ls.take(i), query, ci), hits(ls, query, ci)),
    decreases ls.len(),
{
    if i == ls.len() {
        assert(ls.take(i) =~= ls);
        assert(hits(ls, query, ci).take(hits(ls, query, ci).len() as int) =~= hits(ls, query, ci));
    } else {
        let d = ls.drop_last();
        assert(ls.take(i) =~= d.take(i));
        lemma_hits_prefix(d, i, query, ci);
        let a = hits(d.take(i), query, ci);
        let b = hits(d, query, ci);
        let c = hits(ls, query, ci);
        assert(c.take(b.len() as int) =~= b);
        assert(c.take(a.len() as int) =~= b.take(a.len() as int));
    }
}

/// The result cap for an optional requested maximum.
pub fn search_cap(max_results: Option<u32>) -> (r: u32)
    ensures
        r == search_cap_of(max_results),
{
    let asked = match max_results {
        Some(m) => m,
        None => SEARCH_DEFAULT_CAP,
    };
    if asked < SEARCH_MAX_CEILING {
        asked
    } else {
        SEARCH_MAX_CEILING
    }
}

impl Search {
    /// The search's internal bookkeeping is consistent.
    pub closed spec fn wf(&self) -> bool {
        &&& self.query_chars@ == self.query@
        &&& self.needle_lower@ == spec_lowercase(self.query@)
        &&& self.cap <= SEARCH_MAX_CEILING
        &&& self.matches@.len() <= self.cap
    }

    /// Starts a search for `query`, refused when the query is empty.
    pub fn new(query: &str, max_results: Option<u32>, case_insensitive: bool) -> (r: Result<
        Search,
        Error,
    >)
        ensures
            query@.len() == 0 ==> (r matches Err(e) && e@ == ErrorView::BadArgs(
                "query must not be empty"@,
            )),
            query@.len() > 0 ==> (r matches Ok(s) && s.wf() && s@ == SearchView {
                query: query@,
                case_insensitive,
                cap: search_cap_of(max_results) as nat,
                root: Seq::<char>::empty(),
                pending: Seq::<Seq<char>>::empty(),
                matches: Seq::<MatchView>::empty(),
                truncated: false,
                files_scanned: 0,
            }),
    {
        if query.is_empty() {
            return Err(Error::BadArgs("query must not be empty".to_owned()));
        }
        let lower = to_lowercase(query);
        let s = Search {
            query: query.to_owned(),
            query_chars: chars_of(query),
            needle_lower: chars_of(lower.as_str()),
            case_insensitive,
            cap: search_cap(max_results) as usize,
            root: String::new(),
            pending: Vec::new(),
            matches: Vec::new(),
            truncated: false,
            files_scanned: 0,
        };
        assert(s@.pending =~= Seq::<Seq<char>>::empty());
        assert(s@.matches =~= Seq::<MatchView>::empty());
        Ok(s)
    }

    /// Sets the canonical workspace root (matches are shown relative to it)
    /// and the directory the walk starts from.
    pub fn begin(&mut self, root_canon: String, start: String)
        requires
            old(self).wf(),
        ensures
            final(self).wf(),
            final(self)@ == (SearchView {
                root: root_canon@,
                pending: seq![start@],
                ..old(self)@
            }),
    {
        self.root = root_canon;
        self.pending = Vec::new();
        self.pending.push(start);
        assert(self@.pending =~= seq![start@]);
    }

    /// The next directory to visit (the most recently found one), if any.
    pub fn pop_dir(&mut self) -> (r: Option<String>)
        requires
            old(self).wf(),
        ensures
            final(self).wf(),
            old(self)@.pending.len() == 0 ==> r is None && final(self)@ == old(self)@,
            old(self)@.pending.len() > 0 ==> (r matches Some(d) && d@ == old(self)@.pending.last()
                && final(self)@ == (SearchView {
                pending: old(self)@.pending.drop_last(),
                ..old(self)@
            })),
    {
        let r = self.pending.pop();
        if r.is_some() {
            assert(self@.pending =~= old(self)@.pending.drop_last());
        } else {
            assert(self@.pending =~= old(self)@.pending);
        }
        r
    }

    /// Queues a subdirectory found during the walk.
    pub fn push_dir(&mut self, dir: String)
        requires
            old(self).wf(),
        ensures
            final(self).wf(),
            final(self)@ == (SearchView { pending: old(self)@.pending.push(dir@), ..old(self)@ }),
    {
        self.pending.push(dir);
        assert(self@.pending =~= old(self)@.pending.push(dir@));
    }

    /// Number of files searched so far.
    pub fn files_scanned(&self) -> (r: u32)
        ensures
            r == self@.files_scanned,
    {
        self.files_scanned
    }

    /// When the cap is reached, marks the result truncated and says the walk
    /// must stop.
    pub fn stop_if_full(&mut self) -> (r: bool)
        requires
            old(self).wf(),
        ensures
            final(self).wf(),
            r == (old(self)@.matches.len() >= old(self)@.cap),
            final(self)@ == (SearchView { truncated: old(self)@.truncated || r, ..old(self)@ }),
    {
        if self.matches.len() >= self.cap {
            self.truncated = true;
            true
        } else {
            false
        }
    }

    /// The outcome of the search.
    pub fn finish(self) -> (r: SearchResult)
        requires
            self.wf(),
        ensures
            r.query@ == self@.query,
            matches_view(r.matches@) == self@.matches,
            r.truncated == self@.truncated,
            r.files_scanned == self@.files_scanned,
    {
        SearchResult {
            query: self.query,
            matches: self.matches,
            truncated: self.truncated,
            files_scanned: self.files_scanned,
        }
    }
}

/// How many hits of a file are recorded when `room` slots are left.
pub open spec fn recorded_count(h: Seq<(int, Seq<char>)>, room: int) -> int {
    if h.len() < room {
        h.len() as int
    } else {
        room
    }
}

/// The state after searching one file (`path`, with text `text`) with all
/// its recorded lines clippable: one more file scanned, the file's matching
/// lines appended until the cap, and the result marked truncated once the
/// cap is reached.
pub open spec fn after_file(o: SearchView, path: Seq<char>, text: Seq<char>) -> SearchView {
    let h = hits(lines_of(text), o.query, o.case_insensitive);
    let room = o.cap - o.matches.len();
    let n = recorded_count(h, room);
    let rel = relative_display(o.root, path);
    SearchView {
        matches: o.matches + Seq::new(n as nat, |k: int| match_of(rel, h[k])),
        truncated: o.truncated || h.len() >= room,
        files_scanned: (o.files_scanned + 1) as u32,
        ..o
    }
}

/// Searching a file never takes the list of matches past the cap, keeps
/// the matches found before, and marks the result truncated exactly when
/// the cap is reached (or it already was).
pub proof fn after_file_respects_cap(o: SearchView, path: Seq<char>, text: Seq<char>)
    requires
        o.matches.len() <= o.cap,
    ensures
        after_file(o, path, text).matches.len() <= o.cap,
        is_prefix(o.matches, after_file(o, path, text).matches),
        after_file(o, path, text).truncated == (o.truncated || after_file(
            o,
            path,
            text,
        ).matches.len() == o.cap),
{
    let a = after_file(o, path, text);
    assert(a.matches.take(o.matches.len() as int) =~= o.matches);
}

/// `line` holds `query` at some position, in the plain sense.
pub open spec fn holds_at(line: Seq<char>, query: Seq<char>, j: int) -> bool {
    0 <= j && j + query.len() <= line.len() && line.subrange(j, j + query.len()) == query
}

proof fn lemma_hits_facts(ls: Seq<Seq<char>>, q: Seq<char>, ci: bool)
    ensures
        hits(ls, q, ci).len() <= ls.len(),
        forall|k: int|
            0 <= k < hits(ls, q, ci).len() ==> {
                let h = #[trigger] hits(ls, q, ci)[k];
                &&& 0 <= h.0 < ls.len()
                &&& h.1 == ls[h.0]
                &&& line_hits(h.1, q, ci)
            },
        forall|i: int|
            0 <= i < ls.len() && line_hits(#[trigger] ls[i], q, ci) ==> exists|k: int|
                0 <= k < hits(ls, q, ci).len() && #[trigger] hits(ls, q, ci)[k].0 == i,
    decreases ls.len(),
{
    if ls.len() > 0 {
        let d = ls.drop_last();
        lemma_hits_facts(d, q, ci);
        let hd = hits(d, q, ci);
        let h = hits(ls, q, ci);
        assert forall|k: int| 0 <= k < h.len() implies {
            let e = #[trigger] h[k];
            &&& 0 <= e.0 < ls.len()
            &&& e.1 == ls[e.0]
            &&& line_hits(e.1, q, ci)
        } by {
            if k < hd.len() {
                assert(h[k] == hd[k]);
                assert(d[hd[k].0] == ls[hd[k].0]);
            }
        }
        assert forall|i: int| 0 <= i < ls.len() && line_hits(#[trigger] ls[i], q, ci) implies exists|
            k: int,
        | 0 <= k < h.len() && #[trigger] h[k].0 == i by {
            if i < d.len() {
                assert(d[i] == ls[i]);
                let k = choose|k: int| 0 <= k < hd.len() && #[trigger] hd[k].0 == i;
                assert(h[k] == hd[k]);
            } else {
                assert(h[hd.len() as int].0 == i);
            }
        }
    }
}

/// The matches that searching a file adds.
pub open spec fn added_matches(o: SearchView, path: Seq<char>, text: Seq<char>) -> Seq<MatchView> {
    after_file(o, path, text).matches.skip(o.matches.len() as int)
}

/// The match a line at index `i` of a file gives: the file shown relative
/// to the root, the 1-based line number, the clipped line.
pub open spec fn line_match(o: SearchView, path: Seq<char>, text: Seq<char>, i: int) -> MatchView {
    (relative_display(o.root, path), (i + 1) as u32, clip_line(lines_of(text)[i]))
}

/// `m` is the match that line `i` of the file gives.
pub open spec fn is_line_match(m: MatchView, o: SearchView, path: Seq<char>, text: Seq<char>, i: int) -> bool {
    m == line_match(o, path, text, i)
}

/// `m` is the match of some line of the file that holds the query.
pub open spec fn is_match_of_holding_line(
    m: MatchView,
    o: SearchView,
    path: Seq<char>,
    text: Seq<char>,
) -> bool {
    exists|i: int, j: int|
        #![trigger holds_at(lines_of(text)[i], o.query, j)]
        0 <= i < lines_of(text).len() && holds_at(lines_of(text)[i], o.query, j) && is_line_match(
            m,
            o,
            path,
            text,
            i,
        )
}

/// Searching a file (case-sensitively, with room for all its lines) records
/// exactly its lines that contain the query: every such line is recorded
/// with its 1-based line number, shown relative to the root and clipped,
/// every recorded match is such a line, and the matches found before stay.
pub proof fn file_search_records_exactly_matching_lines(
    o: SearchView,
    path: Seq<char>,
    text: Seq<char>,
)
    requires
        !o.case_insensitive,
        o.matches.len() + lines_of(text).len() < o.cap,
    ensures
        after_file(o, path, text).matches.take(o.matches.len() as int) == o.matches,
        !after_file(o, path, text).truncated || o.truncated,
        forall|i: int, j: int|
            0 <= i < lines_of(text).len() && #[trigger] holds_at(lines_of(text)[i], o.query, j)
                ==> exists|k: int|
                0 <= k < added_matches(o, path, text).len() && is_line_match(
                    #[trigger] added_matches(o, path, text)[k],
                    o,
                    path,
                    text,
                    i,
                ),
        forall|k: int|
            0 <= k < added_matches(o, path, text).len() ==> is_match_of_holding_line(
                #[trigger] added_matches(o, path, text)[k],
                o,
                path,
                text,
            ),
{
    let a = after_file(o, path, text);
    let ls = lines_of(text);
    let h = hits(ls, o.query, false);
    let rel = relative_display(o.root, path);
    lemma_hits_facts(ls, o.query, false);
    let n = recorded_count(h, o.cap - o.matches.len());
    assert(n == h.len());
    let new = added_matches(o, path, text);
    assert(new =~= Seq::new(n as nat, |k: int| match_of(rel, h[k])));
    assert(a.matches.take(o.matches.len() as int) =~= o.matches);
    assert forall|i: int, j: int|
        0 <= i < ls.len() && #[trigger] holds_at(ls[i], o.query, j) implies exists|k: int|
        0 <= k < new.len() && is_line_match(#[trigger] new[k], o, path, text, i) by {
        assert(crate::text::occurs_at(ls[i], o.query, j));
        assert(line_hits(ls[i], o.query, false));
        let k = choose|k: int| 0 <= k < h.len() && #[trigger] h[k].0 == i;
        assert(new[k] == match_of(rel, h[k]));
    }
    assert forall|k: int| 0 <= k < new.len() implies is_match_of_holding_line(
        #[trigger] new[k],
        o,
        path,
        text,
    ) by {
        lemma_added_match_is_a_line(o, path, text, k);
    }
}

proof fn lemma_added_match_is_a_line(o: SearchView, path: Seq<char>, text: Seq<char>, k: int)
    requires
        !o.case_insensitive,
        o.matches.len() + lines_of(text).len() < o.cap,
        0 <= k < added_matches(o, path, text).len(),
    ensures
        is_match_of_holding_line(added_matches(o, path, text)[k], o, path, text),
{
    let ls = lines_of(text);
    let h = hits(ls, o.query, false);
    let rel = relative_display(o.root, path);
    lemma_hits_facts(ls, o.query, false);
    let n = recorded_count(h, o.cap - o.matches.len());
    assert(n == h.len());
    let new = added_matches(o, path, text);
    assert(new =~= Seq::new(n as nat, |q: int| match_of(rel, h[q])));
    let i = h[k].0;
    assert(0 <= i < ls.len() && h[k].1 == ls[i] && line_hits(h[k].1, o.query, false));
    assert(new[k] == match_of(rel, h[k]));
    assert(is_line_match(new[k], o, path, text, i));
    let j = choose|j: int| crate::text::occurs_at(ls[i], o.query, j);
    assert(holds_at(ls[i], o.query, j));
}

/// Every line that searching the file would record can be clipped at 400
/// bytes without splitting a character.
pub open spec fn file_clippable(o: SearchView, text: Seq<char>) -> bool {
    let h = hits(lines_of(text), o.query, o.case_insensitive);
    forall|k: int|
        0 <= k < recorded_count(h, o.cap - o.matches.len()) ==> #[trigger] clip_ok(h[k].1)
}

impl Search {
    /// Searches one file: `path` is its full path and `text` its decoded
    /// contents. Returns `false`, leaving the search unusable, when a
    /// recorded line cannot be clipped at 400 bytes (byte 400 splits a
    /// character).
    pub fn scan_file(&mut self, path: &str, text: &str) -> (r: bool)
        requires
            old(self).wf(),
            old(self)@.files_scanned < u32::MAX,
        ensures
            r == file_clippable(old(self)@, text@),
            r ==> final(self).wf() && final(self)@ == after_file(old(self)@, path@, text@),
    {
        let ghost o = self@;
        let ghost lv = lines_of(text@);
        let ghost h = hits(lv, o.query, o.case_insensitive);
        let ghost base = self.matches@.len();
        let ghost room = self.cap - base;
        self.files_scanned = self.files_scanned + 1;
        let rel = display_relative(self.root.as_str(), path);
        let ls = lines(text);
        let mut idx: usize = 0;
        let mut done = false;
        assert(lv.take(0) =~= Seq::<Seq<char>>::empty());
        proof {
            lemma_hits_prefix(lv, 0, o.query, o.case_insensitive);
        }
        assert(matches_view(self.matches@) =~= o.matches + Seq::new(0, |k: int| match_of(rel@, h[k])));
        while idx < ls.len() && !done
            invariant
                self.wf(),
                o == old(self)@,
                o.query == self.query@,
                o.case_insensitive == self.case_insensitive,
                o.cap == self.cap,
                o.root == self.root@,
                o.pending == self@.pending,
                self.files_scanned == (o.files_scanned + 1) as u32,
                base == o.matches.len(),
                room == self.cap - base,
                0 <= room,
                rel@ == relative_display(o.root, path@),
                h == hits(lv, o.query, o.case_insensitive),
                lv == lines_of(text@),
                ls@.len() == lv.len(),
                forall|k: int| 0 <= k < ls@.len() ==> #[trigger] ls@[k]@ == lv[k],
                idx <= ls@.len(),
                base <= self.matches@.len(),
                matches_view(self.matches@) == o.matches + Seq::new(
                    (self.matches@.len() - base) as nat,
                    |k: int| match_of(rel@, h[k]),
                ),
                is_prefix(hits(lv.take(idx as int), o.query, o.case_insensitive), h),
                !done ==> self.matches@.len() - base == recorded_count(
                    hits(lv.take(idx as int), o.query, o.case_insensitive),
                    room,
                ),
                done ==> self.matches@.len() - base == room && h.len() > room,
                self.truncated == (o.truncated || done),
                forall|k: int| 0 <= k < self.matches@.len() - base ==> #[trigger] clip_ok(h[k].1),
            decreases ls@.len() - idx,
        {
            let ghost before = hits(lv.take(idx as int), o.query, o.case_insensitive);
            let ghost n = self.matches@.len() - base;
            proof {
                lemma_hits_step(lv, idx as int, o.query, o.case_insensitive);
                lemma_hits_prefix(lv, idx + 1, o.query, o.case_insensitive);
            }
            let line = &ls[idx];
            let hit = if self.case_insensitive {
                let lower = to_lowercase(line.as_str());
                let lw = chars_of(lower.as_str());
                contains_chars(&lw, &self.needle_lower)
            } else {
                let lc = chars_of(line.as_str());
                contains_chars(&lc, &self.query_chars)
            };
            assert(hit == line_hits(lv[idx as int], o.query, o.case_insensitive));
            if hit {
                let ghost after = hits(lv.take(idx + 1), o.query, o.case_insensitive);
                assert(after == before.push((idx as int, lv[idx as int])));
                if self.matches.len() >= self.cap {
                    self.truncated = true;
                    done = true;
                    assert(n == room);
                    assert(before.len() >= room);
                    assert(h.len() >= after.len());
                } else {
                    assert(n == before.len());
                    assert(h[n] == after[n]);
                    match clip(line.as_str()) {
                        None => {
                            assert(h.len() > n);
                            assert(recorded_count(h, room) > n);
                            assert(h[n].1 == lv[idx as int]);
                            assert(!clip_ok(h[n].1));
                            assert(!file_clippable(o, text@));
                            return false;
                        },
                        Some(c) => {
                            let m = SearchMatch {
                                path: rel.clone(),
                                line_number: (idx + 1) as u32,
                                line: c,
                            };
                            let ghost old_ms = self.matches@;
                            self.matches.push(m);
                            proof {
                                assert(self.matches@ == old_ms.push(m));
                                assert(matches_view(self.matches@) =~= matches_view(old_ms).push(
                                    (m.path@, m.line_number, m.line@),
                                ));
                                assert(h[n].0 == idx as int);
                                assert(h[n].1 == lv[idx as int]);
                                assert((m.path@, m.line_number, m.line@) == match_of(rel@, h[n]));
                            }
                            assert(matches_view(self.matches@) =~= o.matches + Seq::new(
                                (self.matches@.len() - base) as nat,
                                |k: int| match_of(rel@, h[k]),
                            ));
                        },
                    }
                }
            }
            idx = idx + 1;
        }
        if !done {
            assert(lv.take(idx as int) =~= lv);
        }
        if self.matches.len() >= self.cap {
            self.truncated = true;
        }
        assert(self@ == after_file(o, path@, text@));
        true
    }
}

} // verus!
