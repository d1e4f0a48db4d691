//! What a line typed at the interactive chat prompt asks for: nothing (a
//! blank line), a slash command, or a message to send.
use vstd::prelude::*;

use crate::text::{chars_of, is_whitespace, white_space, spec_lowercase, string_of_range, to_lowercase};

verus! {

// ----- whitespace scanning -----

/// The first index at or after `i` that is not whitespace (or the length).
pub open spec fn skip_ws(s: Seq<char>, i: int) -> int
    decreases s.len() - i,
{
    if 0 <= i < s.len() && white_space(s[i]) {
        skip_ws(s, i + 1)
    } else {
        i
    }
}

/// The first index at or after `i` that is whitespace (or the length).
pub open spec fn word_end(s: Seq<char>, i: int) -> int
    decreases s.len() - i,
{
    if 0 <= i < s.len() && !white_space(s[i]) {
        word_end(s, i + 1)
    } else {
        i
    }
}

/// The end of `s[..j]` once its trailing whitespace is dropped.
pub open spec fn back_ws(s: Seq<char>, j: int) -> int
    decreases j,
{
    if 0 < j <= s.len() && white_space(s[j - 1]) {
        back_ws(s, j - 1)
    } else {
        j
    }
}

/// `s` without leading and trailing whitespace (`str::trim`).
pub open spec fn trimmed(s: Seq<char>) -> Seq<char> {
    let a = skip_ws(s, 0);
    let b = back_ws(s, s.len() as int);
    if a < b {
        s.subrange(a, b)
    } else {
        Seq::empty()
    }
}

/// The first whitespace-separated word of `s`, empty when there is none
/// (`str::split_whitespace().next()`).
pub open spec fn first_word(s: Seq<char>) -> Seq<char> {
    let a = skip_ws(s, 0);
    s.subrange(a, word_end(s, a))
}

fn skip_ws_from(v: &Vec<char>, i: usize) -> (r: usize)
    requires
        i <= v@.len(),
    ensures
        r as int == skip_ws(v@, i as int),
        i <= r <= v@.len(),
{
    let mut k = i;
    while k < v.len() && is_whitespace(v[k])
        invariant
            i <= k <= v@.len(),
            skip_ws(v@, k as int) == skip_ws(v@, i as int),
        decreases v@.len() - k,
    {
        k = k + 1;
    }
    k
}

fn word_end_from(v: &Vec<char>, i: usize) -> (r: usize)
    requires
        i <= v@.len(),
    ensures
        r as int == word_end(v@, i as int),
        i <= r <= v@.len(),
{
    let mut k = i;
    while k < v.len() && !is_whitespace(v[k])
        invariant
            i <= k <= v@.len(),
            word_end(v@, k as int) == word_end(v@, i as int),
        decreases v@.len() - k,
    {
        k = k + 1;
    }
    k
}

fn back_ws_from(v: &Vec<char>) -> (r: usize)
    ensures
        r as int == back_ws(v@, v@.len() as int),
        r <= v@.len(),
{
    let mut j = v.len();
    while j > 0 && is_whitespace(v[j - 1])
        invariant
            j <= v@.len(),
            back_ws(v@, j as int) == back_ws(v@, v@.len() as int),
        decreases j,
    {
        j = j - 1;
    }
    j
}

// ----- slash commands -----

/// A command typed after `/` at the chat prompt.
#[derive(Debug, Clone, PartialEq, Eq)]
pub enum SlashCommand {
    /// `/exit`, `/quit`, `/q`: leave the prompt.
    Quit,
    /// `/help`, `/?`: list the commands.
    Help,
    /// `/session`, `/info`: show the current session.
    SessionInfo,
    /// `/sessions`: list recent sessions.
    ListSessions,
    /// `/health`: ping the backend.
    Health,
    /// `/clear`: clear the screen.
    Clear,
    /// A bare `/`: nothing to do.
    Empty,
    /// Any other word, lower-cased.
    Unknown(String),
}

/// A slash command as the specification sees it.
pub enum SlashCommandView {
    Quit,
    Help,
    SessionInfo,
    ListSessions,
    Health,
    Clear,
    Empty,
    Unknown(Seq<char>),
}

impl View for SlashCommand {
    type V = SlashCommandView;

    open spec fn view(&self) -> SlashCommandView {
        match self {
            SlashCommand::Quit => SlashCommandView::Quit,
            SlashCommand::Help => SlashCommandView::Help,
            SlashCommand::SessionInfo => SlashCommandView::SessionInfo,
            SlashCommand::ListSessions => SlashCommandView::ListSessions,
            SlashCommand::Health => SlashCommandView::Health,
            SlashCommand::Clear => SlashCommandView::Clear,
            SlashCommand::Empty => SlashCommandView::Empty,
            SlashCommand::Unknown(w) => SlashCommandView::Unknown(w@),
        }
    }
}

/// The command named by a lower-cased command word.
pub open spec fn command_named(w: Seq<char>) -> SlashCommandView {
    if w == "exit"@ || w == "quit"@ || w == "q"@ {
        SlashCommandView::Quit
    } else if w == "help"@ || w == "?"@ {
        SlashCommandView::Help
    } else if w == "session"@ || w == "info"@ {
        SlashCommandView::SessionInfo
    } else if w == "sessions"@ {
        SlashCommandView::ListSessions
    } else if w == "health"@ {
        SlashCommandView::Health
    } else if w == "clear"@ {
        SlashCommandView::Clear
    } else if w.len() == 0 {
        SlashCommandView::Empty
    } else {
        SlashCommandView::Unknown(w)
    }
}

/// The command that the text after `/` asks for: its first word, lower-cased,
/// names it; any further words are ignored.
pub open spec fn slash_command_of(rest: Seq<char>) -> SlashCommandView {
    command_named(spec_lowercase(first_word(rest)))
}

/// Reads the command in the text that follows `/`.
pub fn slash_command(rest: &str) -> (r: SlashCommand)
    ensures
        r@ == slash_command_of(rest@),
{
    let v = chars_of(rest);
    let a = skip_ws_from(&v, 0);
    let e = word_end_from(&v, a);
    let word = string_of_range(&v, a, e);
    let w = to_lowercase(word.as_str());
    let ghost wv = w@;
    assert(wv == spec_lowercase(first_word(rest@)));
    if w == "exit".to_owned() || w == "quit".to_owned() || w == "q".to_owned() {
        SlashCommand::Quit
    } else if w == "help".to_owned() || w == "?".to_owned() {
        SlashCommand::Help
    } else if w == "session".to_owned() || w == "info".to_owned() {
        SlashCommand::SessionInfo
    } else if w == "sessions".to_owned() {
        SlashCommand::ListSessions
    } else if w == "health".to_owned() {
        SlashCommand::Health
    } else if w == "clear".to_owned() {
        SlashCommand::Clear
    } else if w.as_str().is_empty() {
        SlashCommand::Empty
    } else {
        SlashCommand::Unknown(w)
    }
}

// ----- input lines -----

/// What a line typed at the prompt asks for.
#[derive(Debug, Clone, PartialEq, Eq)]
pub enum ReplInput {
    /// Only whitespace: ignored.
    Blank,
    /// A line starting with `/` (after trimming).
    Command(SlashCommand),
    /// Anything else: the trimmed line, to be sent as a message.
    Message(String),
}

/// What the line `line` asks for, over its trimmed form `t`: blank when
/// `t` is empty, the command after a leading `/`, else `t` as a message.
pub open spec fn input_is(r: ReplInput, line: Seq<char>) -> bool {
    let t = trimmed(line);
    if t.len() == 0 {
        r is Blank
    } else if t[0] == '/' {
        r matches ReplInput::Command(c) && c@ == slash_command_of(t.drop_first())
    } else {
        r matches ReplInput::Message(m) && m@ == t
    }
}

/// Reads a line typed at the chat prompt.
pub fn read_line(line: &str) -> (r: ReplInput)
    ensures
        input_is(r, line@),
{
    let v = chars_of(line);
    let a = skip_ws_from(&v, 0);
    let b = back_ws_from(&v);
    if a >= b {
        return ReplInput::Blank;
    }
    if v[a] == '/' {
        let rest = string_of_range(&v, a + 1, b);
        assert(rest@ =~= trimmed(line@).drop_first());
        ReplInput::Command(slash_command(rest.as_str()))
    } else {
        let t = string_of_range(&v, a, b);
        ReplInput::Message(t)
    }
}

proof fn lemma_skip_ws_stops(s: Seq<char>, i: int)
    requires
        0 <= i <= s.len(),
    ensures
        i <= skip_ws(s, i) <= s.len(),
        skip_ws(s, i) < s.len() ==> !white_space(s[skip_ws(s, i)]),
        forall|k: int| i <= k < skip_ws(s, i) ==> white_space(#[trigger] s[k]),
    decreases s.len() - i,
{
    if i < s.len() && white_space(s[i]) {
        lemma_skip_ws_stops(s, i + 1);
    }
}

proof fn lemma_back_ws_stops(s: Seq<char>, j: int)
    requires
        0 <= j <= s.len(),
    ensures
        0 <= back_ws(s, j) <= j,
        back_ws(s, j) > 0 ==> !white_space(s[back_ws(s, j) - 1]),
        forall|k: int| back_ws(s, j) <= k < j ==> white_space(#[trigger] s[k]),
    decreases j,
{
    if 0 < j && white_space(s[j - 1]) {
        lemma_back_ws_stops(s, j - 1);
    }
}

/// What is sent as a message is never blank and never a command: it is
/// the typed text without surrounding whitespace, so it begins and ends
/// with a non-whitespace character, and it does not begin with `/`.
pub proof fn messages_are_trimmed_text(line: Seq<char>, r: ReplInput)
    requires
        input_is(r, line),
    ensures
        r matches ReplInput::Message(m) ==> {
            &&& m@.len() > 0
            &&& m@[0] != '/'
            &&& !white_space(m@[0])
            &&& !white_space(m@.last())
        },
{
    lemma_skip_ws_stops(line, 0);
    lemma_back_ws_stops(line, line.len() as int);
}

/// A typed line is read after trimming: it is blank exactly when it is
/// all whitespace; otherwise its text between the leading and the
/// trailing whitespace is, whole, either a command (when it starts with
/// `/`, the command named by what follows the `/`) or the message sent.
pub proof fn lines_are_read_after_trimming(line: Seq<char>, r: ReplInput)
    requires
        input_is(r, line),
    ensures
        r is Blank <==> forall|k: int| 0 <= k < line.len() ==> white_space(#[trigger] line[k]),
        r matches ReplInput::Message(m) ==> exists|a: int, b: int|
            #![trigger line.subrange(a, b)]
            0 <= a < b <= line.len() && m@ == line.subrange(a, b) && line[a] != '/' && (forall|
                k: int,
            |
                0 <= k < a ==> white_space(#[trigger] line[k])) && (forall|k: int|
                b <= k < line.len() ==> white_space(#[trigger] line[k])),
        r matches ReplInput::Command(c) ==> exists|a: int, b: int|
            #![trigger line.subrange(a, b)]
            0 <= a < b <= line.len() && line[a] == '/' && c@ == slash_command_of(
                line.subrange(a + 1, b),
            ) && (forall|k: int| 0 <= k < a ==> white_space(#[trigger] line[k])) && (forall|
                k: int,
            |
                b <= k < line.len() ==> white_space(#[trigger] line[k])),
{
    let n = line.len() as int;
    lemma_skip_ws_stops(line, 0);
    lemma_back_ws_stops(line, n);
    let a = skip_ws(line, 0);
    let b = back_ws(line, n);
    if a < b {
        let t = line.subrange(a, b);
        assert(t == trimmed(line));
        assert(t[0] == line[a]);
        assert(!white_space(line[a]));
        assert(!(forall|k: int| 0 <= k < line.len() ==> white_space(#[trigger] line[k])));
        if line[a] == '/' {
            assert(t.drop_first() =~= line.subrange(a + 1, b));
        }
    } else {
        assert(trimmed(line).len() == 0);
        assert forall|k: int| 0 <= k < line.len() implies white_space(#[trigger] line[k]) by {
            if k >= a {
                assert(b <= k);
            }
        }
    }
}

/// The commands of the prompt, whatever follows the command word and
/// whatever its case: `exit`, `quit` and `q` leave; `help` and `?` list the
/// commands; `session` and `info` show the session; `sessions` lists the
/// sessions; `health` pings the backend; `clear` clears the screen; no word
/// does nothing; any other word is unknown and reported lower-cased.
pub proof fn slash_commands_by_word(rest: Seq<char>)
    ensures
        ({
            let w = spec_lowercase(first_word(rest));
            let c = slash_command_of(rest);
            &&& (w == "exit"@ || w == "quit"@ || w == "q"@) <==> c is Quit
            &&& (w == "help"@ || w == "?"@) <==> c is Help
            &&& (w == "session"@ || w == "info"@) <==> c is SessionInfo
            &&& w == "sessions"@ <==> c is ListSessions
            &&& w == "health"@ <==> c is Health
            &&& w == "clear"@ <==> c is Clear
            &&& w.len() == 0 <==> c is Empty
            &&& c is Unknown ==> c->Unknown_0 == w
        }),
{
    reveal_strlit("exit");
    reveal_strlit("quit");
    reveal_strlit("q");
    reveal_strlit("help");
    reveal_strlit("?");
    reveal_strlit("session");
    reveal_strlit("info");
    reveal_strlit("sessions");
    reveal_strlit("health");
    reveal_strlit("clear");
    let w = spec_lowercase(first_word(rest));
    let c = slash_command_of(rest);
    if w == "exit"@ {
        assert(w.len() == 4 && w[0] == 'e' && w[1] == 'x' && w[2] == 'i');
    }
    if w == "quit"@ {
        assert(w.len() == 4 && w[0] == 'q' && w[1] == 'u' && w[2] == 'i');
    }
    if w == "q"@ {
        assert(w.len() == 1 && w[0] == 'q');
    }
    if w == "help"@ {
        assert(w.len() == 4 && w[0] == 'h' && w[1] == 'e' && w[2] == 'l');
    }
    if w == "?"@ {
        assert(w.len() == 1 && w[0] == '?');
    }
    if w == "session"@ {
        assert(w.len() == 7 && w[0] == 's' && w[1] == 'e' && w[2] == 's');
    }
    if w == "info"@ {
        assert(w.len() == 4 && w[0] == 'i' && w[1] == 'n' && w[2] == 'f');
    }
    if w == "sessions"@ {
        assert(w.len() == 8 && w[0] == 's' && w[1] == 'e' && w[2] == 's');
    }
    if w == "health"@ {
        assert(w.len() == 6 && w[0] == 'h' && w[1] == 'e' && w[2] == 'a');
    }
    if w == "clear"@ {
        assert(w.len() == 5 && w[0] == 'c' && w[1] == 'l' && w[2] == 'e');
    }
    assert((w == "exit"@ || w == "quit"@ || w == "q"@) <==> c is Quit);
    assert((w == "help"@ || w == "?"@) <==> c is Help);
    assert((w == "session"@ || w == "info"@) <==> c is SessionInfo);
    assert(w == "sessions"@ <==> c is ListSessions);
    assert(w == "health"@ <==> c is Health);
    assert(w == "clear"@ <==> c is Clear);
    assert(w.len() == 0 <==> c is Empty);
}

} // verus!
