//! The dispatch loop's decisions: how one input line is classified, how a
//! command line splits into name and arguments, and which provider route
//! a chat turn takes. The surrounding loop only reads lines, performs the
//! classified action and prints.

use crate::json::{chars_to_string, to_chars};
use crate::utils::{ascii_lower, lower_char};
use vstd::prelude::*;
use vstd::string::StringExecFns;

verus! {

/// The whitespace that separates command tokens.
pub open spec fn is_ws(c: char) -> bool {
    c == ' ' || c == '\t' || c == '\n' || c == '\r'
}

/// The length of the leading token: characters up to the first whitespace.
pub open spec fn token_len(s: Seq<char>) -> nat
    decreases s.len(),
{
    if s.len() == 0 || is_ws(s[0]) {
        0
    } else {
        (1 + token_len(s.skip(1))) as nat
    }
}

pub proof fn lemma_token_len_le(s: Seq<char>)
    ensures
        token_len(s) <= s.len(),
    decreases s.len(),
{
    if s.len() > 0 && !is_ws(s[0]) {
        lemma_token_len_le(s.skip(1));
    }
}

/// The whitespace-separated tokens of a line, in order.
pub open spec fn split_ws(s: Seq<char>) -> Seq<Seq<char>>
    decreases s.len(),
    via split_ws_decreases
{
    if s.len() == 0 {
        Seq::empty()
    } else if is_ws(s[0]) {
        split_ws(s.skip(1))
    } else {
        seq![s.take(token_len(s) as int)] + split_ws(s.skip(token_len(s) as int))
    }
}

#[via_fn]
proof fn split_ws_decreases(s: Seq<char>) {
    if s.len() > 0 && !is_ws(s[0]) {
        lemma_token_len_le(s);
        assert(token_len(s) >= 1);
    }
}

proof fn lemma_token_len_range(s: Seq<char>, l: int)
    requires
        0 <= l <= s.len(),
        forall|k: int| 0 <= k < l ==> !is_ws(#[trigger] s[k]),
        l == s.len() || is_ws(s[l]),
    ensures
        token_len(s) == l,
    decreases s.len(),
{
    if l == 0 {
    } else {
        assert(!is_ws(s[0]));
        assert(forall|k: int| 0 <= k < l - 1 ==> s.skip(1)[k] == s[k + 1]);
        if l < s.len() {
            assert(s.skip(1)[l - 1] == s[l]);
        }
        lemma_token_len_range(s.skip(1), l - 1);
    }
}

/// Splits a line into whitespace-separated tokens.
pub fn tokenize(s: &str) -> (r: Vec<String>)
    ensures
        r.deep_view() == split_ws(s@),
{
    let v = to_chars(s);
    let n = v.len();
    let mut acc: Vec<String> = Vec::new();
    let mut pos: usize = 0;
    proof {
        assert(v@.skip(0) =~= s@);
        assert(acc.deep_view() =~= Seq::<Seq<char>>::empty());
    }
    while pos < n
        invariant
            n == v@.len(),
            v@ == s@,
            pos <= n,
            split_ws(s@) == acc.deep_view() + split_ws(v@.skip(pos as int)),
        decreases n - pos,
    {
        let ghost s_pos = v@.skip(pos as int);
        proof {
            assert(s_pos[0] == v@[pos as int]);
        }
        if is_ws_char(v[pos]) {
            proof {
                assert(s_pos.skip(1) =~= v@.skip(pos + 1 as int));
            }
            pos = pos + 1;
        } else {
            let start = pos;
            let mut tok: Vec<char> = Vec::new();
            while pos < n && !is_ws_char(v[pos])
                invariant
                    n == v@.len(),
                    start <= pos <= n,
                    forall|k: int| start <= k < pos ==> !is_ws(#[trigger] v@[k]),
                    tok@ == v@.subrange(start as int, pos as int),
                decreases n - pos,
            {
                tok.push(v[pos]);
                proof {
                    assert(tok@ =~= v@.subrange(start as int, pos + 1 as int));
                }
                pos = pos + 1;
            }
            proof {
                let sp = v@.skip(start as int);
                assert(forall|k: int| 0 <= k < pos - start ==> sp[k] == v@[start + k]);
                if pos < n {
                    assert(sp[pos - start] == v@[pos as int]);
                }
                lemma_token_len_range(sp, pos - start);
                assert(sp.take(pos - start) =~= v@.subrange(start as int, pos as int));
                assert(sp.skip(pos - start) =~= v@.skip(pos as int));
                assert(split_ws(sp) == seq![tok@] + split_ws(v@.skip(pos as int)));
            }
            let token = chars_to_string(&tok);
            let ghost before = acc.deep_view();
            acc.push(token);
            proof {
                assert(acc.deep_view() =~= before.push(tok@));
                assert(before + (seq![tok@] + split_ws(v@.skip(pos as int))) =~= acc.deep_view()
                    + split_ws(v@.skip(pos as int)));
            }
        }
    }
    proof {
        assert(v@.skip(n as int).len() == 0);
        assert(acc.deep_view() + Seq::<Seq<char>>::empty() =~= acc.deep_view());
    }
    acc
}

/// Splits a command line into its name and its arguments; a line of
/// nothing but whitespace has no command to run.
pub fn parse_command_line(cmd: &str) -> (r: Option<(String, Vec<String>)>)
    ensures
        match r {
            Some(p) => {
                &&& split_ws(cmd@).len() > 0
                &&& p.0@ == split_ws(cmd@)[0]
                &&& p.1.deep_view() == split_ws(cmd@).skip(1)
            },
            None => split_ws(cmd@).len() == 0,
        },
{
    let tokens = tokenize(cmd);
    if tokens.len() == 0 {
        return None;
    }
    let name = tokens[0].clone();
    let mut args: Vec<String> = Vec::new();
    let mut i: usize = 1;
    proof {
        assert(name@ == tokens.deep_view()[0]);
    }
    while i < tokens.len()
        invariant
            1 <= i <= tokens.deep_view().len(),
            args.deep_view() =~= tokens.deep_view().subrange(1, i as int),
        decreases tokens.deep_view().len() - i,
    {
        let ghost before = args.deep_view();
        args.push(tokens[i].clone());
        proof {
            assert(args.deep_view() =~= before.push(tokens.deep_view()[i as int]));
            assert(args.deep_view() =~= tokens.deep_view().subrange(1, i + 1 as int));
        }
        i = i + 1;
    }
    proof {
        assert(args.deep_view() =~= split_ws(cmd@).skip(1));
    }
    Some((name, args))
}

/// Whether a character separates tokens.
pub fn is_ws_char(c: char) -> (r: bool)
    ensures
        r == is_ws(c),
{
    c == ' ' || c == '\t' || c == '\n' || c == '\r'
}

/// What one input line asks of the loop.
pub enum LineAction {
    /// Nothing but whitespace: read the next line.
    Empty,
    /// The quit command: leave the loop.
    Quit,
    /// A named command with its arguments.
    Command(String, Vec<String>),
    /// The command prefix with nothing after it to run.
    BlankCommand,
    /// An ordinary chat turn.
    Chat,
}

/// Whether the line holds nothing but whitespace.
pub open spec fn all_ws(s: Seq<char>) -> bool {
    forall|i: int| 0 <= i < s.len() ==> is_ws(#[trigger] s[i])
}

/// Classifies one input line: blank lines are skipped, a leading colon
/// introduces a command (with `q` and `quit` ending the loop), anything
/// else is a chat turn.
pub fn classify_line(line: &str) -> (r: LineAction)
    ensures
        all_ws(line@) ==> r is Empty,
        !all_ws(line@) && line@[0] != ':' ==> r is Chat,
        !all_ws(line@) && line@[0] == ':' ==> {
            let cmd = line@.skip(1);
            if cmd == "q"@ || cmd == "quit"@ {
                r is Quit
            } else if split_ws(cmd).len() == 0 {
                r is BlankCommand
            } else {
                r matches LineAction::Command(name, args) && name@ == split_ws(cmd)[0]
                    && args.deep_view() == split_ws(cmd).skip(1)
            }
        },
{
    let v = to_chars(line);
    let n = v.len();
    let mut i: usize = 0;
    let mut blank = true;
    while i < n
        invariant
            n == v@.len(),
            v@ == line@,
            i <= n,
            blank == forall|k: int| 0 <= k < i ==> is_ws(#[trigger] line@[k]),
        decreases n - i,
    {
        if !is_ws_char(v[i]) {
            blank = false;
            proof {
                assert(!is_ws(line@[i as int]));
            }
        }
        i = i + 1;
    }
    if blank {
        return LineAction::Empty;
    }
    proof {
        let k = choose|k: int| 0 <= k < n && !is_ws(line@[k]);
        assert(!all_ws(line@));
        assert(n > 0);
    }
    if v[0] != ':' {
        return LineAction::Chat;
    }
    let rest = strip_first(line);
    proof {
        assert(rest@ == line@.skip(1));
        reveal_strlit("q");
        reveal_strlit("quit");
    }
    if is_quit(&rest) {
        return LineAction::Quit;
    }
    match parse_command_line(rest.as_str()) {
        Some((name, args)) => LineAction::Command(name, args),
        None => LineAction::BlankCommand,
    }
}

/// The line without its first character.
fn strip_first(line: &str) -> (r: String)
    requires
        line@.len() > 0,
    ensures
        r@ == line@.skip(1),
{
    let v = to_chars(line);
    let n = v.len();
    let mut out: Vec<char> = Vec::new();
    let mut i: usize = 1;
    while i < n
        invariant
            n == v@.len(),
            v@ == line@,
            1 <= i <= n,
            out@ == line@.subrange(1, i as int),
        decreases n - i,
    {
        out.push(v[i]);
        proof {
            assert(out@ =~= line@.subrange(1, i + 1 as int));
        }
        i = i + 1;
    }
    proof {
        assert(line@.subrange(1, n as int) =~= line@.skip(1));
    }
    chars_to_string(&out)
}

/// Whether the stripped command is one of the two quit spellings.
fn is_quit(cmd: &String) -> (r: bool)
    ensures
        r == (cmd@ == "q"@ || cmd@ == "quit"@),
{
    proof {
        reveal_strlit("q");
        reveal_strlit("quit");
    }
    let q = String::from_str("q");
    let quit = String::from_str("quit");
    *cmd == q || *cmd == quit
}

/// The three ways a chat turn goes out.
#[derive(Debug, PartialEq, Eq, Structural)]
pub enum RequestRoute {
    /// The Anthropic-style endpoint, buffered.
    Anthropic,
    /// The OpenAI chat endpoint, buffered.
    BufferedChat,
    /// The OpenAI responses endpoint, streamed.
    Streaming,
}

/// Whether two texts are the same letters ignoring ASCII case.
pub open spec fn eq_ignore_case(a: Seq<char>, b: Seq<char>) -> bool {
    a.len() == b.len() && forall|i: int|
        0 <= i < a.len() ==> ascii_lower(#[trigger] a[i]) == ascii_lower(b[i])
}

/// Picks the provider route for the active model: models fetched from
/// the Anthropic listing go to the Anthropic endpoint; otherwise the
/// buffered chat endpoint when streaming is off or the model cannot
/// stream; the streaming endpoint for the rest.
pub fn choose_route(
    model: &str,
    enable_streaming: bool,
    anthropic_models: &Vec<String>,
) -> (r: RequestRoute)
    ensures
        anthropic_models.deep_view().contains(model@) ==> r == RequestRoute::Anthropic,
        !anthropic_models.deep_view().contains(model@) && (!enable_streaming || eq_ignore_case(
            model@,
            "gpt-4o-search-preview"@,
        )) ==> r == RequestRoute::BufferedChat,
        !anthropic_models.deep_view().contains(model@) && enable_streaming && !eq_ignore_case(
            model@,
            "gpt-4o-search-preview"@,
        ) ==> r == RequestRoute::Streaming,
{
    if is_listed(anthropic_models, model) {
        RequestRoute::Anthropic
    } else if !enable_streaming || eq_ignore_case_exec(model, "gpt-4o-search-preview") {
        RequestRoute::BufferedChat
    } else {
        RequestRoute::Streaming
    }
}

/// Whether `x` occurs in the fetched model list.
fn is_listed(v: &Vec<String>, x: &str) -> (r: bool)
    ensures
        r == v.deep_view().contains(x@),
{
    let target = String::from_str(x);
    let n = v.len();
    let mut j: usize = 0;
    while j < n
        invariant
            n == v.len(),
            target@ == x@,
            j <= n,
            forall|k: int| 0 <= k < j ==> v.deep_view()[k] != x@,
        decreases n - j,
    {
        let candidate = &v[j];
        if *candidate == target {
            proof {
                assert(v.deep_view()[j as int] == x@);
            }
            return true;
        }
        proof {
            assert(v.deep_view()[j as int] == v[j as int]@);
        }
        j = j + 1;
    }
    proof {
        assert(!v.deep_view().contains(x@));
    }
    false
}

/// Whether `s` spells `t` ignoring ASCII case.
fn eq_ignore_case_exec(s: &str, t: &str) -> (r: bool)
    ensures
        r == eq_ignore_case(s@, t@),
{
    let a = to_chars(s);
    let b = to_chars(t);
    if a.len() != b.len() {
        return false;
    }
    let n = a.len();
    let mut i: usize = 0;
    while i < n
        invariant
            n == a@.len(),
            a@.len() == b@.len(),
            a@ == s@,
            b@ == t@,
            i <= n,
            forall|k: int| 0 <= k < i ==> ascii_lower(#[trigger] s@[k]) == ascii_lower(t@[k]),
        decreases n - i,
    {
        if lower_char(a[i]) != lower_char(b[i]) {
            proof {
                assert(ascii_lower(s@[i as int]) != ascii_lower(t@[i as int]));
            }
            return false;
        }
        i = i + 1;
    }
    true
}

} // verus!
