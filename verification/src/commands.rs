//! The command layer: the registered commands, the edit-distance
//! suggestion for a mistyped name, and the pure builders the command
//! handlers share (report titles, file messages, seeded conversations).

use crate::conversation::{
    first_developer_content, non_developer_messages, ConversationContext, Message, MessageView,
};
use crate::json::{chars_to_string, to_chars};
use crate::messages::{document_prompt, readme_prompt, title_prompt};
use vstd::prelude::*;
use vstd::string::StringExecFns;

verus! {

broadcast use vstd::string::group_string_axioms;

/// The Levenshtein distance between the length-`i` prefix of `a` and the
/// length-`j` prefix of `b`: insertions, deletions and substitutions cost
/// one each.
pub open spec fn lev(a: Seq<char>, b: Seq<char>, i: int, j: int) -> int
    recommends
        0 <= i <= a.len(),
        0 <= j <= b.len(),
    decreases i + j,
{
    if i <= 0 {
        j
    } else if j <= 0 {
        i
    } else if a[i - 1] == b[j - 1] {
        lev(a, b, i - 1, j - 1)
    } else {
        1 + min3(lev(a, b, i - 1, j), lev(a, b, i, j - 1), lev(a, b, i - 1, j - 1))
    }
}

pub open spec fn min3(x: int, y: int, z: int) -> int {
    if x <= y && x <= z {
        x
    } else if y <= z {
        y
    } else {
        z
    }
}

/// The distance between the two whole words.
pub open spec fn distance(a: Seq<char>, b: Seq<char>) -> int {
    lev(a, b, a.len() as int, b.len() as int)
}

pub proof fn lemma_lev_bound(a: Seq<char>, b: Seq<char>, i: int, j: int)
    requires
        0 <= i <= a.len(),
        0 <= j <= b.len(),
    ensures
        0 <= lev(a, b, i, j) <= i + j,
    decreases i + j,
{
    if i <= 0 || j <= 0 {
    } else {
        lemma_lev_bound(a, b, i - 1, j - 1);
        lemma_lev_bound(a, b, i - 1, j);
        lemma_lev_bound(a, b, i, j - 1);
    }
}

/// The edit distance between two words, by the classic dynamic program.
pub fn min_distance(word1: &str, word2: &str) -> (r: i32)
    requires
        word1@.len() <= 0x10000,
        word2@.len() <= 0x10000,
    ensures
        r as int == distance(word1@, word2@),
{
    let a = to_chars(word1);
    let b = to_chars(word2);
    let n = a.len();
    let m = b.len();
    let mut dist: Vec<usize> = Vec::new();
    let mut j: usize = 0;
    while j <= m
        invariant
            m == b@.len(),
            m <= 0x10000,
            j <= m + 1,
            dist@.len() == j,
            forall|k: int| 0 <= k < j ==> dist@[k] == lev(a@, b@, 0, k),
        decreases m + 1 - j,
    {
        dist.push(j);
        j = j + 1;
    }
    let mut prev = copy_row(&dist);
    let mut i: usize = 1;
    while i <= n
        invariant
            n == a@.len(),
            m == b@.len(),
            n <= 0x10000,
            m <= 0x10000,
            1 <= i <= n + 1,
            dist@.len() == m + 1,
            prev@.len() == m + 1,
            forall|k: int| 0 <= k <= m ==> dist@[k] == lev(a@, b@, i - 1, k),
            forall|k: int| 0 <= k <= m ==> prev@[k] == lev(a@, b@, i - 1, k),
        decreases n + 1 - i,
    {
        let mut jj: usize = 0;
        while jj <= m
            invariant
                n == a@.len(),
                m == b@.len(),
                n <= 0x10000,
                m <= 0x10000,
                1 <= i <= n,
                jj <= m + 1,
                dist@.len() == m + 1,
                prev@.len() == m + 1,
                forall|k: int| 0 <= k < jj ==> dist@[k] == lev(a@, b@, i as int, k),
                forall|k: int| jj <= k <= m ==> dist@[k] == lev(a@, b@, i - 1, k),
                forall|k: int| 0 <= k <= m ==> prev@[k] == lev(a@, b@, i - 1, k),
            decreases m + 1 - jj,
        {
            proof {
                lemma_lev_bound(a@, b@, i - 1, jj as int);
                if jj >= 1 {
                    lemma_lev_bound(a@, b@, i as int, jj - 1);
                }
            }
            if jj == 0 {
                let v = dist[0];
                dist.set(0, v + 1);
                proof {
                    assert(dist@[0] == lev(a@, b@, i as int, 0));
                }
            } else if a[i - 1] == b[jj - 1] {
                let v = prev[jj - 1];
                dist.set(jj, v);
            } else {
                let x = dist[jj];
                let y = dist[jj - 1];
                let z = prev[jj - 1];
                let mn = if x <= y && x <= z {
                    x
                } else if y <= z {
                    y
                } else {
                    z
                };
                dist.set(jj, mn + 1);
            }
            jj = jj + 1;
        }
        prev = copy_row(&dist);
        i = i + 1;
    }
    let out = dist[m];
    proof {
        lemma_lev_bound(a@, b@, n as int, m as int);
    }
    out as i32
}

/// A fresh copy of a distance row.
fn copy_row(src: &Vec<usize>) -> (r: Vec<usize>)
    ensures
        r@ == src@,
{
    let mut r: Vec<usize> = Vec::new();
    let n = src.len();
    let mut i: usize = 0;
    while i < n
        invariant
            n == src@.len(),
            i <= n,
            r@ == src@.take(i as int),
        decreases n - i,
    {
        r.push(src[i]);
        proof {
            assert(r@ =~= src@.take(i + 1 as int));
        }
        i = i + 1;
    }
    proof {
        assert(src@.take(n as int) =~= src@);
    }
    r
}

/// Whether index `i` holds the first name of least distance to `target`.
pub open spec fn is_first_minimal(words: Seq<Seq<char>>, target: Seq<char>, i: int) -> bool {
    &&& 0 <= i < words.len()
    &&& forall|j: int| 0 <= j < words.len() ==> distance(#[trigger] words[j], target) >= distance(
        words[i],
        target,
    )
    &&& forall|j: int| 0 <= j < i ==> distance(#[trigger] words[j], target) > distance(
        words[i],
        target,
    )
}

/// The registered name closest to a mistyped one; among equally close
/// names the first registered wins. Fails only when no name is registered.
pub fn find_matching_word(word: &str, words: Vec<String>) -> (r: Result<String, String>)
    requires
        word@.len() <= 0x10000,
        forall|i: int| 0 <= i < words.deep_view().len() ==> (#[trigger] words.deep_view()[i]).len()
            <= 0x10000,
    ensures
        match r {
            Ok(w) => exists|i: int|
                is_first_minimal(words.deep_view(), word@, i) && w@ == words.deep_view()[i],
            Err(_) => words.deep_view().len() == 0,
        },
{
    let n = words.len();
    if n == 0 {
        return Err(String::from_str("No suggestions available"));
    }
    proof {
        assert(words.deep_view()[0] == words[0]@);
    }
    let mut best_dist = min_distance(words[0].as_str(), word);
    let mut best: usize = 0;
    let mut i: usize = 1;
    while i < n
        invariant
            n == words.len(),
            word@.len() <= 0x10000,
            forall|k: int| 0 <= k < words.deep_view().len() ==> (#[trigger] words.deep_view()[
                k
            ]).len() <= 0x10000,
            1 <= i <= n,
            best < i,
            best_dist as int == distance(words.deep_view()[best as int], word@),
            forall|j: int| 0 <= j < i ==> distance(#[trigger] words.deep_view()[j], word@)
                >= best_dist as int,
            forall|j: int| 0 <= j < best ==> distance(#[trigger] words.deep_view()[j], word@)
                > best_dist as int,
        decreases n - i,
    {
        proof {
            assert(words.deep_view()[i as int] == words[i as int]@);
        }
        let d = min_distance(words[i].as_str(), word);
        if d < best_dist {
            best_dist = d;
            best = i;
        }
        i = i + 1;
    }
    proof {
        assert(is_first_minimal(words.deep_view(), word@, best as int));
        assert(words.deep_view()[best as int] == words[best as int]@);
    }
    Ok(words[best].clone())
}


/// How one character of a report title appears in a file name: slashes,
/// backslashes and spaces become underscores; double quotes are dropped.
pub open spec fn sanitize_char(c: char) -> Seq<char> {
    if c == '"' {
        Seq::empty()
    } else if c == '/' || c == '\\' || c == ' ' {
        seq!['_']
    } else {
        seq![c]
    }
}

/// The filename-safe form of a title.
pub open spec fn sanitized(s: Seq<char>) -> Seq<char>
    decreases s.len(),
{
    if s.len() == 0 {
        Seq::empty()
    } else {
        sanitize_char(s[0]) + sanitized(s.skip(1))
    }
}

pub proof fn lemma_sanitized_push(s: Seq<char>, c: char)
    ensures
        sanitized(s.push(c)) == sanitized(s) + sanitize_char(c),
    decreases s.len(),
{
    if s.len() == 0 {
        assert(s.push(c)[0] == c);
        assert(s.push(c).skip(1) =~= Seq::<char>::empty());
        assert(sanitized(Seq::<char>::empty()) =~= Seq::<char>::empty());
        assert(sanitized(s.push(c)) =~= sanitized(s) + sanitize_char(c));
    } else {
        assert(s.push(c).skip(1) =~= s.skip(1).push(c));
        lemma_sanitized_push(s.skip(1), c);
        assert(sanitized(s.push(c)) =~= sanitized(s) + sanitize_char(c));
    }
}

/// Makes a report title safe for the file system.
pub fn sanitize_title(title: &str) -> (r: String)
    ensures
        r@ == sanitized(title@),
{
    let cs = to_chars(title);
    let n = cs.len();
    let mut out: Vec<char> = Vec::new();
    let mut i: usize = 0;
    while i < n
        invariant
            n == cs@.len(),
            cs@ == title@,
            i <= n,
            out@ == sanitized(title@.take(i as int)),
        decreases n - i,
    {
        let c = cs[i];
        proof {
            assert(title@.take(i + 1 as int) =~= title@.take(i as int).push(title@[i as int]));
            lemma_sanitized_push(title@.take(i as int), title@[i as int]);
        }
        if c == '"' {
        } else if c == '/' || c == '\\' || c == ' ' {
            out.push('_');
        } else {
            out.push(c);
        }
        proof {
            assert(out@ =~= sanitized(title@.take(i + 1 as int)));
        }
        i = i + 1;
    }
    proof {
        assert(title@.take(n as int) =~= title@);
    }
    chars_to_string(&out)
}

/// Where a report with this title is saved.
pub fn report_filename(title: &str) -> (r: String)
    ensures
        r@ == "reports/"@ + sanitized(title@) + ".md"@,
{
    let mut out = String::from_str("reports/");
    let safe = sanitize_title(title);
    out.append(safe.as_str());
    out.append(".md");
    out
}

/// Where a README saved under this name goes.
pub fn readme_filename(name: &str) -> (r: String)
    ensures
        r@ == "readmes/"@ + name@ + ".md"@,
{
    let mut out = String::from_str("readmes/");
    out.append(name);
    out.append(".md");
    out
}

/// Where a conversation saved under this name goes.
pub fn conversation_filename(name: &str) -> (r: String)
    ensures
        r@ == "conversations/"@ + name@ + ".json"@,
{
    let mut out = String::from_str("conversations/");
    out.append(name);
    out.append(".json");
    out
}

/// A report file's text: the title, a blank line, the body.
pub fn compose_report(title: &str, report: &str) -> (r: String)
    ensures
        r@ == title@ + "\n\n"@ + report@,
{
    let mut out = String::from_str(title);
    out.append("\n\n");
    out.append(report);
    out
}

/// The user message recording one file added to the context: the path, a
/// separator, the content.
pub open spec fn file_message_text(path: Seq<char>, content: Seq<char>) -> Seq<char> {
    path + "\n\n:::\n\n"@ + content
}

/// Appends a file's content to the transcript as a user message tagged
/// with its path. One call per readable file; an unreadable file is
/// reported by the caller and appends nothing.
pub fn push_file_message(ctx: &mut ConversationContext, path: &str, content: &str)
    ensures
        final(ctx)@.input == old(ctx)@.input.push(
            MessageView { role: "user"@, content: file_message_text(path@, content@) },
        ),
        final(ctx)@.model == old(ctx)@.model,
        final(ctx)@.stream == old(ctx)@.stream,
{
    let mut text = String::from_str(path);
    text.append("\n\n:::\n\n");
    text.append(content);
    let m = Message { role: String::from_str("user"), content: text };
    ctx.push(m);
}

/// The synthetic conversation the report command sends: the documenting
/// instruction, then every non-developer message of the transcript, in
/// order.
pub fn build_document_context(ctx: &ConversationContext) -> (r: ConversationContext)
    ensures
        r@.model == "o3-mini"@,
        r@.stream == false,
        r@.input == seq![
            MessageView { role: "developer"@, content: crate::messages::document_prompt_text() },
        ] + non_developer_messages(ctx@.input),
{
    let mut fresh = ConversationContext::new("o3-mini", false);
    let dev = Message {
        role: String::from_str("developer"),
        content: String::from_str(document_prompt()),
    };
    let ghost dev_view = dev@;
    fresh.push(dev);
    proof {
        assert(fresh@.input =~= seq![dev_view]);
    }
    let n = ctx.input.len();
    let mut j: usize = 0;
    proof {
        assert(non_developer_messages(ctx@.input.take(0)) =~= Seq::<MessageView>::empty());
        assert(fresh@.input =~= seq![dev_view] + non_developer_messages(ctx@.input.take(0)));
    }
    while j < n
        invariant
            n == ctx.input.len(),
            j <= n,
            fresh@.model == "o3-mini"@,
            fresh@.stream == false,
            fresh@.input == seq![dev_view] + non_developer_messages(ctx@.input.take(j as int)),
            dev_view == (MessageView {
                role: "developer"@,
                content: crate::messages::document_prompt_text(),
            }),
        decreases n - j,
    {
        proof {
            reveal(Seq::filter);
            assert(ctx@.input.take(j + 1 as int).drop_last() =~= ctx@.input.take(j as int));
            assert(ctx@.input.take(j + 1 as int).last() == ctx@.input[j as int]);
        }
        if !crate::conversation::is_developer(&ctx.input[j]) {
            let ghost before = fresh@.input;
            fresh.push(ctx.input[j].clone());
            proof {
                assert(fresh@.input =~= before.push(ctx@.input[j as int]));
                assert(fresh@.input =~= seq![dev_view] + non_developer_messages(
                    ctx@.input.take(j + 1 as int),
                ));
            }
        }
        j = j + 1;
    }
    proof {
        assert(ctx@.input.take(n as int) =~= ctx@.input);
    }
    fresh
}

/// The synthetic one-message conversation that asks for a report title.
pub fn build_title_context(report: &str) -> (r: ConversationContext)
    ensures
        r@.model == "gpt-4o"@,
        r@.stream == false,
        r@.input == seq![
            MessageView {
                role: "developer"@,
                content: crate::messages::title_prompt_text() + " \n::\n "@ + report@,
            },
        ],
{
    let mut fresh = ConversationContext::new("gpt-4o", false);
    let mut content = String::from_str(title_prompt());
    content.append(" \n::\n ");
    content.append(report);
    let dev = Message { role: String::from_str("developer"), content };
    let ghost dev_view = dev@;
    fresh.push(dev);
    proof {
        assert(fresh@.input =~= seq![dev_view]);
    }
    fresh
}

/// The conversation the README command seeds before the matched files are
/// pushed onto it.
pub fn build_readme_context() -> (r: ConversationContext)
    ensures
        r@.model == "o3-mini"@,
        r@.stream == false,
        r@.input == seq![
            MessageView { role: "developer"@, content: crate::messages::readme_prompt_text() },
        ],
{
    let mut fresh = ConversationContext::new("o3-mini", false);
    let dev = Message {
        role: String::from_str("developer"),
        content: String::from_str(readme_prompt()),
    };
    let ghost dev_view = dev@;
    fresh.push(dev);
    proof {
        assert(fresh@.input =~= seq![dev_view]);
    }
    fresh
}

/// The image model a menu reply selects; anything but the two known
/// replies falls back to the first model, reported as invalid.
pub fn choose_image_model(choice: &str) -> (r: (String, bool))
    ensures
        choice@ == "2"@ ==> r.0@ == "dall-e-2"@ && r.1,
        choice@ == "3"@ ==> r.0@ == "dall-e-3"@ && r.1,
        choice@ != "2"@ && choice@ != "3"@ ==> r.0@ == "dall-e-2"@ && !r.1,
{
    proof {
        reveal_strlit("2");
        reveal_strlit("3");
    }
    let c = String::from_str(choice);
    let two = String::from_str("2");
    let three = String::from_str("3");
    if c == two {
        proof {
            assert("2"@[0] == '2' && "3"@[0] == '3');
            assert(choice@ != "3"@);
        }
        (String::from_str("dall-e-2"), true)
    } else if c == three {
        (String::from_str("dall-e-3"), true)
    } else {
        (String::from_str("dall-e-2"), false)
    }
}


/// Whether a character is a decimal digit.
pub open spec fn is_digit(c: char) -> bool {
    48 <= c as int <= 57
}

/// The number a digit string names.
pub open spec fn digits_value(s: Seq<char>) -> int
    decreases s.len(),
{
    if s.len() == 0 {
        0
    } else {
        digits_value(s.drop_last()) * 10 + (s.last() as int - 48)
    }
}

pub open spec fn all_digits(s: Seq<char>) -> bool {
    forall|i: int| 0 <= i < s.len() ==> is_digit(#[trigger] s[i])
}

/// The menu entry a reply selects: a number (an optional plus sign
/// allowed) between one and `max`; anything else selects nothing.
pub open spec fn selected_index(s: Seq<char>, max: int) -> Option<int> {
    let t = if s.len() > 0 && s[0] == '+' {
        s.skip(1)
    } else {
        s
    };
    if t.len() > 0 && all_digits(t) && 1 <= digits_value(t) <= max {
        Some(digits_value(t))
    } else {
        None
    }
}

proof fn lemma_digits_nonneg(s: Seq<char>)
    requires
        all_digits(s),
    ensures
        digits_value(s) >= 0,
    decreases s.len(),
{
    if s.len() > 0 {
        assert(forall|k: int| 0 <= k < s.len() - 1 ==> s.drop_last()[k] == s[k]);
        lemma_digits_nonneg(s.drop_last());
        assert(is_digit(s.last()));
    }
}

/// The digit a character stands for.
fn digit_of(c: char) -> (r: Option<u8>)
    ensures
        match r {
            Some(d) => is_digit(c) && d as int == c as int - 48,
            None => !is_digit(c),
        },
{
    let u = c as u32;
    if 48 <= u && u <= 57 {
        Some((u - 48) as u8)
    } else {
        None
    }
}

/// Reads a menu selection capped by `max`.
fn parse_selection(choice: &str, max: usize) -> (r: Option<usize>)
    requires
        max <= 0xFFFF,
    ensures
        match r {
            Some(k) => selected_index(choice@, max as int) == Some(k as int) && 1 <= k <= max,
            None => selected_index(choice@, max as int) is None,
        },
{
    let cs = to_chars(choice);
    let n = cs.len();
    let start: usize = if n > 0 && cs[0] == '+' {
        1
    } else {
        0
    };
    let ghost t = if choice@.len() > 0 && choice@[0] == '+' {
        choice@.skip(1)
    } else {
        choice@
    };
    proof {
        assert(cs@.subrange(start as int, n as int) =~= t);
    }
    if start == n {
        proof {
            assert(t.len() == 0);
        }
        return None;
    }
    let cap: u64 = (max as u64) + 1;
    let mut acc: u64 = 0;
    let mut i: usize = start;
    while i < n
        invariant
            n == cs@.len(),
            cs@ == choice@,
            start <= i <= n,
            start < n,
            max <= 0xFFFF,
            cap == max as int + 1,
            t == cs@.subrange(start as int, n as int),
            t == (if choice@.len() > 0 && choice@[0] == '+' {
                choice@.skip(1)
            } else {
                choice@
            }),
            forall|k: int| 0 <= k < i - start ==> is_digit(#[trigger] t[k]),
            acc <= cap,
            acc as int == if digits_value(t.take(i - start)) <= cap as int {
                digits_value(t.take(i - start))
            } else {
                cap as int
            },
        decreases n - i,
    {
        let ghost prefix = t.take(i - start);
        proof {
            assert(forall|k: int| 0 <= k < prefix.len() ==> prefix[k] == t[k]);
            assert(all_digits(prefix));
            lemma_digits_nonneg(prefix);
            assert(t[i - start] == choice@[i as int]);
        }
        let d = match digit_of(cs[i]) {
            Some(d) => d,
            None => {
                proof {
                    assert(!is_digit(t[i - start]));
                    assert(!all_digits(t));
                }
                return None;
            },
        };
        proof {
            assert(t.take(i + 1 - start).drop_last() =~= prefix);
            assert(t.take(i + 1 - start).last() == choice@[i as int]);
            assert(digits_value(t.take(i + 1 - start)) == digits_value(prefix) * 10 + (
            choice@[i as int] as int - 48));
        }
        let next = acc * 10 + (d as u64);
        acc = if next > cap {
            cap
        } else {
            next
        };
        proof {
            if digits_value(prefix) > cap as int {
                assert(digits_value(prefix) * 10 + (choice@[i as int] as int - 48) > cap as int);
            }
        }
        i = i + 1;
    }
    proof {
        assert(t.take(n - start as int) =~= t);
        assert(all_digits(t));
    }
    if 1 <= acc && acc <= max as u64 {
        Some(acc as usize)
    } else {
        proof {
            if acc as int == cap as int && digits_value(t) > cap as int {
                assert(!(1 <= digits_value(t) <= max as int));
            }
        }
        None
    }
}

/// The model a menu reply selects, if the reply is a valid selection.
pub fn select_model(models: &Vec<String>, choice: &str) -> (r: Option<String>)
    requires
        models.deep_view().len() <= 0xFFFF,
    ensures
        match r {
            Some(m) => selected_index(choice@, models.deep_view().len() as int) matches Some(k)
                && m@ == models.deep_view()[k - 1],
            None => selected_index(choice@, models.deep_view().len() as int) is None,
        },
{
    match parse_selection(choice, models.len()) {
        Some(k) => {
            proof {
                assert(models.deep_view()[k - 1] == models[k - 1]@);
            }
            Some(models[k - 1].clone())
        },
        None => None,
    }
}

/// Applies a model-menu reply to the transcript: a valid selection sets
/// the model and reports the change; anything else leaves the transcript
/// exactly as it was.
pub fn apply_model_choice(
    ctx: &mut ConversationContext,
    models: &Vec<String>,
    choice: &str,
) -> (changed: bool)
    requires
        models.deep_view().len() <= 0xFFFF,
    ensures
        match selected_index(choice@, models.deep_view().len() as int) {
            Some(k) => {
                &&& changed
                &&& final(ctx)@.model == models.deep_view()[k - 1]
                &&& final(ctx)@.input == old(ctx)@.input
                &&& final(ctx)@.stream == old(ctx)@.stream
            },
            None => !changed && final(ctx)@ == old(ctx)@,
        },
{
    match select_model(models, choice) {
        Some(m) => {
            ctx.model = m;
            true
        },
        None => false,
    }
}

/// One registered command: its name and its help description.
pub struct CommandInfo {
    pub name: String,
    pub description: String,
}

/// Mathematical image of a command entry.
pub ghost struct CommandInfoView {
    pub name: Seq<char>,
    pub description: Seq<char>,
}

impl DeepView for CommandInfo {
    type V = CommandInfoView;

    open spec fn deep_view(&self) -> CommandInfoView {
        CommandInfoView { name: self.name@, description: self.description@ }
    }
}

/// The registered command names, in registration order.
pub open spec fn command_names() -> Seq<Seq<char>> {
    seq![
        "ec"@,
        "dc"@,
        "lc"@,
        "sc"@,
        "clear"@,
        "debug"@,
        "cm"@,
        "help"@,
        "gf"@,
        "readme"@,
        "doc"@,
        "quit"@,
        "image"@,
        "sh"@,
    ]
}

/// The help description of each registered command, in the same order.
pub open spec fn command_descriptions() -> Seq<Seq<char>> {
    seq![
        "Edit the application configuration."@,
        "Deletes the current application config file."@,
        "Loads a conversation from the conversations directory."@,
        "Saves the current conversation as JSON."@,
        "Clears the conversation context."@,
        "Prints debug information."@,
        "Changes the chat model."@,
        "Displays this help message."@,
        "Adds file contents to the context."@,
        "Generates a README file."@,
        "Generates documentation."@,
        "Quits this program. Also 'q'."@,
        "Generates an image and returns its URL."@,
        "Executes a program with arguments. Usage: sh <program> [args...]"@,
    ]
}

/// The command registry's listing: names and descriptions, in order.
pub fn command_list() -> (r: Vec<CommandInfo>)
    ensures
        r.deep_view().len() == command_names().len(),
        forall|i: int|
            0 <= i < r.deep_view().len() ==> (#[trigger] r.deep_view()[i]).name
                == command_names()[i] && r.deep_view()[i].description == command_descriptions()[i],
{
    let mut v: Vec<CommandInfo> = Vec::new();
    v.push(CommandInfo {
        name: String::from_str("ec"),
        description: String::from_str("Edit the application configuration."),
    });
    v.push(CommandInfo {
        name: String::from_str("dc"),
        description: String::from_str("Deletes the current application config file."),
    });
    v.push(CommandInfo {
        name: String::from_str("lc"),
        description: String::from_str("Loads a conversation from the conversations directory."),
    });
    v.push(CommandInfo {
        name: String::from_str("sc"),
        description: String::from_str("Saves the current conversation as JSON."),
    });
    v.push(CommandInfo {
        name: String::from_str("clear"),
        description: String::from_str("Clears the conversation context."),
    });
    v.push(CommandInfo {
        name: String::from_str("debug"),
        description: String::from_str("Prints debug information."),
    });
    v.push(CommandInfo {
        name: String::from_str("cm"),
        description: String::from_str("Changes the chat model."),
    });
    v.push(CommandInfo {
        name: String::from_str("help"),
        description: String::from_str("Displays this help message."),
    });
    v.push(CommandInfo {
        name: String::from_str("gf"),
        description: String::from_str("Adds file contents to the context."),
    });
    v.push(CommandInfo {
        name: String::from_str("readme"),
        description: String::from_str("Generates a README file."),
    });
    v.push(CommandInfo {
        name: String::from_str("doc"),
        description: String::from_str("Generates documentation."),
    });
    v.push(CommandInfo {
        name: String::from_str("quit"),
        description: String::from_str("Quits this program. Also 'q'."),
    });
    v.push(CommandInfo {
        name: String::from_str("image"),
        description: String::from_str("Generates an image and returns its URL."),
    });
    v.push(CommandInfo {
        name: String::from_str("sh"),
        description: String::from_str(
            "Executes a program with arguments. Usage: sh <program> [args...]",
        ),
    });
    proof {
        assert(forall|i: int|
            0 <= i < v.deep_view().len() ==> (#[trigger] v.deep_view()[i]).name
                == command_names()[i] && v.deep_view()[i].description
                == command_descriptions()[i]);
    }
    v
}

/// The registered command names, for the suggestion search.
pub fn registered_names() -> (r: Vec<String>)
    ensures
        r.deep_view() == command_names(),
{
    let entries = command_list();
    let mut names: Vec<String> = Vec::new();
    let n = entries.len();
    let mut i: usize = 0;
    while i < n
        invariant
            n == entries.deep_view().len(),
            n == command_names().len(),
            forall|k: int|
                0 <= k < n ==> (#[trigger] entries.deep_view()[k]).name == command_names()[k],
            i <= n,
            names.deep_view() =~= command_names().take(i as int),
        decreases n - i,
    {
        let ghost before = names.deep_view();
        names.push(entries[i].name.clone());
        proof {
            assert(entries[i as int].deep_view() == entries.deep_view()[i as int]);
            assert(names.deep_view() =~= before.push(command_names()[i as int]));
            assert(names.deep_view() =~= command_names().take(i + 1 as int));
        }
        i = i + 1;
    }
    proof {
        assert(command_names().take(n as int) =~= command_names());
    }
    names
}


/// The command table as the contracts see it.
pub open spec fn command_table() -> Seq<CommandInfoView> {
    Seq::new(
        command_names().len(),
        |i: int|
            CommandInfoView { name: command_names()[i], description: command_descriptions()[i] },
    )
}

/// `n` spaces.
pub open spec fn spaces(n: int) -> Seq<char>
    decreases n,
{
    if n <= 0 {
        Seq::empty()
    } else {
        seq![' '] + spaces(n - 1)
    }
}

proof fn lemma_spaces_snoc(n: int)
    requires
        n >= 1,
    ensures
        spaces(n) == spaces(n - 1) + seq![' '],
    decreases n,
{
    if n == 1 {
        assert(spaces(1) =~= spaces(0) + seq![' ']);
    } else {
        lemma_spaces_snoc(n - 1);
        assert(spaces(n) =~= spaces(n - 1) + seq![' ']);
    }
}

/// One line of the help listing: a short name padded to seven columns, a
/// long name on its own line.
pub open spec fn help_line(e: CommandInfoView) -> Seq<char> {
    if e.name.len() < 7 {
        e.name + spaces(7 - e.name.len()) + " - "@ + e.description + "\n"@
    } else {
        e.name + "\n"@ + spaces(7) + " - "@ + e.description + "\n"@
    }
}

/// The help lines of a command table, in order.
pub open spec fn help_lines(es: Seq<CommandInfoView>) -> Seq<char>
    decreases es.len(),
{
    if es.len() == 0 {
        Seq::empty()
    } else {
        help_line(es[0]) + help_lines(es.skip(1))
    }
}

proof fn lemma_help_lines_push(es: Seq<CommandInfoView>, e: CommandInfoView)
    ensures
        help_lines(es.push(e)) == help_lines(es) + help_line(e),
    decreases es.len(),
{
    if es.len() == 0 {
        assert(es.push(e)[0] == e);
        assert(es.push(e).skip(1) =~= Seq::<CommandInfoView>::empty());
        assert(help_lines(Seq::<CommandInfoView>::empty()) == Seq::<char>::empty());
        assert(help_line(e) + Seq::<char>::empty() =~= help_line(e));
        assert(help_lines(es) + help_line(e) =~= help_line(e));
        assert(help_lines(es.push(e)) =~= help_lines(es) + help_line(e));
    } else {
        assert(es.push(e)[0] == es[0]);
        assert(es.push(e).skip(1) =~= es.skip(1).push(e));
        lemma_help_lines_push(es.skip(1), e);
        assert(help_lines(es.push(e)) =~= help_lines(es) + help_line(e));
    }
}

/// Appends `k` spaces.
fn push_spaces(out: &mut String, k: usize)
    ensures
        final(out)@ == old(out)@ + spaces(k as int),
{
    let mut i: usize = 0;
    proof {
        assert(out@ + spaces(0) =~= out@);
    }
    while i < k
        invariant
            i <= k,
            out@ == old(out)@ + spaces(i as int),
        decreases k - i,
    {
        out.append(" ");
        proof {
            lemma_spaces_snoc(i + 1 as int);
            reveal_strlit(" ");
            assert(" "@ =~= seq![' ']);
            assert(out@ =~= old(out)@ + spaces(i + 1 as int));
        }
        i = i + 1;
    }
}

/// The text the help command prints: a header, then one line for every
/// registered command, in registration order.
#[verifier::rlimit(60)]
pub fn help_text() -> (r: String)
    ensures
        r@ == "\nAvailable commands:\n"@ + help_lines(command_table()),
{
    let entries = command_list();
    proof {
        assert(entries.deep_view() =~= command_table());
    }
    let mut out = String::from_str("\nAvailable commands:\n");
    let n = entries.len();
    let mut i: usize = 0;
    proof {
        assert(out@ + help_lines(command_table().take(0)) =~= out@);
    }
    while i < n
        invariant
            n == entries.deep_view().len(),
            entries.deep_view() == command_table(),
            i <= n,
            out@ == "\nAvailable commands:\n"@ + help_lines(command_table().take(i as int)),
        decreases n - i,
    {
        let e = &entries[i];
        proof {
            assert(e.deep_view() == command_table()[i as int]);
        }
        let name_chars = to_chars(e.name.as_str());
        out.append(e.name.as_str());
        if name_chars.len() < 7 {
            let pad = 7 - name_chars.len();
            push_spaces(&mut out, pad);
        } else {
            out.append("\n");
            push_spaces(&mut out, 7);
        }
        out.append(" - ");
        out.append(e.description.as_str());
        out.append("\n");
        proof {
            assert(command_table().take(i + 1 as int) =~= command_table().take(i as int).push(
                command_table()[i as int],
            ));
            lemma_help_lines_push(command_table().take(i as int), command_table()[i as int]);
            assert(out@ =~= "\nAvailable commands:\n"@ + help_lines(
                command_table().take(i + 1 as int),
            ));
        }
        i = i + 1;
    }
    proof {
        assert(command_table().take(n as int) =~= command_table());
    }
    out
}

/// The suggestion for a mistyped command: the registered name nearest by
/// edit distance, the first registered among ties.
pub fn suggest_command(word: &str) -> (r: String)
    requires
        word@.len() <= 0x10000,
    ensures
        exists|i: int| is_first_minimal(command_names(), word@, i) && r@ == command_names()[i],
{
    let names = registered_names();
    proof {
        reveal_strlit("ec");
        reveal_strlit("dc");
        reveal_strlit("lc");
        reveal_strlit("sc");
        reveal_strlit("clear");
        reveal_strlit("debug");
        reveal_strlit("cm");
        reveal_strlit("help");
        reveal_strlit("gf");
        reveal_strlit("readme");
        reveal_strlit("doc");
        reveal_strlit("quit");
        reveal_strlit("image");
        reveal_strlit("sh");
        assert(forall|i: int|
            0 <= i < names.deep_view().len() ==> (#[trigger] names.deep_view()[i]).len()
                <= 0x10000);
    }
    match find_matching_word(word, names) {
        Ok(w) => w,
        Err(e) => {
            // the table is never empty, so the search cannot fail
            proof {
                assert(command_names().len() == 14);
                assert(false);
            }
            e
        },
    }
}


/// Whether a walked file belongs in the README conversation: dotfiles
/// never do; with a filter set, only files whose extension is listed.
pub fn include_in_readme(filename: &str, extension: &str, extensions: &Vec<String>) -> (r: bool)
    ensures
        r == ((filename@.len() == 0 || filename@[0] != '.') && (extensions.deep_view().len() == 0
            || extensions.deep_view().contains(extension@))),
{
    let name_chars = to_chars(filename);
    if name_chars.len() > 0 && name_chars[0] == '.' {
        return false;
    }
    if extensions.len() == 0 {
        return true;
    }
    let target = String::from_str(extension);
    let n = extensions.len();
    let mut j: usize = 0;
    while j < n
        invariant
            n == extensions.len(),
            target@ == extension@,
            filename@.len() == 0 || filename@[0] != '.',
            j <= n,
            forall|k: int| 0 <= k < j ==> extensions.deep_view()[k] != extension@,
        decreases n - j,
    {
        let candidate = &extensions[j];
        if *candidate == target {
            proof {
                assert(extensions.deep_view()[j as int] == extension@);
                assert(extensions.deep_view().contains(extension@));
            }
            return true;
        }
        proof {
            assert(extensions.deep_view()[j as int] == extensions[j as int]@);
        }
        j = j + 1;
    }
    proof {
        assert(!extensions.deep_view().contains(extension@));
    }
    false
}

} // verus!
