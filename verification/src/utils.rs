//! Small shared helpers: reading the reply out of a "responses" payload,
//! comparing model lists, affirmative answers, and message-box widths.

use crate::conversation::{OutputView, Response};
use crate::json::to_chars;
use vstd::prelude::*;
use vstd::string::StringExecFns;

verus! {

/// The reply a single output item offers: its first content block's text,
/// if the item is message-typed and has a block at all.
pub open spec fn output_reply(o: OutputView) -> Option<Seq<char>> {
    if o.type_field == "message"@ {
        match o.content {
            Some(cs) => if cs.len() > 0 {
                Some(cs[0].text)
            } else {
                None
            },
            None => None,
        }
    } else {
        None
    }
}

/// The reply of a "responses" payload: the first output item that offers
/// one; absent when none does.
pub open spec fn extracted_text(outs: Seq<OutputView>) -> Option<Seq<char>>
    decreases outs.len(),
{
    if outs.len() == 0 {
        None
    } else {
        match output_reply(outs[0]) {
            Some(t) => Some(t),
            None => extracted_text(outs.skip(1)),
        }
    }
}

/// The reply text of a "responses" payload, or its absence; an absent reply
/// is an ordinary outcome, never a failure.
pub fn extract_message_text(response: &Response) -> (r: Option<String>)
    ensures
        match r {
            Some(t) => extracted_text(response@) == Some(t@),
            None => extracted_text(response@) is None,
        },
{
    let n = response.output.len();
    let mut i: usize = 0;
    proof {
        assert(response@.skip(0) =~= response@);
    }
    while i < n
        invariant
            n == response.output.len(),
            i <= n,
            extracted_text(response@) == extracted_text(response@.skip(i as int)),
        decreases n - i,
    {
        proof {
            assert(response@.skip(i as int)[0] == response@[i as int]);
            assert(response@.skip(i as int).skip(1) =~= response@.skip(i + 1 as int));
        }
        let o = &response.output[i];
        let message_tag = String::from_str("message");
        if o.type_field == message_tag {
            match &o.content {
                Some(cs) => {
                    if cs.len() > 0 {
                        proof {
                            assert(response@[i as int].content matches Some(csv) && csv[0]
                                == cs@[0].deep_view());
                        }
                        return Some(cs[0].text.clone());
                    }
                },
                None => {},
            }
        }
        proof {
            assert(output_reply(response@[i as int]) is None);
        }
        i = i + 1;
    }
    proof {
        assert(response@.skip(n as int).len() == 0);
    }
    None
}

/// A payload with no message-typed output item has no reply to extract:
/// the result is absent, and absence is the stated outcome, not an error.
pub proof fn lemma_extract_absent(outs: Seq<OutputView>)
    requires
        forall|i: int| 0 <= i < outs.len() ==> (#[trigger] outs[i]).type_field != "message"@,
    ensures
        extracted_text(outs) is None,
    decreases outs.len(),
{
    if outs.len() > 0 {
        assert(forall|i: int|
            0 <= i < outs.skip(1).len() ==> outs.skip(1)[i] == outs[i + 1]);
        lemma_extract_absent(outs.skip(1));
    }
}

/// Whether two model lists hold the same names: equal lengths, and every
/// name of each list occurring in the other, order and multiplicity aside.
pub open spec fn same_name_lists(s1: Seq<Seq<char>>, s2: Seq<Seq<char>>) -> bool {
    &&& s1.len() == s2.len()
    &&& forall|i: int| 0 <= i < s1.len() ==> s2.contains(#[trigger] s1[i])
    &&& forall|i: int| 0 <= i < s2.len() ==> s1.contains(#[trigger] s2[i])
}

/// Compares two model-name lists as unordered collections of names.
pub fn sequence_equals(slice1: &Vec<String>, slice2: &Vec<String>) -> (r: bool)
    ensures
        r == same_name_lists(slice1.deep_view(), slice2.deep_view()),
{
    if slice1.len() != slice2.len() {
        return false;
    }
    let forward = each_contained(slice1, slice2);
    if !forward {
        return false;
    }
    let backward = each_contained(slice2, slice1);
    if !backward {
        return false;
    }
    true
}

/// Whether every name of `a` also occurs somewhere in `b`.
fn each_contained(a: &Vec<String>, b: &Vec<String>) -> (r: bool)
    ensures
        r == forall|i: int|
            0 <= i < a.deep_view().len() ==> b.deep_view().contains(#[trigger] a.deep_view()[i]),
{
    let n = a.len();
    let mut i: usize = 0;
    while i < n
        invariant
            n == a.len(),
            i <= n,
            forall|k: int| 0 <= k < i ==> b.deep_view().contains(#[trigger] a.deep_view()[k]),
        decreases n - i,
    {
        if !contains_name(b, &a[i]) {
            proof {
                assert(a.deep_view()[i as int] == a[i as int]@);
                assert(!b.deep_view().contains(a.deep_view()[i as int]));
            }
            return false;
        }
        i = i + 1;
    }
    true
}

/// Whether `x` occurs in `v`.
fn contains_name(v: &Vec<String>, x: &String) -> (r: bool)
    ensures
        r == v.deep_view().contains(x@),
{
    let n = v.len();
    let mut j: usize = 0;
    while j < n
        invariant
            n == v.len(),
            j <= n,
            forall|k: int| 0 <= k < j ==> v.deep_view()[k] != x@,
        decreases n - j,
    {
        let candidate = &v[j];
        if *candidate == *x {
            proof {
                assert(v.deep_view()[j as int] == x@);
            }
            return true;
        }
        proof {
            assert(v.deep_view()[j as int] == v[j as int]@);
        }
        j = j + 1;
    }
    proof {
        assert(!v.deep_view().contains(x@));
    }
    false
}

/// The lower-case form of an ASCII letter; other characters unchanged.
pub open spec fn ascii_lower(c: char) -> char {
    if 65 <= c as int <= 90 {
        ((c as int + 32) as u8) as char
    } else {
        c
    }
}

/// A reply that counts as a yes: `y` or `yes` in any letter case.
pub open spec fn is_affirmative(s: Seq<char>) -> bool {
    ||| s.len() == 1 && ascii_lower(s[0]) == 'y'
    ||| s.len() == 3 && ascii_lower(s[0]) == 'y' && ascii_lower(s[1]) == 'e' && ascii_lower(s[2])
        == 's'
}

/// Whether the user's reply to a yes/no prompt is a yes.
pub fn confirm_action(response: &str) -> (r: bool)
    ensures
        r == is_affirmative(response@),
{
    let cs = to_chars(response);
    if cs.len() == 1 {
        lower_char(cs[0]) == 'y'
    } else if cs.len() == 3 {
        let c0 = lower_char(cs[0]);
        let c1 = lower_char(cs[1]);
        let c2 = lower_char(cs[2]);
        c0 == 'y' && c1 == 'e' && c2 == 's'
    } else {
        false
    }
}

/// Lower-cases one ASCII letter.
pub(crate) fn lower_char(c: char) -> (r: char)
    ensures
        r == ascii_lower(c),
{
    let u = c as u32;
    if 65 <= u && u <= 90 {
        ((u + 32) as u8) as char
    } else {
        c
    }
}


/// Whether the text renders as exactly one line: nonempty, with no line
/// break before its final character.
pub open spec fn single_line(s: Seq<char>) -> bool {
    s.len() > 0 && forall|i: int| 0 <= i < s.len() - 1 ==> s[i] != '\n'
}

/// The length of the sole line of a single-line text: the text without a
/// trailing line break.
pub open spec fn sole_line_len(s: Seq<char>) -> int {
    if s.len() > 0 && s[s.len() - 1] == '\n' {
        if s.len() >= 2 && s[s.len() - 2] == '\r' {
            s.len() - 2
        } else {
            s.len() - 1
        }
    } else {
        s.len() as int
    }
}

/// The box width for a message on a terminal `tw` columns wide: a share of
/// the chat width, shrunk to fit a short single-line message with its
/// padding.
pub open spec fn spec_message_width(s: Seq<char>, maxw: int, pct: int, tw: int) -> int {
    let cap = if tw < maxw {
        tw
    } else {
        maxw
    };
    let mw = cap * pct / 100;
    if single_line(s) {
        if sole_line_len(s) + 4 < mw {
            sole_line_len(s) + 4
        } else {
            mw
        }
    } else {
        mw
    }
}

/// Relies on `termsize::get`: the attached terminal's column count, absent
/// when no terminal is attached; the result depends on the environment.
#[verifier::external_body]
fn terminal_cols() -> (r: Option<u16>) {
    termsize::get().map(|size| size.cols)
}

/// The width of the box drawn around a message, from the terminal the
/// process happens to run on (80 columns when none is attached).
pub fn calculate_message_width(
    message_text: &str,
    max_chat_width: usize,
    message_width_percent: usize,
) -> (r: usize)
    requires
        max_chat_width * message_width_percent <= usize::MAX,
    ensures
        exists|tw: int|
            0 <= tw <= 65535 && r == spec_message_width(
                message_text@,
                max_chat_width as int,
                message_width_percent as int,
                tw,
            ),
{
    let tw: usize = match terminal_cols() {
        Some(c) => c as usize,
        None => 80,
    };
    let cap = if tw < max_chat_width {
        tw
    } else {
        max_chat_width
    };
    proof {
        assert(cap * message_width_percent <= max_chat_width * message_width_percent)
            by (nonlinear_arith)
            requires
                cap <= max_chat_width,
        ;
    }
    let mw = cap * message_width_percent / 100;
    let cs = to_chars(message_text);
    let n = cs.len();
    let mut is_single = n > 0;
    let mut i: usize = 0;
    while i + 1 < n
        invariant
            n == cs@.len(),
            cs@ == message_text@,
            i <= n,
            n > 0 ==> i < n,
            is_single == (n > 0 && forall|k: int| 0 <= k < i ==> cs@[k] != '\n'),
        decreases n - i,
    {
        if cs[i] == '\n' {
            is_single = false;
            proof {
                assert(cs@[i as int] == '\n');
            }
        }
        i = i + 1;
    }
    let r = if is_single {
        proof {
            assert(single_line(message_text@));
        }
        let last_break = n >= 1 && cs[n - 1] == '\n';
        let fl: usize = if last_break {
            if n >= 2 && cs[n - 2] == '\r' {
                n - 2
            } else {
                n - 1
            }
        } else {
            n
        };
        proof {
            assert(fl as int == sole_line_len(message_text@));
        }
        if mw >= 4 && fl < mw - 4 {
            fl + 4
        } else {
            mw
        }
    } else {
        proof {
            if n > 0 {
                let k = choose|k: int| 0 <= k < i && cs@[k] == '\n';
                assert(message_text@[k] == '\n');
            }
        }
        mw
    };
    proof {
        assert(0 <= tw as int <= 65535 && r == spec_message_width(
            message_text@,
            max_chat_width as int,
            message_width_percent as int,
            tw as int,
        ));
    }
    r
}


/// The OpenAI model names offered in the selection menu.
pub open spec fn openai_models() -> Seq<Seq<char>> {
    seq!["gpt-4o"@, "gpt-4o-mini"@, "gpt-4o-search-preview"@, "o1"@, "o3-mini"@]
}

/// The OpenAI model names, in menu order.
pub fn openai_model_names() -> (r: Vec<String>)
    ensures
        r.deep_view() == openai_models(),
{
    let mut v: Vec<String> = Vec::new();
    v.push(String::from_str("gpt-4o"));
    v.push(String::from_str("gpt-4o-mini"));
    v.push(String::from_str("gpt-4o-search-preview"));
    v.push(String::from_str("o1"));
    v.push(String::from_str("o3-mini"));
    proof {
        assert(v.deep_view() =~= openai_models());
    }
    v
}

/// Every model name to offer, given which providers are enabled and the
/// names the Anthropic listing returned; with both providers enabled the
/// OpenAI names come first.
pub fn get_all_model_names(
    anthropic_enabled: bool,
    openai_enabled: bool,
    anthropic_names: Vec<String>,
) -> (r: Vec<String>)
    requires
        anthropic_enabled || openai_enabled,
    ensures
        anthropic_enabled && openai_enabled ==> r.deep_view() == openai_models()
            + anthropic_names.deep_view(),
        !anthropic_enabled && openai_enabled ==> r.deep_view() == openai_models(),
        anthropic_enabled && !openai_enabled ==> r.deep_view() == anthropic_names.deep_view(),
{
    if openai_enabled && anthropic_enabled {
        let mut v = openai_model_names();
        let n = anthropic_names.len();
        let mut i: usize = 0;
        while i < n
            invariant
                n == anthropic_names.len(),
                i <= n,
                v.deep_view() =~= openai_models() + anthropic_names.deep_view().take(i as int),
            decreases n - i,
        {
            let ghost before = v.deep_view();
            v.push(anthropic_names[i].clone());
            proof {
                assert(v.deep_view() =~= before.push(anthropic_names.deep_view()[i as int]));
                assert(v.deep_view() =~= openai_models() + anthropic_names.deep_view().take(
                    i + 1 as int,
                ));
            }
            i = i + 1;
        }
        proof {
            assert(anthropic_names.deep_view().take(n as int) =~= anthropic_names.deep_view());
        }
        v
    } else if openai_enabled {
        openai_model_names()
    } else {
        anthropic_names
    }
}

} // verus!
