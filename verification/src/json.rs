//! The JSON text the library reads and writes: the transcript's
//! save/load format and the provider request bodies, rendered and parsed
//! by verified code with a proved round trip.

use crate::conversation::{ConversationContext, ConversationView, Message, MessageView};
use vstd::prelude::*;
use vstd::string::StringExecFns;
use vstd::std_specs::iter::IteratorSpec;

verus! {

/// The character for one hexadecimal digit (lower case).
pub open spec fn hex_digit(d: int) -> char
    recommends
        0 <= d < 16,
{
    if d < 10 {
        ((48 + d) as u8) as char
    } else {
        ((87 + d) as u8) as char
    }
}

/// The value of one hexadecimal digit; 16 for a character that is none.
pub open spec fn hex_value(c: char) -> int {
    if '0' <= c && c <= '9' {
        c as int - 48
    } else if 'a' <= c && c <= 'f' {
        c as int - 87
    } else {
        16
    }
}

pub open spec fn is_hex_digit(c: char) -> bool {
    hex_value(c) < 16
}

/// A character within the Unicode scalar range.
pub open spec fn wf_char(c: char) -> bool {
    (0 <= c as int <= 0xD7FF) || (0xE000 <= c as int <= 0x10FFFF)
}

/// Every character of the sequence is a Unicode scalar; true of any text
/// an executable `String` can hold.
pub open spec fn wf_text(s: Seq<char>) -> bool {
    forall|i: int| 0 <= i < s.len() ==> wf_char(#[trigger] s[i])
}

pub proof fn lemma_hex_digit_value(d: int)
    requires
        0 <= d < 16,
    ensures
        hex_value(hex_digit(d)) == d,
{
}

/// How one character appears inside a JSON string literal.
pub open spec fn escape_char(c: char) -> Seq<char> {
    if c == '"' {
        seq!['\\', '"']
    } else if c == '\\' {
        seq!['\\', '\\']
    } else if c == '\n' {
        seq!['\\', 'n']
    } else if c == '\r' {
        seq!['\\', 'r']
    } else if c == '\t' {
        seq!['\\', 't']
    } else if (c as int) < 32 {
        seq!['\\', 'u', '0', '0', hex_digit(c as int / 16), hex_digit(c as int % 16)]
    } else {
        seq![c]
    }
}

/// The body of a JSON string literal: every character escaped in turn.
pub open spec fn escape_string(s: Seq<char>) -> Seq<char>
    decreases s.len(),
{
    if s.len() == 0 {
        Seq::empty()
    } else {
        escape_char(s[0]) + escape_string(s.skip(1))
    }
}

/// A complete JSON string literal, quotes included.
pub open spec fn jstring(s: Seq<char>) -> Seq<char> {
    seq!['"'] + escape_string(s) + seq!['"']
}

pub proof fn lemma_escape_push(s: Seq<char>, c: char)
    ensures
        escape_string(s.push(c)) == escape_string(s) + escape_char(c),
    decreases s.len(),
{
    if s.len() == 0 {
        assert(escape_string(Seq::<char>::empty()) =~= Seq::<char>::empty());
        assert(s.push(c)[0] == c);
        assert(s.push(c).skip(1) =~= Seq::<char>::empty());
        assert(escape_string(s.push(c)) =~= escape_char(c));
        assert(escape_string(s) + escape_char(c) =~= escape_char(c));
    } else {
        assert(s.push(c).skip(1) =~= s.skip(1).push(c));
        lemma_escape_push(s.skip(1), c);
        assert(escape_string(s.push(c)) =~= escape_string(s) + escape_char(c));
    }
}

/// The characters of a string slice, in order.
pub fn to_chars(s: &str) -> (r: Vec<char>)
    ensures
        r@ == s@,
{
    let mut it = s.chars();
    let mut r: Vec<char> = Vec::new();
    loop
        invariant
            it.obeys_prophetic_iter_laws(),
            it.remaining() =~= s@.skip(r@.len() as int),
            r@.len() <= s@.len(),
            r@ =~= s@.take(r@.len() as int),
        ensures
            r@ == s@,
        decreases s@.len() - r@.len(),
    {
        match it.next() {
            Some(c) => {
                proof {
                    assert(c == s@[r@.len() as int]);
                }
                r.push(c);
                proof {
                    assert(r@ =~= s@.take(r@.len() as int));
                    assert(it.remaining() =~= s@.skip(r@.len() as int));
                }
            },
            None => {
                proof {
                    assert(r@.len() == s@.len());
                    assert(r@ =~= s@);
                }
                break;
            },
        }
    }
    r
}

/// Relies on `String`'s `FromIterator<char>`: collecting characters yields
/// the string made of exactly those characters.
#[verifier::external_body]
pub(crate) fn chars_to_string(v: &Vec<char>) -> (r: String)
    ensures
        r@ == v@,
{
    v.iter().collect()
}

/// The escaped form of `s`, ready to stand between quotes.
pub fn escape_chars(s: &str) -> (r: Vec<char>)
    ensures
        r@ == escape_string(s@),
{
    let cs = to_chars(s);
    let mut r: Vec<char> = Vec::new();
    let n = cs.len();
    let mut i: usize = 0;
    while i < n
        invariant
            n == cs@.len(),
            cs@ == s@,
            i <= n,
            r@ == escape_string(s@.take(i as int)),
        decreases n - i,
    {
        let c = cs[i];
        proof {
            assert(s@.take(i + 1 as int) =~= s@.take(i as int).push(s@[i as int]));
            lemma_escape_push(s@.take(i as int), s@[i as int]);
        }
        push_escaped(&mut r, c);
        i = i + 1;
    }
    proof {
        assert(s@.take(n as int) =~= s@);
    }
    r
}

/// Appends the escaped form of one character.
fn push_escaped(r: &mut Vec<char>, c: char)
    ensures
        final(r)@ == old(r)@ + escape_char(c),
{
    if c == '"' {
        r.push('\\');
        r.push('"');
    } else if c == '\\' {
        r.push('\\');
        r.push('\\');
    } else if c == '\n' {
        r.push('\\');
        r.push('n');
    } else if c == '\r' {
        r.push('\\');
        r.push('r');
    } else if c == '\t' {
        r.push('\\');
        r.push('t');
    } else if (c as u32) < 32 {
        let code = c as u32;
        let h = (code / 16) as u8;
        let l = (code % 16) as u8;
        proof {
            assert(code as int == c as int);
            assert(h as int == c as int / 16);
            assert(l as int == c as int % 16);
        }
        r.push('\\');
        r.push('u');
        r.push('0');
        r.push('0');
        r.push(hex_digit_char(h));
        r.push(hex_digit_char(l));
    } else {
        r.push(c);
    }
    proof {
        assert(r@ =~= old(r)@ + escape_char(c));
    }
}

/// The lower-case hexadecimal digit for a value below 16.
pub fn hex_digit_char(d: u8) -> (c: char)
    requires
        d < 16,
    ensures
        c == hex_digit(d as int),
{
    if d < 10 {
        (48 + d) as char
    } else {
        (87 + d) as char
    }
}


/// The character a simple backslash escape stands for.
pub open spec fn unescape_simple(e: char) -> char {
    if e == 'n' {
        '\n'
    } else if e == 'r' {
        '\r'
    } else if e == 't' {
        '\t'
    } else {
        e
    }
}

/// The character a `\u00xx` escape stands for.
pub open spec fn hex_char(h: char, l: char) -> char {
    ((hex_value(h) * 16 + hex_value(l)) as u8) as char
}

/// Prepends one decoded character to a string-body parse.
pub open spec fn sb_prepend(
    u: char,
    r: Option<(Seq<char>, Seq<char>)>,
) -> Option<(Seq<char>, Seq<char>)> {
    match r {
        Some(p) => Some((seq![u] + p.0, p.1)),
        None => None,
    }
}

/// Parses the body of a JSON string literal up to and including the closing
/// quote; yields the decoded value and the remaining input.
pub open spec fn sp_string_body(s: Seq<char>) -> Option<(Seq<char>, Seq<char>)>
    decreases s.len(),
{
    if s.len() == 0 {
        None
    } else if s[0] == '"' {
        Some((Seq::empty(), s.skip(1)))
    } else if s[0] == '\\' {
        if s.len() < 2 {
            None
        } else {
            let e = s[1];
            if e == '"' || e == '\\' || e == '/' || e == 'n' || e == 'r' || e == 't' {
                sb_prepend(unescape_simple(e), sp_string_body(s.skip(2)))
            } else if e == 'u' && s.len() >= 6 && s[2] == '0' && s[3] == '0' && is_hex_digit(s[4])
                && is_hex_digit(s[5]) {
                sb_prepend(hex_char(s[4], s[5]), sp_string_body(s.skip(6)))
            } else {
                None
            }
        }
    } else {
        sb_prepend(s[0], sp_string_body(s.skip(1)))
    }
}

/// Parses a complete JSON string literal.
pub open spec fn sp_jstring(s: Seq<char>) -> Option<(Seq<char>, Seq<char>)> {
    if s.len() > 0 && s[0] == '"' {
        sp_string_body(s.skip(1))
    } else {
        None
    }
}

/// Consumes an expected literal prefix.
pub open spec fn sp_lit(s: Seq<char>, lit: Seq<char>) -> Option<Seq<char>> {
    if lit.len() <= s.len() && s.take(lit.len() as int) == lit {
        Some(s.skip(lit.len() as int))
    } else {
        None
    }
}

pub proof fn lemma_sp_lit(lit: Seq<char>, rest: Seq<char>)
    ensures
        sp_lit(lit + rest, lit) == Some(rest),
{
    assert((lit + rest).take(lit.len() as int) =~= lit);
    assert((lit + rest).skip(lit.len() as int) =~= rest);
}

/// Running the string parser over an escaped value consumes exactly that
/// value's escaped form and decodes it back.
pub proof fn lemma_sp_string_complete(val: Seq<char>, rest: Seq<char>)
    requires
        wf_text(val),
    ensures
        sp_string_body(escape_string(val) + seq!['"'] + rest) == Some((val, rest)),
    decreases val.len(),
{
    let s = escape_string(val) + seq!['"'] + rest;
    if val.len() == 0 {
        assert(s =~= seq!['"'] + rest);
        assert(s[0] == '"');
        assert(s.skip(1) =~= rest);
        assert(sp_string_body(s) == Some((Seq::<char>::empty(), rest)));
    } else {
        let c = val[0];
        let tail = val.skip(1);
        let s2 = escape_string(tail) + seq!['"'] + rest;
        assert(wf_text(tail)) by {
            assert(forall|i: int| 0 <= i < tail.len() ==> tail[i] == val[i + 1]);
        }
        lemma_sp_string_complete(tail, rest);
        assert(wf_char(c));
        assert(escape_string(val) == escape_char(c) + escape_string(tail));
        assert(s =~= escape_char(c) + s2);
        if c == '"' {
            assert(s =~= seq!['\\', '"'] + s2);
            assert(s[0] == '\\' && s[1] == '"');
            assert(s.skip(2) =~= s2);
            assert(sp_string_body(s) == sb_prepend('"', sp_string_body(s2)));
            assert(seq!['"'] + tail =~= val);
        } else if c == '\\' {
            assert(s =~= seq!['\\', '\\'] + s2);
            assert(s[0] == '\\' && s[1] == '\\');
            assert(s.skip(2) =~= s2);
            assert(seq!['\\'] + tail =~= val);
        } else if c == '\n' {
            assert(s =~= seq!['\\', 'n'] + s2);
            assert(s[0] == '\\' && s[1] == 'n');
            assert(s.skip(2) =~= s2);
            assert(seq!['\n'] + tail =~= val);
        } else if c == '\r' {
            assert(s =~= seq!['\\', 'r'] + s2);
            assert(s.skip(2) =~= s2);
            assert(seq!['\r'] + tail =~= val);
        } else if c == '\t' {
            assert(s =~= seq!['\\', 't'] + s2);
            assert(s.skip(2) =~= s2);
            assert(seq!['\t'] + tail =~= val);
        } else if (c as int) < 32 {
            let h = hex_digit(c as int / 16);
            let l = hex_digit(c as int % 16);
            assert(s =~= seq!['\\', 'u', '0', '0', h, l] + s2);
            assert(s[0] == '\\' && s[1] == 'u' && s[2] == '0' && s[3] == '0');
            lemma_hex_digit_value(c as int / 16);
            lemma_hex_digit_value(c as int % 16);
            assert(is_hex_digit(h) && is_hex_digit(l));
            assert(hex_value(h) * 16 + hex_value(l) == c as int);
            assert(hex_char(h, l) == c);
            assert(s.len() >= 6);
            assert(s.skip(6) =~= s2);
            assert(s[1] != '"' && s[1] != '\\' && s[1] != '/' && s[1] != 'n' && s[1] != 'r'
                && s[1] != 't');
            assert(sp_string_body(s) == sb_prepend(c, sp_string_body(s2)));
            assert(seq![c] + tail =~= val);
        } else {
            assert(s =~= seq![c] + s2);
            assert(s[0] == c);
            assert(c != '"' && c != '\\');
            assert(s.skip(1) =~= s2);
            assert(seq![c] + tail =~= val);
        }
        assert(sp_string_body(s) == Some((val, rest)));
    }
}

pub proof fn lemma_sp_jstring_complete(val: Seq<char>, rest: Seq<char>)
    requires
        wf_text(val),
    ensures
        sp_jstring(jstring(val) + rest) == Some((val, rest)),
{
    let s = jstring(val) + rest;
    assert(s[0] == '"');
    assert(s.len() > 0);
    assert(s.skip(1) =~= escape_string(val) + seq!['"'] + rest);
    lemma_sp_string_complete(val, rest);
}



/// The serialized form of one message.
pub open spec fn message_json(m: MessageView) -> Seq<char> {
    "{\"role\":"@ + jstring(m.role) + ",\"content\":"@ + jstring(m.content) + "}"@
}

/// The serialized messages after the first: each preceded by a comma.
pub open spec fn tail_json(ms: Seq<MessageView>) -> Seq<char>
    decreases ms.len(),
{
    if ms.len() == 0 {
        Seq::empty()
    } else {
        seq![','] + message_json(ms[0]) + tail_json(ms.skip(1))
    }
}

/// The comma-separated serialized form of a message list.
pub open spec fn messages_json(ms: Seq<MessageView>) -> Seq<char> {
    if ms.len() == 0 {
        Seq::empty()
    } else {
        message_json(ms[0]) + tail_json(ms.skip(1))
    }
}

/// The serialized form of a boolean.
pub open spec fn bool_json(b: bool) -> Seq<char> {
    if b {
        "true"@
    } else {
        "false"@
    }
}

/// The serialized form of a whole transcript; also the request body of the
/// buffered provider call, which carries the same three fields.
pub open spec fn conversation_json(c: ConversationView) -> Seq<char> {
    "{\"model\":"@ + jstring(c.model) + ",\"input\":["@ + messages_json(c.input)
        + "],\"stream\":"@ + bool_json(c.stream) + "}"@
}

/// Parses one serialized message.
pub open spec fn sp_message(s: Seq<char>) -> Option<(MessageView, Seq<char>)> {
    match sp_lit(s, "{\"role\":"@) {
        Some(s1) => match sp_jstring(s1) {
            Some(p1) => match sp_lit(p1.1, ",\"content\":"@) {
                Some(s2) => match sp_jstring(s2) {
                    Some(p2) => match sp_lit(p2.1, "}"@) {
                        Some(s3) => Some((MessageView { role: p1.0, content: p2.0 }, s3)),
                        None => None,
                    },
                    None => None,
                },
                None => None,
            },
            None => None,
        },
        None => None,
    }
}

/// Prepends one parsed message to a message-list parse.
pub open spec fn mm_prepend(
    m: MessageView,
    r: Option<(Seq<MessageView>, Seq<char>)>,
) -> Option<(Seq<MessageView>, Seq<char>)> {
    match r {
        Some(p) => Some((seq![m] + p.0, p.1)),
        None => None,
    }
}

/// Parses the message-list continuation: either the closing bracket is next
/// (left unconsumed) or a comma introduces one more message.
pub open spec fn sp_messages_rest(s: Seq<char>) -> Option<(Seq<MessageView>, Seq<char>)>
    decreases s.len(),
{
    if s.len() > 0 && s[0] == ']' {
        Some((Seq::empty(), s))
    } else if s.len() > 0 && s[0] == ',' {
        match sp_message(s.skip(1)) {
            Some(p) => if p.1.len() < s.len() {
                mm_prepend(p.0, sp_messages_rest(p.1))
            } else {
                None
            },
            None => None,
        }
    } else {
        None
    }
}

/// Parses a message list up to (but not including) the closing bracket.
pub open spec fn sp_messages(s: Seq<char>) -> Option<(Seq<MessageView>, Seq<char>)> {
    if s.len() > 0 && s[0] == ']' {
        Some((Seq::empty(), s))
    } else {
        match sp_message(s) {
            Some(p) => if p.1.len() < s.len() {
                mm_prepend(p.0, sp_messages_rest(p.1))
            } else {
                None
            },
            None => None,
        }
    }
}

/// Parses a serialized boolean.
pub open spec fn sp_bool(s: Seq<char>) -> Option<(bool, Seq<char>)> {
    match sp_lit(s, "true"@) {
        Some(r) => Some((true, r)),
        None => match sp_lit(s, "false"@) {
            Some(r) => Some((false, r)),
            None => None,
        },
    }
}

/// Parses a whole serialized transcript; the input must be consumed exactly.
pub open spec fn sp_conversation(s: Seq<char>) -> Option<ConversationView> {
    match sp_lit(s, "{\"model\":"@) {
        Some(s1) => match sp_jstring(s1) {
            Some(p1) => match sp_lit(p1.1, ",\"input\":["@) {
                Some(s2) => match sp_messages(s2) {
                    Some(p2) => match sp_lit(p2.1, "],\"stream\":"@) {
                        Some(s3) => match sp_bool(s3) {
                            Some(p3) => match sp_lit(p3.1, "}"@) {
                                Some(s4) => if s4.len() == 0 {
                                    Some(
                                        ConversationView {
                                            model: p1.0,
                                            input: p2.0,
                                            stream: p3.0,
                                        },
                                    )
                                } else {
                                    None
                                },
                                None => None,
                            },
                            None => None,
                        },
                        None => None,
                    },
                    None => None,
                },
                None => None,
            },
            None => None,
        },
        None => None,
    }
}

/// A message whose two texts are Unicode scalars, as any executable
/// message's are.
pub open spec fn wf_message(m: MessageView) -> bool {
    wf_text(m.role) && wf_text(m.content)
}

/// A transcript whose texts are all Unicode scalars.
pub open spec fn wf_conversation(c: ConversationView) -> bool {
    wf_text(c.model) && forall|i: int|
        0 <= i < c.input.len() ==> wf_message(#[trigger] c.input[i])
}

pub proof fn lemma_sp_message_complete(m: MessageView, rest: Seq<char>)
    requires
        wf_message(m),
    ensures
        sp_message(message_json(m) + rest) == Some((m, rest)),
{
    let s = message_json(m) + rest;
    let x1 = jstring(m.role) + (",\"content\":"@ + (jstring(m.content) + ("}"@ + rest)));
    assert(s =~= "{\"role\":"@ + x1);
    lemma_sp_lit("{\"role\":"@, x1);
    assert(sp_lit(s, "{\"role\":"@) == Some(x1));
    let y1 = ",\"content\":"@ + (jstring(m.content) + ("}"@ + rest));
    lemma_sp_jstring_complete(m.role, y1);
    assert(sp_jstring(x1) == Some((m.role, y1)));
    let x2 = jstring(m.content) + ("}"@ + rest);
    lemma_sp_lit(",\"content\":"@, x2);
    assert(sp_lit(y1, ",\"content\":"@) == Some(x2));
    let y2 = "}"@ + rest;
    lemma_sp_jstring_complete(m.content, y2);
    assert(sp_jstring(x2) == Some((m.content, y2)));
    lemma_sp_lit("}"@, rest);
    assert(sp_lit(y2, "}"@) == Some(rest));
    assert(MessageView { role: m.role, content: m.content } == m);
}

pub proof fn lemma_message_json_starts(m: MessageView)
    ensures
        message_json(m).len() > 8,
        message_json(m)[0] == '{',
{
    reveal_strlit("{\"role\":");
    assert(message_json(m)[0] == "{\"role\":"@[0]);
}

pub proof fn lemma_sp_messages_rest_complete(ms: Seq<MessageView>, rest: Seq<char>)
    requires
        rest.len() > 0,
        rest[0] == ']',
        forall|i: int| 0 <= i < ms.len() ==> wf_message(#[trigger] ms[i]),
    ensures
        sp_messages_rest(tail_json(ms) + rest) == Some((ms, rest)),
    decreases ms.len(),
{
    let s = tail_json(ms) + rest;
    if ms.len() == 0 {
        assert(s =~= rest);
        assert(sp_messages_rest(s) == Some((Seq::<MessageView>::empty(), rest)));
        assert(Seq::<MessageView>::empty() =~= ms);
    } else {
        let m = ms[0];
        let tl = ms.skip(1);
        let s2 = tail_json(tl) + rest;
        assert(s =~= seq![','] + (message_json(m) + s2));
        assert(s[0] == ',');
        lemma_message_json_starts(m);
        assert(s[0] != ']') by {
            reveal_strlit("{\"role\":");
        }
        assert(s.skip(1) =~= message_json(m) + s2);
        lemma_sp_message_complete(m, s2);
        assert(sp_message(s.skip(1)) == Some((m, s2)));
        assert(s2.len() < s.len()) by {
            lemma_message_json_starts(m);
        }
        assert(forall|i: int| 0 <= i < tl.len() ==> tl[i] == ms[i + 1]);
        lemma_sp_messages_rest_complete(tl, rest);
        assert(sp_messages_rest(s2) == Some((tl, rest)));
        assert(sp_messages_rest(s) == Some((seq![m] + tl, rest)));
        assert(seq![m] + tl =~= ms);
    }
}

pub proof fn lemma_sp_messages_complete(ms: Seq<MessageView>, rest: Seq<char>)
    requires
        rest.len() > 0,
        rest[0] == ']',
        forall|i: int| 0 <= i < ms.len() ==> wf_message(#[trigger] ms[i]),
    ensures
        sp_messages(messages_json(ms) + rest) == Some((ms, rest)),
{
    let s = messages_json(ms) + rest;
    if ms.len() == 0 {
        assert(s =~= rest);
        assert(sp_messages(s) == Some((Seq::<MessageView>::empty(), rest)));
        assert(Seq::<MessageView>::empty() =~= ms);
    } else {
        let m = ms[0];
        let tl = ms.skip(1);
        let s2 = tail_json(tl) + rest;
        assert(s =~= message_json(m) + s2);
        lemma_message_json_starts(m);
        assert(s[0] == '{');
        assert(s[0] != ']');
        lemma_sp_message_complete(m, s2);
        assert(sp_message(s) == Some((m, s2)));
        assert(s2.len() < s.len());
        assert(forall|i: int| 0 <= i < tl.len() ==> tl[i] == ms[i + 1]);
        lemma_sp_messages_rest_complete(tl, rest);
        assert(sp_messages_rest(s2) == Some((tl, rest)));
        assert(sp_messages(s) == Some((seq![m] + tl, rest)));
        assert(seq![m] + tl =~= ms);
    }
}

pub proof fn lemma_sp_bool_complete(b: bool, rest: Seq<char>)
    ensures
        sp_bool(bool_json(b) + rest) == Some((b, rest)),
{
    reveal_strlit("true");
    reveal_strlit("false");
    if b {
        lemma_sp_lit("true"@, rest);
    } else {
        let s = "false"@ + rest;
        lemma_sp_lit("false"@, rest);
        assert(s[0] == 'f');
        assert(sp_lit(s, "true"@) is None) by {
            if sp_lit(s, "true"@) is Some {
                assert(s.take(4)[0] == "true"@[0]);
            }
        }
    }
}

/// The round trip of the transcript format: parsing a rendered transcript
/// gives back exactly that transcript.
pub proof fn lemma_conversation_round_trip(c: ConversationView)
    requires
        wf_conversation(c),
    ensures
        sp_conversation(conversation_json(c)) == Some(c),
{
    let s = conversation_json(c);
    let x1 = jstring(c.model) + (",\"input\":["@ + (messages_json(c.input) + ("],\"stream\":"@
        + (bool_json(c.stream) + "}"@))));
    assert(s =~= "{\"model\":"@ + x1);
    lemma_sp_lit("{\"model\":"@, x1);
    let y1 = ",\"input\":["@ + (messages_json(c.input) + ("],\"stream\":"@ + (bool_json(
        c.stream,
    ) + "}"@)));
    lemma_sp_jstring_complete(c.model, y1);
    let x2 = messages_json(c.input) + ("],\"stream\":"@ + (bool_json(c.stream) + "}"@));
    lemma_sp_lit(",\"input\":["@, x2);
    let y2 = "],\"stream\":"@ + (bool_json(c.stream) + "}"@);
    assert(y2.len() > 0 && y2[0] == ']') by {
        reveal_strlit("],\"stream\":");
    }
    lemma_sp_messages_complete(c.input, y2);
    let x3 = bool_json(c.stream) + "}"@;
    lemma_sp_lit("],\"stream\":"@, x3);
    lemma_sp_bool_complete(c.stream, "}"@);
    lemma_sp_lit("}"@, Seq::<char>::empty());
    assert("}"@ =~= "}"@ + Seq::<char>::empty());
    assert(sp_lit("}"@, "}"@) == Some(Seq::<char>::empty()));
    assert(ConversationView { model: c.model, input: c.input, stream: c.stream } == c);
}


pub proof fn lemma_tail_json_push(ms: Seq<MessageView>, m: MessageView)
    ensures
        tail_json(ms.push(m)) == tail_json(ms) + seq![','] + message_json(m),
    decreases ms.len(),
{
    if ms.len() == 0 {
        assert(ms.push(m)[0] == m);
        assert(ms.push(m).skip(1) =~= Seq::<MessageView>::empty());
        assert(tail_json(Seq::<MessageView>::empty()) == Seq::<char>::empty());
        assert(tail_json(ms.push(m)) =~= tail_json(ms) + seq![','] + message_json(m));
    } else {
        assert(ms.push(m).skip(1) =~= ms.skip(1).push(m));
        assert(ms.push(m)[0] == ms[0]);
        lemma_tail_json_push(ms.skip(1), m);
        assert(tail_json(ms.push(m)) =~= tail_json(ms) + seq![','] + message_json(m));
    }
}

pub proof fn lemma_messages_json_push(ms: Seq<MessageView>, m: MessageView)
    ensures
        ms.len() == 0 ==> messages_json(ms.push(m)) == message_json(m),
        ms.len() > 0 ==> messages_json(ms.push(m)) == messages_json(ms) + seq![',']
            + message_json(m),
{
    if ms.len() == 0 {
        assert(ms.push(m)[0] == m);
        assert(ms.push(m).skip(1) =~= Seq::<MessageView>::empty());
        assert(messages_json(ms.push(m)) =~= message_json(m));
    } else {
        assert(ms.push(m)[0] == ms[0]);
        assert(ms.push(m).skip(1) =~= ms.skip(1).push(m));
        lemma_tail_json_push(ms.skip(1), m);
        assert(messages_json(ms.push(m)) =~= messages_json(ms) + seq![','] + message_json(m));
    }
}

/// Appends a JSON string literal holding `s`.
fn append_jstring(out: &mut String, s: &str)
    ensures
        final(out)@ == old(out)@ + jstring(s@),
{
    out.append("\"");
    let escaped = escape_chars(s);
    let escaped_str = chars_to_string(&escaped);
    out.append(escaped_str.as_str());
    out.append("\"");
    proof {
        assert(out@ =~= old(out)@ + jstring(s@)) by {
            reveal_strlit("\"");
            assert("\""@ =~= seq!['"']);
        }
    }
}

/// Renders one message as the wire and disk formats carry it.
pub fn render_message(m: &Message) -> (r: String)
    ensures
        r@ == message_json(m@),
{
    let mut out = String::new();
    out.append("{\"role\":");
    append_jstring(&mut out, m.role.as_str());
    out.append(",\"content\":");
    append_jstring(&mut out, m.content.as_str());
    out.append("}");
    proof {
        assert(out@ =~= message_json(m@));
    }
    out
}

/// Renders the whole transcript: the save format, and also the request body
/// of the buffered provider call.
pub fn render_conversation(c: &ConversationContext) -> (r: String)
    ensures
        r@ == conversation_json(c@),
{
    let mut out = String::new();
    out.append("{\"model\":");
    append_jstring(&mut out, c.model.as_str());
    out.append(",\"input\":[");
    append_messages(&mut out, &c.input);
    out.append("],\"stream\":");
    if c.stream {
        out.append("true");
    } else {
        out.append("false");
    }
    out.append("}");
    proof {
        assert(out@ =~= conversation_json(c@));
    }
    out
}


/// Combines an accumulated prefix with the parse of the remaining body.
pub open spec fn sb_combine(
    prefix: Seq<char>,
    r: Option<(Seq<char>, Seq<char>)>,
) -> Option<(Seq<char>, Seq<char>)> {
    match r {
        Some(p) => Some((prefix + p.0, p.1)),
        None => None,
    }
}

proof fn lemma_sb_combine_prepend(prefix: Seq<char>, u: char, r: Option<(Seq<char>, Seq<char>)>)
    ensures
        sb_combine(prefix, sb_prepend(u, r)) == sb_combine(prefix.push(u), r),
{
    match r {
        Some(p) => {
            assert(prefix + (seq![u] + p.0) =~= prefix.push(u) + p.0);
        },
        None => {},
    }
}

/// Consumes the expected literal at `pos`, if present.
fn match_lit(v: &Vec<char>, pos: usize, lit: &str) -> (r: Option<usize>)
    requires
        pos <= v@.len(),
    ensures
        match r {
            Some(p) => {
                &&& pos <= p <= v@.len()
                &&& p == pos + lit@.len()
                &&& sp_lit(v@.skip(pos as int), lit@) == Some(v@.skip(p as int))
            },
            None => sp_lit(v@.skip(pos as int), lit@) is None,
        },
{
    let lc = to_chars(lit);
    let l = lc.len();
    if l > v.len() - pos {
        proof {
            assert(v@.skip(pos as int).len() < lit@.len());
        }
        return None;
    }
    let vlen = v.len();
    let mut j: usize = 0;
    while j < l
        invariant
            vlen == v@.len(),
            pos <= vlen,
            l == lit@.len(),
            l <= vlen - pos,
            lc@ == lit@,
            j <= l,
            forall|k: int| 0 <= k < j ==> v@[pos + k] == lit@[k],
        decreases l - j,
    {
        if v[pos + j] != lc[j] {
            proof {
                let s = v@.skip(pos as int);
                assert(s.take(l as int)[j as int] == v@[pos + j]);
                assert(s.take(l as int) != lit@);
            }
            return None;
        }
        j = j + 1;
    }
    proof {
        let s = v@.skip(pos as int);
        assert(s.take(l as int) =~= lit@);
        assert(s.skip(l as int) =~= v@.skip(pos + l as int));
    }
    Some(pos + l)
}

/// The numeric value of a hexadecimal digit; 16 if the character is none.
fn hex_val(c: char) -> (r: u8)
    ensures
        r as int == hex_value(c),
{
    let u = c as u32;
    if 48 <= u && u <= 57 {
        (u - 48) as u8
    } else if 97 <= u && u <= 102 {
        (u - 87) as u8
    } else {
        16
    }
}

/// Parses a JSON string literal at `pos`; yields the decoded text and the
/// position after the closing quote.
fn parse_jstring(v: &Vec<char>, pos: usize) -> (r: Option<(String, usize)>)
    requires
        pos <= v@.len(),
    ensures
        match r {
            Some(p) => {
                &&& pos < p.1 <= v@.len()
                &&& sp_jstring(v@.skip(pos as int)) == Some((p.0@, v@.skip(p.1 as int)))
            },
            None => sp_jstring(v@.skip(pos as int)) is None,
        },
{
    let n = v.len();
    if pos == n || v[pos] != '"' {
        return None;
    }
    proof {
        assert(v@.skip(pos as int)[0] == '"');
        assert(v@.skip(pos as int).skip(1) =~= v@.skip(pos + 1 as int));
    }
    let mut acc: Vec<char> = Vec::new();
    let mut cur: usize = pos + 1;
    loop
        invariant
            pos < n,
            pos + 1 <= cur <= n,
            n == v@.len(),
            v@[pos as int] == '"',
            sp_jstring(v@.skip(pos as int)) == sp_string_body(v@.skip(pos + 1 as int)),
            sp_string_body(v@.skip(pos + 1 as int)) == sb_combine(
                acc@,
                sp_string_body(v@.skip(cur as int)),
            ),
        decreases n - cur,
    {
        let ghost s_cur = v@.skip(cur as int);
        if cur == n {
            proof {
                assert(s_cur.len() == 0);
            }
            return None;
        }
        let c = v[cur];
        proof {
            assert(s_cur[0] == v@[cur as int]);
        }
        if c == '"' {
            proof {
                assert(s_cur.skip(1) =~= v@.skip(cur + 1 as int));
                assert(sp_string_body(s_cur) == Some(
                    (Seq::<char>::empty(), v@.skip(cur + 1 as int)),
                ));
                assert(acc@ + Seq::<char>::empty() =~= acc@);
            }
            let out = chars_to_string(&acc);
            return Some((out, cur + 1));
        } else if c == '\\' {
            if cur + 1 == n {
                proof {
                    assert(s_cur.len() < 2);
                }
                return None;
            }
            let e = v[cur + 1];
            proof {
                assert(s_cur[1] == v@[cur + 1]);
            }
            if e == '"' || e == '\\' || e == '/' || e == 'n' || e == 'r' || e == 't' {
                let u: char = if e == 'n' {
                    '\n'
                } else if e == 'r' {
                    '\r'
                } else if e == 't' {
                    '\t'
                } else {
                    e
                };
                proof {
                    assert(u == unescape_simple(e));
                    assert(s_cur.skip(2) =~= v@.skip(cur + 2 as int));
                    assert(sp_string_body(s_cur) == sb_prepend(
                        u,
                        sp_string_body(v@.skip(cur + 2 as int)),
                    ));
                    lemma_sb_combine_prepend(acc@, u, sp_string_body(v@.skip(cur + 2 as int)));
                }
                acc.push(u);
                cur = cur + 2;
            } else if e == 'u' {
                if n - cur < 6 {
                    proof {
                        assert(s_cur.len() < 6);
                    }
                    return None;
                }
                let d2 = v[cur + 2];
                let d3 = v[cur + 3];
                let h = hex_val(v[cur + 4]);
                let l = hex_val(v[cur + 5]);
                proof {
                    assert(s_cur[2] == v@[cur + 2]);
                    assert(s_cur[3] == v@[cur + 3]);
                    assert(s_cur[4] == v@[cur + 4]);
                    assert(s_cur[5] == v@[cur + 5]);
                }
                if d2 != '0' || d3 != '0' || h >= 16 || l >= 16 {
                    return None;
                }
                let u = (h * 16 + l) as char;
                proof {
                    assert(u == hex_char(s_cur[4], s_cur[5]));
                    assert(s_cur.skip(6) =~= v@.skip(cur + 6 as int));
                    assert(sp_string_body(s_cur) == sb_prepend(
                        u,
                        sp_string_body(v@.skip(cur + 6 as int)),
                    ));
                    lemma_sb_combine_prepend(acc@, u, sp_string_body(v@.skip(cur + 6 as int)));
                }
                acc.push(u);
                cur = cur + 6;
            } else {
                return None;
            }
        } else {
            proof {
                assert(s_cur.skip(1) =~= v@.skip(cur + 1 as int));
                assert(sp_string_body(s_cur) == sb_prepend(
                    c,
                    sp_string_body(v@.skip(cur + 1 as int)),
                ));
                lemma_sb_combine_prepend(acc@, c, sp_string_body(v@.skip(cur + 1 as int)));
            }
            acc.push(c);
            cur = cur + 1;
        }
    }
}


/// Combines accumulated messages with the parse of the remaining list.
pub open spec fn ms_combine(
    prefix: Seq<MessageView>,
    r: Option<(Seq<MessageView>, Seq<char>)>,
) -> Option<(Seq<MessageView>, Seq<char>)> {
    match r {
        Some(p) => Some((prefix + p.0, p.1)),
        None => None,
    }
}

proof fn lemma_ms_combine_prepend(
    prefix: Seq<MessageView>,
    m: MessageView,
    r: Option<(Seq<MessageView>, Seq<char>)>,
)
    ensures
        ms_combine(prefix, mm_prepend(m, r)) == ms_combine(prefix.push(m), r),
{
    match r {
        Some(p) => {
            assert(prefix + (seq![m] + p.0) =~= prefix.push(m) + p.0);
        },
        None => {},
    }
}

/// Parses one serialized message at `pos`.
fn parse_message(v: &Vec<char>, pos: usize) -> (r: Option<(Message, usize)>)
    requires
        pos <= v@.len(),
    ensures
        match r {
            Some(p) => {
                &&& pos < p.1 <= v@.len()
                &&& sp_message(v@.skip(pos as int)) == Some((p.0@, v@.skip(p.1 as int)))
            },
            None => sp_message(v@.skip(pos as int)) is None,
        },
{
    let s0 = match match_lit(v, pos, "{\"role\":") {
        Some(p) => p,
        None => {
            return None;
        },
    };
    let (role, s1) = match parse_jstring(v, s0) {
        Some(p) => p,
        None => {
            return None;
        },
    };
    let s2 = match match_lit(v, s1, ",\"content\":") {
        Some(p) => p,
        None => {
            return None;
        },
    };
    let (content, s3) = match parse_jstring(v, s2) {
        Some(p) => p,
        None => {
            return None;
        },
    };
    let s4 = match match_lit(v, s3, "}") {
        Some(p) => p,
        None => {
            return None;
        },
    };
    proof {
        assert(pos < s1 && s1 <= s2 && s2 < s3 && s3 <= s4);
    }
    Some((Message { role, content }, s4))
}

/// Parses the message list at `pos`, leaving the closing bracket unconsumed.
fn parse_messages(v: &Vec<char>, pos: usize) -> (r: Option<(Vec<Message>, usize)>)
    requires
        pos <= v@.len(),
    ensures
        match r {
            Some(p) => {
                &&& pos <= p.1 <= v@.len()
                &&& sp_messages(v@.skip(pos as int)) == Some((p.0.deep_view(), v@.skip(p.1 as int)))
            },
            None => sp_messages(v@.skip(pos as int)) is None,
        },
{
    let n = v.len();
    if pos == n {
        proof {
            assert(v@.skip(pos as int).len() == 0);
        }
        return None;
    }
    if v[pos] == ']' {
        let empty_list: Vec<Message> = Vec::new();
        proof {
            assert(v@.skip(pos as int)[0] == ']');
            assert(empty_list.deep_view() =~= Seq::<MessageView>::empty());
        }
        return Some((empty_list, pos));
    }
    proof {
        assert(v@.skip(pos as int)[0] == v@[pos as int]);
    }
    let (m0, first_end) = match parse_message(v, pos) {
        Some(p) => p,
        None => {
            return None;
        },
    };
    let mut acc: Vec<Message> = Vec::new();
    let ghost m0v = m0@;
    acc.push(m0);
    let mut cur: usize = first_end;
    proof {
        assert(acc.deep_view() =~= seq![m0v]);
        assert(v@.skip(first_end as int).len() < v@.skip(pos as int).len());
        assert(sp_messages(v@.skip(pos as int)) == mm_prepend(
            m0v,
            sp_messages_rest(v@.skip(first_end as int)),
        ));
        lemma_ms_combine_prepend(
            Seq::<MessageView>::empty(),
            m0v,
            sp_messages_rest(v@.skip(first_end as int)),
        );
        assert(Seq::<MessageView>::empty().push(m0v) =~= acc.deep_view());
        assert(ms_combine(Seq::<MessageView>::empty(), sp_messages(v@.skip(pos as int)))
            == sp_messages(v@.skip(pos as int))) by {
            match sp_messages(v@.skip(pos as int)) {
                Some(p) => {
                    assert(Seq::<MessageView>::empty() + p.0 =~= p.0);
                },
                None => {},
            }
        }
    }
    loop
        invariant
            pos < cur <= n,
            n == v@.len(),
            sp_messages(v@.skip(pos as int)) == ms_combine(
                acc.deep_view(),
                sp_messages_rest(v@.skip(cur as int)),
            ),
        decreases n - cur,
    {
        let ghost s_cur = v@.skip(cur as int);
        if cur == n {
            proof {
                assert(s_cur.len() == 0);
            }
            return None;
        }
        let c = v[cur];
        proof {
            assert(s_cur[0] == v@[cur as int]);
        }
        if c == ']' {
            proof {
                assert(sp_messages_rest(s_cur) == Some((Seq::<MessageView>::empty(), s_cur)));
                match sp_messages_rest(s_cur) {
                    Some(p) => {
                        assert(acc.deep_view() + Seq::<MessageView>::empty() =~= acc.deep_view());
                    },
                    None => {},
                }
            }
            return Some((acc, cur));
        } else if c == ',' {
            let (m, p2) = match parse_message(v, cur + 1) {
                Some(p) => p,
                None => {
                    proof {
                        assert(s_cur.skip(1) =~= v@.skip(cur + 1 as int));
                    }
                    return None;
                },
            };
            proof {
                let ghost mv = m@;
                assert(s_cur.skip(1) =~= v@.skip(cur + 1 as int));
                assert(v@.skip(p2 as int).len() < s_cur.len());
                assert(sp_messages_rest(s_cur) == mm_prepend(
                    mv,
                    sp_messages_rest(v@.skip(p2 as int)),
                ));
                lemma_ms_combine_prepend(acc.deep_view(), mv, sp_messages_rest(v@.skip(p2 as int)));
            }
            let ghost old_acc = acc.deep_view();
            let ghost mv = m@;
            acc.push(m);
            proof {
                assert(acc.deep_view() =~= old_acc.push(mv));
            }
            cur = p2;
        } else {
            proof {
                assert(sp_messages_rest(s_cur) is None);
            }
            return None;
        }
    }
}

/// Parses a serialized boolean at `pos`.
fn parse_bool(v: &Vec<char>, pos: usize) -> (r: Option<(bool, usize)>)
    requires
        pos <= v@.len(),
    ensures
        match r {
            Some(p) => {
                &&& pos <= p.1 <= v@.len()
                &&& sp_bool(v@.skip(pos as int)) == Some((p.0, v@.skip(p.1 as int)))
            },
            None => sp_bool(v@.skip(pos as int)) is None,
        },
{
    match match_lit(v, pos, "true") {
        Some(p) => {
            return Some((true, p));
        },
        None => {},
    }
    match match_lit(v, pos, "false") {
        Some(p) => {
            return Some((false, p));
        },
        None => {},
    }
    None
}

/// Parses a serialized transcript; the whole input must be consumed.
pub fn parse_conversation(s: &str) -> (r: Option<ConversationContext>)
    ensures
        match r {
            Some(c) => sp_conversation(s@) == Some(c@),
            None => sp_conversation(s@) is None,
        },
{
    let v = to_chars(s);
    proof {
        assert(v@.skip(0) =~= s@);
    }
    let s0 = match match_lit(&v, 0, "{\"model\":") {
        Some(p) => p,
        None => {
            return None;
        },
    };
    let (model, s1) = match parse_jstring(&v, s0) {
        Some(p) => p,
        None => {
            return None;
        },
    };
    let s2 = match match_lit(&v, s1, ",\"input\":[") {
        Some(p) => p,
        None => {
            return None;
        },
    };
    let (msgs, s3) = match parse_messages(&v, s2) {
        Some(p) => p,
        None => {
            return None;
        },
    };
    let s4 = match match_lit(&v, s3, "],\"stream\":") {
        Some(p) => p,
        None => {
            return None;
        },
    };
    let (stream_flag, s5) = match parse_bool(&v, s4) {
        Some(p) => p,
        None => {
            return None;
        },
    };
    let s6 = match match_lit(&v, s5, "}") {
        Some(p) => p,
        None => {
            return None;
        },
    };
    if s6 != v.len() {
        proof {
            assert(v@.skip(s6 as int).len() > 0);
        }
        return None;
    }
    proof {
        assert(v@.skip(s6 as int).len() == 0);
    }
    Some(ConversationContext { model, input: msgs, stream: stream_flag })
}


/// Appends a comma-separated message list.
fn append_messages(out: &mut String, msgs: &Vec<Message>)
    ensures
        final(out)@ == old(out)@ + messages_json(msgs.deep_view()),
{
    let ghost head = out@;
    let n = msgs.len();
    let mut i: usize = 0;
    proof {
        assert(messages_json(msgs.deep_view().take(0)) == Seq::<char>::empty());
        assert(out@ =~= head + messages_json(msgs.deep_view().take(0)));
    }
    while i < n
        invariant
            n == msgs.len(),
            i <= n,
            out@ == head + messages_json(msgs.deep_view().take(i as int)),
        decreases n - i,
    {
        if i > 0 {
            out.append(",");
            proof {
                reveal_strlit(",");
                assert(","@ =~= seq![',']);
            }
        }
        let rendered = render_message(&msgs[i]);
        out.append(rendered.as_str());
        proof {
            assert(msgs.deep_view().take(i + 1 as int) =~= msgs.deep_view().take(i as int).push(
                msgs.deep_view()[i as int],
            ));
            assert(msgs[i as int]@ == msgs.deep_view()[i as int]);
            lemma_messages_json_push(msgs.deep_view().take(i as int), msgs.deep_view()[i as int]);
            assert(out@ =~= head + messages_json(msgs.deep_view().take(i + 1 as int)));
        }
        i = i + 1;
    }
    proof {
        assert(msgs.deep_view().take(n as int) =~= msgs.deep_view());
    }
}

/// The chat-endpoint body: the same three fields, with the message list
/// keyed `messages`; a distinct serialization target, never a textual
/// rewrite of the other body.
pub open spec fn conversation_chat_json(c: ConversationView) -> Seq<char> {
    "{\"model\":"@ + jstring(c.model) + ",\"messages\":["@ + messages_json(c.input)
        + "],\"stream\":"@ + bool_json(c.stream) + "}"@
}

/// Renders the transcript as the chat-endpoint request body.
pub fn render_chat_body(c: &ConversationContext) -> (r: String)
    ensures
        r@ == conversation_chat_json(c@),
{
    let mut out = String::new();
    out.append("{\"model\":");
    append_jstring(&mut out, c.model.as_str());
    out.append(",\"messages\":[");
    append_messages(&mut out, &c.input);
    out.append("],\"stream\":");
    if c.stream {
        out.append("true");
    } else {
        out.append("false");
    }
    out.append("}");
    proof {
        assert(out@ =~= conversation_chat_json(c@));
    }
    out
}

/// The decimal digits of a nonnegative number.
pub open spec fn dec_digits(n: int) -> Seq<char>
    decreases n,
{
    if n < 0 {
        Seq::empty()
    } else if n < 10 {
        seq![((48 + n) as u8) as char]
    } else {
        dec_digits(n / 10) + seq![((48 + n % 10) as u8) as char]
    }
}

/// Appends a number's decimal digits.
fn push_decimal(out: &mut Vec<char>, n: u64)
    ensures
        final(out)@ == old(out)@ + dec_digits(n as int),
    decreases n,
{
    if n < 10 {
        out.push((48 + n as u8) as char);
        proof {
            assert(out@ =~= old(out)@ + dec_digits(n as int));
        }
    } else {
        push_decimal(out, n / 10);
        out.push((48 + (n % 10) as u8) as char);
        proof {
            assert(out@ =~= old(out)@ + dec_digits(n as int));
        }
    }
}

/// The Anthropic-endpoint body: the developer instruction as `system`,
/// the other messages, the model and the token budget.
pub open spec fn anthropic_json(r: crate::conversation::AnthropicRequestView) -> Seq<char> {
    "{\"system\":"@ + jstring(r.system) + ",\"model\":"@ + jstring(r.model)
        + ",\"messages\":["@ + messages_json(r.messages) + "],\"max_tokens\":"@ + dec_digits(
        r.max_tokens,
    ) + "}"@
}

/// Renders an Anthropic request as its wire body.
pub fn render_anthropic_body(req: &crate::conversation::AnthropicRequest) -> (r: String)
    ensures
        r@ == anthropic_json(req@),
{
    let mut out = String::new();
    out.append("{\"system\":");
    append_jstring(&mut out, req.system.as_str());
    out.append(",\"model\":");
    append_jstring(&mut out, req.model.as_str());
    out.append(",\"messages\":[");
    append_messages(&mut out, &req.messages);
    out.append("],\"max_tokens\":");
    let mut digits: Vec<char> = Vec::new();
    push_decimal(&mut digits, req.max_tokens as u64);
    let digits_str = chars_to_string(&digits);
    out.append(digits_str.as_str());
    out.append("}");
    proof {
        assert(out@ =~= anthropic_json(req@));
    }
    out
}

} // verus!
