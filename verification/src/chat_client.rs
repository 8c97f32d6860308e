//! The streamed-reply reconciliation: a chunk of bytes from the wire is
//! split into frames, each frame is cut at its event marker, trimmed and
//! parsed as a delta, and every parsed fragment is both handed out for
//! immediate printing and accumulated into the final assistant message.

use crate::json::{chars_to_string, to_chars};
use crate::run::{is_ws, is_ws_char};
use vstd::prelude::*;
use vstd::string::StringExecFns;

verus! {

/// The first position where `sep` occurs in `s`.
pub open spec fn find_sep(s: Seq<char>, sep: Seq<char>) -> Option<int>
    decreases s.len(),
{
    if sep.len() == 0 {
        Some(0)
    } else if s.len() < sep.len() {
        None
    } else if s.take(sep.len() as int) == sep {
        Some(0)
    } else {
        match find_sep(s.skip(1), sep) {
            Some(i) => Some(i + 1),
            None => None,
        }
    }
}

/// `s` split on every occurrence of `sep`, the separators dropped.
pub open spec fn split_on(s: Seq<char>, sep: Seq<char>) -> Seq<Seq<char>>
    decreases s.len(),
    via split_on_decreases
{
    if sep.len() == 0 {
        seq![s]
    } else {
        match find_sep(s, sep) {
            Some(i) => seq![s.take(i)] + split_on(s.skip(i + sep.len()), sep),
            None => seq![s],
        }
    }
}

#[via_fn]
proof fn split_on_decreases(s: Seq<char>, sep: Seq<char>) {
    if sep.len() > 0 {
        match find_sep(s, sep) {
            Some(i) => {
                lemma_find_sep_bounds(s, sep);
            },
            None => {},
        }
    }
}

proof fn lemma_find_sep_bounds(s: Seq<char>, sep: Seq<char>)
    ensures
        find_sep(s, sep) matches Some(i) ==> 0 <= i && i + sep.len() <= s.len(),
    decreases s.len(),
{
    if sep.len() > 0 && s.len() >= sep.len() && s.take(sep.len() as int) != sep {
        lemma_find_sep_bounds(s.skip(1), sep);
    }
}

/// `s` up to (not including) the first occurrence of `sep`.
pub open spec fn cut_at(s: Seq<char>, sep: Seq<char>) -> Seq<char> {
    match find_sep(s, sep) {
        Some(i) => s.take(i),
        None => s,
    }
}

/// How many whitespace characters lead `s`.
pub open spec fn leading_ws(s: Seq<char>) -> nat
    decreases s.len(),
{
    if s.len() > 0 && is_ws(s[0]) {
        (1 + leading_ws(s.skip(1))) as nat
    } else {
        0
    }
}

/// How many whitespace characters trail `s`.
pub open spec fn trailing_ws(s: Seq<char>) -> nat
    decreases s.len(),
{
    if s.len() > 0 && is_ws(s.last()) {
        (1 + trailing_ws(s.drop_last())) as nat
    } else {
        0
    }
}

/// `s` with leading and trailing whitespace removed.
pub open spec fn trimmed(s: Seq<char>) -> Seq<char> {
    let t = s.skip(leading_ws(s) as int);
    t.take(t.len() - trailing_ws(t))
}


proof fn lemma_find_sep_at(s: Seq<char>, sep: Seq<char>, i: int)
    requires
        sep.len() > 0,
        0 <= i,
        i + sep.len() <= s.len(),
        forall|k: int| 0 <= k < i ==> #[trigger] s.subrange(k, k + sep.len()) != sep,
        s.subrange(i, i + sep.len()) == sep,
    ensures
        find_sep(s, sep) == Some(i),
    decreases i,
{
    let z: int = 0;
    if i == 0 {
        assert(s.take(sep.len() as int) =~= s.subrange(0, sep.len() as int));
    } else {
        assert(s.subrange(z, z + sep.len()) != sep);
        assert(s.take(sep.len() as int) =~= s.subrange(0, sep.len() as int));
        assert(s.take(sep.len() as int) != sep);
        assert(forall|k: int|
            0 <= k < i - 1 ==> #[trigger] s.skip(1).subrange(k, k + sep.len()) =~= s.subrange(
                k + 1,
                k + 1 + sep.len(),
            ));
        assert(s.skip(1).subrange(i - 1, i - 1 + sep.len()) =~= s.subrange(i, i + sep.len()));
        lemma_find_sep_at(s.skip(1), sep, i - 1);
    }
}

proof fn lemma_find_sep_none(s: Seq<char>, sep: Seq<char>)
    requires
        sep.len() > 0,
        forall|k: int|
            0 <= k && k + sep.len() <= s.len() ==> #[trigger] s.subrange(k, k + sep.len()) != sep,
    ensures
        find_sep(s, sep) is None,
    decreases s.len(),
{
    if s.len() >= sep.len() {
        let z: int = 0;
        assert(s.subrange(z, z + sep.len()) != sep);
        assert(s.take(sep.len() as int) =~= s.subrange(0, sep.len() as int));
        assert(forall|k: int|
            0 <= k && k + sep.len() <= s.skip(1).len() ==> #[trigger] s.skip(1).subrange(
                k,
                k + sep.len(),
            ) =~= s.subrange(k + 1, k + 1 + sep.len()));
        lemma_find_sep_none(s.skip(1), sep);
    }
}

/// The first position where `sep` occurs in `v`, by scanning.
fn find_sep_exec(v: &Vec<char>, sep: &Vec<char>) -> (r: Option<usize>)
    requires
        sep@.len() > 0,
    ensures
        match r {
            Some(i) => 0 <= i && i + sep@.len() <= v@.len() && find_sep(v@, sep@) == Some(i as int),
            None => find_sep(v@, sep@) is None,
        },
{
    let n = v.len();
    let m = sep.len();
    if m > n {
        proof {
            lemma_find_sep_none(v@, sep@);
        }
        return None;
    }
    let mut i: usize = 0;
    while i <= n - m
        invariant
            n == v@.len(),
            m == sep@.len(),
            0 < m <= n,
            i <= n - m + 1,
            forall|k: int| 0 <= k < i ==> #[trigger] v@.subrange(k, k + m) != sep@,
        decreases n - m + 1 - i,
    {
        let mut j: usize = 0;
        let mut matched = true;
        while j < m
            invariant
                n == v@.len(),
                m == sep@.len(),
                i + m <= n,
                j <= m,
                matched == forall|k: int| 0 <= k < j ==> v@[i + k] == sep@[k],
            decreases m - j,
        {
            if v[i + j] != sep[j] {
                matched = false;
                proof {
                    assert(v@[i + j] != sep@[j as int]);
                }
            }
            j = j + 1;
        }
        if matched {
            proof {
                assert(v@.subrange(i as int, i + m) =~= sep@);
                lemma_find_sep_at(v@, sep@, i as int);
            }
            return Some(i);
        }
        proof {
            let k = choose|k: int| 0 <= k < m && v@[i + k] != sep@[k];
            assert(v@.subrange(i as int, i + m)[k] == v@[i + k]);
            assert(v@.subrange(i as int, i + m) != sep@);
        }
        i = i + 1;
    }
    proof {
        assert(forall|k: int|
            0 <= k && k + m <= n ==> #[trigger] v@.subrange(k, k + m) != sep@);
        lemma_find_sep_none(v@, sep@);
    }
    None
}

/// The characters of `v` between `a` and `b`.
fn subvec(v: &Vec<char>, a: usize, b: usize) -> (r: Vec<char>)
    requires
        a <= b <= v@.len(),
    ensures
        r@ == v@.subrange(a as int, b as int),
{
    let mut r: Vec<char> = Vec::new();
    let mut i: usize = a;
    while i < b
        invariant
            a <= i <= b <= v@.len(),
            r@ == v@.subrange(a as int, i as int),
        decreases b - i,
    {
        r.push(v[i]);
        proof {
            assert(r@ =~= v@.subrange(a as int, i + 1 as int));
        }
        i = i + 1;
    }
    r
}

/// Splits `v` on every occurrence of `sep`.
pub(crate) fn split_parts(v: &Vec<char>, sep: &Vec<char>) -> (r: Vec<Vec<char>>)
    requires
        sep@.len() > 0,
    ensures
        r.deep_view() == split_on(v@, sep@),
{
    let mut acc: Vec<Vec<char>> = Vec::new();
    let mut rest = subvec(v, 0, v.len());
    proof {
        assert(rest@ =~= v@);
        assert(acc.deep_view() =~= Seq::<Seq<char>>::empty());
        assert(acc.deep_view() + split_on(rest@, sep@) =~= split_on(v@, sep@));
    }
    loop
        invariant
            sep@.len() > 0,
            split_on(v@, sep@) == acc.deep_view() + split_on(rest@, sep@),
        decreases rest@.len(),
    {
        match find_sep_exec(&rest, sep) {
            Some(i) => {
                let rl = rest.len();
                let part = subvec(&rest, 0, i);
                let next_start = i + sep.len();
                let next = subvec(&rest, next_start, rl);
                proof {
                    assert(part@ =~= rest@.take(i as int));
                    assert(next@ =~= rest@.skip(i + sep@.len()));
                }
                let ghost before = acc.deep_view();
                acc.push(part);
                proof {
                    assert(acc.deep_view() =~~= before.push(rest@.take(i as int)));
                    assert(before + (seq![rest@.take(i as int)] + split_on(next@, sep@))
                        =~= acc.deep_view() + split_on(next@, sep@));
                }
                rest = next;
            },
            None => {
                let ghost before = acc.deep_view();
                let rl = rest.len();
                let last = subvec(&rest, 0, rl);
                proof {
                    assert(last@ =~= rest@);
                }
                acc.push(last);
                proof {
                    assert(acc.deep_view() =~~= before.push(rest@));
                    assert(before + seq![rest@] =~= acc.deep_view());
                }
                return acc;
            },
        }
    }
}

proof fn lemma_leading_ws_at(s: Seq<char>, l: int)
    requires
        0 <= l <= s.len(),
        forall|k: int| 0 <= k < l ==> is_ws(#[trigger] s[k]),
        l == s.len() || !is_ws(s[l]),
    ensures
        leading_ws(s) == l,
    decreases s.len(),
{
    if l == 0 {
    } else {
        assert(is_ws(s[0]));
        assert(forall|k: int| 0 <= k < l - 1 ==> s.skip(1)[k] == s[k + 1]);
        if l < s.len() {
            assert(s.skip(1)[l - 1] == s[l]);
        }
        lemma_leading_ws_at(s.skip(1), l - 1);
    }
}

proof fn lemma_trailing_ws_at(s: Seq<char>, t: int)
    requires
        0 <= t <= s.len(),
        forall|k: int| s.len() - t <= k < s.len() ==> is_ws(#[trigger] s[k]),
        t == s.len() || !is_ws(s[s.len() - t - 1]),
    ensures
        trailing_ws(s) == t,
    decreases t,
{
    if t == 0 {
    } else {
        assert(is_ws(s.last()));
        assert(forall|k: int|
            s.drop_last().len() - (t - 1) <= k < s.drop_last().len() ==> s.drop_last()[k] == s[k]);
        lemma_trailing_ws_at(s.drop_last(), t - 1);
    }
}

/// `v` with leading and trailing whitespace removed.
fn trim_exec(v: &Vec<char>) -> (r: Vec<char>)
    ensures
        r@ == trimmed(v@),
{
    let n = v.len();
    let mut a: usize = 0;
    while a < n && is_ws_char(v[a])
        invariant
            n == v@.len(),
            a <= n,
            forall|k: int| 0 <= k < a ==> is_ws(#[trigger] v@[k]),
        decreases n - a,
    {
        a = a + 1;
    }
    proof {
        lemma_leading_ws_at(v@, a as int);
    }
    let mut b: usize = n;
    while b > a && is_ws_char(v[b - 1])
        invariant
            n == v@.len(),
            a <= b <= n,
            forall|k: int| b <= k < n ==> is_ws(#[trigger] v@[k]),
            leading_ws(v@) == a,
        decreases b,
    {
        b = b - 1;
    }
    let r = subvec(v, a, b);
    proof {
        let t = v@.skip(a as int);
        assert(forall|k: int| t.len() - (n - b) <= k < t.len() ==> is_ws(#[trigger] t[k]));
        if b > a {
            assert(!is_ws(v@[b - 1]));
            assert(t[b - 1 - a] == v@[b - 1]);
        } else {
            assert(a == b);
            if a < n {
                assert(!is_ws(v@[a as int]));
                assert(t[0] == v@[a as int]);
            }
        }
        lemma_trailing_ws_at(t, n - b);
        assert(t.take(t.len() - (n - b)) =~= v@.subrange(a as int, b as int));
    }
    r
}

/// The delta text a streamed frame carries, when the frame parses as a
/// JSON object with a string field named `delta`; the result depends on
/// the frame text alone.
pub uninterp spec fn delta_of(s: Seq<char>) -> Option<Seq<char>>;

/// Relies on serde_json: parsing one streamed frame as JSON and reading
/// its `delta` string field; a frame that does not parse that way is a
/// control frame and yields nothing.
#[verifier::external_body]
fn parse_delta(s: &str) -> (r: Option<String>)
    ensures
        r.deep_view() == delta_of(s@),
{
    serde_json::from_str::<serde_json::Value>(s).ok().and_then(
        |v| v.get("delta").and_then(|d| d.as_str()).map(|t| t.to_string()),
    )
}

/// The delta fragments the parts of one chunk carry, in arrival order:
/// each part is cut at its event marker, trimmed, and parsed; parts
/// without a delta are skipped.
pub open spec fn chunk_deltas(parts: Seq<Seq<char>>) -> Seq<Seq<char>>
    decreases parts.len(),
{
    if parts.len() == 0 {
        Seq::empty()
    } else {
        match delta_of(trimmed(cut_at(parts[0], "event:"@))) {
            Some(d) => seq![d] + chunk_deltas(parts.skip(1)),
            None => chunk_deltas(parts.skip(1)),
        }
    }
}

/// The fragments of one chunk, joined.
pub open spec fn concat_all(xs: Seq<Seq<char>>) -> Seq<char>
    decreases xs.len(),
{
    if xs.len() == 0 {
        Seq::empty()
    } else {
        xs[0] + concat_all(xs.skip(1))
    }
}

pub proof fn lemma_concat_all_push(xs: Seq<Seq<char>>, x: Seq<char>)
    ensures
        concat_all(xs.push(x)) == concat_all(xs) + x,
    decreases xs.len(),
{
    if xs.len() == 0 {
        assert(xs.push(x)[0] == x);
        assert(xs.push(x).skip(1) =~= Seq::<Seq<char>>::empty());
        assert(concat_all(Seq::<Seq<char>>::empty()) == Seq::<char>::empty());
        assert(x + Seq::<char>::empty() =~= x);
        assert(concat_all(xs) + x =~= x);
        assert(concat_all(xs.push(x)) =~= concat_all(xs) + x);
    } else {
        assert(xs.push(x)[0] == xs[0]);
        assert(xs.push(x).skip(1) =~= xs.skip(1).push(x));
        lemma_concat_all_push(xs.skip(1), x);
        assert(concat_all(xs.push(x)) =~= concat_all(xs) + x);
    }
}

/// What one chunk of a streamed reply contributes: the fragments of
/// `split_on(chunk, "data: ")`, in order.
pub open spec fn deltas_of_chunk(chunk: Seq<char>) -> Seq<Seq<char>> {
    chunk_deltas(split_on(chunk, "data: "@))
}

/// Processes one chunk of a streamed reply: appends every parsed
/// fragment, in arrival order, to the accumulated assistant message, and
/// returns the same fragments for immediate printing. A part that parses
/// as no delta is a control frame and is skipped without aborting.
pub fn process_chunk(chunk: &str, acc: &mut String) -> (printed: Vec<String>)
    ensures
        printed.deep_view() == deltas_of_chunk(chunk@),
        final(acc)@ == old(acc)@ + concat_all(deltas_of_chunk(chunk@)),
{
    let v = to_chars(chunk);
    let sep = to_chars("data: ");
    let marker = to_chars("event:");
    proof {
        reveal_strlit("data: ");
        reveal_strlit("event:");
        assert(sep@.len() == 6);
        assert(marker@.len() == 6);
    }
    let parts = split_parts(&v, &sep);
    let ghost all_parts = parts.deep_view();
    let n = parts.len();
    let mut printed: Vec<String> = Vec::new();
    let mut i: usize = 0;
    proof {
        assert(all_parts.skip(0) =~= all_parts);
        assert(printed.deep_view() =~= Seq::<Seq<char>>::empty());
        assert(concat_all(Seq::<Seq<char>>::empty()) == Seq::<char>::empty());
        assert(old(acc)@ + Seq::<char>::empty() =~= old(acc)@);
        assert(chunk_deltas(all_parts) == printed.deep_view() + chunk_deltas(all_parts.skip(0)));
    }
    while i < n
        invariant
            n == parts.deep_view().len(),
            parts.deep_view() == all_parts,
            marker@ == "event:"@,
            marker@.len() > 0,
            i <= n,
            chunk_deltas(all_parts) == printed.deep_view() + chunk_deltas(
                all_parts.skip(i as int),
            ),
            acc@ == old(acc)@ + concat_all(printed.deep_view()),
        decreases n - i,
    {
        proof {
            assert(all_parts.skip(i as int)[0] == all_parts[i as int]);
            assert(all_parts.skip(i as int).skip(1) =~= all_parts.skip(i + 1 as int));
            assert(parts[i as int].deep_view() =~= parts[i as int]@);
        }
        let cut = cut_at_exec(&parts[i], &marker);
        let cleaned = trim_exec(&cut);
        let frame = chars_to_string(&cleaned);
        match parse_delta(frame.as_str()) {
            Some(fragment) => {
                let ghost printed_before = printed.deep_view();
                acc.append(fragment.as_str());
                printed.push(fragment);
                proof {
                    assert(printed.deep_view() =~~= printed_before.push(
                        delta_of(trimmed(cut_at(all_parts[i as int], "event:"@)))->Some_0,
                    ));
                    lemma_concat_all_push(
                        printed_before,
                        delta_of(trimmed(cut_at(all_parts[i as int], "event:"@)))->Some_0,
                    );
                    assert(printed_before + (seq![
                        delta_of(trimmed(cut_at(all_parts[i as int], "event:"@)))->Some_0,
                    ] + chunk_deltas(all_parts.skip(i + 1 as int))) =~= printed.deep_view()
                        + chunk_deltas(all_parts.skip(i + 1 as int)));
                }
            },
            None => {},
        }
        i = i + 1;
    }
    proof {
        assert(all_parts.skip(n as int).len() == 0);
        assert(printed.deep_view() + Seq::<Seq<char>>::empty() =~= printed.deep_view());
    }
    printed
}

/// `v` up to the first occurrence of `sep`.
fn cut_at_exec(v: &Vec<char>, sep: &Vec<char>) -> (r: Vec<char>)
    requires
        sep@.len() > 0,
    ensures
        r@ == cut_at(v@, sep@),
{
    match find_sep_exec(v, sep) {
        Some(i) => {
            let r = subvec(v, 0, i);
            proof {
                assert(r@ =~= v@.take(i as int));
            }
            r
        },
        None => {
            let n = v.len();
            let r = subvec(v, 0, n);
            proof {
                assert(r@ =~= v@);
            }
            r
        },
    }
}

} // verus!
