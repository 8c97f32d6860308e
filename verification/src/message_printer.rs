//! Word wrapping for boxed messages. The text is segmented into grapheme
//! clusters and measured in display columns by the Unicode crates; the
//! wrapping itself is verified to produce nothing but properly framed
//! lines of the requested width.

use crate::chat_client::concat_all;
use unicode_segmentation::UnicodeSegmentation;
use unicode_width::UnicodeWidthStr;
use crate::json::{chars_to_string, to_chars};
use crate::run::is_ws;
use vstd::prelude::*;
use vstd::string::StringExecFns;

verus! {

/// The grapheme clusters of a text, in order; a function of the text
/// alone, fixed by the Unicode segmentation rules the crate implements.
pub uninterp spec fn graphemes_of(s: Seq<char>) -> Seq<Seq<char>>;

/// The display width of a text in terminal columns; a function of the
/// text alone, fixed by the Unicode width tables the crate implements.
pub uninterp spec fn width_of(s: Seq<char>) -> nat;

/// Relies on unicode-segmentation's `graphemes(true)`: the extended
/// grapheme clusters of the text, in order, concatenating back to it.
#[verifier::external_body]
fn grapheme_clusters(s: &str) -> (r: Vec<String>)
    ensures
        r.deep_view() == graphemes_of(s@),
        concat_all(r.deep_view()) == s@,
        s@.len() == 0 ==> r.deep_view().len() == 0,
{
    s.graphemes(true).map(|g| g.to_string()).collect()
}

/// Relies on unicode-width's `UnicodeWidthStr::width`: the text's display
/// width in columns.
#[verifier::external_body]
fn display_width(s: &str) -> (r: usize)
    ensures
        r == width_of(s@),
{
    s.width()
}

/// The total display width of a run of grapheme clusters.
pub open spec fn sum_widths(gs: Seq<Seq<char>>) -> int
    decreases gs.len(),
{
    if gs.len() == 0 {
        0
    } else {
        width_of(gs[0]) + sum_widths(gs.skip(1))
    }
}

/// One framed output line: the wrapper, the content, padding out to
/// `eff` columns, the wrapper again.
pub open spec fn framed_line(wrapper: Seq<char>, gs: Seq<Seq<char>>, eff: int) -> Seq<char> {
    wrapper + " "@ + concat_all(gs) + crate::commands::spaces(eff - sum_widths(gs)) + " "@
        + wrapper + "\n"@
}

/// A sequence of framed lines, concatenated.
pub open spec fn rendered_lines(
    lines: Seq<Seq<Seq<char>>>,
    wrapper: Seq<char>,
    eff: int,
) -> Seq<char>
    decreases lines.len(),
{
    if lines.len() == 0 {
        Seq::empty()
    } else {
        framed_line(wrapper, lines[0], eff) + rendered_lines(lines.skip(1), wrapper, eff)
    }
}

proof fn lemma_rendered_push(lines: Seq<Seq<Seq<char>>>, l: Seq<Seq<char>>, w: Seq<char>, eff: int)
    ensures
        rendered_lines(lines.push(l), w, eff) == rendered_lines(lines, w, eff) + framed_line(
            w,
            l,
            eff,
        ),
    decreases lines.len(),
{
    if lines.len() == 0 {
        assert(lines.push(l)[0] == l);
        assert(lines.push(l).skip(1) =~= Seq::<Seq<Seq<char>>>::empty());
        assert(rendered_lines(Seq::<Seq<Seq<char>>>::empty(), w, eff) == Seq::<char>::empty());
        assert(framed_line(w, l, eff) + Seq::<char>::empty() =~= framed_line(w, l, eff));
        assert(rendered_lines(lines, w, eff) + framed_line(w, l, eff) =~= framed_line(w, l, eff));
        assert(rendered_lines(lines.push(l), w, eff) =~= rendered_lines(lines, w, eff)
            + framed_line(w, l, eff));
    } else {
        assert(lines.push(l)[0] == lines[0]);
        assert(lines.push(l).skip(1) =~= lines.skip(1).push(l));
        lemma_rendered_push(lines.skip(1), l, w, eff);
        assert(rendered_lines(lines.push(l), w, eff) =~= rendered_lines(lines, w, eff)
            + framed_line(w, l, eff));
    }
}

/// Whether every wrapped line fits the content width, a single over-wide
/// cluster being the one allowed exception.
pub open spec fn lines_fit(lines: Seq<Seq<Seq<char>>>, eff: int) -> bool {
    forall|i: int|
        0 <= i < lines.len() ==> sum_widths(#[trigger] lines[i]) <= eff || lines[i].len() <= 1
}

/// Wraps a message into framed lines at most `width` columns wide: the
/// result is nothing but complete framed lines, each padded to exactly
/// `width - 4` content columns and each fitting that width (a single
/// cluster wider than the whole line is the one exception). A blank
/// message still yields exactly one blank framed line.
pub fn word_wrap(text: &str, width: usize, wrapper: String) -> (r: String)
    requires
        width >= 5,
    ensures
        exists|lines: Seq<Seq<Seq<char>>>|
            r@ == rendered_lines(lines, wrapper@, width - 4) && lines.len() > 0 && lines_fit(
                lines,
                width - 4,
            ),
        text@.len() == 0 ==> r@ == framed_line(wrapper@, Seq::empty(), width - 4),
{
    let eff = width - 4;
    let mut out = String::new();
    let ghost mut emitted: Seq<Seq<Seq<char>>> = Seq::empty();
    let newline = to_chars("\n");
    let chars = to_chars(text);
    proof {
        reveal_strlit("\n");
        assert(newline@.len() == 1);
    }
    let parts = crate::chat_client::split_parts(&chars, &newline);
    let np = parts.len();
    let mut p: usize = 0;
    proof {
        if text@.len() == 0 {
            assert(parts.deep_view() =~~= seq![Seq::<char>::empty()]);
        }
    }
    while p < np
        invariant
            np == parts.len(),
            eff == width - 4,
            width >= 5,
            p <= np,
            out@ == rendered_lines(emitted, wrapper@, eff as int),
            emitted.len() <= out@.len(),
            lines_fit(emitted, eff as int),
            text@.len() == 0 ==> np == 1 && parts.deep_view()[0].len() == 0,
            text@.len() == 0 ==> emitted.len() == 0,
        decreases np - p,
    {
        let part = chars_to_string(&parts[p]);
        proof {
            assert(part@ == parts.deep_view()[p as int]);
        }
        let gs = grapheme_clusters(part.as_str());
        let glen = gs.len();
        let mut cur: usize = 0;
        while cur < glen
            invariant
                glen == gs.len(),
                eff == width - 4,
                width >= 5,
                cur <= glen,
                out@ == rendered_lines(emitted, wrapper@, eff as int),
                emitted.len() <= out@.len(),
                lines_fit(emitted, eff as int),
                text@.len() == 0 ==> glen == 0 && emitted.len() == 0,
            decreases glen - cur,
        {
            // grow the chunk greedily while it fits
            let mut end: usize = cur;
            let mut acc_width: usize = 0;
            while end < glen && acc_width <= eff
                invariant
                    glen == gs.len(),
                    cur <= end <= glen,
                    acc_width <= eff,
                    acc_width as int == sum_widths(gs.deep_view().subrange(cur as int, end as int)),
                decreases glen - end,
            {
                let g_width = display_width(gs[end].as_str());
                if g_width > eff || acc_width > eff - g_width {
                    break ;
                }
                proof {
                    assert(gs.deep_view().subrange(cur as int, end + 1 as int)
                        =~= gs.deep_view().subrange(cur as int, end as int).push(
                        gs.deep_view()[end as int],
                    ));
                    lemma_sum_widths_push(
                        gs.deep_view().subrange(cur as int, end as int),
                        gs.deep_view()[end as int],
                    );
                    assert(gs[end as int]@ == gs.deep_view()[end as int]);
                }
                acc_width = acc_width + g_width;
                end = end + 1;
            }
            let ghost full_end = end as int;
            // break at the last blank cluster rather than mid-word
            if end < glen && end > cur && !is_blank_cluster(&gs[end]) {
                let mut back = end;
                while back > cur && !is_blank_cluster(&gs[back - 1])
                    invariant
                        glen == gs.len(),
                        cur <= back <= end < glen,
                    decreases back,
                {
                    back = back - 1;
                }
                if back > cur {
                    end = back;
                }
            }
            let ghost forced = end == cur;
            if end == cur {
                // a cluster wider than the whole line still advances
                end = cur + 1;
            }
            proof {
                let chunk = gs.deep_view().subrange(cur as int, end as int);
                if !forced {
                    lemma_sum_widths_prefix(gs.deep_view(), cur as int, end as int, full_end);
                    assert(sum_widths(chunk) <= eff as int);
                } else {
                    assert(chunk.len() <= 1);
                }
            }
            emit_framed(&mut out, &wrapper, &gs, cur, end, eff);
            proof {
                lemma_rendered_push(
                    emitted,
                    gs.deep_view().subrange(cur as int, end as int),
                    wrapper@,
                    eff as int,
                );
                emitted = emitted.push(gs.deep_view().subrange(cur as int, end as int));
            }
            cur = end;
            while cur < glen && is_blank_cluster(&gs[cur])
                invariant
                    glen == gs.len(),
                    end <= cur <= glen,
                decreases glen - cur,
            {
                cur = cur + 1;
            }
        }
        proof {
            if text@.len() == 0 {
                assert(gs.deep_view().len() == 0);
            }
        }
        p = p + 1;
    }
    if out.as_str().is_empty() {
        let empty_gs: Vec<String> = Vec::new();
        proof {
            assert(emitted.len() == 0);
            assert(empty_gs.deep_view().subrange(0, 0) =~= Seq::<Seq<char>>::empty());
            lemma_rendered_push(emitted, Seq::<Seq<char>>::empty(), wrapper@, eff as int);
        }
        emit_framed(&mut out, &wrapper, &empty_gs, 0, 0, eff);
        proof {
            emitted = emitted.push(Seq::<Seq<char>>::empty());
            assert(emitted =~= Seq::<Seq<Seq<char>>>::empty().push(Seq::<Seq<char>>::empty()));
            assert(sum_widths(Seq::<Seq<char>>::empty()) == 0);
            assert(out@ =~= framed_line(wrapper@, Seq::<Seq<char>>::empty(), eff as int));
        }
    }
    proof {
        assert(emitted.len() > 0) by {
            if emitted.len() == 0 {
                assert(out@ =~= Seq::<char>::empty());
            }
        }
    }
    out
}


proof fn lemma_sum_widths_prefix(gs: Seq<Seq<char>>, a: int, b: int, c: int)
    requires
        0 <= a <= b <= c <= gs.len(),
    ensures
        sum_widths(gs.subrange(a, b)) <= sum_widths(gs.subrange(a, c)),
    decreases c - b,
{
    if b < c {
        assert(gs.subrange(a, c) =~= gs.subrange(a, c - 1).push(gs[c - 1]));
        lemma_sum_widths_push(gs.subrange(a, c - 1), gs[c - 1]);
        lemma_sum_widths_prefix(gs, a, b, c - 1);
    }
}

/// Appends one framed line holding the clusters `gs[from..to]`.
fn emit_framed(out: &mut String, wrapper: &String, gs: &Vec<String>, from: usize, to: usize, eff: usize)
    requires
        from <= to <= gs.deep_view().len(),
        eff <= usize::MAX - 1,
    ensures
        final(out)@ == old(out)@ + framed_line(
            wrapper@,
            gs.deep_view().subrange(from as int, to as int),
            eff as int,
        ),
        final(out)@.len() > old(out)@.len(),
{
    let ghost chunk = gs.deep_view().subrange(from as int, to as int);
    out.append(wrapper.as_str());
    out.append(" ");
    let mut total_sat: usize = 0;
    let mut k: usize = from;
    proof {
        assert(concat_all(chunk.subrange(0, 0)) =~= Seq::<char>::empty());
        assert(out@ + Seq::<char>::empty() =~= out@);
    }
    while k < to
        invariant
            from <= k <= to <= gs.deep_view().len(),
            chunk == gs.deep_view().subrange(from as int, to as int),
            eff <= usize::MAX - 1,
            total_sat <= eff + 1,
            total_sat as int == if sum_widths(chunk.subrange(0, k - from)) <= eff + 1 {
                sum_widths(chunk.subrange(0, k - from))
            } else {
                eff + 1 as int
            },
            out@ == old(out)@ + wrapper@ + " "@ + concat_all(chunk.subrange(0, k - from)),
        decreases to - k,
    {
        proof {
            assert(gs[k as int]@ == chunk[k - from]);
            lemma_sum_widths_snoc(chunk, k - from);
            lemma_concat_snoc(chunk, k - from);
            lemma_sum_widths_nonneg(chunk.subrange(0, k - from));
        }
        let g_width = display_width(gs[k].as_str());
        out.append(gs[k].as_str());
        if g_width > eff || total_sat > eff + 1 - g_width {
            total_sat = eff + 1;
        } else {
            total_sat = total_sat + g_width;
        }
        k = k + 1;
    }
    proof {
        assert(chunk.subrange(0, to - from as int) =~= chunk);
        lemma_sum_widths_nonneg(chunk);
    }
    let pad = if total_sat <= eff {
        eff - total_sat
    } else {
        0
    };
    let mut pad_chars: Vec<char> = Vec::new();
    push_spaces_vec(&mut pad_chars, pad);
    let pad_str = chars_to_string(&pad_chars);
    out.append(pad_str.as_str());
    out.append(" ");
    out.append(wrapper.as_str());
    out.append("\n");
    proof {
        assert(crate::commands::spaces(eff as int - sum_widths(chunk)) == crate::commands::spaces(
            pad as int,
        )) by {
            if sum_widths(chunk) > eff as int {
                lemma_spaces_nonpos(eff as int - sum_widths(chunk));
            }
        }
        assert(out@ =~= old(out)@ + framed_line(wrapper@, chunk, eff as int));
        reveal_strlit(" ");
        reveal_strlit("\n");
        assert(" "@.len() == 1);
    }
}

proof fn lemma_spaces_nonpos(n: int)
    requires
        n <= 0,
    ensures
        crate::commands::spaces(n) == crate::commands::spaces(0),
{
}

proof fn lemma_sum_widths_nonneg(gs: Seq<Seq<char>>)
    ensures
        sum_widths(gs) >= 0,
    decreases gs.len(),
{
    if gs.len() > 0 {
        lemma_sum_widths_nonneg(gs.skip(1));
    }
}

proof fn lemma_sum_widths_snoc(chunk: Seq<Seq<char>>, k: int)
    requires
        0 <= k < chunk.len(),
    ensures
        sum_widths(chunk.subrange(0, k + 1)) == sum_widths(chunk.subrange(0, k)) + width_of(
            chunk[k],
        ),
{
    lemma_sum_widths_push(chunk.subrange(0, k), chunk[k]);
    assert(chunk.subrange(0, k + 1) =~= chunk.subrange(0, k).push(chunk[k]));
}

proof fn lemma_sum_widths_push(gs: Seq<Seq<char>>, g: Seq<char>)
    ensures
        sum_widths(gs.push(g)) == sum_widths(gs) + width_of(g),
    decreases gs.len(),
{
    if gs.len() == 0 {
        assert(gs.push(g)[0] == g);
        assert(gs.push(g).skip(1) =~= Seq::<Seq<char>>::empty());
        assert(sum_widths(Seq::<Seq<char>>::empty()) == 0);
    } else {
        assert(gs.push(g)[0] == gs[0]);
        assert(gs.push(g).skip(1) =~= gs.skip(1).push(g));
        lemma_sum_widths_push(gs.skip(1), g);
    }
}

proof fn lemma_concat_snoc(chunk: Seq<Seq<char>>, k: int)
    requires
        0 <= k < chunk.len(),
    ensures
        concat_all(chunk.subrange(0, k + 1)) == concat_all(chunk.subrange(0, k)) + chunk[k],
{
    crate::chat_client::lemma_concat_all_push(chunk.subrange(0, k), chunk[k]);
    assert(chunk.subrange(0, k + 1) =~= chunk.subrange(0, k).push(chunk[k]));
}

/// Appends `k` spaces to a character buffer.
fn push_spaces_vec(out: &mut Vec<char>, k: usize)
    ensures
        final(out)@ == old(out)@ + crate::commands::spaces(k as int),
{
    let mut i: usize = 0;
    proof {
        assert(out@ + crate::commands::spaces(0) =~= out@);
    }
    while i < k
        invariant
            i <= k,
            out@ == old(out)@ + crate::commands::spaces(i as int),
        decreases k - i,
    {
        out.push(' ');
        proof {
            lemma_spaces_snoc_local(i + 1 as int);
            assert(out@ =~= old(out)@ + crate::commands::spaces(i + 1 as int));
        }
        i = i + 1;
    }
}

proof fn lemma_spaces_snoc_local(n: int)
    requires
        n >= 1,
    ensures
        crate::commands::spaces(n) == crate::commands::spaces(n - 1) + seq![' '],
    decreases n,
{
    if n == 1 {
        assert(crate::commands::spaces(1) =~= crate::commands::spaces(0) + seq![' ']);
    } else {
        lemma_spaces_snoc_local(n - 1);
        assert(crate::commands::spaces(n) =~= crate::commands::spaces(n - 1) + seq![' ']);
    }
}

/// Whether a grapheme cluster is nothing but whitespace.
fn is_blank_cluster(g: &String) -> (r: bool)
    ensures
        r == forall|i: int| 0 <= i < g@.len() ==> is_ws(#[trigger] g@[i]),
{
    let cs = to_chars(g.as_str());
    let n = cs.len();
    let mut i: usize = 0;
    while i < n
        invariant
            n == cs@.len(),
            cs@ == g@,
            i <= n,
            forall|k: int| 0 <= k < i ==> is_ws(#[trigger] g@[k]),
        decreases n - i,
    {
        if !crate::run::is_ws_char(cs[i]) {
            proof {
                assert(!is_ws(g@[i as int]));
            }
            return false;
        }
        i = i + 1;
    }
    true
}

} // verus!
