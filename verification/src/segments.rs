//! Splits a text into stretches of literal text and shortcodes. An opening
//! delimiter that stands inside a code span is literal text.

use crate::scanner::{
    block_close, block_end, block_end_keyword, block_open, code_spans_from,
    find_all_blocks, find_opener, find_shortcode_from, first_match, inline_close,
    inline_end, inline_open, lemma_first_match, lemma_next_opener, next_opener, occurs_at,
    offset_view, shortcode_at, spans_view, ShortcodeIdx,
};
use vstd::prelude::*;
use vstd::string::*;

verus! {

/// A stretch of a text, by byte offsets.
#[derive(Clone, Copy, Debug, PartialEq, Eq)]
pub enum Segment {
    /// Literal text from the first offset up to the second.
    Text(usize, usize),
    /// A shortcode.
    Shortcode(ShortcodeIdx),
}

/// The offset at which a shortcode begins.
pub open spec fn shortcode_start(idx: ShortcodeIdx) -> int {
    match idx {
        ShortcodeIdx::Inline(start, _) => start as int,
        ShortcodeIdx::Block { def, .. } => def.0 as int,
    }
}

/// The offset just behind a shortcode, where scanning resumes.
pub open spec fn shortcode_resume(idx: ShortcodeIdx) -> int {
    match idx {
        ShortcodeIdx::Inline(_, end) => end + 2,
        ShortcodeIdx::Block { end, .. } => end.1 + 2,
    }
}

/// The end of the first of `spans` that covers the offset `p`.
pub open spec fn covering_end(spans: Seq<(int, int)>, p: int) -> Option<int>
    decreases spans.len(),
{
    if spans.len() == 0 {
        None
    } else if spans[0].0 <= p < spans[0].1 {
        Some(spans[0].1)
    } else {
        covering_end(spans.drop_first(), p)
    }
}

/// The offset `p` of `s` lies inside a code span.
pub open spec fn in_code_span(s: Seq<u8>, p: int) -> bool {
    covering_end(code_spans_from(s, 0), p) is Some
}

/// The literal text from `from` up to `to`, if there is any.
pub open spec fn text_segment(from: int, to: int) -> Seq<Segment> {
    if from < to {
        seq![Segment::Text(from as usize, to as usize)]
    } else {
        Seq::empty()
    }
}

/// The segments of `s` behind `text_start`, the scan standing at `pos`.
///
/// The next opening delimiter decides. Inside one of `spans` it is literal and
/// the scan resumes behind that span. Where it begins a shortcode, the text before
/// it and the shortcode are segments and the scan resumes behind the shortcode.
/// Where it is never balanced, or there is none, the rest is text.
pub open spec fn segments_from(
    s: Seq<u8>,
    spans: Seq<(int, int)>,
    text_start: int,
    pos: int,
) -> Seq<Segment>
    decreases s.len() - pos,
{
    if pos < 0 {
        Seq::empty()
    } else {
        match next_opener(s, pos) {
            None => text_segment(text_start, s.len() as int),
            Some(o) => match covering_end(spans, o) {
                Some(end) => if pos < end <= s.len() {
                    segments_from(s, spans, text_start, end)
                } else {
                    text_segment(text_start, s.len() as int)
                },
                None => match shortcode_at(s, o) {
                    None => text_segment(text_start, s.len() as int),
                    Some(idx) => if pos < shortcode_resume(idx) <= s.len() {
                        text_segment(text_start, o) + seq![Segment::Shortcode(idx)]
                            + segments_from(
                            s,
                            spans,
                            shortcode_resume(idx),
                            shortcode_resume(idx),
                        )
                    } else {
                        text_segment(text_start, s.len() as int)
                    },
                },
            },
        }
    }
}

/// The segments of the text `s`, its own code spans shielding what they hold.
pub open spec fn segments_of(s: Seq<u8>) -> Seq<Segment> {
    segments_from(s, code_spans_from(s, 0), 0, 0)
}

/// A span that covers `p` ends behind `p`.
pub proof fn lemma_covering_end(spans: Seq<(int, int)>, p: int)
    ensures
        covering_end(spans, p) matches Some(end) ==> p < end,
    decreases spans.len(),
{
    if spans.len() > 0 && !(spans[0].0 <= p < spans[0].1) {
        lemma_covering_end(spans.drop_first(), p);
    }
}

/// The closer of an inline shortcode lies at or behind the cursor and inside
/// the text.
pub proof fn lemma_inline_end_bounds(s: Seq<u8>, cur: int, level: nat)
    ensures
        inline_end(s, cur, level) matches Some(e) ==> cur <= e && e + 2 <= s.len(),
    decreases s.len() + 1 - cur,
{
    if cur >= 0 && level > 0 {
        let opener = first_match(s, inline_open(), cur);
        lemma_first_match(s, inline_open(), cur);
        lemma_first_match(s, inline_close(), cur);
        if let Some(e) = first_match(s, inline_close(), cur) {
            if opener is Some && opener->0 < e {
                lemma_inline_end_bounds(s, opener->0 + 2, level + 1);
            } else if level != 1 {
                lemma_inline_end_bounds(s, e + 2, (level - 1) as nat);
            }
        }
    }
}

/// The `{% end` that closes a block lies at or behind the cursor, and all
/// six bytes of it inside the text.
pub proof fn lemma_block_end_bounds(s: Seq<u8>, cur: int, level: nat)
    ensures
        block_end(s, cur, level) matches Some(e) ==> cur <= e && e + 6 <= s.len(),
    decreases s.len() + 1 - cur,
{
    if cur >= 0 && level > 0 {
        let opener = first_match(s, block_open(), cur);
        lemma_first_match(s, block_open(), cur);
        lemma_first_match(s, block_end_keyword(), cur);
        if let Some(e) = first_match(s, block_end_keyword(), cur) {
            if opener is Some && opener->0 < e {
                lemma_block_end_bounds(s, opener->0 + 2, level + 1);
            } else if level != 1 {
                lemma_block_end_bounds(s, e + 6, (level - 1) as nat);
            }
        }
    }
}

/// A shortcode begins at its opening delimiter, its parts follow one another,
/// and it ends inside the text.
pub proof fn lemma_shortcode_at_bounds(s: Seq<u8>, start: int)
    requires
        0 <= start,
        s.len() <= usize::MAX,
    ensures
        shortcode_at(s, start) matches Some(idx) ==> {
            &&& shortcode_start(idx) == start
            &&& start + 2 <= shortcode_resume(idx) <= s.len()
            &&& idx matches ShortcodeIdx::Inline(a, e) ==> {
                &&& occurs_at(s, inline_open(), start)
                &&& a + 2 <= e
                &&& occurs_at(s, inline_close(), e as int)
            }
            &&& idx matches ShortcodeIdx::Block { def, end } ==> {
                &&& !occurs_at(s, inline_open(), start)
                &&& def.0 <= def.1
                &&& def.1 + 2 <= end.0
                &&& end.0 + 6 <= end.1
                &&& occurs_at(s, block_close(), def.1 as int)
                &&& occurs_at(s, block_close(), end.1 as int)
            }
        },
{
    if occurs_at(s, inline_open(), start) {
        lemma_inline_end_bounds(s, start + 2, 1);
        lemma_inline_closer(s, start + 2, 1);
    } else {
        lemma_first_match(s, block_close(), start);
        if let Some(def_end) = first_match(s, block_close(), start) {
            lemma_block_end_bounds(s, def_end + 2, 1);
            if let Some(end_start) = block_end(s, def_end + 2, 1) {
                lemma_first_match(s, block_close(), end_start + 6);
            }
        }
    }
}

/// What `inline_end` returns is the offset of a `}}`.
pub proof fn lemma_inline_closer(s: Seq<u8>, cur: int, level: nat)
    ensures
        inline_end(s, cur, level) matches Some(e) ==> occurs_at(s, inline_close(), e),
    decreases s.len() + 1 - cur,
{
    if cur >= 0 && level > 0 {
        let opener = first_match(s, inline_open(), cur);
        lemma_first_match(s, inline_open(), cur);
        lemma_first_match(s, inline_close(), cur);
        if let Some(e) = first_match(s, inline_close(), cur) {
            if opener is Some && opener->0 < e {
                lemma_inline_closer(s, opener->0 + 2, level + 1);
            } else if level != 1 {
                lemma_inline_closer(s, e + 2, (level - 1) as nat);
            }
        }
    }
}

/// No shortcode segment begins inside one of the spans that shield the text,
/// and each begins at an opening delimiter of its kind.
pub proof fn lemma_segments_outside_spans(
    s: Seq<u8>,
    spans: Seq<(int, int)>,
    text_start: int,
    pos: int,
)
    requires
        s.len() <= usize::MAX,
    ensures
        forall|k: int|
            0 <= k < segments_from(s, spans, text_start, pos).len() ==> (#[trigger] segments_from(
                s,
                spans,
                text_start,
                pos,
            )[k] matches Segment::Shortcode(idx) ==> {
                &&& covering_end(spans, shortcode_start(idx)) is None
                &&& pos <= shortcode_start(idx)
                &&& idx is Inline ==> occurs_at(s, inline_open(), shortcode_start(idx))
                &&& idx is Block ==> occurs_at(s, block_open(), shortcode_start(idx))
            }),
    decreases s.len() - pos,
{
    let all = segments_from(s, spans, text_start, pos);
    if pos >= 0 {
        lemma_next_opener(s, pos);
        if let Some(o) = next_opener(s, pos) {
            match covering_end(spans, o) {
                Some(end) => {
                    if pos < end <= s.len() {
                        lemma_segments_outside_spans(s, spans, text_start, end);
                    }
                },
                None => {
                    lemma_shortcode_at_bounds(s, o);
                    if let Some(idx) = shortcode_at(s, o) {
                        let resume = shortcode_resume(idx);
                        if pos < resume <= s.len() {
                            lemma_segments_outside_spans(s, spans, resume, resume);
                            let head = text_segment(text_start, o);
                            let rest = segments_from(s, spans, resume, resume);
                            assert(all == head + seq![Segment::Shortcode(idx)] + rest);
                            assert forall|k: int| 0 <= k < all.len() implies (#[trigger] all[k]
                                matches Segment::Shortcode(i) ==> {
                                &&& covering_end(spans, shortcode_start(i)) is None
                                &&& pos <= shortcode_start(i)
                                &&& i is Inline ==> occurs_at(s, inline_open(), shortcode_start(i))
                                &&& i is Block ==> occurs_at(s, block_open(), shortcode_start(i))
                            }) by {
                                if k < head.len() {
                                } else if k == head.len() {
                                } else {
                                    assert(all[k] == rest[k - head.len() - 1]);
                                }
                            }
                        }
                    }
                },
            }
        }
    }
}

/// Code-span immunity: where every `{{` of a text stands inside a code span,
/// no segment of the text is an inline shortcode.
pub proof fn lemma_code_span_immunity(s: Seq<u8>)
    requires
        s.len() <= usize::MAX,
        forall|j: int| #[trigger] occurs_at(s, inline_open(), j) ==> in_code_span(s, j),
    ensures
        forall|k: int|
            0 <= k < segments_of(s).len() ==> !(#[trigger] segments_of(s)[k] matches Segment::Shortcode(
                ShortcodeIdx::Inline(_, _),
            )),
{
    lemma_segments_outside_spans(s, code_spans_from(s, 0), 0, 0);
}

/// Code-span immunity for both kinds: where every `{{` and every `{%` of a text
/// stands inside a code span, the text has no shortcode at all.
pub proof fn lemma_shielded_text_is_literal(s: Seq<u8>)
    requires
        s.len() <= usize::MAX,
        forall|j: int| #[trigger] occurs_at(s, inline_open(), j) ==> in_code_span(s, j),
        forall|j: int| #[trigger] occurs_at(s, block_open(), j) ==> in_code_span(s, j),
    ensures
        forall|k: int| 0 <= k < segments_of(s).len() ==> #[trigger] segments_of(s)[k] is Text,
{
    lemma_segments_outside_spans(s, code_spans_from(s, 0), 0, 0);
}

/// The end of the first of `spans` that covers `p`.
fn covering_span_end(spans: &Vec<(usize, usize)>, p: usize) -> (r: Option<usize>)
    ensures
        offset_view(r) == covering_end(spans_view(spans@), p as int),
{
    let mut k: usize = 0;
    assert(spans_view(spans@).subrange(0, spans.len() as int) =~= spans_view(spans@));
    while k < spans.len()
        invariant
            k <= spans.len(),
            covering_end(spans_view(spans@), p as int) == covering_end(
                spans_view(spans@).subrange(k as int, spans.len() as int),
                p as int,
            ),
        decreases spans.len() - k,
    {
        let ghost rest = spans_view(spans@).subrange(k as int, spans.len() as int);
        proof {
            assert(rest[0] == (spans[k as int].0 as int, spans[k as int].1 as int));
            assert(rest.drop_first() =~= spans_view(spans@).subrange(
                k + 1,
                spans.len() as int,
            ));
        }
        let span = spans[k];
        if span.0 <= p && p < span.1 {
            return Some(span.1);
        }
        k += 1;
    }
    proof {
        assert(spans_view(spans@).subrange(spans.len() as int, spans.len() as int).len() == 0);
    }
    None
}

/// Puts the text from `from` up to `to` behind `out`, if there is any.
fn push_text(out: &mut Vec<Segment>, from: usize, to: usize)
    ensures
        final(out)@ == old(out)@ + text_segment(from as int, to as int),
{
    if from < to {
        out.push(Segment::Text(from, to));
        assert(out@ =~= old(out)@ + text_segment(from as int, to as int));
    } else {
        assert(out@ =~= old(out)@ + text_segment(from as int, to as int));
    }
}

/// Splits `input` into literal text and shortcodes, in document order.
///
/// Code spans shield what they hold: an opening delimiter inside one is text.
/// An opening delimiter that is never balanced ends the scan, and the rest of
/// the input is text.
pub fn split_shortcodes(input: &str) -> (out: Vec<Segment>)
    ensures
        out@ == segments_of(input.spec_bytes()),
{
    let spans = find_all_blocks(input);
    let len = input.as_bytes().len();
    let ghost s = input.spec_bytes();
    let mut out: Vec<Segment> = Vec::new();
    let mut text_start: usize = 0;
    let mut pos: usize = 0;
    loop
        invariant
            s == input.spec_bytes(),
            len == s.len(),
            spans_view(spans@) == code_spans_from(s, 0),
            pos <= len,
            segments_of(s) == out@ + segments_from(
                s,
                code_spans_from(s, 0),
                text_start as int,
                pos as int,
            ),
        decreases len - pos,
    {
        proof {
            lemma_next_opener(s, pos as int);
        }
        let found = find_shortcode_from(input, pos);
        let opener = find_opener(input, pos);
        let o = match opener {
            None => {
                push_text(&mut out, text_start, len);
                return out;
            },
            Some(o) => o,
        };
        proof {
            lemma_covering_end(code_spans_from(s, 0), o as int);
            lemma_shortcode_at_bounds(s, o as int);
        }
        match covering_span_end(&spans, o) {
            Some(end) => {
                if end <= len {
                    pos = end;
                } else {
                    push_text(&mut out, text_start, len);
                    return out;
                }
            },
            None => match found {
                None => {
                    push_text(&mut out, text_start, len);
                    return out;
                },
                Some(idx) => {
                    let resume = match idx {
                        ShortcodeIdx::Inline(_, end) => end + 2,
                        ShortcodeIdx::Block { end, .. } => end.1 + 2,
                    };
                    let ghost before = out@;
                    push_text(&mut out, text_start, o);
                    out.push(Segment::Shortcode(idx));
                    proof {
                        assert(out@ =~= before + text_segment(text_start as int, o as int) + seq![
                            Segment::Shortcode(idx),
                        ]);
                    }
                    text_start = resume;
                    pos = resume;
                },
            },
        }
    }
}

} // verus!
