//! Where a text is cut. The scanner yields byte offsets; a text can be cut at
//! an offset only where a character begins. All delimiters are ASCII, so every
//! cut that the builder makes at the offsets of a segment falls between two
//! characters.

use crate::builder::markdown::sliceable;
use crate::scanner::{
    block_close, block_end, block_end_keyword, block_open, first_match, inline_close, inline_open,
    lemma_first_match, lemma_next_opener, next_opener, occurs_at, shortcode_at, ShortcodeIdx,
};
use crate::segments::{
    covering_end, lemma_shortcode_at_bounds, segments_from, segments_of,
    shortcode_resume, text_segment, Segment,
};
use vstd::prelude::*;
use vstd::utf8::*;

verus! {

/// Behind a character that begins at `i` the next character begins, or the
/// text ends.
pub proof fn lemma_boundary_behind(bytes: Seq<u8>, i: int)
    requires
        valid_utf8(bytes),
        0 <= i < bytes.len(),
        is_char_boundary(bytes, i),
    ensures
        i + length_of_first_scalar(bytes.subrange(i, bytes.len() as int)) <= bytes.len(),
        is_char_boundary(
            bytes,
            i + length_of_first_scalar(bytes.subrange(i, bytes.len() as int)),
        ),
    decreases bytes.len(),
{
    let first = length_of_first_scalar(bytes);
    let rest = pop_first_scalar(bytes);
    if i == 0 {
        assert(bytes.subrange(0, bytes.len() as int) =~= bytes);
        assert(is_char_boundary(rest, 0));
        assert(is_char_boundary(bytes, first));
    } else {
        assert(is_char_boundary(rest, i - first));
        assert(0 <= i - first < rest.len());
        lemma_boundary_behind(rest, i - first);
        assert(rest.subrange(i - first, rest.len() as int) =~= bytes.subrange(i, bytes.len() as int));
        let step = length_of_first_scalar(bytes.subrange(i, bytes.len() as int));
        assert(is_char_boundary(rest, i - first + step));
        assert(is_char_boundary(bytes, i + step));
    }
}

/// A byte of ASCII is a character of its own: one begins at its offset and
/// the next behind it.
pub proof fn lemma_ascii_is_boundary(bytes: Seq<u8>, i: int)
    requires
        valid_utf8(bytes),
        0 <= i < bytes.len(),
        bytes[i] < 0x80,
    ensures
        is_char_boundary(bytes, i),
        is_char_boundary(bytes, i + 1),
{
    is_char_boundary_iff_not_is_continuation_byte(bytes, i);
    lemma_boundary_behind(bytes, i);
    assert(bytes.subrange(i, bytes.len() as int)[0] == bytes[i]);
}

/// The offset `i` is a clean cut: it is an end of the text, or a byte of
/// ASCII stands at it or before it.
pub open spec fn clean_cut(bytes: Seq<u8>, i: int) -> bool {
    0 <= i <= bytes.len() && (i == 0 || i == bytes.len() || bytes[i] < 0x80 || bytes[i - 1] < 0x80)
}

/// At a clean cut a character begins.
pub proof fn lemma_clean_cut(bytes: Seq<u8>, i: int)
    requires
        valid_utf8(bytes),
        clean_cut(bytes, i),
    ensures
        is_char_boundary(bytes, i),
{
    is_char_boundary_start_end_of_seq(bytes);
    if i == 0 || i == bytes.len() {
    } else if bytes[i] < 0x80 {
        lemma_ascii_is_boundary(bytes, i);
    } else {
        lemma_ascii_is_boundary(bytes, i - 1);
    }
}

/// What `block_end` returns is the offset of a `{% end`.
pub proof fn lemma_block_end_keyword(s: Seq<u8>, cur: int, level: nat)
    ensures
        block_end(s, cur, level) matches Some(e) ==> occurs_at(s, block_end_keyword(), e),
    decreases s.len() + 1 - cur,
{
    if cur >= 0 && level > 0 {
        let opener = first_match(s, block_open(), cur);
        lemma_first_match(s, block_open(), cur);
        lemma_first_match(s, block_end_keyword(), cur);
        if let Some(e) = first_match(s, block_end_keyword(), cur) {
            if opener is Some && opener->0 < e {
                lemma_block_end_keyword(s, opener->0 + 2, level + 1);
            } else if level != 1 {
                lemma_block_end_keyword(s, e + 6, (level - 1) as nat);
            }
        }
    }
}

/// All parts of the shortcode at `idx` can be cut out: its call, its body
/// where it has one, and the whole of it. The opening tag `{%}`, whose two
/// delimiters share the `%`, has no call.
pub open spec fn shortcode_sliceable(bytes: Seq<u8>, idx: ShortcodeIdx) -> bool {
    match idx {
        ShortcodeIdx::Inline(start, end) => {
            &&& sliceable(bytes, start + 2, end as int)
            &&& sliceable(bytes, start as int, end + 2)
        },
        ShortcodeIdx::Block { def, end } => {
            &&& def.0 + 2 <= def.1 ==> sliceable(bytes, def.0 + 2, def.1 as int)
            &&& sliceable(bytes, def.1 + 2, end.0 as int)
            &&& sliceable(bytes, def.0 as int, end.1 + 2)
        },
    }
}

/// The segment can be cut out of the text, and so can all of its parts.
pub open spec fn segment_sliceable(bytes: Seq<u8>, segment: Segment) -> bool {
    match segment {
        Segment::Text(from, to) => sliceable(bytes, from as int, to as int),
        Segment::Shortcode(idx) => shortcode_sliceable(bytes, idx),
    }
}

/// The parts of the shortcode that an opening delimiter begins can be cut
/// out, and behind the shortcode the text can be cut.
pub proof fn lemma_shortcode_sliceable(bytes: Seq<u8>, start: int)
    requires
        valid_utf8(bytes),
        bytes.len() <= usize::MAX,
        0 <= start,
        occurs_at(bytes, inline_open(), start) || occurs_at(bytes, block_open(), start),
    ensures
        shortcode_at(bytes, start) matches Some(idx) ==> shortcode_sliceable(bytes, idx)
            && clean_cut(bytes, shortcode_resume(idx)),
{
    lemma_shortcode_at_bounds(bytes, start);
    if let Some(idx) = shortcode_at(bytes, start) {
        assert(bytes[start + 0] == 123u8) by {
            if occurs_at(bytes, inline_open(), start) {
                assert(inline_open()[0] == 123u8);
            } else {
                assert(block_open()[0] == 123u8);
            }
        }
        assert(bytes[start + 1] < 0x80) by {
            if occurs_at(bytes, inline_open(), start) {
                assert(inline_open()[1] == 123u8);
            } else {
                assert(block_open()[1] == 37u8);
            }
        }
        lemma_ascii_is_boundary(bytes, start);
        lemma_ascii_is_boundary(bytes, start + 1);
        match idx {
            ShortcodeIdx::Inline(first, end) => {
                assert(first == start);
                assert(inline_close()[0] == 125u8 && inline_close()[1] == 125u8);
                assert(bytes[end + 0] == 125u8 && bytes[end + 1] == 125u8);
                lemma_ascii_is_boundary(bytes, end as int);
                lemma_ascii_is_boundary(bytes, end + 1);
                assert(sliceable(bytes, start + 2, end as int));
                assert(sliceable(bytes, start, end + 2));
                assert(clean_cut(bytes, end + 2));
            },
            ShortcodeIdx::Block { def, end } => {
                assert(block_close()[0] == 37u8 && block_close()[1] == 125u8);
                assert(bytes[def.1 + 0] == 37u8 && bytes[def.1 + 1] == 125u8);
                assert(bytes[end.1 + 0] == 37u8 && bytes[end.1 + 1] == 125u8);
                lemma_ascii_is_boundary(bytes, def.1 as int);
                lemma_ascii_is_boundary(bytes, def.1 + 1);
                lemma_ascii_is_boundary(bytes, end.1 + 1);
                lemma_first_match(bytes, block_close(), start);
                assert(first_match(bytes, block_close(), start) == Some(def.1 as int));
                lemma_block_end_keyword(bytes, def.1 + 2, 1);
                assert(block_end(bytes, def.1 + 2, 1) == Some(end.0 as int));
                assert(block_end_keyword()[0] == 123u8);
                assert(bytes[end.0 + 0] == 123u8);
                lemma_ascii_is_boundary(bytes, end.0 as int);
                assert(def.0 == start);
                assert(sliceable(bytes, def.1 + 2, end.0 as int));
                assert(sliceable(bytes, start, end.1 + 2));
                assert(clean_cut(bytes, end.1 + 2));
            },
        }
    }
}

/// The text between two clean cuts can be cut out.
proof fn lemma_text_sliceable(bytes: Seq<u8>, from: int, to: int)
    requires
        valid_utf8(bytes),
        bytes.len() <= usize::MAX,
        clean_cut(bytes, from),
        clean_cut(bytes, to),
    ensures
        forall|k: int|
            0 <= k < text_segment(from, to).len() ==> segment_sliceable(
                bytes,
                #[trigger] text_segment(from, to)[k],
            ),
{
    lemma_clean_cut(bytes, from);
    lemma_clean_cut(bytes, to);
}

/// Every segment of a text behind a clean cut can be cut out, with all of
/// its parts.
pub proof fn lemma_segments_from_sliceable(
    bytes: Seq<u8>,
    spans: Seq<(int, int)>,
    text_start: int,
    pos: int,
)
    requires
        valid_utf8(bytes),
        bytes.len() <= usize::MAX,
        clean_cut(bytes, text_start),
        text_start <= pos,
    ensures
        forall|k: int|
            0 <= k < segments_from(bytes, spans, text_start, pos).len() ==> segment_sliceable(
                bytes,
                #[trigger] segments_from(bytes, spans, text_start, pos)[k],
            ),
    decreases bytes.len() - pos,
{
    let all = segments_from(bytes, spans, text_start, pos);
    lemma_clean_cut(bytes, text_start);
    is_char_boundary_start_end_of_seq(bytes);
    lemma_next_opener(bytes, pos);
    lemma_text_sliceable(bytes, text_start, bytes.len() as int);
    let rest_text = text_segment(text_start, bytes.len() as int);
    match next_opener(bytes, pos) {
        None => {
            assert(all == rest_text);
        },
        Some(o) => {
            match covering_end(spans, o) {
                Some(end) => {
                    if pos < end <= bytes.len() {
                        lemma_segments_from_sliceable(bytes, spans, text_start, end);
                        assert(all == segments_from(bytes, spans, text_start, end));
                    } else {
                        assert(all == rest_text);
                    }
                },
                None => {
                    lemma_shortcode_sliceable(bytes, o);
                    lemma_shortcode_at_bounds(bytes, o);
                    match shortcode_at(bytes, o) {
                        None => {
                            assert(all == rest_text);
                        },
                        Some(idx) => {
                            let resume = shortcode_resume(idx);
                            if pos < resume <= bytes.len() {
                                assert(bytes[o + 0] == 123u8) by {
                                    if occurs_at(bytes, inline_open(), o) {
                                        assert(inline_open()[0] == 123u8);
                                    } else {
                                        assert(block_open()[0] == 123u8);
                                    }
                                }
                                lemma_ascii_is_boundary(bytes, o);
                                lemma_text_sliceable(bytes, text_start, o);
                                lemma_segments_from_sliceable(bytes, spans, resume, resume);
                                let head = text_segment(text_start, o);
                                let rest = segments_from(bytes, spans, resume, resume);
                                assert(all == head + seq![Segment::Shortcode(idx)] + rest);
                                assert forall|k: int| 0 <= k < all.len() implies segment_sliceable(
                                    bytes,
                                    #[trigger] all[k],
                                ) by {
                                    if k < head.len() {
                                        assert(all[k] == head[k]);
                                    } else if k == head.len() {
                                        assert(all[k] == Segment::Shortcode(idx));
                                    } else {
                                        assert(all[k] == rest[k - head.len() - 1]);
                                    }
                                }
                            } else {
                                assert(all == rest_text);
                            }
                        },
                    }
                },
            }
        },
    }
}

/// Every segment of a text can be cut out of it, with all of its parts: the
/// text of a text segment, and of a shortcode its call, its body and the
/// whole of it.
pub proof fn lemma_segments_sliceable(text: Seq<char>)
    requires
        encode_utf8(text).len() <= usize::MAX,
    ensures
        forall|k: int|
            0 <= k < segments_of(encode_utf8(text)).len() ==> segment_sliceable(
                encode_utf8(text),
                #[trigger] segments_of(encode_utf8(text))[k],
            ),
{
    let bytes = encode_utf8(text);
    encode_utf8_valid_utf8(text);
    lemma_segments_from_sliceable(bytes, crate::scanner::code_spans_from(bytes, 0), 0, 0);
}

} // verus!
