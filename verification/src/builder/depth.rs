//! How deep shortcodes are built. The builder counts down a depth while it
//! goes into the arguments and the body of a shortcode. A text inside a
//! shortcode is shorter than the text around it, so a depth of the length of
//! the text never runs out: shortcodes are built however deep they stand.

use crate::builder::call::{
    arguments_from, ends_id, ends_name, id_end, key_end, lemma_argument_end,
    name_end, parse_call, raw_argument, value_text, RawArgumentView,
};
use crate::builder::cuts::{lemma_segments_sliceable, segment_sliceable, shortcode_sliceable};
use crate::builder::markdown::{
    built_arguments, call_chars, free_slot, markdown_blocks, mask, padded, placeholder, raw_chars,
    shortcode_node, slice_chars, sliceable, slots_taken, text_blocks, Masked,
};
use crate::builder::numbering::{numbered, Counts};
use crate::builder::collector::PLACEHOLDER_COUNT;
use crate::builder::text::{lemma_skip_spaces, lemma_trim_end, skip_spaces, trim_end, trimmed};
use crate::scanner::ShortcodeIdx;
use crate::segments::{segments_of, Segment};
use vstd::prelude::*;
use vstd::utf8::*;

verus! {

/// The length of the text `s` in bytes.
pub open spec fn byte_length(s: Seq<char>) -> nat {
    encode_utf8(s).len()
}

/// The bytes of two texts, one behind the other, are the bytes of the one
/// behind those of the other.
pub proof fn lemma_encode_concat(a: Seq<char>, b: Seq<char>)
    ensures
        encode_utf8(a + b) == encode_utf8(a) + encode_utf8(b),
    decreases a.len(),
{
    if a.len() == 0 {
        assert(a + b =~= b);
        assert(encode_utf8(a) + encode_utf8(b) =~= encode_utf8(b));
    } else {
        assert((a + b).drop_first() =~= a.drop_first() + b);
        assert((a + b)[0] == a[0]);
        lemma_encode_concat(a.drop_first(), b);
        assert(encode_utf8(a + b) =~= encode_utf8(a) + encode_utf8(b));
    }
}

/// A part of a text has no more bytes than the text.
pub proof fn lemma_part_is_shorter(s: Seq<char>, i: int, j: int)
    requires
        0 <= i <= j <= s.len(),
    ensures
        byte_length(s.subrange(i, j)) <= byte_length(s),
{
    let head = s.subrange(0, i);
    let part = s.subrange(i, j);
    let tail = s.subrange(j, s.len() as int);
    assert(s =~= (head + part) + tail);
    lemma_encode_concat(head + part, tail);
    lemma_encode_concat(head, part);
}

/// A text without the white space at its ends has no more bytes than the
/// text.
proof fn lemma_trimmed_is_shorter(v: Seq<char>)
    ensures
        byte_length(trimmed(v)) <= byte_length(v),
{
    lemma_skip_spaces(v, 0);
    lemma_trim_end(v, skip_spaces(v, 0), v.len() as int);
    lemma_part_is_shorter(v, skip_spaces(v, 0), trim_end(v, skip_spaces(v, 0), v.len() as int));
}

/// The value that a text is has no more bytes than the text.
proof fn lemma_value_is_shorter(v: Seq<char>)
    ensures
        byte_length(value_text(v)) <= byte_length(v),
{
    lemma_trimmed_is_shorter(v);
    let w = trimmed(v);
    if w.len() >= 2 {
        lemma_part_is_shorter(w, 1, w.len() - 1);
    }
}

/// A key ends at or behind its beginning, inside the text.
proof fn lemma_key_end(s: Seq<char>, i: int)
    requires
        0 <= i <= s.len(),
    ensures
        i <= key_end(s, i) <= s.len(),
    decreases s.len() - i,
{
    if i < s.len() && crate::builder::call::is_key_char(s[i]) {
        lemma_key_end(s, i + 1);
    }
}

/// A name ends at or behind its beginning, inside the text.
proof fn lemma_name_end(s: Seq<char>, i: int)
    requires
        0 <= i <= s.len(),
    ensures
        i <= name_end(s, i) <= s.len(),
    decreases s.len() - i,
{
    if i < s.len() && !ends_name(s[i]) {
        lemma_name_end(s, i + 1);
    }
}

/// An id ends at or behind its beginning, inside the text.
proof fn lemma_id_end(s: Seq<char>, i: int)
    requires
        0 <= i <= s.len(),
    ensures
        i <= id_end(s, i) <= s.len(),
    decreases s.len() - i,
{
    if i < s.len() && !ends_id(s[i]) {
        lemma_id_end(s, i + 1);
    }
}

/// The value of an argument has no more bytes than the text of the argument.
proof fn lemma_argument_is_shorter(piece: Seq<char>)
    ensures
        byte_length(raw_argument(piece).value) <= byte_length(piece),
{
    lemma_trimmed_is_shorter(piece);
    let p = trimmed(piece);
    lemma_key_end(p, 0);
    let k = key_end(p, 0);
    lemma_skip_spaces(p, k);
    let e = skip_spaces(p, k);
    if 0 < k && e < p.len() && p[e] == '=' {
        lemma_part_is_shorter(p, e + 1, p.len() as int);
        lemma_value_is_shorter(p.subrange(e + 1, p.len() as int));
    } else {
        lemma_value_is_shorter(p);
    }
}

/// The value of each argument of a text has no more bytes than the text.
proof fn lemma_arguments_are_shorter(s: Seq<char>, i: int, k: int)
    requires
        0 <= k < arguments_from(s, i).len(),
    ensures
        byte_length(arguments_from(s, i)[k].value) <= byte_length(s),
    decreases s.len() - i,
{
    if 0 <= i <= s.len() {
        lemma_argument_end(s, i, 0, false);
        let e = crate::builder::call::argument_end(s, i, 0, false);
        if i <= e < s.len() {
            if k == 0 {
                lemma_argument_is_shorter(s.subrange(i, e));
                lemma_part_is_shorter(s, i, e);
            } else {
                lemma_arguments_are_shorter(s, e + 1, k - 1);
            }
        } else {
            lemma_argument_is_shorter(s.subrange(i, s.len() as int));
            lemma_part_is_shorter(s, i, s.len() as int);
        }
    }
}

/// The value of each argument of a call has fewer bytes than the call.
proof fn lemma_call_arguments_are_shorter(s: Seq<char>, k: int)
    requires
        parse_call(s) is Some,
        0 <= k < parse_call(s)->0.args.len(),
    ensures
        byte_length(parse_call(s)->0.args[k].value) <= byte_length(s),
{
    let start = skip_spaces(s, 0);
    lemma_skip_spaces(s, 0);
    let name_stop = name_end(s, start);
    lemma_name_end(s, start);
    let has_id = name_stop < s.len() && s[name_stop] == '#';
    let id_stop = if has_id {
        id_end(s, name_stop + 1)
    } else {
        name_stop
    };
    if has_id {
        lemma_id_end(s, name_stop + 1);
    }
    let open = skip_spaces(s, id_stop);
    lemma_skip_spaces(s, id_stop);
    let stop = trim_end(s, open, s.len() as int);
    if open < s.len() {
        lemma_trim_end(s, open, s.len() as int);
        let inner = s.subrange(open + 1, stop - 1);
        lemma_part_is_shorter(s, open + 1, stop - 1);
        lemma_arguments_are_shorter(inner, 0, k);
    }
}

/// The characters between two cuts of a text are written with the bytes
/// between the cuts.
pub proof fn lemma_slice_bytes(bytes: Seq<u8>, from: int, to: int)
    requires
        valid_utf8(bytes),
        sliceable(bytes, from, to),
    ensures
        encode_utf8(slice_chars(bytes, from, to)) == bytes.subrange(from, to),
{
    valid_utf8_split(bytes, to);
    let head = bytes.subrange(0, to);
    if from < to {
        is_char_boundary_iff_not_is_continuation_byte(bytes, from);
        is_char_boundary_iff_not_is_continuation_byte(head, from);
        assert(head[from] == bytes[from]);
    } else {
        is_char_boundary_start_end_of_seq(head);
    }
    valid_utf8_split(head, from);
    assert(head.subrange(from, head.len() as int) =~= bytes.subrange(from, to));
    decode_utf8_encode_utf8(bytes.subrange(from, to));
}

/// The arguments from the index `i` on are built alike with the depths `d1`
/// and `d2`, where both are at least `bound` and every value has fewer
/// bytes than `bound`.
proof fn lemma_depth_arguments(
    args: Seq<RawArgumentView>,
    d1: nat,
    d2: nat,
    counts: Counts,
    i: nat,
    bound: nat,
)
    requires
        1 <= bound <= d1,
        bound <= d2,
        bound <= usize::MAX,
        forall|k: int| 0 <= k < args.len() ==> byte_length((#[trigger] args[k]).value) < bound,
    ensures
        built_arguments(args, d1, counts, i) == built_arguments(args, d2, counts, i),
    decreases bound, 0nat, args.len() - i,
{
    if i < args.len() {
        let value = args[i as int].value;
        lemma_depth_blocks(value, (d1 - 1) as nat, (d2 - 1) as nat, counts);
        let built = markdown_blocks(encode_utf8(value), (d1 - 1) as nat, counts);
        lemma_depth_arguments(args, d1, d2, built.1, i + 1, bound);
    }
}

/// The shortcode at `idx` is built alike with the depths `d1` and `d2`, where
/// both are at least the length of the text.
proof fn lemma_depth_node(text: Seq<char>, idx: ShortcodeIdx, d1: nat, d2: nat, counts: Counts)
    requires
        byte_length(text) <= usize::MAX,
        byte_length(text) <= d1,
        byte_length(text) <= d2,
        shortcode_sliceable(encode_utf8(text), idx),
    ensures
        shortcode_node(encode_utf8(text), idx, d1, counts) == shortcode_node(
            encode_utf8(text),
            idx,
            d2,
            counts,
        ),
    decreases byte_length(text), 1nat, 0nat,
{
    let bytes = encode_utf8(text);
    encode_utf8_valid_utf8(text);
    let chars = call_chars(bytes, idx);
    assert(byte_length(chars) < byte_length(text)) by {
        match idx {
            ShortcodeIdx::Inline(start, end) => {
                lemma_slice_bytes(bytes, start + 2, end as int);
            },
            ShortcodeIdx::Block { def, end } => {
                if def.0 + 2 <= def.1 {
                    lemma_slice_bytes(bytes, def.0 + 2, def.1 as int);
                } else {
                    assert(!sliceable(bytes, def.0 + 2, def.1 as int));
                    assert(chars =~= Seq::<char>::empty());
                }
            },
        }
    }
    if let Some(call) = parse_call(chars) {
        assert forall|k: int| 0 <= k < call.args.len() implies byte_length(
            (#[trigger] call.args[k]).value,
        ) < byte_length(text) by {
            lemma_call_arguments_are_shorter(chars, k);
        }
        let first = numbered(counts, call.name);
        lemma_depth_arguments(call.args, d1, d2, first, 0, byte_length(text));
        if let ShortcodeIdx::Block { def, end } = idx {
            let inner = slice_chars(bytes, def.1 + 2, end.0 as int);
            lemma_slice_bytes(bytes, def.1 + 2, end.0 as int);
            let args = built_arguments(call.args, d1, first, 0);
            lemma_depth_blocks(inner, (d1 - 1) as nat, (d2 - 1) as nat, args.1);
        }
    }
}

/// The segments from the index `k` on are masked alike with the depths `d1`
/// and `d2`, where both are at least the length of the text.
proof fn lemma_depth_mask(text: Seq<char>, d1: nat, d2: nat, acc: Masked, k: nat)
    requires
        byte_length(text) <= usize::MAX,
        byte_length(text) <= d1,
        byte_length(text) <= d2,
    ensures
        mask(encode_utf8(text), segments_of(encode_utf8(text)), d1, acc, k) == mask(
            encode_utf8(text),
            segments_of(encode_utf8(text)),
            d2,
            acc,
            k,
        ),
    decreases byte_length(text), 2nat, segments_of(encode_utf8(text)).len() - k,
{
    let bytes = encode_utf8(text);
    let segments = segments_of(bytes);
    if k < segments.len() {
        lemma_segments_sliceable(text);
        assert(segment_sliceable(bytes, segments[k as int]));
        match segments[k as int] {
            Segment::Text(from, to) => {
                lemma_depth_mask(
                    text,
                    d1,
                    d2,
                    Masked {
                        text: acc.text + slice_chars(bytes, from as int, to as int),
                        nodes: acc.nodes,
                        counts: acc.counts,
                    },
                    k + 1,
                );
            },
            Segment::Shortcode(idx) => {
                lemma_depth_node(text, idx, d1, d2, acc.counts);
                let slot = free_slot(slots_taken(decode_utf8(bytes)), acc.nodes.len());
                let node = if slot < PLACEHOLDER_COUNT {
                    shortcode_node(bytes, idx, d1, acc.counts)
                } else {
                    None
                };
                match node {
                    Some((node, counts)) => {
                        lemma_depth_mask(
                            text,
                            d1,
                            d2,
                            Masked {
                                text: acc.text.push(placeholder(slot)),
                                nodes: padded(acc.nodes, slot).push(Some(node)),
                                counts,
                            },
                            k + 1,
                        );
                    },
                    None => {
                        lemma_depth_mask(
                            text,
                            d1,
                            d2,
                            Masked {
                                text: acc.text + raw_chars(bytes, idx),
                                nodes: acc.nodes,
                                counts: acc.counts,
                            },
                            k + 1,
                        );
                    },
                }
            },
        }
    }
}

/// A text is built alike with the depths `d1` and `d2`, where both are at
/// least the length of the text.
proof fn lemma_depth_blocks(text: Seq<char>, d1: nat, d2: nat, counts: Counts)
    requires
        byte_length(text) <= usize::MAX,
        byte_length(text) <= d1,
        byte_length(text) <= d2,
    ensures
        markdown_blocks(encode_utf8(text), d1, counts) == markdown_blocks(
            encode_utf8(text),
            d2,
            counts,
        ),
    decreases byte_length(text), 3nat, 0nat,
{
    lemma_depth_mask(
        text,
        d1,
        d2,
        Masked { text: Seq::empty(), nodes: Seq::empty(), counts },
        0,
    );
}

/// Depth is no limit: with any depth from the length of the text on, a text
/// is built as it is with the depth that `text_blocks` gives it. No
/// shortcode stays text for standing too deep.
pub proof fn lemma_depth_is_no_limit(text: Seq<char>, depth: nat, counts: Counts)
    requires
        byte_length(text) <= usize::MAX,
        byte_length(text) <= depth,
    ensures
        markdown_blocks(encode_utf8(text), depth, counts) == text_blocks(
            encode_utf8(text),
            counts,
        ),
{
    lemma_depth_blocks(text, depth, byte_length(text), counts);
}

} // verus!
