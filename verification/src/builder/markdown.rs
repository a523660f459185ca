//! From a markdown text to blocks.
//!
//! The text is split into literal text and shortcodes. Each shortcode call is
//! parsed into a node of its own, its arguments and its body built by the same
//! rules, and its place in the text is taken by one placeholder character,
//! one that the text itself does not hold. The text that results is tokenized
//! as markdown and the events are collected into blocks, each node put back
//! where its placeholder stands.

use crate::ast::{
    arguments_view, blocks_view, Argument, ArgumentView, Block, BlockView, Shortcode,
    ShortcodeBase, ShortcodeBaseView, ShortcodeView,
};
use crate::builder::call::{parse, parse_call, RawArgument, RawArgumentView};
use crate::builder::collector::{
    collect, document_blocks, placeholder_index, shortcodes_view, Slot, SlotView,
    PLACEHOLDER_COUNT, PLACEHOLDER_FIRST,
};
use crate::events::{markdown_events, markdown_to_events};
use crate::builder::numbering::{next_ordinal, numbered, unnumbered, Counts, Numbering};
use crate::builder::text::{chars_of, push_char, string_from};
use crate::scanner::ShortcodeIdx;
use crate::segments::{segments_of, split_shortcodes, Segment};
use vstd::prelude::*;
use vstd::string::*;
use vstd::utf8::*;

verus! {

/// The bytes from `from` up to `to` can be cut out of a text: both offsets lie
/// inside the text, in this order, and at the boundaries of characters.
pub open spec fn sliceable(bytes: Seq<u8>, from: int, to: int) -> bool {
    0 <= from <= to <= bytes.len() && is_char_boundary(bytes, from) && is_char_boundary(bytes, to)
}

/// The characters that the bytes from `from` up to `to` encode; none where
/// they cannot be cut out.
pub open spec fn slice_chars(bytes: Seq<u8>, from: int, to: int) -> Seq<char> {
    if sliceable(bytes, from, to) {
        decode_utf8(bytes.subrange(from, to))
    } else {
        Seq::empty()
    }
}

/// `str::get` with a range: the part of `s` from the byte offset `from` up to
/// `to`. `None` exactly where the offsets are out of order, outside `s`, or not
/// at the boundaries of characters.
#[verifier::external_body]
pub(crate) fn substring<'a>(s: &'a str, from: usize, to: usize) -> (r: Option<&'a str>)
    ensures
        r is Some <==> sliceable(s.spec_bytes(), from as int, to as int),
        r matches Some(t) ==> t.spec_bytes() == s.spec_bytes().subrange(from as int, to as int),
{
    s.get(from..to)
}

/// `char::from_u32`: the character with the code `code`. There is one for
/// every code up to `0x10FFFF` but the surrogates from `0xD800` to `0xDFFF`.
#[verifier::external_body]
pub(crate) fn char_of(code: u32) -> (r: Option<char>)
    ensures
        r matches Some(c) ==> c as u32 == code,
        code < 0xD800 || (0xDFFF < code && code <= 0x10FFFF) ==> r is Some,
{
    char::from_u32(code)
}

/// The part of `text` from the byte offset `from + skip` up to `to + more`, as
/// a string; empty where it cannot be cut out.
pub fn slice(text: &str, from: usize, skip: usize, to: usize, more: usize) -> (r: String)
    ensures
        r@ == slice_chars(text.spec_bytes(), from + skip, to + more),
{
    let len = text.as_bytes().len();
    if from > len || skip > len - from || to > len || more > len - to {
        return String::new();
    }
    match substring(text, from + skip, to + more) {
        Some(part) => {
            proof {
                encode_utf8_decode_utf8(part@);
            }
            String::from_str(part)
        },
        None => String::new(),
    }
}

/// The placeholder of the shortcode with the index `k`.
pub open spec fn placeholder(k: nat) -> char {
    ((PLACEHOLDER_FIRST + k) as u32) as char
}

/// The character with the code `code` occurs in `chars`.
pub open spec fn occurs_in(chars: Seq<char>, code: int) -> bool
    decreases chars.len(),
{
    chars.len() > 0 && (chars.last() as u32 == code || occurs_in(chars.drop_last(), code))
}

/// For each placeholder, whether the text `chars` holds that character
/// itself. Such a placeholder stands for no shortcode.
pub open spec fn slots_taken(chars: Seq<char>) -> Seq<bool> {
    Seq::new(PLACEHOLDER_COUNT as nat, |j: int| occurs_in(chars, PLACEHOLDER_FIRST + j))
}

/// The first index from `j` on that is not taken; the length of `taken` where
/// there is none.
pub open spec fn free_slot(taken: Seq<bool>, j: nat) -> nat
    decreases taken.len() - j,
{
    if j >= taken.len() {
        taken.len()
    } else if !taken[j as int] {
        j
    } else {
        free_slot(taken, j + 1)
    }
}

/// The slots `nodes`, and behind them empty slots up to the length `n`.
pub open spec fn padded(nodes: Seq<SlotView>, n: nat) -> Seq<SlotView> {
    if n <= nodes.len() {
        nodes
    } else {
        nodes + Seq::new((n - nodes.len()) as nat, |k: int| None::<ShortcodeView>)
    }
}

/// What masking has made of the segments so far.
pub struct Masked {
    /// The text with a placeholder for each shortcode.
    pub text: Seq<char>,
    /// The shortcodes, each at the index of its placeholder.
    pub nodes: Seq<SlotView>,
    /// The counts behind the numbering of the shortcodes.
    pub counts: Counts,
}

/// The bytes of the call of a shortcode: between `{{` and `}}`, or between the
/// `{%` and the `%}` of the opening tag.
pub open spec fn call_chars(bytes: Seq<u8>, idx: ShortcodeIdx) -> Seq<char> {
    match idx {
        ShortcodeIdx::Inline(start, end) => slice_chars(bytes, start + 2, end as int),
        ShortcodeIdx::Block { def, .. } => slice_chars(bytes, def.0 + 2, def.1 as int),
    }
}

/// A shortcode as it was written, delimiters and all.
pub open spec fn raw_chars(bytes: Seq<u8>, idx: ShortcodeIdx) -> Seq<char> {
    match idx {
        ShortcodeIdx::Inline(start, end) => slice_chars(bytes, start as int, end + 2),
        ShortcodeIdx::Block { def, end } => slice_chars(bytes, def.0 as int, end.1 + 2),
    }
}

/// The arguments `args` from the index `i` on, each value built as markdown
/// one level deeper, and the counts behind them.
pub open spec fn built_arguments(args: Seq<RawArgumentView>, depth: nat, counts: Counts, i: nat) -> (
    Seq<ArgumentView<Seq<BlockView>>>,
    Counts,
)
    decreases depth, 1nat, args.len() - i,
{
    if i >= args.len() || depth == 0 {
        (Seq::empty(), counts)
    } else {
        let value = markdown_blocks(encode_utf8(args[i as int].value), (depth - 1) as nat, counts);
        let rest = built_arguments(args, depth, value.1, i + 1);
        let first = match args[i as int].key {
            Some(k) => ArgumentView::Keyword(k, value.0),
            None => ArgumentView::Positional(value.0),
        };
        (seq![first] + rest.0, rest.1)
    }
}

/// The node of the shortcode at `idx`, and the counts behind it; `None` where
/// the text of its call is no call. The call receives the next ordinal of its
/// name before its arguments and its body are built.
pub open spec fn shortcode_node(bytes: Seq<u8>, idx: ShortcodeIdx, depth: nat, counts: Counts)
    -> Option<(ShortcodeView, Counts)>
    decreases depth, 2nat, 0nat,
{
    if depth == 0 {
        None
    } else {
        match parse_call(call_chars(bytes, idx)) {
            None => None,
            Some(call) => {
                let args = built_arguments(call.args, depth, numbered(counts, call.name), 0);
                let base = ShortcodeBaseView {
                    name: call.name,
                    id: call.id,
                    num: next_ordinal(counts[call.name]),
                    parameters: args.0,
                };
                match idx {
                    ShortcodeIdx::Inline(_, _) => Some((ShortcodeView::Inline(base), args.1)),
                    ShortcodeIdx::Block { def, end } => {
                        let body = markdown_blocks(
                            encode_utf8(slice_chars(bytes, def.1 + 2, end.0 as int)),
                            (depth - 1) as nat,
                            args.1,
                        );
                        Some((ShortcodeView::Block(base, body.0), body.1))
                    },
                }
            },
        }
    }
}

/// What masking makes of the segments from the index `k` on: text is copied,
/// and a shortcode gives way to its placeholder, the next one that the text
/// does not hold itself. A shortcode stays as it was written where its call
/// is no call, where it stands too deep, and where the placeholders have run
/// out.
pub open spec fn mask(
    bytes: Seq<u8>,
    segments: Seq<Segment>,
    depth: nat,
    acc: Masked,
    k: nat,
) -> Masked
    decreases depth, 3nat, segments.len() - k,
{
    if k >= segments.len() {
        acc
    } else {
        match segments[k as int] {
            Segment::Text(from, to) => mask(
                bytes,
                segments,
                depth,
                Masked {
                    text: acc.text + slice_chars(bytes, from as int, to as int),
                    nodes: acc.nodes,
                    counts: acc.counts,
                },
                k + 1,
            ),
            Segment::Shortcode(idx) => {
                let slot = free_slot(slots_taken(decode_utf8(bytes)), acc.nodes.len());
                let node = if slot < PLACEHOLDER_COUNT {
                    shortcode_node(bytes, idx, depth, acc.counts)
                } else {
                    None
                };
                match node {
                    Some((node, counts)) => mask(
                        bytes,
                        segments,
                        depth,
                        Masked {
                            text: acc.text.push(placeholder(slot)),
                            nodes: padded(acc.nodes, slot).push(Some(node)),
                            counts,
                        },
                        k + 1,
                    ),
                    None => mask(
                        bytes,
                        segments,
                        depth,
                        Masked {
                            text: acc.text + raw_chars(bytes, idx),
                            nodes: acc.nodes,
                            counts: acc.counts,
                        },
                        k + 1,
                    ),
                }
            },
        }
    }
}

/// No slot of `nodes` that holds a shortcode is taken.
pub open spec fn keeps_clear(nodes: Seq<SlotView>, taken: Seq<bool>) -> bool {
    forall|j: int| 0 <= j < nodes.len() && j < taken.len() && (#[trigger] nodes[j]) is Some ==> !taken[j]
}

/// The index that `free_slot` gives lies at or behind `j`, and is not taken
/// where it is an index.
pub proof fn lemma_free_slot(taken: Seq<bool>, j: nat)
    ensures
        free_slot(taken, j) < taken.len() ==> j <= free_slot(taken, j) && !taken[free_slot(
            taken,
            j,
        ) as int],
    decreases taken.len() - j,
{
    if j < taken.len() && taken[j as int] {
        lemma_free_slot(taken, j + 1);
    }
}

/// Masking gives no shortcode a slot that is taken.
proof fn lemma_mask_keeps_clear(
    bytes: Seq<u8>,
    segments: Seq<Segment>,
    depth: nat,
    acc: Masked,
    k: nat,
)
    requires
        keeps_clear(acc.nodes, slots_taken(decode_utf8(bytes))),
    ensures
        keeps_clear(mask(bytes, segments, depth, acc, k).nodes, slots_taken(decode_utf8(bytes))),
    decreases segments.len() - k,
{
    let taken = slots_taken(decode_utf8(bytes));
    if k < segments.len() {
        match segments[k as int] {
            Segment::Text(from, to) => {
                lemma_mask_keeps_clear(
                    bytes,
                    segments,
                    depth,
                    Masked {
                        text: acc.text + slice_chars(bytes, from as int, to as int),
                        nodes: acc.nodes,
                        counts: acc.counts,
                    },
                    k + 1,
                );
            },
            Segment::Shortcode(idx) => {
                let slot = free_slot(taken, acc.nodes.len());
                let node = if slot < PLACEHOLDER_COUNT {
                    shortcode_node(bytes, idx, depth, acc.counts)
                } else {
                    None
                };
                match node {
                    Some((node, counts)) => {
                        lemma_free_slot(taken, acc.nodes.len());
                        let nodes = padded(acc.nodes, slot).push(Some(node));
                        assert(keeps_clear(nodes, taken)) by {
                            assert forall|j: int|
                                0 <= j < nodes.len() && j < taken.len() && (
                                #[trigger] nodes[j]) is Some implies !taken[j] by {
                                if j < acc.nodes.len() {
                                    assert(nodes[j] == acc.nodes[j]);
                                }
                            }
                        }
                        lemma_mask_keeps_clear(
                            bytes,
                            segments,
                            depth,
                            Masked { text: acc.text.push(placeholder(slot)), nodes, counts },
                            k + 1,
                        );
                    },
                    None => {
                        lemma_mask_keeps_clear(
                            bytes,
                            segments,
                            depth,
                            Masked {
                                text: acc.text + raw_chars(bytes, idx),
                                nodes: acc.nodes,
                                counts: acc.counts,
                            },
                            k + 1,
                        );
                    },
                }
            },
        }
    }
}

/// Text stays text: a character that a text holds itself is never taken for
/// the placeholder of one of its shortcodes.
pub proof fn lemma_text_stays_text(bytes: Seq<u8>, depth: nat, counts: Counts, c: char)
    requires
        occurs_in(decode_utf8(bytes), c as u32 as int),
    ensures
        placeholder_index(
            c,
            mask(
                bytes,
                segments_of(bytes),
                depth,
                Masked { text: Seq::empty(), nodes: Seq::empty(), counts },
                0,
            ).nodes,
        ) is None,
{
    let start = Masked { text: Seq::empty(), nodes: Seq::empty(), counts };
    lemma_mask_keeps_clear(bytes, segments_of(bytes), depth, start, 0);
    let nodes = mask(bytes, segments_of(bytes), depth, start, 0).nodes;
    let j = (c as u32) - PLACEHOLDER_FIRST;
    if 0 <= j < nodes.len() && j < PLACEHOLDER_COUNT && nodes[j] is Some {
        assert(slots_taken(decode_utf8(bytes))[j]);
    }
}

/// The blocks of the markdown text with the bytes `bytes`, and the counts
/// behind the numbering of its shortcodes. Shortcodes are built down to
/// `depth` levels.
pub open spec fn markdown_blocks(bytes: Seq<u8>, depth: nat, counts: Counts) -> (
    Seq<BlockView>,
    Counts,
)
    decreases depth, 4nat, 0nat,
{
    let masked = mask(
        bytes,
        segments_of(bytes),
        depth,
        Masked { text: Seq::empty(), nodes: Seq::empty(), counts },
        0,
    );
    (document_blocks(markdown_events(masked.text), masked.nodes, 0), masked.counts)
}

/// The arguments `args`, each value built as markdown one level deeper.
fn build_arguments(args: &Vec<RawArgument>, depth: usize, numbering: &mut Numbering) -> (r: Vec<
    Argument<Vec<Block>>,
>)
    requires
        depth > 0,
    ensures
        (arguments_view(r@), final(numbering)@) == built_arguments(
            crate::builder::call::raw_arguments_view(args@),
            depth as nat,
            old(numbering)@,
            0,
        ),
    decreases depth, 1nat, args.len(),
{
    let ghost views = crate::builder::call::raw_arguments_view(args@);
    let ghost start = numbering@;
    let mut out: Vec<Argument<Vec<Block>>> = Vec::new();
    let mut i: usize = 0;
    proof {
        assert(arguments_view(out@) =~= Seq::empty());
        let whole = built_arguments(views, depth as nat, start, 0);
        assert(Seq::<ArgumentView<Seq<BlockView>>>::empty() + whole.0 =~= whole.0);
    }
    while i < args.len()
        invariant
            i <= args.len(),
            depth > 0,
            views == crate::builder::call::raw_arguments_view(args@),
            built_arguments(views, depth as nat, start, 0) == (
                arguments_view(out@) + built_arguments(
                    views,
                    depth as nat,
                    numbering@,
                    i as nat,
                ).0,
                built_arguments(views, depth as nat, numbering@, i as nat).1,
            ),
        decreases args.len() - i,
    {
        let ghost before = arguments_view(out@);
        let ghost counts = numbering@;
        let value = string_from(&args[i].value, 0, args[i].value.len());
        proof {
            assert(value@ =~= views[i as int].value);
        }
        let blocks = markdown_blocks_at(value.as_str(), depth - 1, numbering);
        let argument = match &args[i].key {
            Some(k) => Argument::Keyword(k.clone(), blocks),
            None => Argument::Positional(blocks),
        };
        let ghost first = crate::ast::argument_view(argument);
        out.push(argument);
        proof {
            assert(arguments_view(out@) =~= before + seq![first]);
            let rest = built_arguments(views, depth as nat, numbering@, (i + 1) as nat);
            assert(before + (seq![first] + rest.0) =~= (before + seq![first]) + rest.0);
        }
        i += 1;
    }
    proof {
        assert(arguments_view(out@) + Seq::<ArgumentView<Seq<BlockView>>>::empty()
            =~= arguments_view(out@));
    }
    out
}

/// The node of the shortcode at `idx` of `text`; `None` where the text of its
/// call is no call.
fn build_shortcode(text: &str, idx: ShortcodeIdx, depth: usize, numbering: &mut Numbering) -> (r:
    Option<Shortcode>)
    ensures
        match shortcode_node(text.spec_bytes(), idx, depth as nat, old(numbering)@) {
            Some((node, counts)) => r matches Some(s) && s@ == node && final(numbering)@ == counts,
            None => r is None && final(numbering)@ == old(numbering)@,
        },
    decreases depth, 2nat, 0nat,
{
    if depth == 0 {
        return None;
    }
    let written = match idx {
        ShortcodeIdx::Inline(start, end) => slice(text, start, 2, end, 0),
        ShortcodeIdx::Block { def, .. } => slice(text, def.0, 2, def.1, 0),
    };
    let chars = chars_of(written.as_str());
    let call = match parse(&chars) {
        None => {
            return None;
        },
        Some(call) => call,
    };
    let num = numbering.next(call.name.as_str());
    proof {
        old(numbering).lemma_view();
    }
    let parameters = build_arguments(&call.args, depth, numbering);
    let base = ShortcodeBase { name: call.name, id: call.id, num, parameters };
    match idx {
        ShortcodeIdx::Inline(_, _) => Some(Shortcode::Inline(base)),
        ShortcodeIdx::Block { def, end } => {
            let inner = slice(text, def.1, 2, end.0, 0);
            let body = markdown_blocks_at(inner.as_str(), depth - 1, numbering);
            Some(Shortcode::Block(base, body))
        },
    }
}

/// For each placeholder, whether `text` holds that character itself.
fn taken_slots(text: &str) -> (r: Vec<bool>)
    ensures
        r@ == slots_taken(text@),
{
    let chars = chars_of(text);
    let mut taken: Vec<bool> = Vec::new();
    let mut j: usize = 0;
    while j < PLACEHOLDER_COUNT
        invariant
            j <= PLACEHOLDER_COUNT,
            taken.len() == j,
            forall|i: int| 0 <= i < j ==> !(#[trigger] taken@[i]),
        decreases PLACEHOLDER_COUNT - j,
    {
        taken.push(false);
        j += 1;
    }
    let mut k: usize = 0;
    assert(chars@.subrange(0, 0).len() == 0);
    while k < chars.len()
        invariant
            k <= chars.len(),
            taken.len() == PLACEHOLDER_COUNT,
            forall|i: int|
                0 <= i < PLACEHOLDER_COUNT ==> (#[trigger] taken@[i]) == occurs_in(
                    chars@.subrange(0, k as int),
                    PLACEHOLDER_FIRST + i,
                ),
        decreases chars.len() - k,
    {
        let code = chars[k] as u32;
        proof {
            assert(chars@.subrange(0, k + 1).drop_last() =~= chars@.subrange(0, k as int));
            assert(chars@.subrange(0, k + 1).last() == chars@[k as int]);
        }
        if 0xE000 <= code && code - 0xE000 < 6400 {
            taken.set((code - 0xE000) as usize, true);
        }
        k += 1;
    }
    assert(chars@.subrange(0, k as int) =~= chars@);
    assert(taken@ =~= slots_taken(text@));
    taken
}

/// The first index from `from` on that is not taken.
fn free_index(taken: &Vec<bool>, from: usize) -> (r: usize)
    ensures
        r == free_slot(taken@, from as nat),
        r <= taken.len(),
        from <= r || r == taken.len(),
{
    let mut j: usize = from;
    while j < taken.len() && taken[j]
        invariant
            from <= j,
            free_slot(taken@, j as nat) == free_slot(taken@, from as nat),
        decreases taken.len() - j,
    {
        j += 1;
    }
    if j >= taken.len() {
        taken.len()
    } else {
        j
    }
}

/// Puts empty slots behind `nodes` up to the length `n`.
fn pad(nodes: &mut Vec<Slot>, n: usize)
    ensures
        shortcodes_view(final(nodes)@) == padded(shortcodes_view(old(nodes)@), n as nat),
{
    let ghost start = shortcodes_view(nodes@);
    assert(padded(start, nodes.len() as nat) =~= start);
    while nodes.len() < n
        invariant
            old(nodes).len() <= nodes.len(),
            nodes.len() <= n || nodes.len() == old(nodes).len(),
            start == shortcodes_view(old(nodes)@),
            shortcodes_view(nodes@) == padded(start, nodes.len() as nat),
        decreases n - nodes.len(),
    {
        let ghost before = shortcodes_view(nodes@);
        nodes.push(None);
        assert(shortcodes_view(nodes@) =~= before.push(None));
        assert(before.push(None) =~= padded(start, nodes.len() as nat));
    }
}

/// The blocks of the markdown text `text`, its shortcodes built down to
/// `depth` levels and numbered by `numbering`.
pub fn markdown_blocks_at(text: &str, depth: usize, numbering: &mut Numbering) -> (r: Vec<Block>)
    ensures
        (blocks_view(r@), final(numbering)@) == markdown_blocks(
            text.spec_bytes(),
            depth as nat,
            old(numbering)@,
        ),
    decreases depth, 4nat, 0nat,
{
    let ghost bytes = text.spec_bytes();
    let ghost start = Masked { text: Seq::empty(), nodes: Seq::empty(), counts: numbering@ };
    let segments = split_shortcodes(text);
    let taken = taken_slots(text);
    let mut masked = String::new();
    let mut nodes: Vec<Slot> = Vec::new();
    let mut k: usize = 0;
    proof {
        assert(shortcodes_view(nodes@) =~= Seq::<SlotView>::empty());
        encode_utf8_decode_utf8(text@);
    }
    while k < segments.len()
        invariant
            k <= segments.len(),
            bytes == text.spec_bytes(),
            segments@ == segments_of(bytes),
            taken@ == slots_taken(decode_utf8(bytes)),
            nodes.len() <= PLACEHOLDER_COUNT,
            mask(bytes, segments@, depth as nat, start, 0) == mask(
                bytes,
                segments@,
                depth as nat,
                Masked { text: masked@, nodes: shortcodes_view(nodes@), counts: numbering@ },
                k as nat,
            ),
        decreases segments.len() - k,
    {
        match segments[k] {
            Segment::Text(from, to) => {
                let part = slice(text, from, 0, to, 0);
                masked.append(part.as_str());
            },
            Segment::Shortcode(idx) => {
                let slot = free_index(&taken, nodes.len());
                let node = if slot < PLACEHOLDER_COUNT {
                    build_shortcode(text, idx, depth, numbering)
                } else {
                    None
                };
                match node {
                    Some(node) => {
                        let code: u32 = 0xE000 + slot as u32;
                        match char_of(code) {
                            Some(c) => {
                                proof {
                                    char_u32_cast(c, code);
                                }
                                push_char(&mut masked, c);
                                pad(&mut nodes, slot);
                                let ghost before = shortcodes_view(nodes@);
                                nodes.push(Some(node));
                                proof {
                                    assert(shortcodes_view(nodes@) =~= before.push(Some(node@)));
                                }
                            },
                            None => {
                                assert(false);
                            },
                        }
                    },
                    None => {
                        let raw = match idx {
                            ShortcodeIdx::Inline(start, end) => slice(text, start, 0, end, 2),
                            ShortcodeIdx::Block { def, end } => slice(text, def.0, 0, end.1, 2),
                        };
                        masked.append(raw.as_str());
                    },
                }
            },
        }
        k += 1;
    }
    let events = markdown_to_events(masked.as_str());
    collect(&events, &nodes)
}

/// The blocks of the markdown text with the bytes `bytes`, and the counts
/// behind the numbering of its shortcodes. Shortcodes are built as deep as
/// the text is long in bytes, which is as deep as they can stand: a greater
/// depth gives the same blocks.
pub open spec fn text_blocks(bytes: Seq<u8>, counts: Counts) -> (Seq<BlockView>, Counts) {
    markdown_blocks(bytes, bytes.len(), counts)
}

/// The blocks of the markdown text `text`, its shortcodes numbered by
/// `numbering`.
///
/// A shortcode is built however deep it stands. Of the shortcodes that
/// stand side by side in one text, one inside another not counted, at most
/// `PLACEHOLDER_COUNT` are built: those behind them stay text as they were
/// written, and so do those whose call is no call.
pub fn build_blocks(text: &str, numbering: &mut Numbering) -> (r: Vec<Block>)
    ensures
        (blocks_view(r@), final(numbering)@) == text_blocks(text.spec_bytes(), old(numbering)@),
{
    let depth = text.as_bytes().len();
    markdown_blocks_at(text, depth, numbering)
}

/// The blocks of the markdown text `input`. Shortcodes are numbered from one
/// for each name, in the order in which they are written.
///
/// A shortcode is built however deep it stands. Of the shortcodes that
/// stand side by side in one text, one inside another not counted, at most
/// `PLACEHOLDER_COUNT` are built: those behind them stay text as they were
/// written, and so do those whose call is no call.
pub fn str_to_blocks(input: &str) -> (r: Vec<Block>)
    ensures
        blocks_view(r@) == text_blocks(input.spec_bytes(), unnumbered()).0,
{
    let mut numbering = Numbering::new();
    build_blocks(input, &mut numbering)
}

} // verus!
