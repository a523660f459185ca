//! From a tree to events and back. The events of a tree describe the same tree
//! again, as long as the tree holds nothing that events cannot say.

use crate::ast::{BlockView, CodeAttributes, InlineView};
use crate::builder::collector::{
    block_item, block_run, code_text, document_blocks, inline_item, inline_run, markdown_code,
    placeholder_index, text_inlines, text_run, SlotView,
};
use crate::builder::markdown::{mask, slice_chars, sliceable, text_blocks, Masked};
use crate::builder::numbering::Counts;
use crate::events::{
    block_events, blocks_events, enclosed, inline_events, inlines_events, markdown_events,
    python_block, AEventView, ATagView,
};
use crate::scanner::{block_open, inline_open, lemma_next_opener, next_opener, occurs_at};
use crate::segments::{segments_of, text_segment, Segment};
use vstd::utf8::*;
use vstd::prelude::*;

verus! {

/// Events can say the inline `i`: it holds no math and no shortcode, and none
/// of its texts is empty.
pub open spec fn faithful_inline(i: InlineView) -> bool
    decreases i,
{
    match i {
        InlineView::Text(s) => s.len() > 0,
        InlineView::Emphasis(v) => faithful_inlines(v),
        InlineView::Strong(v) => faithful_inlines(v),
        InlineView::Strikethrough(v) => faithful_inlines(v),
        InlineView::Image(_, _, _, v) => faithful_inlines(v),
        InlineView::Link(_, _, _, v) => faithful_inlines(v),
        InlineView::Math { .. } => false,
        InlineView::Shortcode(_) => false,
        _ => true,
    }
}

/// Events can say each of the inlines `v`.
pub open spec fn faithful_inlines(v: Seq<InlineView>) -> bool
    decreases v,
{
    v.len() == 0 || (faithful_inline(v[0]) && faithful_inlines(v.drop_first()))
}

/// Events can say the block `b`: its inlines and blocks are faithful, a plain
/// block is not empty, and a code block holds its source only.
pub open spec fn faithful_block(b: BlockView) -> bool
    decreases b,
{
    match b {
        BlockView::Heading { inner, .. } => faithful_inlines(inner),
        BlockView::Plain(v) => v.len() > 0 && faithful_inlines(v),
        BlockView::Paragraph(v) => faithful_inlines(v),
        BlockView::BlockQuote(v) => faithful_inlines(v),
        BlockView::CodeBlock { reference, attr, tags, outputs, .. } => {
            &&& reference is None
            &&& attr == (CodeAttributes { editable: false, fold: false })
            &&& tags is None
            &&& outputs.len() == 0
        },
        BlockView::List(_, v) => faithful_blocks(v),
        BlockView::ListItem(v) => faithful_blocks(v),
    }
}

/// Events can say the blocks `v`: each is faithful, and no plain block
/// follows a plain block, since events would not tell the two apart.
pub open spec fn faithful_blocks(v: Seq<BlockView>) -> bool
    decreases v,
{
    v.len() == 0 || {
        &&& faithful_block(v[0])
        &&& faithful_blocks(v.drop_first())
        &&& v[0] is Plain && v.len() > 1 ==> !(v[1] is Plain)
    }
}

/// The events `mid` stand in `events` at `pos`.
pub open spec fn occurs(events: Seq<AEventView>, pos: int, mid: Seq<AEventView>) -> bool {
    &&& 0 <= pos
    &&& pos + mid.len() <= events.len()
    &&& forall|k: int| 0 <= k < mid.len() ==> events[pos + k] == #[trigger] mid[k]
}

/// No shortcode stands for a placeholder.
pub open spec fn no_nodes() -> Seq<SlotView> {
    Seq::empty()
}

/// Where `a + b` stands, `a` stands, and `b` behind it.
proof fn lemma_split(events: Seq<AEventView>, pos: int, a: Seq<AEventView>, b: Seq<AEventView>)
    requires
        occurs(events, pos, a + b),
    ensures
        occurs(events, pos, a),
        occurs(events, pos + a.len(), b),
{
    assert forall|k: int| 0 <= k < a.len() implies events[pos + k] == #[trigger] a[k] by {
        assert((a + b)[k] == a[k]);
    }
    assert forall|k: int| 0 <= k < b.len() implies events[pos + a.len() + k] == #[trigger] b[k] by {
        assert((a + b)[a.len() as int + k] == b[k]);
    }
}

/// Where an element stands, its start stands first, what it holds behind
/// that, and its end last.
proof fn lemma_enclosed(events: Seq<AEventView>, pos: int, tag: ATagView, inner: Seq<AEventView>)
    requires
        occurs(events, pos, enclosed(tag, inner)),
    ensures
        pos + inner.len() + 2 <= events.len(),
        events[pos] == AEventView::Start(tag),
        occurs(events, pos + 1, inner),
        events[pos + 1 + inner.len()] == AEventView::End(tag),
        enclosed(tag, inner).len() == inner.len() + 2,
{
    let all = enclosed(tag, inner);
    assert(all[0] == AEventView::Start(tag));
    assert(all[inner.len() as int + 1] == AEventView::End(tag));
    assert forall|k: int| 0 <= k < inner.len() implies events[pos + 1 + k] == #[trigger] inner[k] by {
        assert(all[1 + k] == inner[k]);
    }
}

/// The events of inlines are those of the first, and behind them those of the rest.
proof fn lemma_inlines_events_front(v: Seq<InlineView>)
    requires
        v.len() > 0,
    ensures
        inlines_events(v) == inline_events(v[0]) + inlines_events(v.drop_first()),
    decreases v.len(),
{
    if v.len() == 1 {
        assert(inlines_events(v.drop_last()) =~= Seq::<AEventView>::empty());
        assert(inlines_events(v.drop_first()) =~= Seq::<AEventView>::empty());
        assert(inlines_events(v) =~= inline_events(v[0]) + inlines_events(v.drop_first()));
    } else {
        lemma_inlines_events_front(v.drop_last());
        assert(v.drop_first().drop_last() =~= v.drop_last().drop_first());
        assert(v.drop_last()[0] == v[0]);
        assert(v.drop_first().last() == v.last());
        assert(inlines_events(v) =~= inline_events(v[0]) + inlines_events(v.drop_first()));
    }
}

/// The events of blocks are those of the first, and behind them those of the rest.
proof fn lemma_blocks_events_front(v: Seq<BlockView>)
    requires
        v.len() > 0,
    ensures
        blocks_events(v) == block_events(v[0]) + blocks_events(v.drop_first()),
    decreases v.len(),
{
    if v.len() == 1 {
        assert(blocks_events(v.drop_last()) =~= Seq::<AEventView>::empty());
        assert(blocks_events(v.drop_first()) =~= Seq::<AEventView>::empty());
        assert(blocks_events(v) =~= block_events(v[0]) + blocks_events(v.drop_first()));
    } else {
        lemma_blocks_events_front(v.drop_last());
        assert(v.drop_first().drop_last() =~= v.drop_last().drop_first());
        assert(v.drop_last()[0] == v[0]);
        assert(v.drop_first().last() == v.last());
        assert(blocks_events(v) =~= block_events(v[0]) + blocks_events(v.drop_first()));
    }
}

/// Without shortcodes a text has no placeholders: it is one text.
proof fn lemma_text_only(s: Seq<char>, i: int, start: int)
    requires
        0 <= start <= i <= s.len(),
    ensures
        text_inlines(s, no_nodes(), i, start) == text_run(s, start, s.len() as int),
    decreases s.len() - i,
{
    if i < s.len() {
        assert(placeholder_index(s[i], no_nodes()) is None);
        lemma_text_only(s, i + 1, start);
    }
}

/// An event with which inlines begin: anything but the start of a block and
/// the end of an element.
pub open spec fn opens_inline(e: AEventView) -> bool {
    match e {
        AEventView::End(_) => false,
        AEventView::Start(tag) => tag is Emphasis || tag is Strong || tag is Strikethrough || tag
            is Link || tag is Image,
        AEventView::FootnoteReference(_) => false,
        AEventView::TaskListMarker(_) => false,
        _ => true,
    }
}

/// The events of a faithful inline begin with an event for inlines.
proof fn lemma_inline_opens(i: InlineView)
    requires
        faithful_inline(i),
    ensures
        inline_events(i).len() >= 1,
        opens_inline(inline_events(i)[0]),
{
}

/// The events of a faithful block that is not plain begin with the start of
/// a block.
proof fn lemma_block_opens(b: BlockView)
    requires
        faithful_block(b),
        !(b is Plain),
    ensures
        block_events(b).len() >= 1,
        block_events(b)[0] matches AEventView::Start(tag) && (tag is Paragraph || tag is Heading
            || tag is BlockQuote || tag is CodeBlock || tag is List || tag is Item),
{
}

/// Where the events of a faithful inline stand, the collector reads that inline.
proof fn lemma_inline_item(events: Seq<AEventView>, pos: int, i: InlineView, quoted: bool)
    requires
        occurs(events, pos, inline_events(i)),
        faithful_inline(i),
    ensures
        inline_events(i).len() >= 1,
        inline_item(events, no_nodes(), pos, quoted) == Some(
            (seq![i], pos + inline_events(i).len()),
        ),
    decreases i,
{
    let mid = inline_events(i);
    match i {
        InlineView::Text(s) => {
            assert(mid[0] == AEventView::Text(s));
            lemma_text_only(s, 0, 0);
            assert(s.subrange(0, s.len() as int) =~= s);
        },
        InlineView::Emphasis(v) => {
            lemma_enclosed(events, pos, ATagView::Emphasis, inlines_events(v));
            lemma_inline_run(events, pos + 1, v, false);
        },
        InlineView::Strong(v) => {
            lemma_enclosed(events, pos, ATagView::Strong, inlines_events(v));
            lemma_inline_run(events, pos + 1, v, false);
        },
        InlineView::Strikethrough(v) => {
            lemma_enclosed(events, pos, ATagView::Strikethrough, inlines_events(v));
            lemma_inline_run(events, pos + 1, v, false);
        },
        InlineView::Image(tp, url, alt, v) => {
            lemma_enclosed(events, pos, ATagView::Image(tp, url, alt), inlines_events(v));
            lemma_inline_run(events, pos + 1, v, false);
        },
        InlineView::Link(tp, url, alt, v) => {
            lemma_enclosed(events, pos, ATagView::Link(tp, url, alt), inlines_events(v));
            lemma_inline_run(events, pos + 1, v, false);
        },
        InlineView::Code(s) => {
            assert(mid[0] == AEventView::Code(s));
        },
        InlineView::Html(s) => {
            assert(mid[0] == AEventView::Html(s));
        },
        InlineView::SoftBreak => {
            assert(mid[0] == AEventView::SoftBreak);
        },
        InlineView::HardBreak => {
            assert(mid[0] == AEventView::HardBreak);
        },
        InlineView::Rule => {
            assert(mid[0] == AEventView::Rule);
        },
        InlineView::Math { .. } => {},
        InlineView::Shortcode(_) => {},
    }
}

/// Where the events of faithful inlines stand, and what follows them ends the
/// run, the collector reads those inlines.
proof fn lemma_inline_run(events: Seq<AEventView>, pos: int, v: Seq<InlineView>, quoted: bool)
    requires
        occurs(events, pos, inlines_events(v)),
        faithful_inlines(v),
        inline_item(events, no_nodes(), pos + inlines_events(v).len(), quoted) is None,
    ensures
        inline_run(events, no_nodes(), pos, quoted) == (v, pos + inlines_events(v).len()),
    decreases v,
{
    if v.len() == 0 {
        assert(inlines_events(v) =~= Seq::<AEventView>::empty());
        assert(v =~= Seq::<InlineView>::empty());
    } else {
        lemma_inlines_events_front(v);
        let first = inline_events(v[0]);
        let rest = inlines_events(v.drop_first());
        lemma_split(events, pos, first, rest);
        lemma_inline_item(events, pos, v[0], quoted);
        lemma_inline_run(events, pos + first.len(), v.drop_first(), quoted);
        assert(seq![v[0]] + v.drop_first() =~= v);
    }
}

/// Where the events of a faithful block stand, the collector reads that
/// block. Behind a plain block the run of its inlines must end.
proof fn lemma_block_item(events: Seq<AEventView>, pos: int, b: BlockView)
    requires
        occurs(events, pos, block_events(b)),
        faithful_block(b),
        b is Plain ==> inline_item(events, no_nodes(), pos + block_events(b).len(), false) is None,
    ensures
        block_events(b).len() >= 1,
        block_item(events, no_nodes(), pos) == Some((seq![b], pos + block_events(b).len())),
    decreases b,
{
    match b {
        BlockView::Heading { lvl, id, classes, inner } => {
            lemma_enclosed(events, pos, ATagView::Heading(lvl, id, classes), inlines_events(inner));
            lemma_inline_run(events, pos + 1, inner, false);
        },
        BlockView::Plain(v) => {
            lemma_inlines_events_front(v);
            lemma_inline_opens(v[0]);
            assert(inlines_events(v)[0] == inline_events(v[0])[0]);
            assert(opens_inline(events[pos]));
            lemma_inline_run(events, pos, v, false);
        },
        BlockView::Paragraph(v) => {
            lemma_enclosed(events, pos, ATagView::Paragraph, inlines_events(v));
            lemma_inline_run(events, pos + 1, v, false);
        },
        BlockView::BlockQuote(v) => {
            lemma_enclosed(events, pos, ATagView::BlockQuote, inlines_events(v));
            lemma_inline_run(events, pos + 1, v, true);
        },
        BlockView::CodeBlock { source, reference, attr, tags, outputs } => {
            let inner = seq![AEventView::Text(source)];
            lemma_enclosed(events, pos, python_block(), inner);
            assert(inner[0] == AEventView::Text(source));
            assert(events[pos + 1] == AEventView::Text(source));
            assert(code_text(events, pos + 2) == (Seq::<char>::empty(), pos + 2));
            assert(source + Seq::<char>::empty() =~= source);
            assert(code_text(events, pos + 1) == (source, pos + 2));
            assert(outputs =~= Seq::empty());
            assert(b == markdown_code(source));
        },
        BlockView::List(start, v) => {
            lemma_enclosed(events, pos, ATagView::List(start), blocks_events(v));
            lemma_block_run(events, pos + 1, v);
        },
        BlockView::ListItem(v) => {
            lemma_enclosed(events, pos, ATagView::Item, blocks_events(v));
            lemma_block_run(events, pos + 1, v);
        },
    }
}

/// Where the events of faithful blocks stand, and what follows them ends the
/// run, the collector reads those blocks.
proof fn lemma_block_run(events: Seq<AEventView>, pos: int, v: Seq<BlockView>)
    requires
        occurs(events, pos, blocks_events(v)),
        faithful_blocks(v),
        block_item(events, no_nodes(), pos + blocks_events(v).len()) is None,
    ensures
        block_run(events, no_nodes(), pos) == (v, pos + blocks_events(v).len()),
    decreases v,
{
    if v.len() == 0 {
        assert(blocks_events(v) =~= Seq::<AEventView>::empty());
        assert(v =~= Seq::<BlockView>::empty());
    } else {
        lemma_blocks_events_front(v);
        let first = block_events(v[0]);
        let rest = blocks_events(v.drop_first());
        lemma_split(events, pos, first, rest);
        if v[0] is Plain {
            if v.len() > 1 {
                let next = v.drop_first();
                assert(next[0] == v[1]);
                assert(faithful_blocks(next));
                assert(faithful_block(next[0]));
                lemma_blocks_events_front(next);
                lemma_block_opens(next[0]);
                lemma_split(events, pos + first.len(), block_events(next[0]), blocks_events(
                    next.drop_first(),
                ));
                assert(events[pos + first.len() + 0] == block_events(next[0])[0]);
            } else {
                assert(rest =~= Seq::<AEventView>::empty());
            }
        }
        lemma_block_item(events, pos, v[0]);
        lemma_block_run(events, pos + first.len(), v.drop_first());
        assert(seq![v[0]] + v.drop_first() =~= v);
    }
}

/// Round trip: the events of a tree describe that tree again. Headings keep
/// their levels, lists their order and their numbers, and emphasis its
/// nesting, for every tree that holds no math, no shortcode, no empty text,
/// no two plain blocks in a row, and no code block with more than its source.
pub proof fn lemma_events_round_trip(v: Seq<BlockView>)
    requires
        faithful_blocks(v),
    ensures
        document_blocks(blocks_events(v), no_nodes(), 0) == v,
{
    let events = blocks_events(v);
    assert(occurs(events, 0, events));
    lemma_block_run(events, 0, v);
}

/// Round trip through text, as far as the library decides it. Where a text
/// holds no `{{` and no `{%`, and the tokenizer reads it as the events of a
/// tree that events can say, the text is built into that tree, and no call
/// is numbered. What the tokenizer makes of the markdown that a renderer
/// writes is for the tokenizer to say.
pub proof fn lemma_text_round_trip(text: Seq<char>, v: Seq<BlockView>, counts: Counts)
    requires
        faithful_blocks(v),
        encode_utf8(text).len() <= usize::MAX,
        forall|j: int|
            !occurs_at(encode_utf8(text), inline_open(), j) && !occurs_at(
                encode_utf8(text),
                block_open(),
                j,
            ),
        markdown_events(text) == blocks_events(v),
    ensures
        text_blocks(encode_utf8(text), counts) == (v, counts),
{
    let bytes = encode_utf8(text);
    let len = bytes.len() as int;
    let start = Masked { text: Seq::empty(), nodes: Seq::empty(), counts };
    let segments = segments_of(bytes);
    encode_utf8_valid_utf8(text);
    encode_utf8_decode_utf8(text);
    lemma_next_opener(bytes, 0);
    assert(next_opener(bytes, 0) is None);
    assert(segments == text_segment(0, len));
    let masked = mask(bytes, segments, bytes.len(), start, 0);
    if len == 0 {
        assert(bytes =~= Seq::<u8>::empty());
        assert(masked == start);
        assert(text =~= Seq::<char>::empty());
    } else {
        is_char_boundary_start_end_of_seq(bytes);
        assert(bytes.subrange(0, len) =~= bytes);
        assert(sliceable(bytes, 0, len));
        let next = Masked {
            text: start.text + slice_chars(bytes, 0, len),
            nodes: start.nodes,
            counts,
        };
        assert(segments[0] == Segment::Text(0usize, len as usize));
        assert(mask(bytes, segments, bytes.len(), next, 1) == next);
        assert(masked == next);
        assert(next.text =~= text);
    }
    assert(masked.text == text);
    assert(masked.nodes =~= no_nodes());
    lemma_events_round_trip(v);
}

} // verus!
