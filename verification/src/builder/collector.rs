//! Folds a stream of markdown events into blocks and inlines.
//!
//! Shortcodes do not pass through the markdown tokenizer as they were written:
//! each is replaced by one placeholder character beforehand, and the collector
//! puts the shortcode back where it finds the placeholder in a text.

use crate::ast::{
    blocks_view, clone_shortcode, inlines_view, shortcode_view, Ast, Block, BlockView,
    CodeAttributes,
    Inline, InlineView, Shortcode, ShortcodeView,
};
use crate::events::{events_view, AEvent, AEventView, ATag, ATagView};
use crate::builder::text::{chars_of, string_from};
use crate::notebook::{clone_option, clone_strings, outputs_view, CellOutput, CellOutputView};
use vstd::prelude::*;
use vstd::string::*;

verus! {

/// The first placeholder character. Placeholders are private-use characters.
pub const PLACEHOLDER_FIRST: u32 = 0xE000;

/// The number of placeholder characters.
pub const PLACEHOLDER_COUNT: usize = 6400;

/// A shortcode that a placeholder stands for. The placeholder with the index
/// `k` stands for the shortcode at the index `k`; where there is none at that
/// index, the character is no placeholder but a character of the text.
pub type Slot = Option<Shortcode>;

/// What a slot holds.
pub type SlotView = Option<ShortcodeView>;

/// The index of the slot that the character `c` stands for, where it is the
/// placeholder of a shortcode in `nodes`.
pub open spec fn placeholder_index(c: char, nodes: Seq<SlotView>) -> Option<int> {
    let code = c as u32;
    if PLACEHOLDER_FIRST <= code && code - PLACEHOLDER_FIRST < nodes.len() && code
        - PLACEHOLDER_FIRST < PLACEHOLDER_COUNT && nodes[code - PLACEHOLDER_FIRST] is Some {
        Some(code - PLACEHOLDER_FIRST)
    } else {
        None
    }
}

/// What the slots of `v` hold.
pub open spec fn shortcodes_view(v: Seq<Slot>) -> Seq<SlotView> {
    Seq::new(
        v.len(),
        |k: int|
            match v[k] {
                Some(s) => Some(shortcode_view(s)),
                None => None,
            },
    )
}

/// The text of `s` from `from` up to `to` as an inline, if there is any.
pub open spec fn text_run(s: Seq<char>, from: int, to: int) -> Seq<InlineView> {
    if from < to {
        seq![InlineView::Text(s.subrange(from, to))]
    } else {
        Seq::empty()
    }
}

/// The inlines of the text `s` from `i` on, the text since `start` not yet
/// written: text, and for each placeholder the shortcode that it stands for.
pub open spec fn text_inlines(s: Seq<char>, nodes: Seq<SlotView>, i: int, start: int) -> Seq<
    InlineView,
>
    decreases s.len() - i,
{
    if !(0 <= start <= i <= s.len()) {
        Seq::empty()
    } else if i == s.len() {
        text_run(s, start, i)
    } else {
        match placeholder_index(s[i], nodes) {
            Some(k) => text_run(s, start, i) + seq![InlineView::Shortcode(nodes[k]->0)]
                + text_inlines(s, nodes, i + 1, i + 1),
            None => text_inlines(s, nodes, i + 1, start),
        }
    }
}

/// The position behind the end event at `pos`, if there is one.
pub open spec fn skip_end(events: Seq<AEventView>, pos: int) -> int {
    if 0 <= pos < events.len() && events[pos] is End {
        pos + 1
    } else {
        pos
    }
}

/// The text events from `pos` on, as one text, and the position behind them.
pub open spec fn code_text(events: Seq<AEventView>, pos: int) -> (Seq<char>, int)
    decreases events.len() - pos,
{
    if 0 <= pos < events.len() {
        match events[pos] {
            AEventView::Text(c) => {
                let rest = code_text(events, pos + 1);
                (c + rest.0, rest.1)
            },
            _ => (Seq::empty(), pos),
        }
    } else {
        (Seq::empty(), pos)
    }
}

/// The inlines `items`, and behind them the inlines of `rest`.
pub open spec fn inlines_before(items: Seq<InlineView>, rest: (Seq<InlineView>, int)) -> (
    Seq<InlineView>,
    int,
) {
    (items + rest.0, rest.1)
}

/// The blocks `items`, and behind them the blocks of `rest`.
pub open spec fn blocks_before(items: Seq<BlockView>, rest: (Seq<BlockView>, int)) -> (
    Seq<BlockView>,
    int,
) {
    (items + rest.0, rest.1)
}

/// What an element with inline children becomes, and the position behind it.
pub open spec fn closed(
    events: Seq<AEventView>,
    inline: spec_fn(Seq<InlineView>) -> InlineView,
    children: (Seq<InlineView>, int),
) -> Option<(Seq<InlineView>, int)> {
    Some((seq![inline(children.0)], skip_end(events, children.1)))
}

/// The inlines that the event at `pos` begins, and the position behind them.
/// `None` where the event at `pos` ends an element or begins a block, and
/// behind the last event. Inside a quote, where `quoted` holds, a paragraph
/// is no block: it gives way to its inlines.
pub open spec fn inline_item(
    events: Seq<AEventView>,
    nodes: Seq<SlotView>,
    pos: int,
    quoted: bool,
) -> Option<(Seq<InlineView>, int)>
    decreases events.len() - pos, 1nat,
{
    if !(0 <= pos < events.len()) {
        None
    } else {
        match events[pos] {
            AEventView::End(_) => None,
            AEventView::Text(c) => Some((text_inlines(c, nodes, 0, 0), pos + 1)),
            AEventView::Code(c) => Some((seq![InlineView::Code(c)], pos + 1)),
            AEventView::Html(c) => Some((seq![InlineView::Html(c)], pos + 1)),
            AEventView::FootnoteReference(c) => Some((seq![InlineView::Text(c)], pos + 1)),
            AEventView::SoftBreak => Some((seq![InlineView::SoftBreak], pos + 1)),
            AEventView::HardBreak => Some((seq![InlineView::HardBreak], pos + 1)),
            AEventView::Rule => Some((seq![InlineView::Rule], pos + 1)),
            AEventView::TaskListMarker(_) => Some((Seq::empty(), pos + 1)),
            AEventView::Start(tag) => {
                let children = inline_run(events, nodes, pos + 1, false);
                match tag {
                    ATagView::Emphasis => closed(
                        events,
                        |inner: Seq<InlineView>| InlineView::Emphasis(inner),
                        children,
                    ),
                    ATagView::Strong => closed(
                        events,
                        |inner: Seq<InlineView>| InlineView::Strong(inner),
                        children,
                    ),
                    ATagView::Strikethrough => closed(
                        events,
                        |inner: Seq<InlineView>| InlineView::Strikethrough(inner),
                        children,
                    ),
                    ATagView::Link(tp, url, title) => closed(
                        events,
                        |inner: Seq<InlineView>|
                            InlineView::Link(tp, url, title, inner),
                        children,
                    ),
                    ATagView::Image(tp, url, title) => closed(
                        events,
                        |inner: Seq<InlineView>|
                            InlineView::Image(tp, url, title, inner),
                        children,
                    ),
                    ATagView::Paragraph => if quoted {
                        Some((children.0, skip_end(events, children.1)))
                    } else {
                        None
                    },
                    _ => None,
                }
            },
        }
    }
}

/// The inlines from `pos` on, up to the event that ends the element around
/// them or begins a block, and the position of that event.
pub open spec fn inline_run(
    events: Seq<AEventView>,
    nodes: Seq<SlotView>,
    pos: int,
    quoted: bool,
) -> (Seq<InlineView>, int)
    decreases events.len() - pos, 2nat,
{
    match inline_item(events, nodes, pos, quoted) {
        None => (Seq::empty(), pos),
        Some((items, next)) => if pos < next <= events.len() {
            inlines_before(items, inline_run(events, nodes, next, quoted))
        } else {
            (items, next)
        },
    }
}

/// A code block from markdown: its source, and nothing else.
pub open spec fn markdown_code(source: Seq<char>) -> BlockView {
    BlockView::CodeBlock {
        source,
        reference: None,
        attr: CodeAttributes { editable: false, fold: false },
        tags: None,
        outputs: Seq::empty(),
    }
}

/// The inlines of a run as one plain block, if there are any.
pub open spec fn plain_block(run: (Seq<InlineView>, int)) -> Option<(Seq<BlockView>, int)> {
    if run.0.len() > 0 {
        Some((seq![BlockView::Plain(run.0)], run.1))
    } else {
        Some((Seq::empty(), run.1))
    }
}

/// The blocks that the event at `pos` begins, and the position behind them.
/// Inlines that stand among blocks become a plain block; the elements that
/// the tree has no node for give way to their children. `None` where the
/// event at `pos` ends an element, and behind the last event.
pub open spec fn block_item(events: Seq<AEventView>, nodes: Seq<SlotView>, pos: int) -> Option<
    (Seq<BlockView>, int),
>
    decreases events.len() - pos, 3nat,
{
    if !(0 <= pos < events.len()) {
        None
    } else {
        match events[pos] {
            AEventView::End(_) => None,
            AEventView::Start(tag) => match tag {
                ATagView::Paragraph => {
                    let children = inline_run(events, nodes, pos + 1, false);
                    Some((seq![BlockView::Paragraph(children.0)], skip_end(events, children.1)))
                },
                ATagView::Heading(lvl, id, classes) => {
                    let children = inline_run(events, nodes, pos + 1, false);
                    Some(
                        (
                            seq![
                                BlockView::Heading {
                                    lvl,
                                    id,
                                    classes,
                                    inner: children.0,
                                },
                            ],
                            skip_end(events, children.1),
                        ),
                    )
                },
                ATagView::BlockQuote => {
                    let children = inline_run(events, nodes, pos + 1, true);
                    Some((seq![BlockView::BlockQuote(children.0)], skip_end(events, children.1)))
                },
                ATagView::CodeBlock(_) => {
                    let source = code_text(events, pos + 1);
                    Some((seq![markdown_code(source.0)], skip_end(events, source.1)))
                },
                ATagView::List(start) => {
                    let children = block_run(events, nodes, pos + 1);
                    Some((seq![BlockView::List(start, children.0)], skip_end(events, children.1)))
                },
                ATagView::Item => {
                    let children = block_run(events, nodes, pos + 1);
                    Some((seq![BlockView::ListItem(children.0)], skip_end(events, children.1)))
                },
                ATagView::Emphasis => plain_block(inline_run(events, nodes, pos, false)),
                ATagView::Strong => plain_block(inline_run(events, nodes, pos, false)),
                ATagView::Strikethrough => plain_block(inline_run(events, nodes, pos, false)),
                ATagView::Link(_, _, _) => plain_block(inline_run(events, nodes, pos, false)),
                ATagView::Image(_, _, _) => plain_block(inline_run(events, nodes, pos, false)),
                _ => {
                    let children = block_run(events, nodes, pos + 1);
                    Some((children.0, skip_end(events, children.1)))
                },
            },
            _ => plain_block(inline_run(events, nodes, pos, false)),
        }
    }
}

/// The blocks from `pos` on, up to the event that ends the element around
/// them, and the position of that event.
pub open spec fn block_run(events: Seq<AEventView>, nodes: Seq<SlotView>, pos: int) -> (
    Seq<BlockView>,
    int,
)
    decreases events.len() - pos, 4nat,
{
    match block_item(events, nodes, pos) {
        None => (Seq::empty(), pos),
        Some((items, next)) => if pos < next <= events.len() {
            blocks_before(items, block_run(events, nodes, next))
        } else {
            (items, next)
        },
    }
}

/// The blocks of a whole stream of events from `pos` on. An end event without
/// a start is passed over.
pub open spec fn document_blocks(events: Seq<AEventView>, nodes: Seq<SlotView>, pos: int) -> Seq<
    BlockView,
>
    decreases events.len() - pos, 5nat,
{
    let run = block_run(events, nodes, pos);
    if 0 <= pos <= run.1 < events.len() {
        run.0 + document_blocks(events, nodes, run.1 + 1)
    } else {
        run.0
    }
}

/// What the inlines of a collected run hold.
pub open spec fn inline_run_view(r: (Vec<Inline>, usize)) -> (Seq<InlineView>, int) {
    (inlines_view(r.0@), r.1 as int)
}

/// What the blocks of a collected run hold.
pub open spec fn block_run_view(r: (Vec<Block>, usize)) -> (Seq<BlockView>, int) {
    (blocks_view(r.0@), r.1 as int)
}

/// What collected inlines hold.
pub open spec fn inline_item_view(r: Option<(Vec<Inline>, usize)>) -> Option<
    (Seq<InlineView>, int),
> {
    match r {
        Some(run) => Some(inline_run_view(run)),
        None => None,
    }
}

/// What collected blocks hold.
pub open spec fn block_item_view(r: Option<(Vec<Block>, usize)>) -> Option<(Seq<BlockView>, int)> {
    match r {
        Some(run) => Some(block_run_view(run)),
        None => None,
    }
}

/// Puts the text of `s` from `from` up to `to` behind `out`, if there is any.
fn push_text_run(out: &mut Vec<Inline>, s: &Vec<char>, from: usize, to: usize)
    requires
        from <= to <= s.len(),
    ensures
        inlines_view(final(out)@) == inlines_view(old(out)@) + text_run(
            s@,
            from as int,
            to as int,
        ),
{
    if from < to {
        out.push(Inline::Text(string_from(s, from, to)));
    }
    assert(inlines_view(out@) =~= inlines_view(old(out)@) + text_run(s@, from as int, to as int));
}

/// The inlines of the text `s`: its text, and for each placeholder the
/// shortcode of `nodes` that it stands for.
pub fn split_text(s: &Vec<char>, nodes: &Vec<Slot>) -> (r: Vec<Inline>)
    ensures
        inlines_view(r@) == text_inlines(s@, shortcodes_view(nodes@), 0, 0),
{
    let ghost views = shortcodes_view(nodes@);
    let mut out: Vec<Inline> = Vec::new();
    let mut start: usize = 0;
    let mut i: usize = 0;
    assert(inlines_view(out@) =~= Seq::<InlineView>::empty());
    assert(Seq::<InlineView>::empty() + text_inlines(s@, views, 0, 0) =~= text_inlines(
        s@,
        views,
        0,
        0,
    ));
    while i < s.len()
        invariant
            start <= i <= s.len(),
            views == shortcodes_view(nodes@),
            text_inlines(s@, views, 0, 0) == inlines_view(out@) + text_inlines(
                s@,
                views,
                i as int,
                start as int,
            ),
        decreases s.len() - i,
    {
        let code = s[i] as u32;
        let node = if 0xE000 <= code && ((code - 0xE000) as usize) < nodes.len() && code - 0xE000
            < 6400 {
            assert(views[(code - 0xE000) as int] == shortcodes_view(nodes@)[(code - 0xE000) as int]);
            match &nodes[(code - 0xE000) as usize] {
                Some(node) => Some(clone_shortcode(node)),
                None => None,
            }
        } else {
            None
        };
        match node {
            Some(node) => {
                let ghost k = (code - 0xE000) as int;
                let ghost before = inlines_view(out@);
                push_text_run(&mut out, s, start, i);
                let ghost middle = inlines_view(out@);
                out.push(Inline::Shortcode(node));
                proof {
                    assert(placeholder_index(s@[i as int], views) == Some(k));
                    assert(inlines_view(out@) =~= middle + seq![
                        InlineView::Shortcode(views[k]->0),
                    ]);
                    assert(before + (text_run(s@, start as int, i as int) + seq![
                        InlineView::Shortcode(views[k]->0),
                    ] + text_inlines(s@, views, i + 1, i + 1)) =~= inlines_view(out@)
                        + text_inlines(s@, views, i + 1, i + 1));
                }
                start = i + 1;
            },
            None => {
                assert(placeholder_index(s@[i as int], views) is None);
            },
        }
        i += 1;
    }
    push_text_run(&mut out, s, start, i);
    out
}

/// The position behind the end event at `pos`, if there is one.
fn pass_end(events: &Vec<AEvent>, pos: usize) -> (r: usize)
    ensures
        r == skip_end(events_view(events@), pos as int),
        pos <= r <= pos + 1,
        pos <= events.len() ==> r <= events.len(),
{
    if pos < events.len() {
        match &events[pos] {
            AEvent::End(_) => pos + 1,
            _ => pos,
        }
    } else {
        pos
    }
}

/// The one inline `inline` as a list.
fn one_inline(inline: Inline) -> (r: Vec<Inline>)
    ensures
        inlines_view(r@) == seq![inline@],
{
    let mut r: Vec<Inline> = Vec::new();
    r.push(inline);
    assert(inlines_view(r@) =~= seq![inline@]);
    r
}

/// The one block `block` as a list.
fn one_block(block: Block) -> (r: Vec<Block>)
    ensures
        blocks_view(r@) == seq![block@],
{
    let mut r: Vec<Block> = Vec::new();
    r.push(block);
    assert(blocks_view(r@) =~= seq![block@]);
    r
}

/// No inline.
fn no_inlines() -> (r: Vec<Inline>)
    ensures
        inlines_view(r@) == Seq::<InlineView>::empty(),
{
    let r: Vec<Inline> = Vec::new();
    assert(inlines_view(r@) =~= Seq::<InlineView>::empty());
    r
}

/// No block.
fn no_blocks() -> (r: Vec<Block>)
    ensures
        blocks_view(r@) == Seq::<BlockView>::empty(),
{
    let r: Vec<Block> = Vec::new();
    assert(blocks_view(r@) =~= Seq::<BlockView>::empty());
    r
}

/// Puts the inlines `more` behind `out`.
fn append_inlines(out: &mut Vec<Inline>, more: Vec<Inline>)
    ensures
        inlines_view(final(out)@) == inlines_view(old(out)@) + inlines_view(more@),
{
    let mut more = more;
    let ghost added = more@;
    out.append(&mut more);
    assert(inlines_view(out@) =~= inlines_view(old(out)@) + inlines_view(added));
}

/// Puts the blocks `more` behind `out`.
fn append_blocks(out: &mut Vec<Block>, more: Vec<Block>)
    ensures
        blocks_view(final(out)@) == blocks_view(old(out)@) + blocks_view(more@),
{
    let mut more = more;
    let ghost added = more@;
    out.append(&mut more);
    assert(blocks_view(out@) =~= blocks_view(old(out)@) + blocks_view(added));
}

/// The text events from `pos` on, as one text, and the position behind them.
fn collect_code(events: &Vec<AEvent>, pos: usize) -> (r: (String, usize))
    ensures
        (r.0@, r.1 as int) == code_text(events_view(events@), pos as int),
        pos <= r.1,
        pos <= events.len() ==> r.1 <= events.len(),
{
    let mut out = String::new();
    let mut cur = pos;
    assert(Seq::<char>::empty() + code_text(events_view(events@), pos as int).0 =~= code_text(
        events_view(events@),
        pos as int,
    ).0);
    while cur < events.len()
        invariant
            pos <= cur,
            pos <= events.len() ==> cur <= events.len(),
            code_text(events_view(events@), pos as int) == (
                out@ + code_text(events_view(events@), cur as int).0,
                code_text(events_view(events@), cur as int).1,
            ),
        decreases events.len() - cur,
    {
        match &events[cur] {
            AEvent::Text(c) => {
                let ghost before = out@;
                out.append(c.as_str());
                proof {
                    let rest = code_text(events_view(events@), cur + 1);
                    assert(before + (c@ + rest.0) =~= out@ + rest.0);
                }
            },
            _ => {
                assert(out@ + Seq::<char>::empty() =~= out@);
                return (out, cur);
            },
        }
        cur += 1;
    }
    assert(out@ + Seq::<char>::empty() =~= out@);
    (out, cur)
}

/// The inlines that the event at `pos` begins, and the position behind them.
pub fn collect_inline(
    events: &Vec<AEvent>,
    nodes: &Vec<Slot>,
    pos: usize,
    quoted: bool,
) -> (r: Option<(Vec<Inline>, usize)>)
    ensures
        inline_item_view(r) == inline_item(
            events_view(events@),
            shortcodes_view(nodes@),
            pos as int,
            quoted,
        ),
        r matches Some(run) ==> run.1 <= events.len(),
    decreases events.len() - pos, 1nat,
{
    if pos >= events.len() {
        return None;
    }
    match &events[pos] {
        AEvent::End(_) => None,
        AEvent::Text(c) => {
            let chars = chars_of(c.as_str());
            Some((split_text(&chars, nodes), pos + 1))
        },
        AEvent::Code(c) => Some((one_inline(Inline::Code(c.clone())), pos + 1)),
        AEvent::Html(c) => Some((one_inline(Inline::Html(c.clone())), pos + 1)),
        AEvent::FootnoteReference(c) => Some((one_inline(Inline::Text(c.clone())), pos + 1)),
        AEvent::SoftBreak => Some((one_inline(Inline::SoftBreak), pos + 1)),
        AEvent::HardBreak => Some((one_inline(Inline::HardBreak), pos + 1)),
        AEvent::Rule => Some((one_inline(Inline::Rule), pos + 1)),
        AEvent::TaskListMarker(_) => Some((no_inlines(), pos + 1)),
        AEvent::Start(tag) => match tag {
            ATag::Emphasis => {
                let (inner, end) = collect_inlines(events, nodes, pos + 1, false);
                Some((one_inline(Inline::Emphasis(inner)), pass_end(events, end)))
            },
            ATag::Strong => {
                let (inner, end) = collect_inlines(events, nodes, pos + 1, false);
                Some((one_inline(Inline::Strong(inner)), pass_end(events, end)))
            },
            ATag::Strikethrough => {
                let (inner, end) = collect_inlines(events, nodes, pos + 1, false);
                Some((one_inline(Inline::Strikethrough(inner)), pass_end(events, end)))
            },
            ATag::Link(tp, url, title) => {
                let (inner, end) = collect_inlines(events, nodes, pos + 1, false);
                Some(
                    (
                        one_inline(Inline::Link(*tp, url.clone(), title.clone(), inner)),
                        pass_end(events, end),
                    ),
                )
            },
            ATag::Image(tp, url, title) => {
                let (inner, end) = collect_inlines(events, nodes, pos + 1, false);
                Some(
                    (
                        one_inline(Inline::Image(*tp, url.clone(), title.clone(), inner)),
                        pass_end(events, end),
                    ),
                )
            },
            ATag::Paragraph => {
                if quoted {
                    let (inner, end) = collect_inlines(events, nodes, pos + 1, false);
                    Some((inner, pass_end(events, end)))
                } else {
                    None
                }
            },
            _ => None,
        },
    }
}

/// The inlines from `pos` on, up to the event that ends the element around
/// them or begins a block, and the position of that event.
pub fn collect_inlines(
    events: &Vec<AEvent>,
    nodes: &Vec<Slot>,
    pos: usize,
    quoted: bool,
) -> (r: (Vec<Inline>, usize))
    ensures
        inline_run_view(r) == inline_run(
            events_view(events@),
            shortcodes_view(nodes@),
            pos as int,
            quoted,
        ),
        pos <= events.len() ==> r.1 <= events.len(),
    decreases events.len() - pos, 2nat,
{
    let ghost views = shortcodes_view(nodes@);
    let mut out = no_inlines();
    if pos >= events.len() {
        assert(inline_item(events_view(events@), views, pos as int, quoted) is None);
        return (out, pos);
    }
    let mut cur = pos;
    proof {
        let whole = inline_run(events_view(events@), views, pos as int, quoted);
        assert(Seq::<InlineView>::empty() + whole.0 =~= whole.0);
    }
    loop
        invariant
            pos <= cur <= events.len(),
            views == shortcodes_view(nodes@),
            inline_run(events_view(events@), views, pos as int, quoted) == inlines_before(
                inlines_view(out@),
                inline_run(events_view(events@), views, cur as int, quoted),
            ),
        decreases events.len() - cur,
    {
        match collect_inline(events, nodes, cur, quoted) {
            None => {
                assert(inlines_view(out@) + Seq::<InlineView>::empty() =~= inlines_view(out@));
                return (out, cur);
            },
            Some((items, next)) => {
                let ghost before = inlines_view(out@);
                let ghost added = inlines_view(items@);
                append_inlines(&mut out, items);
                if cur < next && next <= events.len() {
                    proof {
                        let rest = inline_run(events_view(events@), views, next as int, quoted);
                        assert(before + (added + rest.0) =~= (before + added) + rest.0);
                    }
                    cur = next;
                } else {
                    return (out, next);
                }
            },
        }
    }
}

/// The inlines of a run as one plain block, if there are any.
fn plain(run: (Vec<Inline>, usize)) -> (r: Option<(Vec<Block>, usize)>)
    ensures
        block_item_view(r) == plain_block(inline_run_view(run)),
        r matches Some(b) && b.1 == run.1,
{
    let (inlines, end) = run;
    if inlines.len() > 0 {
        Some((one_block(Block::Plain(inlines)), end))
    } else {
        Some((no_blocks(), end))
    }
}

/// The blocks that the event at `pos` begins, and the position behind them.
pub fn collect_block(events: &Vec<AEvent>, nodes: &Vec<Slot>, pos: usize) -> (r: Option<
    (Vec<Block>, usize),
>)
    ensures
        block_item_view(r) == block_item(events_view(events@), shortcodes_view(nodes@), pos as int),
        r matches Some(run) ==> run.1 <= events.len(),
    decreases events.len() - pos, 3nat,
{
    if pos >= events.len() {
        return None;
    }
    match &events[pos] {
        AEvent::End(_) => None,
        AEvent::Start(tag) => match tag {
            ATag::Paragraph => {
                let (inner, end) = collect_inlines(events, nodes, pos + 1, false);
                Some((one_block(Block::Paragraph(inner)), pass_end(events, end)))
            },
            ATag::Heading(lvl, id, classes) => {
                let (inner, end) = collect_inlines(events, nodes, pos + 1, false);
                Some(
                    (
                        one_block(
                            Block::Heading {
                                lvl: *lvl,
                                id: clone_option(id),
                                classes: clone_strings(classes),
                                inner,
                            },
                        ),
                        pass_end(events, end),
                    ),
                )
            },
            ATag::BlockQuote => {
                let (inner, end) = collect_inlines(events, nodes, pos + 1, true);
                Some((one_block(Block::BlockQuote(inner)), pass_end(events, end)))
            },
            ATag::CodeBlock(_) => {
                let (source, end) = collect_code(events, pos + 1);
                let outputs: Vec<CellOutput> = Vec::new();
                proof {
                    assert(outputs_view(outputs@) =~= Seq::<CellOutputView>::empty());
                }
                Some(
                    (
                        one_block(
                            Block::CodeBlock {
                                source,
                                reference: None,
                                attr: CodeAttributes { editable: false, fold: false },
                                tags: None,
                                outputs,
                            },
                        ),
                        pass_end(events, end),
                    ),
                )
            },
            ATag::List(start) => {
                let (children, end) = collect_blocks(events, nodes, pos + 1);
                Some((one_block(Block::List(*start, children)), pass_end(events, end)))
            },
            ATag::Item => {
                let (children, end) = collect_blocks(events, nodes, pos + 1);
                Some((one_block(Block::ListItem(children)), pass_end(events, end)))
            },
            ATag::Emphasis => plain(collect_inlines(events, nodes, pos, false)),
            ATag::Strong => plain(collect_inlines(events, nodes, pos, false)),
            ATag::Strikethrough => plain(collect_inlines(events, nodes, pos, false)),
            ATag::Link(_, _, _) => plain(collect_inlines(events, nodes, pos, false)),
            ATag::Image(_, _, _) => plain(collect_inlines(events, nodes, pos, false)),
            _ => {
                let (children, end) = collect_blocks(events, nodes, pos + 1);
                Some((children, pass_end(events, end)))
            },
        },
        _ => plain(collect_inlines(events, nodes, pos, false)),
    }
}

/// The blocks from `pos` on, up to the event that ends the element around
/// them, and the position of that event.
pub fn collect_blocks(events: &Vec<AEvent>, nodes: &Vec<Slot>, pos: usize) -> (r: (
    Vec<Block>,
    usize,
))
    ensures
        block_run_view(r) == block_run(events_view(events@), shortcodes_view(nodes@), pos as int),
        pos <= events.len() ==> r.1 <= events.len(),
    decreases events.len() - pos, 4nat,
{
    let ghost views = shortcodes_view(nodes@);
    let mut out = no_blocks();
    if pos >= events.len() {
        assert(block_item(events_view(events@), views, pos as int) is None);
        return (out, pos);
    }
    let mut cur = pos;
    proof {
        let whole = block_run(events_view(events@), views, pos as int);
        assert(Seq::<BlockView>::empty() + whole.0 =~= whole.0);
    }
    loop
        invariant
            pos <= cur <= events.len(),
            views == shortcodes_view(nodes@),
            block_run(events_view(events@), views, pos as int) == blocks_before(
                blocks_view(out@),
                block_run(events_view(events@), views, cur as int),
            ),
        decreases events.len() - cur,
    {
        match collect_block(events, nodes, cur) {
            None => {
                assert(blocks_view(out@) + Seq::<BlockView>::empty() =~= blocks_view(out@));
                return (out, cur);
            },
            Some((items, next)) => {
                let ghost before = blocks_view(out@);
                let ghost added = blocks_view(items@);
                append_blocks(&mut out, items);
                if cur < next && next <= events.len() {
                    proof {
                        let rest = block_run(events_view(events@), views, next as int);
                        assert(before + (added + rest.0) =~= (before + added) + rest.0);
                    }
                    cur = next;
                } else {
                    return (out, next);
                }
            },
        }
    }
}

/// The blocks of the whole stream `events`, the shortcodes of `nodes` put
/// where their placeholders stand.
pub fn collect(events: &Vec<AEvent>, nodes: &Vec<Slot>) -> (r: Vec<Block>)
    ensures
        blocks_view(r@) == document_blocks(events_view(events@), shortcodes_view(nodes@), 0),
{
    let ghost views = shortcodes_view(nodes@);
    let mut out = no_blocks();
    let mut cur: usize = 0;
    proof {
        let whole = document_blocks(events_view(events@), views, 0);
        assert(Seq::<BlockView>::empty() + whole =~= whole);
    }
    loop
        invariant
            cur <= events.len(),
            views == shortcodes_view(nodes@),
            document_blocks(events_view(events@), views, 0) == blocks_view(out@) + document_blocks(
                events_view(events@),
                views,
                cur as int,
            ),
        decreases events.len() - cur,
    {
        let (items, end) = collect_blocks(events, nodes, cur);
        let ghost before = blocks_view(out@);
        let ghost added = blocks_view(items@);
        append_blocks(&mut out, items);
        if cur <= end && end < events.len() {
            proof {
                let rest = document_blocks(events_view(events@), views, end + 1);
                assert(before + (added + rest) =~= (before + added) + rest);
            }
            cur = end + 1;
        } else {
            return out;
        }
    }
}

impl Ast {
    /// The tree that the events `events` describe. There are no shortcodes
    /// to put back, so every text stays text.
    pub fn from_events(events: &Vec<AEvent>) -> (r: Ast)
        ensures
            r@ == document_blocks(events_view(events@), Seq::empty(), 0),
    {
        let nodes: Vec<Slot> = Vec::new();
        assert(shortcodes_view(nodes@) =~= Seq::<SlotView>::empty());
        Ast(collect(events, &nodes))
    }
}

} // verus!
