//! The highest ordinal that the calls of a name have in a tree. A call that
//! is put into a tree later is numbered behind it.

use crate::ast::{
    arguments_view, blocks_view, inlines_view, Argument, ArgumentView, Block, BlockView, Inline,
    InlineView, Shortcode, ShortcodeView,
};
use crate::templates::str_equal;
use vstd::prelude::*;
use vstd::string::*;

verus! {

/// The larger of two numbers.
pub open spec fn larger(a: nat, b: nat) -> nat {
    if a >= b {
        a
    } else {
        b
    }
}

/// The larger of two numbers.
pub fn max_of(a: usize, b: usize) -> (r: usize)
    ensures
        r == larger(a as nat, b as nat),
{
    if a >= b {
        a
    } else {
        b
    }
}

/// The ordinal of a call where it is a call of `name`, zero where it is not.
pub open spec fn own_ordinal(s: ShortcodeView, name: Seq<char>) -> nat {
    let base = match s {
        ShortcodeView::Inline(base) => base,
        ShortcodeView::Block(base, _) => base,
    };
    if base.name == name {
        base.num
    } else {
        0
    }
}

/// The highest ordinal of a call of `name` in the values of the arguments
/// `v`; zero where there is no such call.
pub open spec fn arguments_highest(v: Seq<ArgumentView<Seq<BlockView>>>, name: Seq<char>) -> nat
    decreases v,
{
    if v.len() == 0 {
        0
    } else {
        larger(
            arguments_highest(v.drop_last(), name),
            match v.last() {
                ArgumentView::Positional(b) => blocks_highest(b, name),
                ArgumentView::Keyword(_, b) => blocks_highest(b, name),
            },
        )
    }
}

/// The highest ordinal of a call of `name` in a shortcode: its own, or one
/// in its arguments or in its body.
pub open spec fn shortcode_highest(s: ShortcodeView, name: Seq<char>) -> nat
    decreases s,
{
    match s {
        ShortcodeView::Inline(base) => larger(
            own_ordinal(s, name),
            arguments_highest(base.parameters, name),
        ),
        ShortcodeView::Block(base, body) => larger(
            larger(own_ordinal(s, name), arguments_highest(base.parameters, name)),
            blocks_highest(body, name),
        ),
    }
}

/// The highest ordinal of a call of `name` in an inline.
pub open spec fn inline_highest(i: InlineView, name: Seq<char>) -> nat
    decreases i,
{
    match i {
        InlineView::Emphasis(v) => inlines_highest(v, name),
        InlineView::Strong(v) => inlines_highest(v, name),
        InlineView::Strikethrough(v) => inlines_highest(v, name),
        InlineView::Image(_, _, _, v) => inlines_highest(v, name),
        InlineView::Link(_, _, _, v) => inlines_highest(v, name),
        InlineView::Shortcode(s) => shortcode_highest(s, name),
        _ => 0,
    }
}

/// The highest ordinal of a call of `name` in the inlines `v`.
pub open spec fn inlines_highest(v: Seq<InlineView>, name: Seq<char>) -> nat
    decreases v,
{
    if v.len() == 0 {
        0
    } else {
        larger(inlines_highest(v.drop_last(), name), inline_highest(v.last(), name))
    }
}

/// The highest ordinal of a call of `name` in a block.
pub open spec fn block_highest(b: BlockView, name: Seq<char>) -> nat
    decreases b,
{
    match b {
        BlockView::Heading { inner, .. } => inlines_highest(inner, name),
        BlockView::Plain(v) => inlines_highest(v, name),
        BlockView::Paragraph(v) => inlines_highest(v, name),
        BlockView::BlockQuote(v) => inlines_highest(v, name),
        BlockView::CodeBlock { .. } => 0,
        BlockView::List(_, v) => blocks_highest(v, name),
        BlockView::ListItem(v) => blocks_highest(v, name),
    }
}

/// The highest ordinal of a call of `name` in the blocks `v`, at any depth;
/// zero where there is no such call.
pub open spec fn blocks_highest(v: Seq<BlockView>, name: Seq<char>) -> nat
    decreases v,
{
    if v.len() == 0 {
        0
    } else {
        larger(blocks_highest(v.drop_last(), name), block_highest(v.last(), name))
    }
}

/// The highest ordinal of a call of `name` in the values of the arguments
/// `args`.
pub fn highest_of_arguments(args: &Vec<Argument<Vec<Block>>>, name: &str) -> (r: usize)
    ensures
        r == arguments_highest(arguments_view(args@), name@),
    decreases args,
{
    let ghost views = arguments_view(args@);
    let mut out: usize = 0;
    let mut k: usize = 0;
    assert(views.subrange(0, 0) =~= Seq::<ArgumentView<Seq<BlockView>>>::empty());
    while k < args.len()
        invariant
            k <= args.len(),
            views == arguments_view(args@),
            out == arguments_highest(views.subrange(0, k as int), name@),
        decreases args.len() - k,
    {
        let more = match &args[k] {
            Argument::Positional(b) => highest(b, name),
            Argument::Keyword(_, b) => highest(b, name),
        };
        out = max_of(out, more);
        proof {
            assert(views.subrange(0, k + 1).drop_last() =~= views.subrange(0, k as int));
            assert(views.subrange(0, k + 1).last() == crate::ast::argument_view(args[k as int]));
        }
        k += 1;
    }
    assert(views.subrange(0, k as int) =~= views);
    out
}

/// The highest ordinal of a call of `name` in the shortcode `s`.
pub fn highest_of_shortcode(s: &Shortcode, name: &str) -> (r: usize)
    ensures
        r == shortcode_highest(s@, name@),
    decreases s,
{
    let base = match s {
        Shortcode::Inline(base) => base,
        Shortcode::Block(base, _) => base,
    };
    let own = if str_equal(base.name.as_str(), name) {
        base.num
    } else {
        0
    };
    assert(own == own_ordinal(s@, name@));
    let inner = max_of(own, highest_of_arguments(&base.parameters, name));
    match s {
        Shortcode::Inline(_) => inner,
        Shortcode::Block(_, body) => max_of(inner, highest(body, name)),
    }
}

/// The highest ordinal of a call of `name` in the inline `i`.
pub fn highest_of_inline(i: &Inline, name: &str) -> (r: usize)
    ensures
        r == inline_highest(i@, name@),
    decreases i,
{
    match i {
        Inline::Emphasis(inner) => highest_of_inlines(inner, name),
        Inline::Strong(inner) => highest_of_inlines(inner, name),
        Inline::Strikethrough(inner) => highest_of_inlines(inner, name),
        Inline::Image(_, _, _, inner) => highest_of_inlines(inner, name),
        Inline::Link(_, _, _, inner) => highest_of_inlines(inner, name),
        Inline::Shortcode(s) => highest_of_shortcode(s, name),
        _ => 0,
    }
}

/// The highest ordinal of a call of `name` in the inlines `v`.
pub fn highest_of_inlines(v: &Vec<Inline>, name: &str) -> (r: usize)
    ensures
        r == inlines_highest(inlines_view(v@), name@),
    decreases v,
{
    let ghost views = inlines_view(v@);
    let mut out: usize = 0;
    let mut k: usize = 0;
    assert(views.subrange(0, 0) =~= Seq::<InlineView>::empty());
    while k < v.len()
        invariant
            k <= v.len(),
            views == inlines_view(v@),
            out == inlines_highest(views.subrange(0, k as int), name@),
        decreases v.len() - k,
    {
        out = max_of(out, highest_of_inline(&v[k], name));
        proof {
            assert(views.subrange(0, k + 1).drop_last() =~= views.subrange(0, k as int));
        }
        k += 1;
    }
    assert(views.subrange(0, k as int) =~= views);
    out
}

/// The highest ordinal of a call of `name` in the block `b`.
pub fn highest_of_block(b: &Block, name: &str) -> (r: usize)
    ensures
        r == block_highest(b@, name@),
    decreases b,
{
    match b {
        Block::Heading { inner, .. } => highest_of_inlines(inner, name),
        Block::Plain(inner) => highest_of_inlines(inner, name),
        Block::Paragraph(inner) => highest_of_inlines(inner, name),
        Block::BlockQuote(inner) => highest_of_inlines(inner, name),
        Block::CodeBlock { .. } => 0,
        Block::List(_, items) => highest(items, name),
        Block::ListItem(items) => highest(items, name),
    }
}

/// The highest ordinal of a call of `name` in the blocks `v`, at any depth;
/// zero where there is no such call.
pub fn highest(v: &Vec<Block>, name: &str) -> (r: usize)
    ensures
        r == blocks_highest(blocks_view(v@), name@),
    decreases v,
{
    let ghost views = blocks_view(v@);
    let mut out: usize = 0;
    let mut k: usize = 0;
    assert(views.subrange(0, 0) =~= Seq::<BlockView>::empty());
    while k < v.len()
        invariant
            k <= v.len(),
            views == blocks_view(v@),
            out == blocks_highest(views.subrange(0, k as int), name@),
        decreases v.len() - k,
    {
        out = max_of(out, highest_of_block(&v[k], name));
        proof {
            assert(views.subrange(0, k + 1).drop_last() =~= views.subrange(0, k as int));
        }
        k += 1;
    }
    assert(views.subrange(0, k as int) =~= views);
    out
}

} // verus!
