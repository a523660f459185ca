//! The identified shortcode calls of a document: what other calls can refer to.

use crate::ast::{
    arguments_view, blocks_text, blocks_to_string, blocks_view, inlines_view, Argument,
    ArgumentView, Block, BlockView, Inline, InlineView, Shortcode, ShortcodeBaseView, ShortcodeView,
};
use crate::plan::{
    parameters_view, references_view, CallParameter, CallParameterView, Reference, ReferenceView,
};
use vstd::prelude::*;
use vstd::string::*;

verus! {

/// An argument as other parts of a document see it: its key, where it has
/// one, and the text of its value.
pub open spec fn parameter_of(a: ArgumentView<Seq<BlockView>>) -> CallParameterView {
    match a {
        ArgumentView::Positional(b) => CallParameterView { key: None, value: blocks_text(b) },
        ArgumentView::Keyword(k, b) => CallParameterView { key: Some(k), value: blocks_text(b) },
    }
}

/// The arguments `v` as other parts of a document see them.
pub open spec fn parameters_of(v: Seq<ArgumentView<Seq<BlockView>>>) -> Seq<CallParameterView> {
    Seq::new(v.len(), |k: int| parameter_of(v[k]))
}

/// The reference to a call, if the call has an id: its ordinal and its
/// definition.
pub open spec fn own_reference(base: ShortcodeBaseView) -> Seq<ReferenceView> {
    match base.id {
        Some(id) => seq![
            ReferenceView {
                id,
                num: base.num,
                name: base.name,
                parameters: parameters_of(base.parameters),
            },
        ],
        None => Seq::empty(),
    }
}

/// The references of the values of the arguments `v`, in their order.
pub open spec fn arguments_references(v: Seq<ArgumentView<Seq<BlockView>>>) -> Seq<ReferenceView>
    decreases v,
{
    if v.len() == 0 {
        Seq::empty()
    } else {
        arguments_references(v.drop_last()) + match v.last() {
            ArgumentView::Positional(b) => blocks_references(b),
            ArgumentView::Keyword(_, b) => blocks_references(b),
        }
    }
}

/// The references of a shortcode: its own, those of its arguments, and
/// those of its body.
pub open spec fn shortcode_references(s: ShortcodeView) -> Seq<ReferenceView>
    decreases s,
{
    match s {
        ShortcodeView::Inline(base) => own_reference(base) + arguments_references(
            base.parameters,
        ),
        ShortcodeView::Block(base, body) => own_reference(base) + arguments_references(
            base.parameters,
        ) + blocks_references(body),
    }
}

/// The references of an inline.
pub open spec fn inline_references(i: InlineView) -> Seq<ReferenceView>
    decreases i,
{
    match i {
        InlineView::Emphasis(v) => inlines_references(v),
        InlineView::Strong(v) => inlines_references(v),
        InlineView::Strikethrough(v) => inlines_references(v),
        InlineView::Image(_, _, _, v) => inlines_references(v),
        InlineView::Link(_, _, _, v) => inlines_references(v),
        InlineView::Shortcode(s) => shortcode_references(s),
        _ => Seq::empty(),
    }
}

/// The references of the inlines `v`, in their order.
pub open spec fn inlines_references(v: Seq<InlineView>) -> Seq<ReferenceView>
    decreases v,
{
    if v.len() == 0 {
        Seq::empty()
    } else {
        inlines_references(v.drop_last()) + inline_references(v.last())
    }
}

/// The references of a block.
pub open spec fn block_references(b: BlockView) -> Seq<ReferenceView>
    decreases b,
{
    match b {
        BlockView::Heading { inner, .. } => inlines_references(inner),
        BlockView::Plain(v) => inlines_references(v),
        BlockView::Paragraph(v) => inlines_references(v),
        BlockView::BlockQuote(v) => inlines_references(v),
        BlockView::CodeBlock { .. } => Seq::empty(),
        BlockView::List(_, v) => blocks_references(v),
        BlockView::ListItem(v) => blocks_references(v),
    }
}

/// The references of the blocks `v`, in document order.
pub open spec fn blocks_references(v: Seq<BlockView>) -> Seq<ReferenceView>
    decreases v,
{
    if v.len() == 0 {
        Seq::empty()
    } else {
        blocks_references(v.drop_last()) + block_references(v.last())
    }
}

/// Puts the references `more` behind `out`.
fn append_references(out: &mut Vec<Reference>, more: Vec<Reference>)
    ensures
        references_view(final(out)@) == references_view(old(out)@) + references_view(more@),
{
    let mut more = more;
    let ghost added = more@;
    out.append(&mut more);
    assert(references_view(out@) =~= references_view(old(out)@) + references_view(added));
}

/// No reference.
fn no_references() -> (r: Vec<Reference>)
    ensures
        references_view(r@) == Seq::<ReferenceView>::empty(),
{
    let r: Vec<Reference> = Vec::new();
    assert(references_view(r@) =~= Seq::<ReferenceView>::empty());
    r
}

/// The arguments `args` as other parts of a document see them.
pub fn parameters_of_call(args: &Vec<Argument<Vec<Block>>>) -> (r: Vec<CallParameter>)
    ensures
        parameters_view(r@) == parameters_of(arguments_view(args@)),
{
    let ghost views = arguments_view(args@);
    let mut out: Vec<CallParameter> = Vec::new();
    let mut k: usize = 0;
    while k < args.len()
        invariant
            k <= args.len(),
            out.len() == k,
            views == arguments_view(args@),
            forall|j: int| 0 <= j < k ==> (#[trigger] out@[j])@ == parameter_of(views[j]),
        decreases args.len() - k,
    {
        proof {
            assert(views[k as int] == crate::ast::argument_view(args[k as int]));
        }
        let parameter = match &args[k] {
            Argument::Positional(b) => CallParameter { key: None, value: blocks_to_string(b) },
            Argument::Keyword(key, b) => CallParameter {
                key: Some(key.clone()),
                value: blocks_to_string(b),
            },
        };
        out.push(parameter);
        k += 1;
    }
    assert(parameters_view(out@) =~= parameters_of(views));
    out
}

/// The references of the values of the arguments `args`.
pub fn references_of_arguments(args: &Vec<Argument<Vec<Block>>>) -> (r: Vec<Reference>)
    ensures
        references_view(r@) == arguments_references(arguments_view(args@)),
    decreases args,
{
    let ghost views = arguments_view(args@);
    let mut out = no_references();
    let mut k: usize = 0;
    assert(views.subrange(0, 0) =~= Seq::<ArgumentView<Seq<BlockView>>>::empty());
    while k < args.len()
        invariant
            k <= args.len(),
            views == arguments_view(args@),
            references_view(out@) == arguments_references(views.subrange(0, k as int)),
        decreases args.len() - k,
    {
        let more = match &args[k] {
            Argument::Positional(b) => references(b),
            Argument::Keyword(_, b) => references(b),
        };
        append_references(&mut out, more);
        proof {
            assert(views.subrange(0, k + 1).drop_last() =~= views.subrange(0, k as int));
            assert(views.subrange(0, k + 1).last() == crate::ast::argument_view(args[k as int]));
        }
        k += 1;
    }
    assert(views.subrange(0, k as int) =~= views);
    out
}

/// The references of the shortcode `s`.
pub fn references_of_shortcode(s: &Shortcode) -> (r: Vec<Reference>)
    ensures
        references_view(r@) == shortcode_references(s@),
    decreases s,
{
    let base = match s {
        Shortcode::Inline(base) => base,
        Shortcode::Block(base, _) => base,
    };
    let mut out = no_references();
    match &base.id {
        Some(id) => {
            out.push(
                Reference {
                    id: id.clone(),
                    num: base.num,
                    name: base.name.clone(),
                    parameters: parameters_of_call(&base.parameters),
                },
            );
        },
        None => {},
    }
    assert(references_view(out@) =~= own_reference(base@));
    append_references(&mut out, references_of_arguments(&base.parameters));
    match s {
        Shortcode::Inline(_) => {},
        Shortcode::Block(_, body) => {
            append_references(&mut out, references(body));
        },
    }
    out
}

/// The references of the inline `i`.
pub fn references_of_inline(i: &Inline) -> (r: Vec<Reference>)
    ensures
        references_view(r@) == inline_references(i@),
    decreases i,
{
    match i {
        Inline::Emphasis(inner) => references_of_inlines(inner),
        Inline::Strong(inner) => references_of_inlines(inner),
        Inline::Strikethrough(inner) => references_of_inlines(inner),
        Inline::Image(_, _, _, inner) => references_of_inlines(inner),
        Inline::Link(_, _, _, inner) => references_of_inlines(inner),
        Inline::Shortcode(s) => references_of_shortcode(s),
        _ => no_references(),
    }
}

/// The references of the inlines `v`.
pub fn references_of_inlines(v: &Vec<Inline>) -> (r: Vec<Reference>)
    ensures
        references_view(r@) == inlines_references(inlines_view(v@)),
    decreases v,
{
    let ghost views = inlines_view(v@);
    let mut out = no_references();
    let mut k: usize = 0;
    assert(views.subrange(0, 0) =~= Seq::<InlineView>::empty());
    while k < v.len()
        invariant
            k <= v.len(),
            views == inlines_view(v@),
            references_view(out@) == inlines_references(views.subrange(0, k as int)),
        decreases v.len() - k,
    {
        append_references(&mut out, references_of_inline(&v[k]));
        proof {
            assert(views.subrange(0, k + 1).drop_last() =~= views.subrange(0, k as int));
        }
        k += 1;
    }
    assert(views.subrange(0, k as int) =~= views);
    out
}

/// The references of the block `b`.
pub fn references_of_block(b: &Block) -> (r: Vec<Reference>)
    ensures
        references_view(r@) == block_references(b@),
    decreases b,
{
    match b {
        Block::Heading { inner, .. } => references_of_inlines(inner),
        Block::Plain(inner) => references_of_inlines(inner),
        Block::Paragraph(inner) => references_of_inlines(inner),
        Block::BlockQuote(inner) => references_of_inlines(inner),
        Block::CodeBlock { .. } => no_references(),
        Block::List(_, items) => references(items),
        Block::ListItem(items) => references(items),
    }
}

/// The identified shortcode calls of the blocks `v`, in document order:
/// for each call that has an id, its id, its ordinal and its name.
pub fn references(v: &Vec<Block>) -> (r: Vec<Reference>)
    ensures
        references_view(r@) == blocks_references(blocks_view(v@)),
    decreases v,
{
    let ghost views = blocks_view(v@);
    let mut out = no_references();
    let mut k: usize = 0;
    assert(views.subrange(0, 0) =~= Seq::<BlockView>::empty());
    while k < v.len()
        invariant
            k <= v.len(),
            views == blocks_view(v@),
            references_view(out@) == blocks_references(views.subrange(0, k as int)),
        decreases v.len() - k,
    {
        append_references(&mut out, references_of_block(&v[k]));
        proof {
            assert(views.subrange(0, k + 1).drop_last() =~= views.subrange(0, k as int));
        }
        k += 1;
    }
    assert(views.subrange(0, k as int) =~= views);
    out
}

} // verus!
