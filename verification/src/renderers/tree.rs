//! The walk over the syntax tree that all renderers share. Children are
//! planned first, in document order; what a node becomes is for the renderer
//! of the format to say. Shortcode calls are bound to their templates here.

use crate::ast::{
    arguments_view, blocks_view, inlines_view, Argument, ArgumentView, Block, BlockView, Inline,
    InlineView, Shortcode, ShortcodeView,
};
use crate::plan::{
    append, append_text, bind, bindings_view, bound, literal, nothing, pieces_view, push_binding,
    Arg, ArgView, BindingView, Piece, PieceView,
};
use crate::renderers::generic::GenericRenderer;
use crate::renderers::latex::LatexRenderer;
use crate::renderers::markdown::{child_state, state_behind, ToMarkdownContext, MarkdownRenderer};
use crate::renderers::shortcode::{
    bind_shortcode, rendered_view, shortcode_call, PlanEnv, PlanEnvView, RenderError,
    RenderErrorView,
};
use crate::templates::TemplateType;
use vstd::prelude::*;
use vstd::string::*;

verus! {

/// The three ways in which a tree is rendered.
#[derive(Clone, Copy, Debug, PartialEq, Eq, Structural)]
pub enum Flavor {
    /// Every node goes through a template.
    Templated,
    /// LaTeX control sequences, and templates for what wraps.
    Latex,
    /// Markdown again.
    Markdown,
}

/// A plan with the list state behind it, or the reason why there is none.
pub type Planning = Result<(Seq<PieceView>, ToMarkdownContext), RenderErrorView>;

/// What a planning function returned.
pub open spec fn planning_view(r: Result<(Vec<Piece>, ToMarkdownContext), RenderError>) -> Planning {
    match r {
        Ok((p, st)) => Ok((pieces_view(p@), st)),
        Err(e) => Err(e@),
    }
}

/// The plan `p` followed by what `r` plans; an error stays.
pub open spec fn followed(p: Seq<PieceView>, r: Planning) -> Planning {
    match r {
        Ok((q, st)) => Ok((p + q, st)),
        Err(e) => Err(e),
    }
}

/// What the flavor `f` makes of an inline whose children are planned as `inner`.
pub open spec fn inline_node(f: Flavor, i: InlineView, inner: Seq<PieceView>) -> Seq<PieceView> {
    match f {
        Flavor::Templated => crate::renderers::generic::inline_node(i, inner),
        Flavor::Latex => crate::renderers::latex::inline_node(i, inner),
        Flavor::Markdown => crate::renderers::markdown::inline_node(i, inner),
    }
}

/// What the flavor `f` makes of a block that is reached in the state `st`, its
/// children planned as `inner`.
pub open spec fn block_node(
    f: Flavor,
    b: BlockView,
    st: ToMarkdownContext,
    inner: Seq<PieceView>,
    env: PlanEnvView,
) -> Seq<PieceView> {
    match f {
        Flavor::Templated => crate::renderers::generic::block_node(b, inner, env),
        Flavor::Latex => crate::renderers::latex::block_node(b, inner, env),
        Flavor::Markdown => crate::renderers::markdown::block_node(b, st, inner),
    }
}

/// The inline `i` once its children are planned: what the flavor makes of it.
pub open spec fn with_inline(f: Flavor, i: InlineView, children: Planning) -> Planning {
    match children {
        Ok((inner, st)) => Ok((inline_node(f, i, inner), st)),
        Err(e) => Err(e),
    }
}

/// The block `b` once its children are planned: what the flavor makes of it,
/// and the state behind it.
pub open spec fn with_block(
    f: Flavor,
    b: BlockView,
    env: PlanEnvView,
    st: ToMarkdownContext,
    children: Planning,
) -> Planning {
    match children {
        Ok((inner, after)) => Ok((block_node(f, b, st, inner, env), state_behind(b, st, after))),
        Err(e) => Err(e),
    }
}

/// The call of the shortcode template `name` with `args`.
pub open spec fn shortcode_piece(name: Seq<char>, args: Seq<BindingView>) -> Seq<PieceView> {
    seq![PieceView::Template { name, kind: TemplateType::Shortcode, args }]
}

/// What follows a block shortcode: an empty line in markdown, nothing elsewhere.
pub open spec fn block_shortcode_tail(f: Flavor) -> Seq<PieceView> {
    match f {
        Flavor::Markdown => literal("\n\n"@),
        _ => Seq::empty(),
    }
}

/// The plan of the inline `i` that is reached in the state `st`.
pub open spec fn inline_plan(f: Flavor, i: InlineView, env: PlanEnvView, st: ToMarkdownContext) -> Planning
    decreases i,
{
    match i {
        InlineView::Emphasis(v) => with_inline(f, i, inlines_plan(f, v, env, st)),
        InlineView::Strong(v) => with_inline(f, i, inlines_plan(f, v, env, st)),
        InlineView::Strikethrough(v) => with_inline(f, i, inlines_plan(f, v, env, st)),
        InlineView::Image(_, _, _, v) => with_inline(f, i, inlines_plan(f, v, env, st)),
        InlineView::Link(_, _, _, v) => with_inline(f, i, inlines_plan(f, v, env, st)),
        InlineView::Shortcode(s) => shortcode_plan(f, s, env, st),
        _ => Ok((inline_node(f, i, Seq::empty()), st)),
    }
}

/// The plan of the inlines `v`, in their order. The first error ends it.
pub open spec fn inlines_plan(f: Flavor, v: Seq<InlineView>, env: PlanEnvView, st: ToMarkdownContext)
    -> Planning
    decreases v,
{
    if v.len() == 0 {
        Ok((Seq::empty(), st))
    } else {
        match inline_plan(f, v[0], env, st) {
            Err(e) => Err(e),
            Ok((p, next)) => followed(p, inlines_plan(f, v.drop_first(), env, next)),
        }
    }
}

/// The plan of the block `b` that is reached in the state `st`.
pub open spec fn block_plan(f: Flavor, b: BlockView, env: PlanEnvView, st: ToMarkdownContext) -> Planning
    decreases b,
{
    match b {
        BlockView::Heading { inner, .. } => with_block(
            f,
            b,
            env,
            st,
            inlines_plan(f, inner, env, child_state(b, st)),
        ),
        BlockView::Plain(v) => with_block(
            f,
            b,
            env,
            st,
            inlines_plan(f, v, env, child_state(b, st)),
        ),
        BlockView::Paragraph(v) => with_block(
            f,
            b,
            env,
            st,
            inlines_plan(f, v, env, child_state(b, st)),
        ),
        BlockView::BlockQuote(v) => with_block(
            f,
            b,
            env,
            st,
            inlines_plan(f, v, env, child_state(b, st)),
        ),
        BlockView::CodeBlock { .. } => with_block(f, b, env, st, Ok((Seq::empty(), st))),
        BlockView::List(_, v) => with_block(
            f,
            b,
            env,
            st,
            blocks_plan(f, v, env, child_state(b, st)),
        ),
        BlockView::ListItem(v) => with_block(
            f,
            b,
            env,
            st,
            blocks_plan(f, v, env, child_state(b, st)),
        ),
    }
}

/// The plan of the blocks `v`, in their order. The first error ends it.
pub open spec fn blocks_plan(f: Flavor, v: Seq<BlockView>, env: PlanEnvView, st: ToMarkdownContext)
    -> Planning
    decreases v,
{
    if v.len() == 0 {
        Ok((Seq::empty(), st))
    } else {
        match block_plan(f, v[0], env, st) {
            Err(e) => Err(e),
            Ok((p, next)) => followed(p, blocks_plan(f, v.drop_first(), env, next)),
        }
    }
}

/// The argument `a` with the plan `p` for its value.
pub open spec fn rendered_argument(a: ArgumentView<Seq<BlockView>>, p: Seq<PieceView>)
    -> ArgumentView<Seq<PieceView>> {
    match a {
        ArgumentView::Positional(_) => ArgumentView::Positional(p),
        ArgumentView::Keyword(k, _) => ArgumentView::Keyword(k, p),
    }
}

/// The arguments `args` with their values planned, in their order, and the
/// state behind them.
pub open spec fn arguments_plan(
    f: Flavor,
    args: Seq<ArgumentView<Seq<BlockView>>>,
    env: PlanEnvView,
    st: ToMarkdownContext,
) -> Result<(Seq<ArgumentView<Seq<PieceView>>>, ToMarkdownContext), RenderErrorView>
    decreases args,
{
    if args.len() == 0 {
        Ok((Seq::empty(), st))
    } else {
        let first = match args[0] {
            ArgumentView::Positional(b) => blocks_plan(f, b, env, st),
            ArgumentView::Keyword(_, b) => blocks_plan(f, b, env, st),
        };
        match first {
            Err(e) => Err(e),
            Ok((p, next)) => match arguments_plan(f, args.drop_first(), env, next) {
                Err(e) => Err(e),
                Ok((rest, last)) => Ok((seq![rendered_argument(args[0], p)] + rest, last)),
            },
        }
    }
}

/// The plan of a shortcode call: its arguments are planned in the same
/// flavor, then held against the parameters of its template and bound; a
/// block shortcode has its body planned last and bound under `body`.
pub open spec fn shortcode_plan(f: Flavor, s: ShortcodeView, env: PlanEnvView, st: ToMarkdownContext)
    -> Planning
    decreases s,
{
    match s {
        ShortcodeView::Inline(base) => match arguments_plan(f, base.parameters, env, st) {
            Err(e) => Err(e),
            Ok((values, next)) => match shortcode_call(env, base, values) {
                Err(e) => Err(e),
                Ok(args) => Ok((shortcode_piece(base.name, args), next)),
            },
        },
        ShortcodeView::Block(base, body) => match arguments_plan(f, base.parameters, env, st) {
            Err(e) => Err(e),
            Ok((values, next)) => match shortcode_call(env, base, values) {
                Err(e) => Err(e),
                Ok(args) => match blocks_plan(f, body, env, next) {
                    Err(e) => Err(e),
                    Ok((inner, last)) => Ok(
                        (
                            shortcode_piece(
                                base.name,
                                args.push(bound("body"@, ArgView::Rendered(inner))),
                            ) + block_shortcode_tail(f),
                            last,
                        ),
                    ),
                },
            },
        },
    }
}

/// Nothing followed by a plan is that plan.
pub proof fn lemma_followed_nothing(r: Planning)
    ensures
        followed(Seq::empty(), r) == r,
{
    if let Ok((q, st)) = r {
        assert(Seq::<PieceView>::empty() + q =~= q);
    }
}

/// A plan followed by what follows it is one plan.
pub proof fn lemma_followed_twice(p: Seq<PieceView>, q: Seq<PieceView>, r: Planning)
    ensures
        followed(p, followed(q, r)) == followed(p + q, r),
{
    if let Ok((s, st)) = r {
        assert(p + (q + s) =~= (p + q) + s);
    }
}

/// What the flavor `f` makes of the inline `i`, its children planned as `inner`.
pub fn node_inline(f: Flavor, i: &Inline, inner: Vec<Piece>) -> (r: Vec<Piece>)
    ensures
        pieces_view(r@) == inline_node(f, i@, pieces_view(inner@)),
{
    match f {
        Flavor::Templated => GenericRenderer::render_inline(i, inner),
        Flavor::Latex => LatexRenderer::render_inline(i, inner),
        Flavor::Markdown => MarkdownRenderer::render_inline(i, inner),
    }
}

/// What the flavor `f` makes of the block `b` that is reached in the state
/// `st`, its children planned as `inner`.
pub fn node_block(f: Flavor, b: &Block, st: ToMarkdownContext, inner: Vec<Piece>, env: &PlanEnv) -> (r:
    Vec<Piece>)
    ensures
        pieces_view(r@) == block_node(f, b@, st, pieces_view(inner@), env@),
{
    match f {
        Flavor::Templated => GenericRenderer::render_block(b, inner, env),
        Flavor::Latex => LatexRenderer::render_block(b, inner, env),
        Flavor::Markdown => MarkdownRenderer::render_block(b, st, inner),
    }
}

/// The inline `i` once its children are planned.
fn finish_inline(
    f: Flavor,
    i: &Inline,
    children: Result<(Vec<Piece>, ToMarkdownContext), RenderError>,
) -> (r: Result<(Vec<Piece>, ToMarkdownContext), RenderError>)
    ensures
        planning_view(r) == with_inline(f, i@, planning_view(children)),
{
    match children {
        Ok((inner, st)) => Ok((node_inline(f, i, inner), st)),
        Err(e) => Err(e),
    }
}

/// The block `b` once its children are planned.
fn finish_block(
    f: Flavor,
    b: &Block,
    env: &PlanEnv,
    st: ToMarkdownContext,
    children: Result<(Vec<Piece>, ToMarkdownContext), RenderError>,
) -> (r: Result<(Vec<Piece>, ToMarkdownContext), RenderError>)
    ensures
        planning_view(r) == with_block(f, b@, env@, st, planning_view(children)),
{
    match children {
        Ok((inner, after)) => Ok(
            (node_block(f, b, st, inner, env), MarkdownRenderer::leave(b, st, after)),
        ),
        Err(e) => Err(e),
    }
}

/// Plans the inline `i` in the flavor `f`, from the state `st`.
pub fn plan_inline(f: Flavor, i: &Inline, env: &PlanEnv, st: ToMarkdownContext) -> (r: Result<
    (Vec<Piece>, ToMarkdownContext),
    RenderError,
>)
    ensures
        planning_view(r) == inline_plan(f, i@, env@, st),
    decreases i,
{
    match i {
        Inline::Emphasis(v) => finish_inline(f, i, plan_inlines(f, v, env, st)),
        Inline::Strong(v) => finish_inline(f, i, plan_inlines(f, v, env, st)),
        Inline::Strikethrough(v) => finish_inline(f, i, plan_inlines(f, v, env, st)),
        Inline::Image(_, _, _, v) => finish_inline(f, i, plan_inlines(f, v, env, st)),
        Inline::Link(_, _, _, v) => finish_inline(f, i, plan_inlines(f, v, env, st)),
        Inline::Shortcode(s) => plan_shortcode(f, s, env, st),
        _ => Ok((node_inline(f, i, nothing()), st)),
    }
}

/// Plans the inlines `v` in the flavor `f`, in their order, from the state `st`.
pub fn plan_inlines(f: Flavor, v: &Vec<Inline>, env: &PlanEnv, st: ToMarkdownContext) -> (r: Result<
    (Vec<Piece>, ToMarkdownContext),
    RenderError,
>)
    ensures
        planning_view(r) == inlines_plan(f, inlines_view(v@), env@, st),
    decreases v,
{
    let ghost views = inlines_view(v@);
    let ghost n = v@.len() as int;
    let mut out = nothing();
    let mut cur = st;
    let mut k: usize = 0;
    proof {
        assert(views.subrange(0, n) =~= views);
        lemma_followed_nothing(inlines_plan(f, views, env@, st));
    }
    while k < v.len()
        invariant
            k <= v.len(),
            n == v@.len(),
            views == inlines_view(v@),
            inlines_plan(f, views, env@, st) == followed(
                pieces_view(out@),
                inlines_plan(f, views.subrange(k as int, n), env@, cur),
            ),
        decreases v.len() - k,
    {
        proof {
            assert(views.subrange(k as int, n)[0] == v[k as int]@);
            assert(views.subrange(k as int, n).drop_first() =~= views.subrange(k + 1, n));
        }
        match plan_inline(f, &v[k], env, cur) {
            Err(e) => {
                return Err(e);
            },
            Ok((piece, next)) => {
                proof {
                    lemma_followed_twice(
                        pieces_view(out@),
                        pieces_view(piece@),
                        inlines_plan(f, views.subrange(k + 1, n), env@, next),
                    );
                }
                append(&mut out, piece);
                cur = next;
            },
        }
        k += 1;
    }
    proof {
        assert(pieces_view(out@) + Seq::<PieceView>::empty() =~= pieces_view(out@));
    }
    Ok((out, cur))
}

/// Plans the block `b` in the flavor `f`, from the state `st`.
pub fn plan_block(f: Flavor, b: &Block, env: &PlanEnv, st: ToMarkdownContext) -> (r: Result<
    (Vec<Piece>, ToMarkdownContext),
    RenderError,
>)
    ensures
        planning_view(r) == block_plan(f, b@, env@, st),
    decreases b,
{
    let inside = MarkdownRenderer::enter(b, st);
    match b {
        Block::Heading { inner, .. } => finish_block(
            f,
            b,
            env,
            st,
            plan_inlines(f, inner, env, inside),
        ),
        Block::Plain(v) => finish_block(f, b, env, st, plan_inlines(f, v, env, inside)),
        Block::Paragraph(v) => finish_block(f, b, env, st, plan_inlines(f, v, env, inside)),
        Block::BlockQuote(v) => finish_block(f, b, env, st, plan_inlines(f, v, env, inside)),
        Block::CodeBlock { .. } => finish_block(f, b, env, st, Ok((nothing(), st))),
        Block::List(_, v) => finish_block(f, b, env, st, plan_blocks(f, v, env, inside)),
        Block::ListItem(v) => finish_block(f, b, env, st, plan_blocks(f, v, env, inside)),
    }
}

/// Plans the blocks `v` in the flavor `f`, in their order, from the state `st`.
pub fn plan_blocks(f: Flavor, v: &Vec<Block>, env: &PlanEnv, st: ToMarkdownContext) -> (r: Result<
    (Vec<Piece>, ToMarkdownContext),
    RenderError,
>)
    ensures
        planning_view(r) == blocks_plan(f, blocks_view(v@), env@, st),
    decreases v,
{
    let ghost views = blocks_view(v@);
    let ghost n = v@.len() as int;
    let mut out = nothing();
    let mut cur = st;
    let mut k: usize = 0;
    proof {
        assert(views.subrange(0, n) =~= views);
        lemma_followed_nothing(blocks_plan(f, views, env@, st));
    }
    while k < v.len()
        invariant
            k <= v.len(),
            n == v@.len(),
            views == blocks_view(v@),
            blocks_plan(f, views, env@, st) == followed(
                pieces_view(out@),
                blocks_plan(f, views.subrange(k as int, n), env@, cur),
            ),
        decreases v.len() - k,
    {
        proof {
            assert(views.subrange(k as int, n)[0] == v[k as int]@);
            assert(views.subrange(k as int, n).drop_first() =~= views.subrange(k + 1, n));
        }
        match plan_block(f, &v[k], env, cur) {
            Err(e) => {
                return Err(e);
            },
            Ok((piece, next)) => {
                proof {
                    lemma_followed_twice(
                        pieces_view(out@),
                        pieces_view(piece@),
                        blocks_plan(f, views.subrange(k + 1, n), env@, next),
                    );
                }
                append(&mut out, piece);
                cur = next;
            },
        }
        k += 1;
    }
    proof {
        assert(pieces_view(out@) + Seq::<PieceView>::empty() =~= pieces_view(out@));
    }
    Ok((out, cur))
}

/// The arguments `p` followed by what `r` plans; an error stays.
pub open spec fn arguments_followed(
    p: Seq<ArgumentView<Seq<PieceView>>>,
    r: Result<(Seq<ArgumentView<Seq<PieceView>>>, ToMarkdownContext), RenderErrorView>,
) -> Result<(Seq<ArgumentView<Seq<PieceView>>>, ToMarkdownContext), RenderErrorView> {
    match r {
        Ok((q, st)) => Ok((p + q, st)),
        Err(e) => Err(e),
    }
}

/// Plans the values of the arguments `args` in the flavor `f`, in their order.
pub fn render_params(
    f: Flavor,
    args: &Vec<Argument<Vec<Block>>>,
    env: &PlanEnv,
    st: ToMarkdownContext,
) -> (r: Result<(Vec<Argument<Vec<Piece>>>, ToMarkdownContext), RenderError>)
    ensures
        match arguments_plan(f, arguments_view(args@), env@, st) {
            Ok((rendered, last)) => r matches Ok((v, l)) && rendered_view(v@) == rendered && l
                == last,
            Err(e) => r matches Err(x) && x@ == e,
        },
    decreases args,
{
    let ghost views = arguments_view(args@);
    let ghost n = args@.len() as int;
    let mut out: Vec<Argument<Vec<Piece>>> = Vec::new();
    let mut cur = st;
    let mut k: usize = 0;
    proof {
        assert(views.subrange(0, n) =~= views);
        assert(rendered_view(out@) =~= Seq::<ArgumentView<Seq<PieceView>>>::empty());
        if let Ok((q, l)) = arguments_plan(f, views, env@, st) {
            assert(Seq::<ArgumentView<Seq<PieceView>>>::empty() + q =~= q);
        }
    }
    while k < args.len()
        invariant
            k <= args.len(),
            n == args@.len(),
            views == arguments_view(args@),
            arguments_plan(f, views, env@, st) == arguments_followed(
                rendered_view(out@),
                arguments_plan(f, views.subrange(k as int, n), env@, cur),
            ),
        decreases args.len() - k,
    {
        proof {
            assert(views.subrange(k as int, n)[0] == crate::ast::argument_view(args[k as int]));
            assert(views.subrange(k as int, n).drop_first() =~= views.subrange(k + 1, n));
        }
        let planned = match &args[k] {
            Argument::Positional(b) => plan_blocks(f, b, env, cur),
            Argument::Keyword(_, b) => plan_blocks(f, b, env, cur),
        };
        match planned {
            Err(e) => {
                return Err(e);
            },
            Ok((piece, next)) => {
                let ghost before = rendered_view(out@);
                let ghost item = rendered_argument(views[k as int], pieces_view(piece@));
                proof {
                    if let Ok((q, l)) = arguments_plan(f, views.subrange(k + 1, n), env@, next) {
                        assert(before + (seq![item] + q) =~= (before + seq![item]) + q);
                    }
                }
                let argument = match &args[k] {
                    Argument::Positional(_) => Argument::Positional(piece),
                    Argument::Keyword(key, _) => Argument::Keyword(key.clone(), piece),
                };
                out.push(argument);
                proof {
                    assert(rendered_view(out@) =~= before + seq![item]);
                }
                cur = next;
            },
        }
        k += 1;
    }
    proof {
        assert(rendered_view(out@) + Seq::<ArgumentView<Seq<PieceView>>>::empty()
            =~= rendered_view(out@));
    }
    Ok((out, cur))
}

/// Plans a shortcode call in the flavor `f`: a call of the template of its
/// name, with the bindings that `bind_shortcode` makes of its rendered
/// arguments, and for a block shortcode its planned body under `body`.
pub fn plan_shortcode(f: Flavor, s: &Shortcode, env: &PlanEnv, st: ToMarkdownContext) -> (r: Result<
    (Vec<Piece>, ToMarkdownContext),
    RenderError,
>)
    ensures
        planning_view(r) == shortcode_plan(f, s@, env@, st),
    decreases s,
{
    let base = match s {
        Shortcode::Inline(base) => base,
        Shortcode::Block(base, _) => base,
    };
    let (values, next) = match render_params(f, &base.parameters, env, st) {
        Err(e) => {
            return Err(e);
        },
        Ok(planned) => planned,
    };
    let mut args = match bind_shortcode(env, base, values) {
        Err(e) => {
            return Err(e);
        },
        Ok(args) => args,
    };
    match s {
        Shortcode::Inline(_) => {
            let mut out: Vec<Piece> = Vec::new();
            out.push(
                Piece::Template {
                    name: base.name.clone(),
                    kind: TemplateType::Shortcode,
                    args,
                },
            );
            proof {
                assert(pieces_view(out@) =~= shortcode_piece(base@.name, bindings_view(args@)));
            }
            Ok((out, next))
        },
        Shortcode::Block(_, body) => {
            let (inner, last) = match plan_blocks(f, body, env, next) {
                Err(e) => {
                    return Err(e);
                },
                Ok(planned) => planned,
            };
            push_binding(&mut args, bind("body", Arg::Rendered(inner)));
            let mut out: Vec<Piece> = Vec::new();
            out.push(
                Piece::Template {
                    name: base.name.clone(),
                    kind: TemplateType::Shortcode,
                    args,
                },
            );
            proof {
                assert(pieces_view(out@) =~= shortcode_piece(base@.name, bindings_view(args@)));
            }
            match f {
                Flavor::Markdown => {
                    append_text(&mut out, "\n\n");
                },
                _ => {
                    assert(pieces_view(out@) + Seq::<PieceView>::empty() =~= pieces_view(out@));
                },
            }
            Ok((out, last))
        },
    }
}

} // verus!
