//! Markdown: the tree is written back as markdown. Only the wrapping of lists
//! and of their items goes through templates. The renderer keeps track of how
//! deep it is inside lists and of the number of the next item.

use crate::ast::{math_block_md, math_markdown, Block, BlockView, Inline, InlineView};
use crate::plan::{
    append, append_text, bind, bindings_view, bound, builtin, call_builtin, literal, nothing,
    pieces_view, push_binding, text, Arg, ArgView, Binding, BindingView, Piece, PieceView,
};
use crate::renderers::generic::{
    ordered_list_bindings, render_ordered_list, render_value_template, value_binding,
};
use crate::ast::{blocks_view, inlines_view};
use crate::renderers::latex::{wrap, wrapped};
use crate::renderers::shortcode::{PlanEnv, PlanEnvView, RenderError};
use crate::renderers::tree::{
    block_plan, blocks_plan, inline_plan, inlines_plan, plan_block, plan_blocks, plan_inline,
    plan_inlines, planning_view, Flavor, Planning,
};
use pulldown_cmark::HeadingLevel;
use vstd::prelude::*;
use vstd::string::*;

verus! {

/// Renders a document as markdown.
#[derive(Clone, Copy, Debug, Default)]
pub struct MarkdownRenderer;

/// What the markdown renderer carries from node to node: where it stands
/// with respect to lists.
#[derive(Clone, Copy, Debug, PartialEq, Eq, Structural)]
pub struct ToMarkdownContext {
    /// The number of the next item of the innermost list; `None` in an
    /// unordered list and outside lists.
    pub list_idx: Option<usize>,
    /// How many lists the renderer is inside of.
    pub list_lvl: usize,
}

impl ToMarkdownContext {
    /// The state outside all lists.
    pub fn new() -> (r: Self)
        ensures
            r == top_level(),
    {
        ToMarkdownContext { list_idx: None, list_lvl: 0 }
    }
}

/// The state outside all lists.
pub open spec fn top_level() -> ToMarkdownContext {
    ToMarkdownContext { list_idx: None, list_lvl: 0 }
}

/// One more than `n`, the largest `usize` being the last number.
pub open spec fn succ(n: usize) -> usize {
    if n < usize::MAX {
        (n + 1) as usize
    } else {
        n
    }
}

/// The state in which the items of a list are rendered: one level deeper, and
/// numbered from one where the list is ordered.
pub open spec fn inside_list(st: ToMarkdownContext, ordered: bool) -> ToMarkdownContext {
    ToMarkdownContext {
        list_idx: if ordered {
            Some(1usize)
        } else {
            None
        },
        list_lvl: succ(st.list_lvl),
    }
}

/// The state behind the marker of an item: the next item has the next number.
pub open spec fn behind_marker(st: ToMarkdownContext) -> ToMarkdownContext {
    ToMarkdownContext {
        list_idx: match st.list_idx {
            Some(n) => Some(succ(n)),
            None => None,
        },
        list_lvl: st.list_lvl,
    }
}

/// The state in which the children of the block `b` are rendered.
pub open spec fn child_state(b: BlockView, st: ToMarkdownContext) -> ToMarkdownContext {
    match b {
        BlockView::List(start, _) => inside_list(st, start is Some),
        BlockView::ListItem(_) => behind_marker(st),
        _ => st,
    }
}

/// The state behind the block `b`, where the state before it was `before` and
/// the state behind its children is `children`. A list restores the state that
/// it found.
pub open spec fn state_behind(b: BlockView, before: ToMarkdownContext, children: ToMarkdownContext) -> ToMarkdownContext {
    match b {
        BlockView::List(_, _) => before,
        _ => children,
    }
}

/// The `#` signs of a heading level.
pub open spec fn hashes(lvl: HeadingLevel) -> Seq<char> {
    match lvl {
        HeadingLevel::H1 => "#"@,
        HeadingLevel::H2 => "##"@,
        HeadingLevel::H3 => "###"@,
        HeadingLevel::H4 => "####"@,
        HeadingLevel::H5 => "#####"@,
        HeadingLevel::H6 => "######"@,
    }
}

/// The number of tabs before an item at list level `lvl`: one less than the level.
pub open spec fn indent(lvl: usize) -> nat {
    if lvl > 0 {
        (lvl - 1) as nat
    } else {
        0
    }
}

/// `n` tabs.
pub open spec fn tabs(n: nat) -> Seq<PieceView> {
    Seq::new(n, |k: int| PieceView::Text("\t"@))
}

/// The number of an item as its template receives it.
pub open spec fn index_value(idx: Option<usize>) -> ArgView {
    match idx {
        Some(n) => ArgView::Number(n as u64),
        None => ArgView::Null,
    }
}

/// What the template `list_item` receives in markdown.
pub open spec fn item_bindings(idx: Option<usize>, inner: Seq<PieceView>) -> Seq<BindingView> {
    seq![bound("idx"@, index_value(idx)), bound("value"@, ArgView::Rendered(inner))]
}

/// What markdown makes of an inline whose children have been planned as
/// `inner`. Images and links are written from their url and alt text. A
/// shortcode is not planned here.
pub open spec fn inline_node(i: InlineView, inner: Seq<PieceView>) -> Seq<PieceView> {
    match i {
        InlineView::Text(s) => literal(s),
        InlineView::Emphasis(_) => wrapped("*"@, inner, "*"@),
        InlineView::Strong(_) => wrapped("**"@, inner, "**"@),
        InlineView::Strikethrough(_) => wrapped("~~"@, inner, "~~"@),
        InlineView::Code(s) => wrapped("`"@, literal(s), "`"@),
        InlineView::SoftBreak => literal("\n"@),
        InlineView::HardBreak => literal("\n\n"@),
        InlineView::Rule => literal("---\n"@),
        InlineView::Image(_, url, alt, _) => wrapped("!["@, literal(alt), "]("@) + wrapped(
            ""@,
            literal(url),
            ")"@,
        ),
        InlineView::Link(_, url, alt, _) => wrapped("["@, literal(alt), "]("@) + wrapped(
            ""@,
            literal(url),
            ")"@,
        ),
        InlineView::Html(s) => literal(s),
        InlineView::Math { source, display_block, trailing_space } => literal(
            math_markdown(source, display_block, trailing_space),
        ),
        InlineView::Shortcode(_) => Seq::empty(),
    }
}

/// What markdown makes of a block that is reached in the state `st`, its
/// children planned as `inner`. A paragraph ends with an empty line, so that
/// the next block does not run into it. An item is indented by one tab less
/// than its list level and receives the number that the state holds.
pub open spec fn block_node(b: BlockView, st: ToMarkdownContext, inner: Seq<PieceView>) -> Seq<PieceView> {
    match b {
        BlockView::Heading { lvl, .. } => literal(hashes(lvl)) + wrapped(" "@, inner, "\n"@),
        BlockView::Plain(_) => inner,
        BlockView::Paragraph(_) => inner + literal("\n\n"@),
        BlockView::BlockQuote(_) => inner,
        BlockView::CodeBlock { source, .. } => wrapped("```\n"@, literal(source), "\n```"@),
        BlockView::List(None, _) => wrapped(
            "\n"@,
            builtin("list_unordered"@, value_binding(ArgView::Rendered(inner))),
            "\n"@,
        ),
        BlockView::List(Some(start), _) => wrapped(
            "\n"@,
            builtin("list_ordered"@, ordered_list_bindings(start, inner)),
            "\n"@,
        ),
        BlockView::ListItem(_) => tabs(indent(st.list_lvl)) + builtin(
            "list_item"@,
            item_bindings(st.list_idx, inner),
        ) + literal("\n"@),
    }
}

/// List numbering: the items of an ordered list that stands inside an item
/// are numbered from one again, whatever number the outer list has reached,
/// and are indented by one tab more than the item around them. Behind the
/// inner list the outer list counts on where it was.
pub proof fn lemma_nested_list_numbering(
    outer: ToMarkdownContext,
    start: u64,
    items: Seq<BlockView>,
    behind_items: ToMarkdownContext,
)
    requires
        0 < outer.list_lvl < usize::MAX,
    ensures
        child_state(BlockView::List(Some(start), items), outer).list_idx == Some(1usize),
        indent(child_state(BlockView::List(Some(start), items), outer).list_lvl) == indent(
            outer.list_lvl,
        ) + 1,
        state_behind(BlockView::List(Some(start), items), outer, behind_items) == outer,
{
}

/// One more than `n`, the largest `usize` being the last number.
pub fn next_number(n: usize) -> (r: usize)
    ensures
        r == succ(n),
{
    if n < usize::MAX {
        n + 1
    } else {
        n
    }
}

impl MarkdownRenderer {
    /// The state in which the children of the block `elem` are rendered.
    pub fn enter(elem: &Block, st: ToMarkdownContext) -> (r: ToMarkdownContext)
        ensures
            r == child_state(elem@, st),
    {
        match elem {
            Block::List(start, _) => ToMarkdownContext {
                list_idx: match start {
                    Some(_) => Some(1),
                    None => None,
                },
                list_lvl: next_number(st.list_lvl),
            },
            Block::ListItem(_) => ToMarkdownContext {
                list_idx: match st.list_idx {
                    Some(n) => Some(next_number(n)),
                    None => None,
                },
                list_lvl: st.list_lvl,
            },
            _ => st,
        }
    }

    /// The state behind the block `elem`.
    pub fn leave(elem: &Block, before: ToMarkdownContext, children: ToMarkdownContext) -> (r: ToMarkdownContext)
        ensures
            r == state_behind(elem@, before, children),
    {
        match elem {
            Block::List(_, _) => before,
            _ => children,
        }
    }

    /// What markdown makes of the inline `elem`, its children planned as `inner`.
    pub fn render_inline(elem: &Inline, inner: Vec<Piece>) -> (r: Vec<Piece>)
        ensures
            pieces_view(r@) == inline_node(elem@, pieces_view(inner@)),
    {
        match elem {
            Inline::Text(s) => text(s.as_str()),
            Inline::Emphasis(_) => wrap("*", inner, "*"),
            Inline::Strong(_) => wrap("**", inner, "**"),
            Inline::Strikethrough(_) => wrap("~~", inner, "~~"),
            Inline::Code(c) => wrap("`", text(c.as_str()), "`"),
            Inline::SoftBreak => text("\n"),
            Inline::HardBreak => text("\n\n"),
            Inline::Rule => text("---\n"),
            Inline::Image(_tp, url, title, _) => {
                let mut r = wrap("![", text(title.as_str()), "](");
                append(&mut r, wrap("", text(url.as_str()), ")"));
                r
            },
            Inline::Link(_tp, url, title, _) => {
                let mut r = wrap("[", text(title.as_str()), "](");
                append(&mut r, wrap("", text(url.as_str()), ")"));
                r
            },
            Inline::Html(s) => text(s.as_str()),
            Inline::Math { source, display_block, trailing_space } => {
                let math = math_block_md(source.as_str(), *display_block, *trailing_space);
                text(math.as_str())
            },
            Inline::Shortcode(_) => nothing(),
        }
    }

    /// What markdown makes of the block `elem` that is reached in the state
    /// `st`, its children planned as `inner`.
    pub fn render_block(elem: &Block, st: ToMarkdownContext, inner: Vec<Piece>) -> (r: Vec<Piece>)
        ensures
            pieces_view(r@) == block_node(elem@, st, pieces_view(inner@)),
    {
        match elem {
            Block::Heading { lvl, .. } => {
                let marks = match lvl {
                    HeadingLevel::H1 => "#",
                    HeadingLevel::H2 => "##",
                    HeadingLevel::H3 => "###",
                    HeadingLevel::H4 => "####",
                    HeadingLevel::H5 => "#####",
                    HeadingLevel::H6 => "######",
                };
                let mut r = text(marks);
                append(&mut r, wrap(" ", inner, "\n"));
                r
            },
            Block::Plain(_) => inner,
            Block::Paragraph(_) => {
                let mut r = inner;
                append_text(&mut r, "\n\n");
                r
            },
            Block::BlockQuote(_) => inner,
            Block::CodeBlock { source, .. } => wrap("```\n", text(source.as_str()), "\n```"),
            Block::List(idx, _) => match idx {
                None => wrap(
                    "\n",
                    render_value_template("list_unordered", Arg::Rendered(inner)),
                    "\n",
                ),
                Some(start) => wrap("\n", render_ordered_list(*start, inner), "\n"),
            },
            Block::ListItem(_) => {
                let depth = if st.list_lvl > 0 {
                    st.list_lvl - 1
                } else {
                    0
                };
                let mut r = nothing();
                let mut k: usize = 0;
                while k < depth
                    invariant
                        k <= depth,
                        pieces_view(r@) == tabs(k as nat),
                    decreases depth - k,
                {
                    append_text(&mut r, "\t");
                    assert(tabs(k as nat) + literal("\t"@) =~= tabs((k + 1) as nat));
                    k += 1;
                }
                let idx = match st.list_idx {
                    Some(n) => Arg::Number(n as u64),
                    None => Arg::Null,
                };
                let mut args: Vec<Binding> = Vec::new();
                push_binding(&mut args, bind("idx", idx));
                push_binding(&mut args, bind("value", Arg::Rendered(inner)));
                assert(bindings_view(args@) =~= item_bindings(st.list_idx, pieces_view(inner@)));
                append(&mut r, call_builtin("list_item", args));
                append_text(&mut r, "\n");
                r
            },
        }
    }
}

/// What can be written as markdown.
pub trait ToMarkdown {
    /// The plan of `self` as markdown, reached in the state `ctx`, and the
    /// state behind it.
    spec fn markdown_plan(&self, env: PlanEnvView, ctx: ToMarkdownContext) -> Planning;

    /// Plans `self` as markdown and moves `ctx` behind it.
    fn to_markdown(&self, env: &PlanEnv, ctx: &mut ToMarkdownContext) -> (r: Result<
        Vec<Piece>,
        RenderError,
    >)
        ensures
            match self.markdown_plan(env@, *old(ctx)) {
                Ok((plan, after)) => r matches Ok(p) && pieces_view(p@) == plan && *final(ctx)
                    == after,
                Err(e) => r matches Err(x) && x@ == e && *final(ctx) == *old(ctx),
            },
    ;
}

/// The plan of a planning function, the state moved behind it.
fn planned(r: Result<(Vec<Piece>, ToMarkdownContext), RenderError>, ctx: &mut ToMarkdownContext)
    -> (out: Result<Vec<Piece>, RenderError>)
    ensures
        match planning_view(r) {
            Ok((plan, after)) => out matches Ok(p) && pieces_view(p@) == plan && *final(ctx)
                == after,
            Err(e) => out matches Err(x) && x@ == e && *final(ctx) == *old(ctx),
        },
{
    match r {
        Ok((plan, after)) => {
            *ctx = after;
            Ok(plan)
        },
        Err(e) => Err(e),
    }
}

impl ToMarkdown for Inline {
    open spec fn markdown_plan(&self, env: PlanEnvView, ctx: ToMarkdownContext) -> Planning {
        inline_plan(Flavor::Markdown, self@, env, ctx)
    }

    fn to_markdown(&self, env: &PlanEnv, ctx: &mut ToMarkdownContext) -> (r: Result<
        Vec<Piece>,
        RenderError,
    >) {
        planned(plan_inline(Flavor::Markdown, self, env, *ctx), ctx)
    }
}

impl ToMarkdown for Block {
    open spec fn markdown_plan(&self, env: PlanEnvView, ctx: ToMarkdownContext) -> Planning {
        block_plan(Flavor::Markdown, self@, env, ctx)
    }

    fn to_markdown(&self, env: &PlanEnv, ctx: &mut ToMarkdownContext) -> (r: Result<
        Vec<Piece>,
        RenderError,
    >) {
        planned(plan_block(Flavor::Markdown, self, env, *ctx), ctx)
    }
}

impl ToMarkdown for Vec<Inline> {
    open spec fn markdown_plan(&self, env: PlanEnvView, ctx: ToMarkdownContext) -> Planning {
        inlines_plan(Flavor::Markdown, inlines_view(self@), env, ctx)
    }

    fn to_markdown(&self, env: &PlanEnv, ctx: &mut ToMarkdownContext) -> (r: Result<
        Vec<Piece>,
        RenderError,
    >) {
        planned(plan_inlines(Flavor::Markdown, self, env, *ctx), ctx)
    }
}

impl ToMarkdown for Vec<Block> {
    open spec fn markdown_plan(&self, env: PlanEnvView, ctx: ToMarkdownContext) -> Planning {
        blocks_plan(Flavor::Markdown, blocks_view(self@), env, ctx)
    }

    fn to_markdown(&self, env: &PlanEnv, ctx: &mut ToMarkdownContext) -> (r: Result<
        Vec<Piece>,
        RenderError,
    >) {
        planned(plan_blocks(Flavor::Markdown, self, env, *ctx), ctx)
    }
}

} // verus!
