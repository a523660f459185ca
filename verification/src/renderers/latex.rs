//! LaTeX: emphasis, breaks, rules and headings are written as control
//! sequences; images, links, lists and code cells go through templates.

use crate::ast::{math_block_md, math_markdown, Block, BlockView, Inline, InlineView};
use crate::notebook::{
    join_strings, outputs_view, texts_joined, values_view, CellOutput, CellOutputView,
    OutputValue, OutputValueView,
};
use crate::plan::{
    append, append_text, bind, bindings_view, bound, builtin, call_builtin, literal, nothing,
    pieces_view, push_binding, text, Arg, ArgView, Binding, BindingView, Piece, PieceView,
};
use crate::renderers::generic::{
    link_bindings, ordered_list_bindings, render_image, render_link, render_ordered_list,
    render_value_template, value_binding,
};
use crate::renderers::shortcode::{PlanEnv, PlanEnvView};
use pulldown_cmark::HeadingLevel;
use vstd::prelude::*;
use vstd::string::*;

verus! {

/// Renders a document as LaTeX.
#[derive(Clone, Copy, Debug, Default)]
pub struct LatexRenderer;

/// What the LaTeX renderer knows of the document and of the templates.
pub type ToLaTeXContext<'a> = PlanEnv<'a>;

/// `before`, the plan `inner`, and `after`.
pub open spec fn wrapped(before: Seq<char>, inner: Seq<PieceView>, after: Seq<char>) -> Seq<
    PieceView,
> {
    literal(before) + inner + literal(after)
}

/// The sectioning command of a heading level: `section` for the first level,
/// `subsection` for the second and `subsubsection` for all others.
pub open spec fn section_command(lvl: HeadingLevel) -> Seq<char> {
    match lvl {
        HeadingLevel::H1 => "section"@,
        HeadingLevel::H2 => "subsection"@,
        _ => "subsubsection"@,
    }
}

/// What LaTeX makes of an inline whose children have been planned as `inner`.
/// A shortcode is not planned here.
pub open spec fn inline_node(i: InlineView, inner: Seq<PieceView>) -> Seq<PieceView> {
    match i {
        InlineView::Text(s) => literal(s),
        InlineView::Emphasis(_) => wrapped("\\emph{"@, inner, "}"@),
        InlineView::Strong(_) => wrapped("\\textbf{"@, inner, "}"@),
        InlineView::Strikethrough(_) => wrapped("\\textbf{"@, inner, "}"@),
        InlineView::Code(s) => wrapped("\\lstinline! "@, literal(s), " !"@),
        InlineView::SoftBreak => literal("\n"@),
        InlineView::HardBreak => literal("\n\\\\\n"@),
        InlineView::Rule => literal("\\hrule"@),
        InlineView::Image(_, url, alt, _) => builtin("image"@, link_bindings(url, alt, inner)),
        InlineView::Link(_, url, alt, _) => builtin("link"@, link_bindings(url, alt, inner)),
        InlineView::Html(s) => literal(s),
        InlineView::Math { source, display_block, trailing_space } => literal(
            math_markdown(source, display_block, trailing_space),
        ),
        InlineView::Shortcode(_) => Seq::empty(),
    }
}

/// What LaTeX makes of one representation of a rich output: text and images go
/// through templates, everything else is left out.
pub open spec fn output_value_plan(v: OutputValueView) -> Seq<PieceView> {
    match v {
        OutputValueView::Plain(s) => builtin(
            "output_text"@,
            value_binding(ArgView::Text(texts_joined(s))),
        ),
        OutputValueView::Image(s) => builtin("output_img"@, value_binding(ArgView::Text(s))),
        OutputValueView::Svg(s) => builtin("output_svg"@, value_binding(ArgView::Text(s))),
        OutputValueView::Json(_) => Seq::empty(),
        OutputValueView::Html(_) => Seq::empty(),
        OutputValueView::Javascript(_) => Seq::empty(),
    }
}

/// What LaTeX makes of the representations `v`, one behind the other.
pub open spec fn output_values_plan(v: Seq<OutputValueView>) -> Seq<PieceView>
    decreases v.len(),
{
    if v.len() == 0 {
        Seq::empty()
    } else {
        output_values_plan(v.drop_last()) + output_value_plan(v.last())
    }
}

/// What LaTeX makes of an output of a code cell: the text of a stream as it
/// is, an error through its template.
pub open spec fn cell_output_plan(o: CellOutputView) -> Seq<PieceView> {
    match o {
        CellOutputView::Stream { text, .. } => literal(text),
        CellOutputView::Data { data, .. } => output_values_plan(data),
        CellOutputView::Error { evalue, .. } => builtin(
            "output_error"@,
            value_binding(ArgView::Text(evalue)),
        ),
    }
}

/// What LaTeX makes of the outputs `v`, one behind the other.
pub open spec fn cell_outputs_plan(v: Seq<CellOutputView>) -> Seq<PieceView>
    decreases v.len(),
{
    if v.len() == 0 {
        Seq::empty()
    } else {
        cell_outputs_plan(v.drop_last()) + cell_output_plan(v.last())
    }
}

/// What the template `cell` receives in LaTeX.
pub open spec fn cell_bindings(env: PlanEnvView, source: Seq<char>, outputs: Seq<PieceView>) -> Seq<
    BindingView,
> {
    seq![
        bound("cell_outputs"@, ArgView::Bool(env.cell_outputs)),
        bound("source"@, ArgView::Text(source)),
        bound("id"@, ArgView::FreshId),
        bound("outputs"@, ArgView::Rendered(outputs)),
    ]
}

/// What LaTeX makes of a block whose children have been planned as `inner`.
pub open spec fn block_node(b: BlockView, inner: Seq<PieceView>, env: PlanEnvView) -> Seq<
    PieceView,
> {
    match b {
        BlockView::Heading { lvl, .. } => literal("\\"@) + literal(section_command(lvl)) + wrapped(
            "{"@,
            inner,
            "}\n"@,
        ),
        BlockView::Plain(_) => inner,
        BlockView::Paragraph(_) => inner + literal("\n"@),
        BlockView::BlockQuote(_) => inner + literal("\n"@),
        BlockView::CodeBlock { source, outputs, .. } => builtin(
            "cell"@,
            cell_bindings(env, source, cell_outputs_plan(outputs)),
        ),
        BlockView::List(None, _) => builtin(
            "list_unordered"@,
            value_binding(ArgView::Rendered(inner)),
        ),
        BlockView::List(Some(start), _) => builtin(
            "list_ordered"@,
            ordered_list_bindings(start, inner),
        ),
        BlockView::ListItem(_) => builtin("list_item"@, value_binding(ArgView::Rendered(inner))),
    }
}

/// `before`, the plan `inner`, and `after`.
pub fn wrap(before: &str, inner: Vec<Piece>, after: &str) -> (r: Vec<Piece>)
    ensures
        pieces_view(r@) == wrapped(before@, pieces_view(inner@), after@),
{
    let mut r = text(before);
    append(&mut r, inner);
    append_text(&mut r, after);
    r
}

impl LatexRenderer {
    /// What LaTeX makes of one representation of a rich output.
    pub fn render_output_value(elem: &OutputValue) -> (r: Vec<Piece>)
        ensures
            pieces_view(r@) == output_value_plan(elem@),
    {
        match elem {
            OutputValue::Plain(s) => render_value_template(
                "output_text",
                Arg::Text(join_strings(s)),
            ),
            OutputValue::Image(s) => render_value_template("output_img", Arg::Text(s.clone())),
            OutputValue::Svg(s) => render_value_template("output_svg", Arg::Text(s.clone())),
            OutputValue::Json(_) => nothing(),
            OutputValue::Html(_) => nothing(),
            OutputValue::Javascript(_) => nothing(),
        }
    }

    /// What LaTeX makes of an output of a code cell.
    pub fn render_cell_output(elem: &CellOutput) -> (r: Vec<Piece>)
        ensures
            pieces_view(r@) == cell_output_plan(elem@),
    {
        match elem {
            CellOutput::Stream { text: t, .. } => text(t.as_str()),
            CellOutput::Data { data, .. } => {
                let mut out = nothing();
                let mut k: usize = 0;
                let ghost views = values_view(data@);
                assert(views.subrange(0, 0) =~= Seq::<OutputValueView>::empty());
                while k < data.len()
                    invariant
                        k <= data.len(),
                        views == values_view(data@),
                        pieces_view(out@) == output_values_plan(views.subrange(0, k as int)),
                    decreases data.len() - k,
                {
                    let piece = Self::render_output_value(&data[k]);
                    append(&mut out, piece);
                    proof {
                        assert(views.subrange(0, k + 1).drop_last() =~= views.subrange(
                            0,
                            k as int,
                        ));
                    }
                    k += 1;
                }
                assert(views.subrange(0, k as int) =~= views);
                out
            },
            CellOutput::Error { evalue, .. } => render_value_template(
                "output_error",
                Arg::Text(evalue.clone()),
            ),
        }
    }

    /// What LaTeX makes of the outputs of a code cell.
    pub fn render_cell_outputs(outputs: &Vec<CellOutput>) -> (r: Vec<Piece>)
        ensures
            pieces_view(r@) == cell_outputs_plan(outputs_view(outputs@)),
    {
        let mut out = nothing();
        let mut k: usize = 0;
        let ghost views = outputs_view(outputs@);
        assert(views.subrange(0, 0) =~= Seq::<CellOutputView>::empty());
        while k < outputs.len()
            invariant
                k <= outputs.len(),
                views == outputs_view(outputs@),
                pieces_view(out@) == cell_outputs_plan(views.subrange(0, k as int)),
            decreases outputs.len() - k,
        {
            let piece = Self::render_cell_output(&outputs[k]);
            append(&mut out, piece);
            proof {
                assert(views.subrange(0, k + 1).drop_last() =~= views.subrange(0, k as int));
            }
            k += 1;
        }
        assert(views.subrange(0, k as int) =~= views);
        out
    }

    /// What LaTeX makes of the inline `elem`, its children planned as `inner`.
    pub fn render_inline(elem: &Inline, inner: Vec<Piece>) -> (r: Vec<Piece>)
        ensures
            pieces_view(r@) == inline_node(elem@, pieces_view(inner@)),
    {
        match elem {
            Inline::Text(s) => text(s.as_str()),
            Inline::Emphasis(_) => wrap("\\emph{", inner, "}"),
            Inline::Strong(_) => wrap("\\textbf{", inner, "}"),
            Inline::Strikethrough(_) => wrap("\\textbf{", inner, "}"),
            Inline::Code(s) => wrap("\\lstinline! ", text(s.as_str()), " !"),
            Inline::SoftBreak => text("\n"),
            Inline::HardBreak => text("\n\\\\\n"),
            Inline::Rule => text("\\hrule"),
            Inline::Image(_tp, url, alt, _) => render_image(url.as_str(), alt.as_str(), inner),
            Inline::Link(_tp, url, alt, _) => render_link(url.as_str(), alt.as_str(), inner),
            Inline::Html(s) => text(s.as_str()),
            Inline::Math { source, display_block, trailing_space } => {
                let math = math_block_md(source.as_str(), *display_block, *trailing_space);
                text(math.as_str())
            },
            Inline::Shortcode(_) => nothing(),
        }
    }

    /// What LaTeX makes of the block `elem`, its children planned as `inner`.
    pub fn render_block(elem: &Block, inner: Vec<Piece>, env: &PlanEnv) -> (r: Vec<Piece>)
        ensures
            pieces_view(r@) == block_node(elem@, pieces_view(inner@), env@),
    {
        match elem {
            Block::Heading { lvl, .. } => {
                let cmd = match lvl {
                    HeadingLevel::H1 => "section",
                    HeadingLevel::H2 => "subsection",
                    _ => "subsubsection",
                };
                let mut r = text("\\");
                append_text(&mut r, cmd);
                append(&mut r, wrap("{", inner, "}\n"));
                r
            },
            Block::Plain(_) => inner,
            Block::Paragraph(_) => {
                let mut r = inner;
                append_text(&mut r, "\n");
                r
            },
            Block::BlockQuote(_) => {
                let mut r = inner;
                append_text(&mut r, "\n");
                r
            },
            Block::CodeBlock { source, outputs, .. } => {
                let rendered = Self::render_cell_outputs(outputs);
                let mut args: Vec<Binding> = Vec::new();
                push_binding(&mut args, bind("cell_outputs", Arg::Bool(env.metadata.cell_outputs)));
                push_binding(&mut args, bind("source", Arg::Text(source.clone())));
                push_binding(&mut args, bind("id", Arg::FreshId));
                push_binding(&mut args, bind("outputs", Arg::Rendered(rendered)));
                assert(bindings_view(args@) =~= cell_bindings(
                    env@,
                    source@,
                    cell_outputs_plan(outputs_view(outputs@)),
                ));
                call_builtin("cell", args)
            },
            Block::List(idx, _) => match idx {
                None => render_value_template("list_unordered", Arg::Rendered(inner)),
                Some(start) => render_ordered_list(*start, inner),
            },
            Block::ListItem(_) => render_value_template("list_item", Arg::Rendered(inner)),
        }
    }
}

} // verus!
