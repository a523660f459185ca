//! The templated formats: every node is handed to a named template, with the
//! values that the template needs. Only text and raw HTML are written as they are.

use crate::ast::{Block, BlockView, Inline, InlineView};
use crate::notebook::{
    clone_strings, join_strings, outputs_view, texts_joined,
    values_view, CellOutput, CellOutputView, OutputValue, OutputValueView, StreamType,
};
use crate::plan::{
    append, bind, bindings_view, bound, builtin, call_builtin, literal, nothing, pieces_view,
    push_binding, text, Arg, ArgView, Binding, BindingView, Piece, PieceView,
};
use crate::renderers::shortcode::{PlanEnv, PlanEnvView};
use pulldown_cmark::HeadingLevel;
use vstd::prelude::*;
use vstd::string::*;

verus! {

/// Renders a document through templates alone.
#[derive(Clone, Copy, Debug, Default)]
pub struct GenericRenderer;

/// The number of a heading level.
pub open spec fn heading_number(lvl: HeadingLevel) -> nat {
    match lvl {
        HeadingLevel::H1 => 1,
        HeadingLevel::H2 => 2,
        HeadingLevel::H3 => 3,
        HeadingLevel::H4 => 4,
        HeadingLevel::H5 => 5,
        HeadingLevel::H6 => 6,
    }
}

/// The number of a heading level, from 1 for `H1` to 6 for `H6`.
pub fn header_lvl_to_int(lvl: &HeadingLevel) -> (n: usize)
    ensures
        n == heading_number(*lvl),
{
    match lvl {
        HeadingLevel::H1 => 1,
        HeadingLevel::H2 => 2,
        HeadingLevel::H3 => 3,
        HeadingLevel::H4 => 4,
        HeadingLevel::H5 => 5,
        HeadingLevel::H6 => 6,
    }
}

/// Puts the bytes of `source` behind `buf`. A buffer in memory takes every
/// byte, so nothing can go wrong; for another writer see `write_result`.
pub fn write_bytes(source: &str, buf: &mut Vec<u8>)
    ensures
        final(buf)@ == old(buf)@ + source.spec_bytes(),
{
    let bytes = source.as_bytes();
    let mut k: usize = 0;
    while k < bytes.len()
        invariant
            k <= bytes.len(),
            bytes@ == source.spec_bytes(),
            buf@ == old(buf)@ + bytes@.subrange(0, k as int),
        decreases bytes.len() - k,
    {
        buf.push(bytes[k]);
        assert(buf@ =~= old(buf)@ + bytes@.subrange(0, k + 1));
        k += 1;
    }
    assert(bytes@.subrange(0, k as int) =~= bytes@);
}

/// Why a text was not written.
#[derive(Debug)]
pub enum WriteError {
    /// The writer took fewer bytes than the text has.
    Incomplete,
    /// The writer failed, with its message.
    Failed(String),
}

/// What to return for what a writer returned when it was handed a text of
/// `length` bytes: the text is written where the writer took all of its
/// bytes, and not where it took fewer or failed.
pub fn write_result(length: usize, outcome: Result<usize, String>) -> (r: Result<(), WriteError>)
    ensures
        match outcome {
            Ok(taken) => if taken == length {
                r is Ok
            } else {
                r == Err::<(), WriteError>(WriteError::Incomplete)
            },
            Err(message) => r == Err::<(), WriteError>(WriteError::Failed(message)),
        },
{
    match outcome {
        Ok(taken) => if taken == length {
            Ok(())
        } else {
            Err(WriteError::Incomplete)
        },
        Err(message) => Err(WriteError::Failed(message)),
    }
}

/// The one binding of `value` under the key `value`.
pub open spec fn value_binding(value: ArgView) -> Seq<BindingView> {
    seq![bound("value"@, value)]
}

/// What the templates `image` and `link` receive.
pub open spec fn link_bindings(url: Seq<char>, alt: Seq<char>, inner: Seq<PieceView>) -> Seq<
    BindingView,
> {
    seq![
        bound("url"@, ArgView::Text(url)),
        bound("alt"@, ArgView::Text(alt)),
        bound("inner"@, ArgView::Rendered(inner)),
    ]
}

/// What the template `math` receives.
pub open spec fn math_bindings(display_mode: bool, trailing_space: bool, source: Seq<char>) -> Seq<
    BindingView,
> {
    seq![
        bound("display_mode"@, ArgView::Bool(display_mode)),
        bound("trailing_space"@, ArgView::Bool(trailing_space)),
        bound("value"@, ArgView::Text(source)),
    ]
}

/// What the template `list_ordered` receives.
pub open spec fn ordered_list_bindings(start: u64, inner: Seq<PieceView>) -> Seq<BindingView> {
    seq![bound("start"@, ArgView::Number(start)), bound("value"@, ArgView::Rendered(inner))]
}

/// The tags of a code cell as a template receives them.
pub open spec fn tags_value(tags: Option<Seq<Seq<char>>>) -> ArgView {
    match tags {
        Some(t) => ArgView::Texts(t),
        None => ArgView::Null,
    }
}

/// What the template `cell` receives in the templated formats.
pub open spec fn cell_bindings(
    env: PlanEnvView,
    source: Seq<char>,
    tags: Option<Seq<Seq<char>>>,
    outputs: Seq<PieceView>,
) -> Seq<BindingView> {
    seq![
        bound("interactive"@, ArgView::Bool(env.interactive)),
        bound("cell_outputs"@, ArgView::Bool(env.cell_outputs)),
        bound("editable"@, ArgView::Bool(env.editable)),
        bound("source"@, ArgView::Text(source)),
        bound("highlighted"@, ArgView::Highlighted(source)),
        bound("id"@, ArgView::FreshId),
        bound("tags"@, tags_value(tags)),
        bound("outputs"@, ArgView::Rendered(outputs)),
    ]
}

/// What the templated formats make of an inline whose children have been
/// planned as `inner`. A shortcode is not planned here.
pub open spec fn inline_node(i: InlineView, inner: Seq<PieceView>) -> Seq<PieceView> {
    match i {
        InlineView::Text(s) => literal(s),
        InlineView::Emphasis(_) => builtin("emphasis"@, value_binding(ArgView::Rendered(inner))),
        InlineView::Strong(_) => builtin("strong"@, value_binding(ArgView::Rendered(inner))),
        InlineView::Strikethrough(_) => builtin(
            "strikethrough"@,
            value_binding(ArgView::Rendered(inner)),
        ),
        InlineView::Code(s) => builtin("inline_code"@, value_binding(ArgView::Text(s))),
        InlineView::SoftBreak => builtin("soft_break"@, Seq::empty()),
        InlineView::HardBreak => builtin("hard_break"@, Seq::empty()),
        InlineView::Rule => builtin("horizontal_rule"@, Seq::empty()),
        InlineView::Image(_, url, alt, _) => builtin("image"@, link_bindings(url, alt, inner)),
        InlineView::Link(_, url, alt, _) => builtin("link"@, link_bindings(url, alt, inner)),
        InlineView::Html(s) => literal(s),
        InlineView::Math { source, display_block, trailing_space } => builtin(
            "math"@,
            math_bindings(display_block, trailing_space, source),
        ),
        InlineView::Shortcode(_) => Seq::empty(),
    }
}

/// What the templated formats make of one representation of a rich output.
/// JSON is serialised, HTML written as it is, and JavaScript left out.
pub open spec fn output_value_plan(v: OutputValueView) -> Seq<PieceView> {
    match v {
        OutputValueView::Plain(s) => builtin(
            "output_text"@,
            value_binding(ArgView::Text(texts_joined(s))),
        ),
        OutputValueView::Image(s) => builtin("output_img"@, value_binding(ArgView::Text(s))),
        OutputValueView::Svg(s) => builtin("output_svg"@, value_binding(ArgView::Text(s))),
        OutputValueView::Json(j) => seq![PieceView::Json(j)],
        OutputValueView::Html(s) => literal(s),
        OutputValueView::Javascript(_) => Seq::empty(),
    }
}

/// What the templated formats make of the representations `v`, one behind the other.
pub open spec fn output_values_plan(v: Seq<OutputValueView>) -> Seq<PieceView>
    decreases v.len(),
{
    if v.len() == 0 {
        Seq::empty()
    } else {
        output_values_plan(v.drop_last()) + output_value_plan(v.last())
    }
}

/// What the templated formats make of an output of a code cell.
pub open spec fn cell_output_plan(o: CellOutputView) -> Seq<PieceView> {
    match o {
        CellOutputView::Stream { name, text } => match name {
            StreamType::StdOut => builtin("output_text"@, value_binding(ArgView::Text(text))),
            StreamType::StdErr => builtin("output_error"@, value_binding(ArgView::Text(text))),
        },
        CellOutputView::Data { data, .. } => output_values_plan(data),
        CellOutputView::Error { evalue, .. } => builtin(
            "output_error"@,
            value_binding(ArgView::Text(evalue)),
        ),
    }
}

/// What the templated formats make of the outputs `v`, one behind the other.
pub open spec fn cell_outputs_plan(v: Seq<CellOutputView>) -> Seq<PieceView>
    decreases v.len(),
{
    if v.len() == 0 {
        Seq::empty()
    } else {
        cell_outputs_plan(v.drop_last()) + cell_output_plan(v.last())
    }
}

/// What the templated formats make of a block whose children have been planned
/// as `inner`.
pub open spec fn block_node(b: BlockView, inner: Seq<PieceView>, env: PlanEnvView) -> Seq<
    PieceView,
> {
    match b {
        BlockView::Heading { lvl, .. } => builtin(
            "header"@,
            seq![
                bound("level"@, ArgView::Number(heading_number(lvl) as u64)),
                bound("inner"@, ArgView::Rendered(inner)),
            ],
        ),
        BlockView::Plain(_) => inner,
        BlockView::Paragraph(_) => builtin("paragraph"@, value_binding(ArgView::Rendered(inner))),
        BlockView::BlockQuote(_) => builtin("paragraph"@, value_binding(ArgView::Rendered(inner))),
        BlockView::CodeBlock { source, tags, outputs, .. } => builtin(
            "cell"@,
            cell_bindings(env, source, tags, cell_outputs_plan(outputs)),
        ),
        BlockView::List(None, _) => builtin(
            "list_unordered"@,
            value_binding(ArgView::Rendered(inner)),
        ),
        BlockView::List(Some(start), _) => builtin(
            "list_ordered"@,
            ordered_list_bindings(start, inner),
        ),
        BlockView::ListItem(_) => builtin("list_item"@, value_binding(ArgView::Rendered(inner))),
    }
}

/// A call of the builtin template `name` with `value` under the key `value`.
pub fn render_value_template(name: &str, value: Arg) -> (r: Vec<Piece>)
    ensures
        pieces_view(r@) == builtin(name@, value_binding(value@)),
{
    let mut args: Vec<Binding> = Vec::new();
    push_binding(&mut args, bind("value", value));
    assert(bindings_view(args@) =~= value_binding(value@));
    call_builtin(name, args)
}

/// A call of the builtin template `name` without arguments.
pub fn render_basic_template(name: &str) -> (r: Vec<Piece>)
    ensures
        pieces_view(r@) == builtin(name@, Seq::empty()),
{
    let args: Vec<Binding> = Vec::new();
    assert(bindings_view(args@) =~= Seq::<BindingView>::empty());
    call_builtin(name, args)
}

/// The bindings of a link or an image.
fn link_args(url: &str, alt: &str, inner: Vec<Piece>) -> (args: Vec<Binding>)
    ensures
        bindings_view(args@) == link_bindings(url@, alt@, pieces_view(inner@)),
{
    let mut args: Vec<Binding> = Vec::new();
    push_binding(&mut args, bind("url", Arg::Text(String::from_str(url))));
    push_binding(&mut args, bind("alt", Arg::Text(String::from_str(alt))));
    push_binding(&mut args, bind("inner", Arg::Rendered(inner)));
    assert(bindings_view(args@) =~= link_bindings(url@, alt@, pieces_view(inner@)));
    args
}

/// A call of the template `image`.
pub fn render_image(url: &str, alt: &str, inner: Vec<Piece>) -> (r: Vec<Piece>)
    ensures
        pieces_view(r@) == builtin("image"@, link_bindings(url@, alt@, pieces_view(inner@))),
{
    call_builtin("image", link_args(url, alt, inner))
}

/// A call of the template `link`.
pub fn render_link(url: &str, alt: &str, inner: Vec<Piece>) -> (r: Vec<Piece>)
    ensures
        pieces_view(r@) == builtin("link"@, link_bindings(url@, alt@, pieces_view(inner@))),
{
    call_builtin("link", link_args(url, alt, inner))
}

/// A call of the template `math`.
pub fn render_math(display_mode: bool, trailing_space: bool, inner: &str) -> (r: Vec<Piece>)
    ensures
        pieces_view(r@) == builtin("math"@, math_bindings(display_mode, trailing_space, inner@)),
{
    let mut args: Vec<Binding> = Vec::new();
    push_binding(&mut args, bind("display_mode", Arg::Bool(display_mode)));
    push_binding(&mut args, bind("trailing_space", Arg::Bool(trailing_space)));
    push_binding(&mut args, bind("value", Arg::Text(String::from_str(inner))));
    assert(bindings_view(args@) =~= math_bindings(display_mode, trailing_space, inner@));
    call_builtin("math", args)
}

/// A call of the template `list_ordered`.
pub fn render_ordered_list(start: u64, inner: Vec<Piece>) -> (r: Vec<Piece>)
    ensures
        pieces_view(r@) == builtin(
            "list_ordered"@,
            ordered_list_bindings(start, pieces_view(inner@)),
        ),
{
    let mut args: Vec<Binding> = Vec::new();
    push_binding(&mut args, bind("start", Arg::Number(start)));
    push_binding(&mut args, bind("value", Arg::Rendered(inner)));
    assert(bindings_view(args@) =~= ordered_list_bindings(start, pieces_view(inner@)));
    call_builtin("list_ordered", args)
}

impl GenericRenderer {
    /// What the templated formats make of one representation of a rich output.
    pub fn render_output_value(elem: &OutputValue) -> (r: Vec<Piece>)
        ensures
            pieces_view(r@) == output_value_plan(elem@),
    {
        match elem {
            OutputValue::Plain(s) => render_value_template(
                "output_text",
                Arg::Text(join_strings(s)),
            ),
            OutputValue::Image(s) => render_value_template("output_img", Arg::Text(s.clone())),
            OutputValue::Svg(s) => render_value_template("output_svg", Arg::Text(s.clone())),
            OutputValue::Json(j) => {
                let mut r: Vec<Piece> = Vec::new();
                r.push(Piece::Json(j.clone()));
                assert(pieces_view(r@) =~= seq![PieceView::Json(*j)]);
                r
            },
            OutputValue::Html(s) => text(s.as_str()),
            OutputValue::Javascript(_) => nothing(),
        }
    }

    /// What the templated formats make of an output of a code cell.
    pub fn render_cell_output(elem: &CellOutput) -> (r: Vec<Piece>)
        ensures
            pieces_view(r@) == cell_output_plan(elem@),
    {
        match elem {
            CellOutput::Stream { text, name } => match name {
                StreamType::StdOut => render_value_template("output_text", Arg::Text(text.clone())),
                StreamType::StdErr => render_value_template(
                    "output_error",
                    Arg::Text(text.clone()),
                ),
            },
            CellOutput::Data { data, .. } => {
                let mut out = nothing();
                let mut k: usize = 0;
                let ghost views = values_view(data@);
                assert(views.subrange(0, 0) =~= Seq::<OutputValueView>::empty());
                while k < data.len()
                    invariant
                        k <= data.len(),
                        views == values_view(data@),
                        pieces_view(out@) == output_values_plan(views.subrange(0, k as int)),
                    decreases data.len() - k,
                {
                    let piece = Self::render_output_value(&data[k]);
                    append(&mut out, piece);
                    proof {
                        assert(views.subrange(0, k + 1).drop_last() =~= views.subrange(
                            0,
                            k as int,
                        ));
                    }
                    k += 1;
                }
                assert(views.subrange(0, k as int) =~= views);
                out
            },
            CellOutput::Error { evalue, .. } => render_value_template(
                "output_error",
                Arg::Text(evalue.clone()),
            ),
        }
    }

    /// What the templated formats make of the outputs of a code cell.
    pub fn render_cell_outputs(outputs: &Vec<CellOutput>) -> (r: Vec<Piece>)
        ensures
            pieces_view(r@) == cell_outputs_plan(outputs_view(outputs@)),
    {
        let mut out = nothing();
        let mut k: usize = 0;
        let ghost views = outputs_view(outputs@);
        assert(views.subrange(0, 0) =~= Seq::<CellOutputView>::empty());
        while k < outputs.len()
            invariant
                k <= outputs.len(),
                views == outputs_view(outputs@),
                pieces_view(out@) == cell_outputs_plan(views.subrange(0, k as int)),
            decreases outputs.len() - k,
        {
            let piece = Self::render_cell_output(&outputs[k]);
            append(&mut out, piece);
            proof {
                assert(views.subrange(0, k + 1).drop_last() =~= views.subrange(0, k as int));
            }
            k += 1;
        }
        assert(views.subrange(0, k as int) =~= views);
        out
    }

    /// What the templated formats make of the inline `elem`, its children
    /// planned as `inner`: a call of the template of its kind. Text and HTML
    /// are written as they are.
    pub fn render_inline(elem: &Inline, inner: Vec<Piece>) -> (r: Vec<Piece>)
        ensures
            pieces_view(r@) == inline_node(elem@, pieces_view(inner@)),
    {
        match elem {
            Inline::Text(s) => text(s.as_str()),
            Inline::Emphasis(_) => render_value_template("emphasis", Arg::Rendered(inner)),
            Inline::Strong(_) => render_value_template("strong", Arg::Rendered(inner)),
            Inline::Strikethrough(_) => render_value_template(
                "strikethrough",
                Arg::Rendered(inner),
            ),
            Inline::Code(s) => render_value_template("inline_code", Arg::Text(s.clone())),
            Inline::SoftBreak => render_basic_template("soft_break"),
            Inline::HardBreak => render_basic_template("hard_break"),
            Inline::Rule => render_basic_template("horizontal_rule"),
            Inline::Image(_tp, url, alt, _) => render_image(url.as_str(), alt.as_str(), inner),
            Inline::Link(_tp, url, alt, _) => render_link(url.as_str(), alt.as_str(), inner),
            Inline::Html(s) => text(s.as_str()),
            Inline::Math { source, display_block, trailing_space } => render_math(
                *display_block,
                *trailing_space,
                source.as_str(),
            ),
            Inline::Shortcode(_) => nothing(),
        }
    }

    /// What the templated formats make of the block `elem`, its children
    /// planned as `inner`: a call of the template of its kind.
    pub fn render_block(elem: &Block, inner: Vec<Piece>, env: &PlanEnv) -> (r: Vec<Piece>)
        ensures
            pieces_view(r@) == block_node(elem@, pieces_view(inner@), env@),
    {
        match elem {
            Block::Heading { lvl, .. } => {
                let mut args: Vec<Binding> = Vec::new();
                push_binding(&mut args, bind("level", Arg::Number(header_lvl_to_int(lvl) as u64)));
                push_binding(&mut args, bind("inner", Arg::Rendered(inner)));
                assert(bindings_view(args@) =~= seq![
                    bound("level"@, ArgView::Number(heading_number(*lvl) as u64)),
                    bound("inner"@, ArgView::Rendered(pieces_view(inner@))),
                ]);
                call_builtin("header", args)
            },
            Block::Plain(_) => inner,
            Block::Paragraph(_) => render_value_template("paragraph", Arg::Rendered(inner)),
            Block::BlockQuote(_) => render_value_template("paragraph", Arg::Rendered(inner)),
            Block::CodeBlock { source, outputs, tags, .. } => {
                let rendered = Self::render_cell_outputs(outputs);
                let tags_arg = match tags {
                    Some(t) => Arg::Texts(clone_strings(t)),
                    None => Arg::Null,
                };
                let mut args: Vec<Binding> = Vec::new();
                push_binding(&mut args, bind("interactive", Arg::Bool(env.metadata.interactive)));
                push_binding(&mut args, bind("cell_outputs", Arg::Bool(env.metadata.cell_outputs)));
                push_binding(&mut args, bind("editable", Arg::Bool(env.metadata.editable)));
                push_binding(&mut args, bind("source", Arg::Text(source.clone())));
                push_binding(&mut args, bind("highlighted", Arg::Highlighted(source.clone())));
                push_binding(&mut args, bind("id", Arg::FreshId));
                push_binding(&mut args, bind("tags", tags_arg));
                push_binding(&mut args, bind("outputs", Arg::Rendered(rendered)));
                assert(bindings_view(args@) =~= cell_bindings(
                    env@,
                    source@,
                    elem@->CodeBlock_tags,
                    cell_outputs_plan(outputs_view(outputs@)),
                ));
                call_builtin("cell", args)
            },
            Block::List(idx, _) => match idx {
                None => render_value_template("list_unordered", Arg::Rendered(inner)),
                Some(start) => render_ordered_list(*start, inner),
            },
            Block::ListItem(_) => render_value_template("list_item", Arg::Rendered(inner)),
        }
    }
}

} // verus!
