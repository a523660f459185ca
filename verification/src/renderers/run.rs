//! Running a plan: literal text is written as it is, a template call is
//! handed to the engine with the values of its arguments, each plan among
//! them run first.

use crate::ast::Ast;
use crate::counter::IdCounter;
use crate::document::{clone_metadata, Document, DocumentVariables, OutputFormat};
use crate::engine::{
    context_entries, context_insert_value, context_new, find_syntax, highlight_html,
    highlighted, json_bool, json_error_text, json_null, json_number, json_string, json_text,
    json_written, outlines_record, outlines_value, reference_record, references_record,
    supports, syntax_for,
    syntect_error_text, text_entries, texts_value, EntryView, TemplateManager,
};
use crate::notebook::{clone_option, texts_joined};
use crate::plan::{
    bindings_view, pieces_view, Arg, ArgView, Binding, BindingView, Piece, PieceView, Reference,
};
use crate::renderers::generic::GenericRenderer;
use crate::renderers::latex::LatexRenderer;
use crate::renderers::markdown::{top_level, ToMarkdownContext, MarkdownRenderer};
use crate::renderers::shortcode::{PlanEnv, PlanEnvView, RenderError, RenderErrorView};
use crate::renderers::tree::{blocks_plan, plan_blocks, Flavor};
use vstd::prelude::*;
use vstd::string::*;

verus! {

/// What a render pass works with. It is made for one pass and shared with no
/// other.
pub struct RenderContext<'a> {
    /// The templates.
    pub templates: &'a TemplateManager,
    /// What every shortcode template receives besides its own arguments.
    pub extra_args: Vec<Binding>,
    /// The format to render to.
    pub format: OutputFormat,
    /// The document.
    pub doc: &'a Document<Ast>,
    /// The identified shortcode calls of the document.
    pub ids: Vec<Reference>,
    /// The syntax definitions for highlighting.
    pub syntax_set: &'a syntect::parsing::SyntaxSet,
    /// The colours for highlighting.
    pub theme: &'a syntect::highlighting::Theme,
    /// Where code cells get their identifiers from.
    pub counter: &'a IdCounter,
}

/// The output of a renderer.
pub type RenderResult = String;

impl<'a> RenderContext<'a> {
    /// What planning sees of the context.
    pub open spec fn plan_env(&self) -> PlanEnvView {
        PlanEnvView {
            definitions: self.templates@,
            extra_args: bindings_view(self.extra_args@),
            ids: crate::plan::references_view(self.ids@),
            interactive: self.doc.metadata.interactive,
            cell_outputs: self.doc.metadata.cell_outputs,
            editable: self.doc.metadata.editable,
        }
    }
}

/// The flavor in which a format is rendered: LaTeX and markdown each in their
/// own, all others through templates.
pub open spec fn format_flavor(format: OutputFormat) -> Flavor {
    match format {
        OutputFormat::LaTeX => Flavor::Latex,
        OutputFormat::Markdown => Flavor::Markdown,
        _ => Flavor::Templated,
    }
}

/// The flavor in which a format is rendered.
pub fn flavor_of(format: OutputFormat) -> (r: Flavor)
    ensures
        r == format_flavor(format),
{
    match format {
        OutputFormat::LaTeX => Flavor::Latex,
        OutputFormat::Markdown => Flavor::Markdown,
        _ => Flavor::Templated,
    }
}

/// A plan is plain: it is literal text throughout.
pub open spec fn is_plain(p: Seq<PieceView>) -> bool {
    forall|k: int| 0 <= k < p.len() ==> #[trigger] p[k] is Text
}

/// The text of a plain plan.
pub open spec fn plain_text(p: Seq<PieceView>) -> Seq<char>
    decreases p.len(),
{
    if p.len() == 0 {
        Seq::empty()
    } else {
        plain_text(p.drop_last()) + match p.last() {
            PieceView::Text(s) => s,
            _ => Seq::empty(),
        }
    }
}

/// The text `out` is what the piece `p` may yield: its text for a literal
/// piece, the JSON text of its value for a JSON value, and whatever the engine
/// made of it for a template call.
pub open spec fn yields(p: PieceView, out: Seq<char>) -> bool {
    match p {
        PieceView::Text(t) => out == t,
        PieceView::Json(value) => json_written(value) == Some(out),
        PieceView::Template { .. } => true,
    }
}

/// The texts `outs` fit the plan `p`: there is one for each piece, and it is
/// what the piece may yield.
pub open spec fn fits(p: Seq<PieceView>, outs: Seq<Seq<char>>) -> bool {
    &&& outs.len() == p.len()
    &&& forall|k: int| 0 <= k < p.len() ==> yields(#[trigger] p[k], outs[k])
}

/// The text `out` is an output of the plan `p`: the outputs of its pieces,
/// one behind the other.
pub open spec fn written(p: Seq<PieceView>, out: Seq<char>) -> bool {
    exists|outs: Seq<Seq<char>>| #[trigger] fits(p, outs) && out == texts_joined(outs)
}

/// The one output of a plain plan is its text.
pub proof fn lemma_plain_written(p: Seq<PieceView>, out: Seq<char>)
    requires
        is_plain(p),
    ensures
        written(p, out) <==> out == plain_text(p),
{
    if written(p, out) {
        let outs = choose|outs: Seq<Seq<char>>| #[trigger] fits(p, outs) && out == texts_joined(outs);
        lemma_plain_joined(p, outs);
    }
    if out == plain_text(p) {
        let outs = Seq::new(
            p.len(),
            |k: int|
                match p[k] {
                    PieceView::Text(s) => s,
                    _ => Seq::empty(),
                },
        );
        assert(fits(p, outs));
        lemma_plain_joined(p, outs);
    }
}

/// The texts that fit a plain plan make its text.
proof fn lemma_plain_joined(p: Seq<PieceView>, outs: Seq<Seq<char>>)
    requires
        is_plain(p),
        fits(p, outs),
    ensures
        texts_joined(outs) == plain_text(p),
    decreases p.len(),
{
    if p.len() > 0 {
        assert(p.drop_last().len() == outs.drop_last().len());
        assert forall|k: int| 0 <= k < p.drop_last().len() implies #[trigger] p.drop_last()[k] is Text by {
            assert(p.drop_last()[k] == p[k]);
        }
        assert(fits(p.drop_last(), outs.drop_last())) by {
            assert forall|k: int| 0 <= k < p.drop_last().len() implies yields(
                #[trigger] p.drop_last()[k],
                outs.drop_last()[k],
            ) by {
                assert(p.drop_last()[k] == p[k]);
                assert(outs.drop_last()[k] == outs[k]);
            }
        }
        lemma_plain_joined(p.drop_last(), outs.drop_last());
        assert(p[p.len() - 1] is Text);
    }
}

/// The value `e` is what a context may hold for the argument `a`: the
/// argument itself where it is a plain value, an output of the plan for a
/// plan that was run, the HTML of the code for highlighted code, and a number
/// for a fresh identifier.
pub open spec fn entry_fits(a: ArgView, e: EntryView, ctx: RenderContext) -> bool {
    match a {
        ArgView::Null => e == EntryView::Null,
        ArgView::Bool(b) => e == EntryView::Bool(b),
        ArgView::Number(n) => e == EntryView::Number(n),
        ArgView::Text(s) => e == EntryView::Text(s),
        ArgView::Texts(t) => e == EntryView::List(text_entries(t)),
        ArgView::References(r) => e == EntryView::Record(references_record(r)),
        ArgView::Definitions(d) => e == EntryView::Record(outlines_record(d)),
        ArgView::Rendered(plan) => e matches EntryView::Text(t) && written(plan, t),
        ArgView::FreshId => e is Number,
        ArgView::Highlighted(source) => e matches EntryView::Text(t) && python_html(source, ctx)
            == Some(t),
    }
}

/// The values of the bindings `args` can be had without the engine: none is
/// a plan with a template call or a JSON value in it, and there is HTML for
/// all code to highlight.
pub open spec fn engine_free(args: Seq<BindingView>, ctx: RenderContext) -> bool {
    forall|k: int|
        0 <= k < args.len() ==> match (#[trigger] args[k]).value {
            ArgView::Rendered(plan) => is_plain(plan),
            ArgView::Highlighted(source) => python_html(source, ctx) is Some,
            _ => true,
        }
}

/// Some binding of `args` has the key `key`.
pub open spec fn has_key(args: Seq<BindingView>, key: Seq<char>) -> bool {
    exists|i: int| 0 <= i < args.len() && (#[trigger] args[i]).key == key
}

/// The binding at index `i` counts: no later binding has its key.
pub open spec fn counts(args: Seq<BindingView>, i: int) -> bool {
    forall|j: int| i < j < args.len() ==> (#[trigger] args[j]).key != args[i].key
}

/// The entries `entries` were built from the bindings `args`: they hold a
/// value under the keys of the bindings and under no other, and under each key
/// a value that fits the argument of the last binding with that key.
pub open spec fn built_from(
    entries: Map<Seq<char>, EntryView>,
    args: Seq<BindingView>,
    ctx: RenderContext,
) -> bool {
    &&& forall|key: Seq<char>| #[trigger] entries.dom().contains(key) <==> has_key(args, key)
    &&& forall|i: int|
        0 <= i < args.len() && #[trigger] counts(args, i) ==> entry_fits(
            args[i].value,
            entries[args[i].key],
            ctx,
        )
}

/// What to return for what highlighting returned.
pub fn highlight_result(result: Result<String, syntect::Error>) -> (r: Result<String, RenderError>)
    ensures
        match result {
            Ok(html) => r == Ok::<String, RenderError>(html),
            Err(_) => r matches Err(e) && e is Highlight,
        },
{
    match result {
        Ok(html) => Ok(html),
        Err(e) => Err(RenderError::Highlight(syntect_error_text(&e))),
    }
}

/// The HTML that syntect writes for `source` highlighted as Python, with the
/// syntax set and the theme of `ctx`; `None` where the set has no syntax for
/// Python and where syntect cannot highlight the text.
pub open spec fn python_html(source: Seq<char>, ctx: RenderContext) -> Option<Seq<char>> {
    match syntax_for(*ctx.syntax_set, "py"@) {
        Some(syntax) => highlighted(source, *ctx.syntax_set, syntax, *ctx.theme),
        None => None,
    }
}

/// `source` highlighted as Python, as HTML. Fails where there is no such
/// HTML: with a message that says so where the syntax set of `ctx` knows no
/// Python, else with the message of syntect.
pub fn highlight(source: &str, ctx: &RenderContext) -> (r: Result<String, RenderError>)
    ensures
        match python_html(source@, *ctx) {
            Some(html) => r matches Ok(s) && s@ == html,
            None => r matches Err(e) && e is Highlight,
        },
        syntax_for(*ctx.syntax_set, "py"@) is None ==> (r matches Err(e) && e@
            == RenderErrorView::Highlight("no syntax for the extension py"@)),
{
    match find_syntax(ctx.syntax_set, "py") {
        Some(syntax) => highlight_result(
            highlight_html(source, ctx.syntax_set, syntax, ctx.theme),
        ),
        None => Err(RenderError::Highlight(String::from_str("no syntax for the extension py"))),
    }
}

/// What to return for what writing a JSON value returned.
pub fn json_result(result: Result<String, serde_json::Error>) -> (r: Result<String, RenderError>)
    ensures
        match result {
            Ok(s) => r == Ok::<String, RenderError>(s),
            Err(_) => r matches Err(e) && e is Json,
        },
{
    match result {
        Ok(s) => Ok(s),
        Err(e) => Err(RenderError::Json(json_error_text(&e))),
    }
}

/// Why a run fails before the engine has had a say.
pub enum Failure {
    /// There is no template of this name and kind with a source for the
    /// format.
    NotFound(Seq<char>),
    /// The syntax set knows no Python.
    NoPython,
    /// syntect cannot highlight the code.
    Highlight,
    /// serde_json cannot write the value.
    Json,
}

/// What a run comes to as far as the library decides it.
pub enum Early {
    /// The run reaches its end without the engine.
    Done,
    /// The run fails before the engine is asked.
    Fails(Failure),
    /// The run reaches a call of the engine; from there on the engine has a
    /// say in what follows.
    Open,
}

/// The error `e` reports the failure `f`.
pub open spec fn reports(e: RenderErrorView, f: Failure) -> bool {
    match f {
        Failure::NotFound(name) => e == RenderErrorView::TemplateNotFound(name),
        Failure::NoPython => e == RenderErrorView::Highlight("no syntax for the extension py"@),
        Failure::Highlight => e is Highlight,
        Failure::Json => e is Json,
    }
}

/// What running the plan `plan` comes to before the engine has had a say.
/// The pieces are run in their order. Literal text is written. A JSON value
/// is written or fails. For a template call the values of its arguments are
/// made first; then the template is looked up, which fails where there is
/// none, and the engine is asked.
pub open spec fn early(plan: Seq<PieceView>, ctx: RenderContext) -> Early
    decreases plan,
{
    if plan.len() == 0 {
        Early::Done
    } else {
        match plan[0] {
            PieceView::Text(_) => early(plan.drop_first(), ctx),
            PieceView::Json(value) => if json_written(value) is Some {
                early(plan.drop_first(), ctx)
            } else {
                Early::Fails(Failure::Json)
            },
            PieceView::Template { name, kind, args } => match early_args(args, ctx) {
                Early::Done => if supports(ctx.templates@, name, kind, ctx.format) {
                    Early::Open
                } else {
                    Early::Fails(Failure::NotFound(name))
                },
                other => other,
            },
        }
    }
}

/// What making the values of the bindings `args` comes to before the engine
/// has had a say. The values are made in the order of the bindings: a plan
/// is run, and code is highlighted, which fails where the syntax set knows
/// no Python and where syntect cannot highlight the code.
pub open spec fn early_args(args: Seq<BindingView>, ctx: RenderContext) -> Early
    decreases args,
{
    if args.len() == 0 {
        Early::Done
    } else {
        match args[0].value {
            ArgView::Rendered(plan) => match early(plan, ctx) {
                Early::Done => early_args(args.drop_first(), ctx),
                other => other,
            },
            ArgView::Highlighted(source) => if syntax_for(*ctx.syntax_set, "py"@) is None {
                Early::Fails(Failure::NoPython)
            } else if python_html(source, ctx) is None {
                Early::Fails(Failure::Highlight)
            } else {
                early_args(args.drop_first(), ctx)
            },
            _ => early_args(args.drop_first(), ctx),
        }
    }
}

/// An error that running a plan can return: every error but that of the
/// arguments of a shortcode, which are held against their parameters when
/// the plan is made.
pub open spec fn run_error(e: RenderErrorView) -> bool {
    e is TemplateNotFound || e is Engine || e is Highlight || e is Json
}

/// The piece `p` can be run to its end: a JSON value can be written, and
/// a template call has values that can be made and a template for the
/// format. Whether the engine then makes something of the call is for the
/// engine to say.
pub open spec fn piece_passes(p: PieceView, ctx: RenderContext) -> bool
    decreases p,
{
    match p {
        PieceView::Text(_) => true,
        PieceView::Json(value) => json_written(value) is Some,
        PieceView::Template { name, kind, args } => values_pass(args, ctx) && supports(
            ctx.templates@,
            name,
            kind,
            ctx.format,
        ),
    }
}

/// Every piece of the plan `plan` can be run to its end.
pub open spec fn passes(plan: Seq<PieceView>, ctx: RenderContext) -> bool
    decreases plan,
{
    plan.len() == 0 || (piece_passes(plan[0], ctx) && passes(plan.drop_first(), ctx))
}

/// The value `a` can be made: a plan can be run to its end, and there is
/// HTML for code to highlight.
pub open spec fn value_passes(a: ArgView, ctx: RenderContext) -> bool
    decreases a,
{
    match a {
        ArgView::Rendered(plan) => passes(plan, ctx),
        ArgView::Highlighted(source) => python_html(source, ctx) is Some,
        _ => true,
    }
}

/// Every value of the bindings `args` can be made.
pub open spec fn values_pass(args: Seq<BindingView>, ctx: RenderContext) -> bool
    decreases args,
{
    args.len() == 0 || (value_passes(args[0].value, ctx) && values_pass(
        args.drop_first(),
        ctx,
    ))
}

/// Running the piece `p` can end with the error `e`: a JSON value cannot be
/// written; or a value of a template call fails with `e`; or the values are
/// made and there is no template, which is the error; or the values are made
/// and the engine fails over the template.
pub open spec fn piece_fails(p: PieceView, ctx: RenderContext, e: RenderErrorView) -> bool
    decreases p,
{
    match p {
        PieceView::Text(_) => false,
        PieceView::Json(value) => json_written(value) is None && e is Json,
        PieceView::Template { name, kind, args } => values_fail(args, ctx, e) || (values_pass(
            args,
            ctx,
        ) && if supports(ctx.templates@, name, kind, ctx.format) {
            e matches RenderErrorView::Engine { template, .. } && template == name
        } else {
            e == RenderErrorView::TemplateNotFound(name)
        }),
    }
}

/// Running the plan `plan` can end with the error `e`: `e` is the error of
/// the first piece that fails, and every piece before it can be run to its
/// end.
pub open spec fn fails(plan: Seq<PieceView>, ctx: RenderContext, e: RenderErrorView) -> bool
    decreases plan,
{
    plan.len() > 0 && (piece_fails(plan[0], ctx, e) || (piece_passes(plan[0], ctx) && fails(
        plan.drop_first(),
        ctx,
        e,
    )))
}

/// Making the value `a` can end with the error `e`: the run of a plan fails
/// with it, or code cannot be highlighted, with the message that the syntax
/// set knows no Python where it knows none.
pub open spec fn value_fails(a: ArgView, ctx: RenderContext, e: RenderErrorView) -> bool
    decreases a,
{
    match a {
        ArgView::Rendered(plan) => fails(plan, ctx, e),
        ArgView::Highlighted(source) => python_html(source, ctx) is None && e is Highlight && (
        syntax_for(*ctx.syntax_set, "py"@) is None ==> e == RenderErrorView::Highlight(
            "no syntax for the extension py"@,
        )),
        _ => false,
    }
}

/// Making the values of the bindings `args` can end with the error `e`: `e`
/// is the error of the first value that fails, and every value before it can
/// be made.
pub open spec fn values_fail(args: Seq<BindingView>, ctx: RenderContext, e: RenderErrorView) -> bool
    decreases args,
{
    args.len() > 0 && (value_fails(args[0].value, ctx, e) || (value_passes(args[0].value, ctx)
        && values_fail(args.drop_first(), ctx, e)))
}

/// The first call of the plan decides where its template is missing: where
/// the piece at `k` is a template call behind literal text only, the values
/// of its arguments can be had without the engine, and there is no template
/// for it, the outcome is that the template was not found.
pub open spec fn first_call_pinned(
    plan: Seq<PieceView>,
    ctx: RenderContext,
    outcome: Result<Seq<char>, RenderErrorView>,
) -> bool {
    forall|k: int|
        0 <= k < plan.len() && (forall|j: int| 0 <= j < k ==> plan[j] is Text) && (
        #[trigger] plan[k]) is Template && engine_free(plan[k]->args, ctx) && !supports(
            ctx.templates@,
            plan[k]->name,
            plan[k]->kind,
            ctx.format,
        ) ==> outcome == Err::<Seq<char>, RenderErrorView>(
            RenderErrorView::TemplateNotFound(plan[k]->name),
        )
}

/// The first code that cannot be highlighted decides: where the binding at
/// `k` holds such code and the values before it can be had without the
/// engine, the outcome is an error of highlighting, with the message that
/// the syntax set knows no Python where it knows none.
pub open spec fn first_highlight_pinned(
    args: Seq<BindingView>,
    ctx: RenderContext,
    e: Option<RenderErrorView>,
) -> bool {
    forall|k: int|
        0 <= k < args.len() && engine_free(args.subrange(0, k), ctx) ==> ((
        #[trigger] args[k]).value matches ArgView::Highlighted(source) ==> (python_html(
            source,
            ctx,
        ) is None ==> (e matches Some(x) && x is Highlight && (syntax_for(
            *ctx.syntax_set,
            "py"@,
        ) is None ==> x == RenderErrorView::Highlight("no syntax for the extension py"@)))))
}

/// What a result of running holds: its text, or its error.
pub open spec fn outcome_view(r: Result<String, RenderError>) -> Result<
    Seq<char>,
    RenderErrorView,
> {
    match r {
        Ok(s) => Ok(s@),
        Err(e) => Err(e@),
    }
}

/// The error of a result, if it is one.
pub open spec fn error_view<T>(r: Result<T, RenderError>) -> Option<RenderErrorView> {
    match r {
        Ok(_) => None,
        Err(e) => Some(e@),
    }
}

/// The outcome `outcome` is one of running the plan `plan`.
///
/// A text is an output of the plan, and then every piece can be run to its
/// end. An error is that of the first piece that fails. As far as the
/// library decides, the outcome is decided: a run that needs no engine
/// succeeds, and one that fails before the engine is asked returns that
/// failure.
pub open spec fn ran(
    plan: Seq<PieceView>,
    ctx: RenderContext,
    outcome: Result<Seq<char>, RenderErrorView>,
) -> bool {
    &&& outcome matches Ok(s) ==> written(plan, s) && passes(plan, ctx)
    &&& outcome matches Err(e) ==> run_error(e) && fails(plan, ctx, e)
    &&& run_decided(plan, ctx, outcome)
    &&& first_call_pinned(plan, ctx, outcome)
    &&& is_plain(plan) ==> outcome == Ok::<Seq<char>, RenderErrorView>(plain_text(plan))
}

/// A plain plan reaches its end without the engine.
pub proof fn lemma_plain_is_done(plan: Seq<PieceView>, ctx: RenderContext)
    requires
        is_plain(plan),
    ensures
        early(plan, ctx) == Early::Done,
    decreases plan.len(),
{
    if plan.len() > 0 {
        assert(plan[0] is Text);
        assert forall|k: int| 0 <= k < plan.drop_first().len() implies #[trigger] plan.drop_first()[k] is Text by {
            assert(plan.drop_first()[k] == plan[k + 1]);
        }
        lemma_plain_is_done(plan.drop_first(), ctx);
    }
}

/// Values that can be had without the engine are made without a failure.
pub proof fn lemma_engine_free_is_done(args: Seq<BindingView>, ctx: RenderContext)
    requires
        engine_free(args, ctx),
    ensures
        early_args(args, ctx) == Early::Done,
    decreases args.len(),
{
    if args.len() > 0 {
        assert(args[0] == args[0]);
        assert forall|k: int| 0 <= k < args.drop_first().len() implies match (
        #[trigger] args.drop_first()[k]).value {
            ArgView::Rendered(plan) => is_plain(plan),
            ArgView::Highlighted(source) => python_html(source, ctx) is Some,
            _ => true,
        } by {
            assert(args.drop_first()[k] == args[k + 1]);
        }
        if let ArgView::Rendered(plan) = args[0].value {
            lemma_plain_is_done(plan, ctx);
        }
        lemma_engine_free_is_done(args.drop_first(), ctx);
    }
}

/// A call behind literal text only, whose values can be had without the
/// engine and whose template is missing, fails the run before the engine
/// is asked.
pub proof fn lemma_first_call(plan: Seq<PieceView>, ctx: RenderContext, k: int)
    requires
        0 <= k < plan.len(),
        forall|j: int| 0 <= j < k ==> plan[j] is Text,
        plan[k] is Template,
        engine_free(plan[k]->args, ctx),
        !supports(ctx.templates@, plan[k]->name, plan[k]->kind, ctx.format),
    ensures
        early(plan, ctx) == Early::Fails(Failure::NotFound(plan[k]->name)),
    decreases k,
{
    if k == 0 {
        lemma_engine_free_is_done(plan[0]->args, ctx);
    } else {
        assert(plan[0] is Text);
        assert(plan.drop_first()[k - 1] == plan[k]);
        assert forall|j: int| 0 <= j < k - 1 implies plan.drop_first()[j] is Text by {
            assert(plan.drop_first()[j] == plan[j + 1]);
        }
        lemma_first_call(plan.drop_first(), ctx, k - 1);
    }
}

/// Code that cannot be highlighted, behind values that can be had without
/// the engine, fails the making of the values.
pub proof fn lemma_first_highlight(args: Seq<BindingView>, ctx: RenderContext, k: int)
    requires
        0 <= k < args.len(),
        engine_free(args.subrange(0, k), ctx),
        args[k].value matches ArgView::Highlighted(source) && python_html(source, ctx) is None,
    ensures
        early_args(args, ctx) == if syntax_for(*ctx.syntax_set, "py"@) is None {
            Early::Fails(Failure::NoPython)
        } else {
            Early::Fails(Failure::Highlight)
        },
    decreases k,
{
    if k > 0 {
        let head = args.subrange(0, k);
        assert(head[0] == args[0]);
        if let ArgView::Rendered(plan) = args[0].value {
            lemma_plain_is_done(plan, ctx);
        }
        assert(args.drop_first()[k - 1] == args[k]);
        assert forall|j: int| 0 <= j < k - 1 implies match (#[trigger] args.drop_first().subrange(
            0,
            k - 1,
        )[j]).value {
            ArgView::Rendered(plan) => is_plain(plan),
            ArgView::Highlighted(source) => python_html(source, ctx) is Some,
            _ => true,
        } by {
            assert(args.drop_first().subrange(0, k - 1)[j] == head[j + 1]);
        }
        lemma_first_highlight(args.drop_first(), ctx, k - 1);
    }
}

/// Where the pieces before `k` can be run to their end and the piece at `k`
/// fails with `e`, the plan fails with `e`.
pub proof fn lemma_fails_at(plan: Seq<PieceView>, ctx: RenderContext, e: RenderErrorView, k: int)
    requires
        0 <= k < plan.len(),
        forall|j: int| 0 <= j < k ==> piece_passes(#[trigger] plan[j], ctx),
        piece_fails(plan[k], ctx, e),
    ensures
        fails(plan, ctx, e),
    decreases k,
{
    if k > 0 {
        assert(piece_passes(plan[0], ctx));
        assert(plan.drop_first()[k - 1] == plan[k]);
        assert forall|j: int| 0 <= j < k - 1 implies piece_passes(
            #[trigger] plan.drop_first()[j],
            ctx,
        ) by {
            assert(plan.drop_first()[j] == plan[j + 1]);
        }
        lemma_fails_at(plan.drop_first(), ctx, e, k - 1);
    }
}

/// Where every piece can be run to its end, the plan can.
pub proof fn lemma_passes(plan: Seq<PieceView>, ctx: RenderContext)
    requires
        forall|j: int| 0 <= j < plan.len() ==> piece_passes(#[trigger] plan[j], ctx),
    ensures
        passes(plan, ctx),
    decreases plan.len(),
{
    if plan.len() > 0 {
        assert(piece_passes(plan[0], ctx));
        assert forall|j: int| 0 <= j < plan.drop_first().len() implies piece_passes(
            #[trigger] plan.drop_first()[j],
            ctx,
        ) by {
            assert(plan.drop_first()[j] == plan[j + 1]);
        }
        lemma_passes(plan.drop_first(), ctx);
    }
}

/// Where the values before `k` can be made and the value at `k` fails with
/// `e`, the making of the values fails with `e`.
pub proof fn lemma_values_fail_at(
    args: Seq<BindingView>,
    ctx: RenderContext,
    e: RenderErrorView,
    k: int,
)
    requires
        0 <= k < args.len(),
        forall|j: int| 0 <= j < k ==> value_passes((#[trigger] args[j]).value, ctx),
        value_fails(args[k].value, ctx, e),
    ensures
        values_fail(args, ctx, e),
    decreases k,
{
    if k > 0 {
        assert(value_passes(args[0].value, ctx));
        assert(args.drop_first()[k - 1] == args[k]);
        assert forall|j: int| 0 <= j < k - 1 implies value_passes(
            (#[trigger] args.drop_first()[j]).value,
            ctx,
        ) by {
            assert(args.drop_first()[j] == args[j + 1]);
        }
        lemma_values_fail_at(args.drop_first(), ctx, e, k - 1);
    }
}

/// Where every value can be made, the values can.
pub proof fn lemma_values_pass(args: Seq<BindingView>, ctx: RenderContext)
    requires
        forall|j: int| 0 <= j < args.len() ==> value_passes((#[trigger] args[j]).value, ctx),
    ensures
        values_pass(args, ctx),
    decreases args.len(),
{
    if args.len() > 0 {
        assert(value_passes(args[0].value, ctx));
        assert forall|j: int| 0 <= j < args.drop_first().len() implies value_passes(
            (#[trigger] args.drop_first()[j]).value,
            ctx,
        ) by {
            assert(args.drop_first()[j] == args[j + 1]);
        }
        lemma_values_pass(args.drop_first(), ctx);
    }
}

/// As far as the library decides, the making of the values of `args` is
/// decided: `e` is the error that it ended with, if any.
pub open spec fn values_decided(
    args: Seq<BindingView>,
    ctx: RenderContext,
    e: Option<RenderErrorView>,
) -> bool {
    match early_args(args, ctx) {
        Early::Done => e is None,
        Early::Fails(f) => e matches Some(x) && reports(x, f),
        Early::Open => true,
    }
}

/// As far as the library decides, the run of `plan` is decided.
pub open spec fn run_decided(
    plan: Seq<PieceView>,
    ctx: RenderContext,
    outcome: Result<Seq<char>, RenderErrorView>,
) -> bool {
    match early(plan, ctx) {
        Early::Done => outcome is Ok,
        Early::Fails(f) => outcome matches Err(e) && reports(e, f),
        Early::Open => true,
    }
}

/// Where the making of values is decided as far as the library decides it,
/// the first code that cannot be highlighted decides, and values that can be
/// had without the engine are made.
pub proof fn lemma_values_decided(
    args: Seq<BindingView>,
    ctx: RenderContext,
    e: Option<RenderErrorView>,
)
    requires
        values_decided(args, ctx, e),
    ensures
        first_highlight_pinned(args, ctx, e),
        engine_free(args, ctx) ==> e is None,
{
    assert forall|k: int|
        0 <= k < args.len() && engine_free(args.subrange(0, k), ctx) implies ((
    #[trigger] args[k]).value matches ArgView::Highlighted(source) ==> (python_html(source, ctx)
        is None ==> (e matches Some(x) && x is Highlight && (syntax_for(*ctx.syntax_set, "py"@)
        is None ==> x == RenderErrorView::Highlight("no syntax for the extension py"@))))) by {
        if let ArgView::Highlighted(source) = args[k].value {
            if python_html(source, ctx) is None {
                lemma_first_highlight(args, ctx, k);
            }
        }
    }
    if engine_free(args, ctx) {
        lemma_engine_free_is_done(args, ctx);
    }
}

/// Where a run is decided as far as the library decides it, its first call
/// decides where its template is missing, and a plain plan runs to its text.
pub proof fn lemma_run_decided(
    plan: Seq<PieceView>,
    ctx: RenderContext,
    outcome: Result<Seq<char>, RenderErrorView>,
)
    requires
        run_decided(plan, ctx, outcome),
        outcome matches Ok(s) ==> written(plan, s),
    ensures
        first_call_pinned(plan, ctx, outcome),
        is_plain(plan) ==> outcome == Ok::<Seq<char>, RenderErrorView>(plain_text(plan)),
{
    assert forall|k: int|
        0 <= k < plan.len() && (forall|j: int| 0 <= j < k ==> plan[j] is Text) && (
        #[trigger] plan[k]) is Template && engine_free(plan[k]->args, ctx) && !supports(
            ctx.templates@,
            plan[k]->name,
            plan[k]->kind,
            ctx.format,
        ) implies outcome == Err::<Seq<char>, RenderErrorView>(
        RenderErrorView::TemplateNotFound(plan[k]->name),
    ) by {
        lemma_first_call(plan, ctx, k);
    }
    if is_plain(plan) {
        lemma_plain_is_done(plan, ctx);
        lemma_plain_written(plan, outcome->Ok_0);
    }
}

/// The context that the bindings `args` make: each value is put under its key
/// in the order of the bindings. A plan among the values is run first and
/// its output put as a text, a fresh identifier is drawn from the counter, and
/// code is highlighted as Python.
///
/// Fails with the error of the first value that fails. As far as the
/// library decides, that is decided: values that need no engine are made,
/// and where a value fails before the engine is asked, that failure is
/// returned.
pub fn build_context(args: &Vec<Binding>, ctx: &RenderContext) -> (r: Result<
    tera::Context,
    RenderError,
>)
    ensures
        r matches Ok(c) ==> built_from(context_entries(c), bindings_view(args@), *ctx)
            && values_pass(bindings_view(args@), *ctx),
        r matches Err(e) ==> run_error(e@) && values_fail(bindings_view(args@), *ctx, e@),
        values_decided(bindings_view(args@), *ctx, error_view(r)),
        first_highlight_pinned(bindings_view(args@), *ctx, error_view(r)),
        engine_free(bindings_view(args@), *ctx) ==> r is Ok,
    decreases args,
{
    let ghost views = bindings_view(args@);
    let mut context = context_new();
    let mut k: usize = 0;
    proof {
        assert(views.subrange(0, 0).len() == 0);
        assert(context_entries(context).dom() =~= Set::<Seq<char>>::empty());
        assert(views.subrange(0, views.len() as int) =~= views);
    }
    while k < args.len()
        invariant
            k <= args.len(),
            views == bindings_view(args@),
            built_from(context_entries(context), views.subrange(0, k as int), *ctx),
            forall|j: int| 0 <= j < k ==> value_passes((#[trigger] views[j]).value, *ctx),
            early_args(views, *ctx) is Open || early_args(views, *ctx) == early_args(
                views.subrange(k as int, views.len() as int),
                *ctx,
            ),
        decreases args.len() - k,
    {
        let ghost before = context_entries(context);
        let ghost tail = views.subrange(k as int, views.len() as int);
        let key = args[k].key.as_str();
        proof {
            assert(views[k as int] == args[k as int]@);
            assert(views[k as int].key == key@);
            assert(views[k as int].value == args[k as int].value@);
            assert(tail[0] == views[k as int]);
            assert(tail.drop_first() =~= views.subrange(k + 1, views.len() as int));
        }
        match &args[k].value {
            Arg::Null => {
                context_insert_value(&mut context, key, &json_null());
            },
            Arg::Bool(b) => {
                context_insert_value(&mut context, key, &json_bool(*b));
            },
            Arg::Number(n) => {
                context_insert_value(&mut context, key, &json_number(*n));
            },
            Arg::Text(s) => {
                context_insert_value(&mut context, key, &json_string(s.as_str()));
            },
            Arg::Texts(t) => {
                context_insert_value(&mut context, key, &texts_value(t));
            },
            Arg::References(refs) => {
                context_insert_value(&mut context, key, &reference_record(refs));
            },
            Arg::Definitions(outlines) => {
                context_insert_value(&mut context, key, &outlines_value(outlines));
            },
            Arg::Rendered(plan) => {
                let output = match run(plan, ctx) {
                    Ok(s) => s,
                    Err(e) => {
                        proof {
                            lemma_values_fail_at(views, *ctx, e@, k as int);
                            lemma_values_decided(views, *ctx, Some(e@));
                        }
                        return Err(e);
                    },
                };
                context_insert_value(&mut context, key, &json_string(output.as_str()));
            },
            Arg::FreshId => {
                let id = ctx.counter.get_id();
                context_insert_value(&mut context, key, &json_number(id as u64));
            },
            Arg::Highlighted(source) => {
                let html = match highlight(source.as_str(), ctx) {
                    Ok(s) => s,
                    Err(e) => {
                        proof {
                            lemma_values_fail_at(views, *ctx, e@, k as int);
                            lemma_values_decided(views, *ctx, Some(e@));
                        }
                        return Err(e);
                    },
                };
                context_insert_value(&mut context, key, &json_string(html.as_str()));
            },
        }
        proof {
            let then = views.subrange(0, k as int);
            let now = views.subrange(0, k + 1);
            let after = context_entries(context);
            let added = views[k as int].key;
            assert(after.dom() =~= before.dom().insert(added));
            assert(now[k as int] == views[k as int]);
            assert(entry_fits(views[k as int].value, after[added], *ctx));
            assert forall|key: Seq<char>| #[trigger] after.dom().contains(key) <==> has_key(
                now,
                key,
            ) by {
                if has_key(now, key) {
                    let i = choose|i: int| 0 <= i < now.len() && (#[trigger] now[i]).key == key;
                    if i < k {
                        assert(then[i].key == key);
                        assert(has_key(then, key));
                    }
                }
                if after.dom().contains(key) && key != added {
                    assert(has_key(then, key));
                    let i = choose|i: int| 0 <= i < then.len() && (#[trigger] then[i]).key == key;
                    assert(now[i].key == key);
                }
            }
            assert forall|i: int| 0 <= i < now.len() && #[trigger] counts(now, i) implies entry_fits(
                now[i].value,
                after[now[i].key],
                *ctx,
            ) by {
                if i < k {
                    assert(now[k as int].key != now[i].key);
                    assert(then[i] == now[i]);
                    assert(counts(then, i)) by {
                        assert forall|j: int| i < j < then.len() implies (#[trigger] then[j]).key
                            != then[i].key by {
                            assert(now[j] == then[j]);
                        }
                    }
                }
            }
        }
        k += 1;
    }
    proof {
        assert(views.subrange(0, k as int) =~= views);
        assert(views.subrange(k as int, views.len() as int).len() == 0);
        lemma_values_decided(views, *ctx, None);
        lemma_values_pass(views, *ctx);
    }
    Ok(context)
}

/// The output of the plan `pieces`: the output of each piece, one behind the
/// other. The first error ends the run.
///
/// Literal text is written as it is and a JSON value as serde_json writes
/// it; what a template call yields is for the engine to say. An error is
/// that of the first piece that fails: a missing template by its name,
/// an error of the engine by the name of the template. As far as the
/// library decides, the outcome is decided: a run that needs no engine
/// succeeds, and one that fails before the engine is asked returns that
/// failure. No error is one of the arguments of a shortcode: those are held
/// against their parameters when the plan is made.
pub fn run(pieces: &Vec<Piece>, ctx: &RenderContext) -> (r: Result<String, RenderError>)
    ensures
        ran(pieces_view(pieces@), *ctx, outcome_view(r)),
    decreases pieces,
{
    let ghost views = pieces_view(pieces@);
    let ghost mut outs: Seq<Seq<char>> = Seq::empty();
    let mut out = String::new();
    let mut k: usize = 0;
    proof {
        assert(views.subrange(0, views.len() as int) =~= views);
    }
    while k < pieces.len()
        invariant
            k <= pieces.len(),
            views == pieces_view(pieces@),
            fits(views.subrange(0, k as int), outs),
            out@ == texts_joined(outs),
            forall|j: int| 0 <= j < k ==> piece_passes(#[trigger] views[j], *ctx),
            early(views, *ctx) is Open || early(views, *ctx) == early(
                views.subrange(k as int, views.len() as int),
                *ctx,
            ),
        decreases pieces.len() - k,
    {
        let ghost before = out@;
        let ghost tail = views.subrange(k as int, views.len() as int);
        proof {
            assert(views[k as int] == pieces[k as int]@);
            assert(tail[0] == views[k as int]);
            assert(tail.drop_first() =~= views.subrange(k + 1, views.len() as int));
        }
        match &pieces[k] {
            Piece::Text(s) => {
                out.append(s.as_str());
                assert(out@.subrange(before.len() as int, out@.len() as int) =~= s@);
            },
            Piece::Template { name, kind, args } => {
                let context = match build_context(args, ctx) {
                    Ok(c) => c,
                    Err(e) => {
                        proof {
                            lemma_fails_at(views, *ctx, e@, k as int);
                            lemma_run_decided(views, *ctx, Err(e@));
                        }
                        return Err(e);
                    },
                };
                match ctx.templates.render(name.as_str(), ctx.format, *kind, &context) {
                    Ok(s) => {
                        out.append(s.as_str());
                    },
                    Err(e) => {
                        proof {
                            lemma_fails_at(views, *ctx, e@, k as int);
                            lemma_run_decided(views, *ctx, Err(e@));
                        }
                        return Err(e);
                    },
                }
            },
            Piece::Json(value) => {
                match json_result(json_text(value)) {
                    Ok(s) => {
                        out.append(s.as_str());
                        assert(out@.subrange(before.len() as int, out@.len() as int) =~= s@);
                    },
                    Err(e) => {
                        proof {
                            lemma_fails_at(views, *ctx, e@, k as int);
                            lemma_run_decided(views, *ctx, Err(e@));
                        }
                        return Err(e);
                    },
                }
            },
        }
        proof {
            let added = out@.subrange(before.len() as int, out@.len() as int);
            assert(out@ =~= before + added);
            let next = outs.push(added);
            assert(next.drop_last() =~= outs);
            assert(fits(views.subrange(0, k + 1), next)) by {
                assert forall|j: int| 0 <= j < k + 1 implies yields(
                    #[trigger] views.subrange(0, k + 1)[j],
                    next[j],
                ) by {
                    if j < k {
                        assert(views.subrange(0, k as int)[j] == views[j]);
                    } else {
                        assert(yields(views[k as int], added));
                    }
                }
            }
            outs = next;
        }
        k += 1;
    }
    proof {
        assert(views.subrange(0, k as int) =~= views);
        assert(views.subrange(k as int, views.len() as int).len() == 0);
        lemma_run_decided(views, *ctx, Ok(out@));
        lemma_passes(views, *ctx);
    }
    Ok(out)
}

/// What a rendered document holds of the run: its content, or the error.
pub open spec fn rendered_view(r: Result<Document<RenderResult>, RenderError>) -> Result<
    Seq<char>,
    RenderErrorView,
> {
    match r {
        Ok(d) => Ok(d.content@),
        Err(e) => Err(e@),
    }
}

/// Renders the document of `ctx` in the flavor `flavor`: the tree is planned
/// and the plan is run. Metadata and variables are those of the document.
///
/// Fails where planning fails, with the error of the plan, and where the
/// run of the plan fails, with the error of the run: the outcome is one of
/// running the plan.
pub fn render_document(flavor: Flavor, ctx: &RenderContext) -> (r: Result<
    Document<RenderResult>,
    RenderError,
>)
    ensures
        match blocks_plan(flavor, ctx.doc.content@, ctx.plan_env(), top_level()) {
            Err(e) => r matches Err(x) && x@ == e,
            Ok((plan, _)) => {
                &&& r matches Ok(d) ==> d.metadata@ == ctx.doc.metadata@ && d.variables@
                    == ctx.doc.variables@
                &&& ran(plan, *ctx, rendered_view(r))
            },
        },
{
    let env = PlanEnv {
        definitions: ctx.templates.definitions(),
        extra_args: &ctx.extra_args,
        ids: &ctx.ids,
        metadata: &ctx.doc.metadata,
    };
    proof {
        ctx.templates.lemma_view();
        assert(env@ == ctx.plan_env());
    }
    let (plan, _) = match plan_blocks(flavor, &ctx.doc.content.0, &env, ToMarkdownContext::new()) {
        Ok(planned) => planned,
        Err(e) => {
            return Err(e);
        },
    };
    let content = match run(&plan, ctx) {
        Ok(s) => s,
        Err(e) => {
            return Err(e);
        },
    };
    Ok(
        Document {
            content,
            metadata: clone_metadata(&ctx.doc.metadata),
            variables: DocumentVariables {
                first_heading: clone_option(&ctx.doc.variables.first_heading),
            },
        },
    )
}

/// What renders a document.
pub trait DocumentRenderer {
    /// The flavor in which the renderer renders.
    spec fn flavor(&self) -> Flavor;

    /// Renders the document of `ctx`.
    fn render_doc(&mut self, ctx: &RenderContext) -> (r: Result<
        Document<RenderResult>,
        RenderError,
    >)
        ensures
            match blocks_plan(old(self).flavor(), ctx.doc.content@, ctx.plan_env(), top_level()) {
                Err(e) => r matches Err(x) && x@ == e,
                Ok((plan, _)) => {
                    &&& r matches Ok(d) ==> d.metadata@ == ctx.doc.metadata@ && d.variables@
                        == ctx.doc.variables@
                    &&& ran(plan, *ctx, rendered_view(r))
                },
            },
    ;
}

impl LatexRenderer {
    /// Renders the document of `ctx` as LaTeX.
    pub fn render(&self, ctx: &RenderContext) -> (r: Result<Document<RenderResult>, RenderError>)
        ensures
            match blocks_plan(Flavor::Latex, ctx.doc.content@, ctx.plan_env(), top_level()) {
                Err(e) => r matches Err(x) && x@ == e,
                Ok((plan, _)) => {
                    &&& r matches Ok(d) ==> d.metadata@ == ctx.doc.metadata@ && d.variables@
                        == ctx.doc.variables@
                    &&& ran(plan, *ctx, rendered_view(r))
                },
            },
    {
        render_document(Flavor::Latex, ctx)
    }
}

impl MarkdownRenderer {
    /// Renders the document of `ctx` as markdown.
    pub fn render(&self, ctx: &RenderContext) -> (r: Result<Document<RenderResult>, RenderError>)
        ensures
            match blocks_plan(Flavor::Markdown, ctx.doc.content@, ctx.plan_env(), top_level()) {
                Err(e) => r matches Err(x) && x@ == e,
                Ok((plan, _)) => {
                    &&& r matches Ok(d) ==> d.metadata@ == ctx.doc.metadata@ && d.variables@
                        == ctx.doc.variables@
                    &&& ran(plan, *ctx, rendered_view(r))
                },
            },
    {
        render_document(Flavor::Markdown, ctx)
    }
}

impl DocumentRenderer for GenericRenderer {
    open spec fn flavor(&self) -> Flavor {
        Flavor::Templated
    }

    fn render_doc(&mut self, ctx: &RenderContext) -> (r: Result<
        Document<RenderResult>,
        RenderError,
    >) {
        render_document(Flavor::Templated, ctx)
    }
}

impl DocumentRenderer for LatexRenderer {
    open spec fn flavor(&self) -> Flavor {
        Flavor::Latex
    }

    fn render_doc(&mut self, ctx: &RenderContext) -> (r: Result<
        Document<RenderResult>,
        RenderError,
    >) {
        render_document(Flavor::Latex, ctx)
    }
}

impl DocumentRenderer for MarkdownRenderer {
    open spec fn flavor(&self) -> Flavor {
        Flavor::Markdown
    }

    fn render_doc(&mut self, ctx: &RenderContext) -> (r: Result<
        Document<RenderResult>,
        RenderError,
    >) {
        render_document(Flavor::Markdown, ctx)
    }
}

} // verus!
