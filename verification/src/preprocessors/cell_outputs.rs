//! Puts the outputs of code cells into the tree as shortcode calls: text as a
//! call of `output_text`, an image as a call of `figure`.

use crate::ast::{
    blocks_view, clone_block, Argument, ArgumentView, Ast, Block, BlockView, Inline,
    InlineView, Shortcode, ShortcodeBase, ShortcodeBaseView, ShortcodeView,
};
use crate::document::Document;
use crate::preprocessors::ordinals::{blocks_highest, highest};
use crate::notebook::{
    clone_option, join_strings, outputs_view, texts_joined, values_view, CellOutput,
    CellOutputView, OutputValue, OutputValueView,
};
use vstd::prelude::*;
use vstd::string::*;

verus! {

/// The configuration of the cell processor: it has no settings.
#[derive(Clone, Copy, Debug)]
pub struct CellOutputConfig;

/// Puts the outputs of code cells into the tree, where the document asks for them.
#[derive(Clone, Copy, Debug, Default)]
pub struct CellProcessor;

/// Visits the blocks of a tree and puts the outputs of each code cell behind
/// it. The calls that it puts into the tree are numbered as it goes: it holds
/// the ordinal of the last call of each of the two names.
#[derive(Clone, Copy, Debug)]
pub struct CellVisitor {
    /// The ordinal of the last call of `output_text`.
    pub texts: usize,
    /// The ordinal of the last call of `figure`.
    pub figures: usize,
}

/// One more than `n`, the largest `usize` being the last number.
pub open spec fn following(n: usize) -> usize {
    if n < usize::MAX {
        (n + 1) as usize
    } else {
        n
    }
}

/// The visitor behind one more call of `output_text`.
pub open spec fn behind_text(st: CellVisitor) -> CellVisitor {
    CellVisitor { texts: following(st.texts), figures: st.figures }
}

/// The visitor behind one more call of `figure`.
pub open spec fn behind_figure(st: CellVisitor) -> CellVisitor {
    CellVisitor { texts: st.texts, figures: following(st.figures) }
}

/// The visitor that numbers behind the calls that the blocks `v` hold
/// already.
pub open spec fn visitor_behind(v: Seq<BlockView>) -> CellVisitor {
    CellVisitor {
        texts: blocks_highest(v, "output_text"@) as usize,
        figures: blocks_highest(v, "figure"@) as usize,
    }
}

/// The text `s` as the value of an argument: one plain block.
pub open spec fn text_value(s: Seq<char>) -> Seq<BlockView> {
    seq![BlockView::Plain(seq![InlineView::Text(s)])]
}

/// The call of the shortcode `name` with the ordinal `num` and the one
/// argument `key`, as a block.
pub open spec fn command(
    name: Seq<char>,
    id: Option<Seq<char>>,
    num: nat,
    key: Seq<char>,
    value: Seq<char>,
) -> BlockView {
    BlockView::Plain(
        seq![
            InlineView::Shortcode(
                ShortcodeView::Inline(
                    ShortcodeBaseView {
                        name,
                        id,
                        num,
                        parameters: seq![ArgumentView::Keyword(key, text_value(value))],
                    },
                ),
            ),
        ],
    )
}

/// The calls for one representation of a rich output, and the visitor
/// behind them: `output_text` for text, `figure` for an image, nothing for
/// the others. Each call has the next ordinal of its name. A figure has the
/// reference of its cell as its id.
pub open spec fn value_commands(v: OutputValueView, reference: Option<Seq<char>>, st: CellVisitor)
    -> (Seq<BlockView>, CellVisitor) {
    match v {
        OutputValueView::Plain(s) => (
            seq![
                command("output_text"@, None, following(st.texts) as nat, "value"@, texts_joined(s)),
            ],
            behind_text(st),
        ),
        OutputValueView::Image(png) => (
            seq![command("figure"@, reference, following(st.figures) as nat, "base64"@, png)],
            behind_figure(st),
        ),
        OutputValueView::Svg(svg) => (
            seq![command("figure"@, reference, following(st.figures) as nat, "svg"@, svg)],
            behind_figure(st),
        ),
        _ => (Seq::empty(), st),
    }
}

/// The blocks `first`, and behind them what `rest` holds.
pub open spec fn then(first: Seq<BlockView>, rest: (Seq<BlockView>, CellVisitor)) -> (
    Seq<BlockView>,
    CellVisitor,
) {
    (first + rest.0, rest.1)
}

/// The calls for the representations `v`, one behind the other.
pub open spec fn values_commands(
    v: Seq<OutputValueView>,
    reference: Option<Seq<char>>,
    st: CellVisitor,
) -> (Seq<BlockView>, CellVisitor)
    decreases v.len(),
{
    if v.len() == 0 {
        (Seq::empty(), st)
    } else {
        let first = values_commands(v.drop_last(), reference, st);
        then(first.0, value_commands(v.last(), reference, first.1))
    }
}

/// The calls for an output of a code cell: `output_text` for the text of a
/// stream, the calls of its values for a rich output, nothing for an error.
pub open spec fn output_commands(o: CellOutputView, reference: Option<Seq<char>>, st: CellVisitor)
    -> (Seq<BlockView>, CellVisitor) {
    match o {
        CellOutputView::Stream { text, .. } => (
            seq![command("output_text"@, None, following(st.texts) as nat, "value"@, text)],
            behind_text(st),
        ),
        CellOutputView::Data { data, .. } => values_commands(data, reference, st),
        CellOutputView::Error { .. } => (Seq::empty(), st),
    }
}

/// The calls for the outputs `v`, one behind the other.
pub open spec fn outputs_commands(
    v: Seq<CellOutputView>,
    reference: Option<Seq<char>>,
    st: CellVisitor,
) -> (Seq<BlockView>, CellVisitor)
    decreases v.len(),
{
    if v.len() == 0 {
        (Seq::empty(), st)
    } else {
        let first = outputs_commands(v.drop_last(), reference, st);
        then(first.0, output_commands(v.last(), reference, first.1))
    }
}

/// The blocks `v` with the outputs of each code cell behind it, numbered
/// from the visitor `st` on, and the visitor behind them.
pub open spec fn with_outputs(v: Seq<BlockView>, st: CellVisitor) -> (Seq<BlockView>, CellVisitor)
    decreases v,
{
    if v.len() == 0 {
        (Seq::empty(), st)
    } else {
        let first = with_outputs(v.drop_last(), st);
        then(first.0, visited(v.last(), first.1))
    }
}

/// What becomes of a block: a code cell is followed by the calls for its
/// outputs, a list and an item have their children visited, and every other
/// block stays as it is.
pub open spec fn visited(b: BlockView, st: CellVisitor) -> (Seq<BlockView>, CellVisitor)
    decreases b,
{
    match b {
        BlockView::CodeBlock { reference, outputs, .. } => then(
            seq![b],
            outputs_commands(outputs, reference, st),
        ),
        BlockView::List(start, items) => {
            let inner = with_outputs(items, st);
            (seq![BlockView::List(start, inner.0)], inner.1)
        },
        BlockView::ListItem(children) => {
            let inner = with_outputs(children, st);
            (seq![BlockView::ListItem(inner.0)], inner.1)
        },
        _ => (seq![b], st),
    }
}

/// One more than `n`, the largest `usize` being the last number.
fn next(n: usize) -> (r: usize)
    ensures
        r == following(n),
{
    if n < usize::MAX {
        n + 1
    } else {
        n
    }
}

/// The call of the shortcode `name` with the ordinal `num` and the one
/// argument `key`, as a block.
fn make_command(name: &str, id: Option<String>, num: usize, key: &str, value: String) -> (r: Vec<
    Block,
>)
    ensures
        blocks_view(r@) == seq![
            command(name@, crate::notebook::option_view(id), num as nat, key@, value@),
        ],
{
    let mut inlines: Vec<Inline> = Vec::new();
    inlines.push(Inline::Text(value));
    let mut blocks: Vec<Block> = Vec::new();
    blocks.push(Block::Plain(inlines));
    let mut parameters: Vec<Argument<Vec<Block>>> = Vec::new();
    parameters.push(Argument::Keyword(String::from_str(key), blocks));
    proof {
        assert(crate::ast::inlines_view(inlines@) =~= seq![InlineView::Text(value@)]);
        assert(blocks_view(blocks@) =~= text_value(value@));
        assert(crate::ast::arguments_view(parameters@) =~= seq![
            ArgumentView::Keyword(key@, text_value(value@)),
        ]);
    }
    let base = ShortcodeBase { name: String::from_str(name), id, num, parameters };
    let ghost base_view = base@;
    let shortcode = Shortcode::Inline(base);
    assert(shortcode@ == ShortcodeView::Inline(base_view));
    let inline = Inline::Shortcode(shortcode);
    assert(inline@ == InlineView::Shortcode(ShortcodeView::Inline(base_view)));
    let mut call: Vec<Inline> = Vec::new();
    call.push(inline);
    assert(crate::ast::inlines_view(call@) =~= seq![
        InlineView::Shortcode(ShortcodeView::Inline(base_view)),
    ]);
    let mut r: Vec<Block> = Vec::new();
    r.push(Block::Plain(call));
    proof {
        assert(blocks_view(r@) =~= seq![
            command(name@, crate::notebook::option_view(id), num as nat, key@, value@),
        ]);
    }
    r
}

/// Puts the blocks `more` behind `out`.
fn append_blocks(out: &mut Vec<Block>, more: Vec<Block>)
    ensures
        blocks_view(final(out)@) == blocks_view(old(out)@) + blocks_view(more@),
{
    let mut more = more;
    let ghost added = more@;
    out.append(&mut more);
    assert(blocks_view(out@) =~= blocks_view(old(out)@) + blocks_view(added));
}

/// No block.
fn no_blocks() -> (r: Vec<Block>)
    ensures
        blocks_view(r@) == Seq::<BlockView>::empty(),
{
    let r: Vec<Block> = Vec::new();
    assert(blocks_view(r@) =~= Seq::<BlockView>::empty());
    r
}

impl CellVisitor {
    /// A visitor that numbers behind the calls that the blocks `blocks` hold
    /// already.
    pub fn behind(blocks: &Vec<Block>) -> (r: CellVisitor)
        ensures
            r == visitor_behind(blocks_view(blocks@)),
    {
        CellVisitor { texts: highest(blocks, "output_text"), figures: highest(blocks, "figure") }
    }

    /// The call of `output_text` with the text `value`, numbered next.
    fn text_command(&mut self, value: String) -> (r: Vec<Block>)
        ensures
            blocks_view(r@) == seq![
                command("output_text"@, None, following(old(self).texts) as nat, "value"@, value@),
            ],
            *final(self) == behind_text(*old(self)),
    {
        self.texts = next(self.texts);
        make_command("output_text", None, self.texts, "value", value)
    }

    /// The call of `figure` with the image `value` under `key`, numbered next.
    fn figure_command(&mut self, reference: &Option<String>, key: &str, value: String) -> (r: Vec<
        Block,
    >)
        ensures
            blocks_view(r@) == seq![
                command(
                    "figure"@,
                    crate::notebook::option_view(*reference),
                    following(old(self).figures) as nat,
                    key@,
                    value@,
                ),
            ],
            *final(self) == behind_figure(*old(self)),
    {
        self.figures = next(self.figures);
        make_command("figure", clone_option(reference), self.figures, key, value)
    }

    /// The calls for one representation of a rich output.
    pub fn visit_value(&mut self, value: &OutputValue, reference: &Option<String>) -> (r: Vec<
        Block,
    >)
        ensures
            (blocks_view(r@), *final(self)) == value_commands(
                value@,
                crate::notebook::option_view(*reference),
                *old(self),
            ),
    {
        match value {
            OutputValue::Plain(s) => self.text_command(join_strings(s)),
            OutputValue::Image(png) => self.figure_command(reference, "base64", png.clone()),
            OutputValue::Svg(svg) => self.figure_command(reference, "svg", svg.clone()),
            _ => no_blocks(),
        }
    }

    /// The calls for an output of a code cell.
    pub fn visit_output(&mut self, output: &CellOutput, reference: &Option<String>) -> (r: Vec<
        Block,
    >)
        ensures
            (blocks_view(r@), *final(self)) == output_commands(
                output@,
                crate::notebook::option_view(*reference),
                *old(self),
            ),
    {
        match output {
            CellOutput::Stream { text, .. } => self.text_command(text.clone()),
            CellOutput::Data { data, .. } => {
                let ghost views = values_view(data@);
                let ghost id = crate::notebook::option_view(*reference);
                let mut out = no_blocks();
                let mut k: usize = 0;
                assert(views.subrange(0, 0) =~= Seq::<OutputValueView>::empty());
                while k < data.len()
                    invariant
                        k <= data.len(),
                        views == values_view(data@),
                        id == crate::notebook::option_view(*reference),
                        (blocks_view(out@), *self) == values_commands(
                            views.subrange(0, k as int),
                            id,
                            *old(self),
                        ),
                    decreases data.len() - k,
                {
                    let more = self.visit_value(&data[k], reference);
                    append_blocks(&mut out, more);
                    proof {
                        assert(views.subrange(0, k + 1).drop_last() =~= views.subrange(
                            0,
                            k as int,
                        ));
                    }
                    k += 1;
                }
                assert(views.subrange(0, k as int) =~= views);
                out
            },
            CellOutput::Error { .. } => no_blocks(),
        }
    }

    /// What becomes of the block `block`.
    pub fn visit_block(&mut self, block: &Block) -> (r: Vec<Block>)
        ensures
            (blocks_view(r@), *final(self)) == visited(block@, *old(self)),
        decreases block,
    {
        match block {
            Block::CodeBlock { reference, outputs, .. } => {
                let ghost views = outputs_view(outputs@);
                let ghost id = crate::notebook::option_view(*reference);
                let mut out: Vec<Block> = Vec::new();
                out.push(clone_block(block));
                assert(blocks_view(out@) =~= seq![block@]);
                let mut k: usize = 0;
                assert(views.subrange(0, 0) =~= Seq::<CellOutputView>::empty());
                assert(seq![block@] + Seq::<BlockView>::empty() =~= seq![block@]);
                while k < outputs.len()
                    invariant
                        k <= outputs.len(),
                        views == outputs_view(outputs@),
                        id == crate::notebook::option_view(*reference),
                        (blocks_view(out@), *self) == then(
                            seq![block@],
                            outputs_commands(views.subrange(0, k as int), id, *old(self)),
                        ),
                    decreases outputs.len() - k,
                {
                    let ghost before = blocks_view(out@);
                    let ghost so_far = outputs_commands(views.subrange(0, k as int), id, *old(self));
                    let more = self.visit_output(&outputs[k], reference);
                    let ghost added = blocks_view(more@);
                    append_blocks(&mut out, more);
                    proof {
                        assert(views.subrange(0, k + 1).drop_last() =~= views.subrange(
                            0,
                            k as int,
                        ));
                        assert(seq![block@] + (so_far.0 + added) =~= before + added);
                    }
                    k += 1;
                }
                assert(views.subrange(0, k as int) =~= views);
                out
            },
            Block::List(start, items) => {
                let mut out: Vec<Block> = Vec::new();
                let inner = self.visit_vec_block(items);
                out.push(Block::List(*start, inner));
                assert(blocks_view(out@) =~= visited(block@, *old(self)).0);
                out
            },
            Block::ListItem(children) => {
                let mut out: Vec<Block> = Vec::new();
                let inner = self.visit_vec_block(children);
                out.push(Block::ListItem(inner));
                assert(blocks_view(out@) =~= visited(block@, *old(self)).0);
                out
            },
            _ => {
                let mut out: Vec<Block> = Vec::new();
                out.push(clone_block(block));
                assert(blocks_view(out@) =~= seq![block@]);
                out
            },
        }
    }

    /// The blocks `blocks` with the outputs of each code cell behind it, as
    /// shortcode calls.
    pub fn visit_vec_block(&mut self, blocks: &Vec<Block>) -> (r: Vec<Block>)
        ensures
            (blocks_view(r@), *final(self)) == with_outputs(blocks_view(blocks@), *old(self)),
        decreases blocks,
    {
        let ghost views = blocks_view(blocks@);
        let mut out = no_blocks();
        let mut k: usize = 0;
        assert(views.subrange(0, 0) =~= Seq::<BlockView>::empty());
        while k < blocks.len()
            invariant
                k <= blocks.len(),
                views == blocks_view(blocks@),
                (blocks_view(out@), *self) == with_outputs(views.subrange(0, k as int), *old(self)),
            decreases blocks.len() - k,
        {
            let more = self.visit_block(&blocks[k]);
            append_blocks(&mut out, more);
            proof {
                assert(views.subrange(0, k + 1).drop_last() =~= views.subrange(0, k as int));
            }
            k += 1;
        }
        assert(views.subrange(0, k as int) =~= views);
        out
    }
}

impl CellOutputConfig {
    /// The processor that this configuration stands for.
    pub fn build(&self) -> CellProcessor {
        CellProcessor
    }
}

impl CellProcessor {
    /// The name of the processor.
    pub fn name(&self) -> (r: String)
        ensures
            r@ == "Cell processing"@,
    {
        String::from_str("Cell processing")
    }

    /// The document with the outputs of its code cells put into the tree,
    /// where its metadata asks for cell outputs; else the document as it is.
    /// The calls that are put into the tree are numbered behind the calls of
    /// their names that the document holds already.
    pub fn process(&mut self, input: Document<Ast>) -> (r: Document<Ast>)
        ensures
            r.content@ == if input.metadata.cell_outputs {
                with_outputs(input.content@, visitor_behind(input.content@)).0
            } else {
                input.content@
            },
            r.metadata == input.metadata,
            r.variables == input.variables,
    {
        if input.metadata.cell_outputs {
            let mut visitor = CellVisitor::behind(&input.content.0);
            let content = Ast(visitor.visit_vec_block(&input.content.0));
            Document { content, metadata: input.metadata, variables: input.variables }
        } else {
            input
        }
    }
}

} // verus!
