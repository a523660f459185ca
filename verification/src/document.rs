//! Documents: content in one of its stages, with metadata and derived facts.

use crate::ast::{blocks_view, Ast, Block, BlockView, CodeAttributes};
use crate::builder::markdown::{build_blocks, text_blocks};
use crate::builder::numbering::{unnumbered, Counts, Numbering};
use crate::builder::text::{decimal, decimal_string};
use crate::events::{
    append_events, code_cell_events, code_events, enclose, enclosed, blocks_events,
    events_of_blocks, events_view, markdown_events, markdown_to_events, one_event,
    parsed_view, ACodeBlockKind,
    ACodeBlockKindView, AEvent, AEventView, ATag, ATagView, EventContent,
};
use crate::notebook::{
    clone_outputs, join_strings, outputs_view, texts_joined, values_view, Cell, CellOutput,
    CellOutputView, Notebook, OutputValue, OutputValueView,
};
use crate::plan::Binding;
use crate::renderers::shortcode::RenderError;
use pulldown_cmark::Event;
use std::ops::Range;
use vstd::prelude::*;
use vstd::string::*;
use vstd::utf8::encode_utf8;

verus! {

/// An output format that a document can ask for.
#[derive(Clone, Copy, Debug, PartialEq, Eq, Structural)]
pub enum OutputFormat {
    Notebook,
    Html,
    Info,
    LaTeX,
    Markdown,
}

/// How a document is laid out.
#[derive(Clone, Copy, Debug, PartialEq, Eq, Structural)]
pub struct LayoutSettings {
    pub hide_sidebar: bool,
}

impl Default for LayoutSettings {
    fn default() -> (r: Self)
        ensures
            !r.hide_sidebar,
    {
        LayoutSettings { hide_sidebar: false }
    }
}

/// What a document declares about itself.
#[derive(Clone, Debug)]
pub struct DocumentMetadata {
    pub title: Option<String>,
    pub exercises: bool,
    pub notebook_output: bool,
    pub code_solutions: bool,
    pub cell_outputs: bool,
    pub interactive: bool,
    pub editable: bool,
    pub layout: LayoutSettings,
    pub outputs: Vec<OutputFormat>,
}

/// What a `DocumentMetadata` holds.
pub struct DocumentMetadataView {
    pub title: Option<Seq<char>>,
    pub exercises: bool,
    pub notebook_output: bool,
    pub code_solutions: bool,
    pub cell_outputs: bool,
    pub interactive: bool,
    pub editable: bool,
    pub layout: LayoutSettings,
    pub outputs: Seq<OutputFormat>,
}

impl View for DocumentMetadata {
    type V = DocumentMetadataView;

    open spec fn view(&self) -> DocumentMetadataView {
        DocumentMetadataView {
            title: crate::notebook::option_view(self.title),
            exercises: self.exercises,
            notebook_output: self.notebook_output,
            code_solutions: self.code_solutions,
            cell_outputs: self.cell_outputs,
            interactive: self.interactive,
            editable: self.editable,
            layout: self.layout,
            outputs: self.outputs@,
        }
    }
}

impl Default for DocumentMetadata {
    /// No title, every flag off, no output format.
    fn default() -> (r: Self)
        ensures
            r@ == (DocumentMetadataView {
                title: None,
                exercises: false,
                notebook_output: false,
                code_solutions: false,
                cell_outputs: false,
                interactive: false,
                editable: false,
                layout: LayoutSettings { hide_sidebar: false },
                outputs: Seq::empty(),
            }),
    {
        DocumentMetadata {
            title: None,
            exercises: false,
            notebook_output: false,
            code_solutions: false,
            cell_outputs: false,
            interactive: false,
            editable: false,
            layout: LayoutSettings { hide_sidebar: false },
            outputs: Vec::new(),
        }
    }
}

/// The value of the flags that are on unless a document says otherwise:
/// `exercises` and `cell_outputs`.
pub fn default_true() -> (r: bool)
    ensures
        r,
{
    true
}

/// The output formats of a document that names none.
pub open spec fn standard_outputs() -> Seq<OutputFormat> {
    seq![OutputFormat::Notebook, OutputFormat::Html, OutputFormat::Info, OutputFormat::LaTeX]
}

/// The output formats of a document that names none: notebook, html, info and
/// LaTeX, in this order.
pub fn default_outputs() -> (r: Vec<OutputFormat>)
    ensures
        r@ == standard_outputs(),
{
    let mut r: Vec<OutputFormat> = Vec::new();
    r.push(OutputFormat::Notebook);
    r.push(OutputFormat::Html);
    r.push(OutputFormat::Info);
    r.push(OutputFormat::LaTeX);
    assert(r@ =~= standard_outputs());
    r
}

/// A copy of the metadata `m`.
pub fn clone_metadata(m: &DocumentMetadata) -> (r: DocumentMetadata)
    ensures
        r@ == m@,
{
    let mut outputs: Vec<OutputFormat> = Vec::new();
    let mut k: usize = 0;
    while k < m.outputs.len()
        invariant
            k <= m.outputs.len(),
            outputs@ == m.outputs@.subrange(0, k as int),
        decreases m.outputs.len() - k,
    {
        outputs.push(m.outputs[k]);
        assert(outputs@ =~= m.outputs@.subrange(0, k + 1));
        k += 1;
    }
    assert(outputs@ =~= m.outputs@);
    DocumentMetadata {
        title: crate::notebook::clone_option(&m.title),
        exercises: m.exercises,
        notebook_output: m.notebook_output,
        code_solutions: m.code_solutions,
        cell_outputs: m.cell_outputs,
        interactive: m.interactive,
        editable: m.editable,
        layout: m.layout,
        outputs,
    }
}

/// Facts derived from a document's content.
#[derive(Clone, Debug)]
pub struct DocumentVariables {
    pub first_heading: Option<String>,
}

/// What the variables of a document hold.
pub struct DocumentVariablesView {
    pub first_heading: Option<Seq<char>>,
}

impl View for DocumentVariables {
    type V = DocumentVariablesView;

    open spec fn view(&self) -> DocumentVariablesView {
        DocumentVariablesView { first_heading: crate::notebook::option_view(self.first_heading) }
    }
}

impl Default for DocumentVariables {
    fn default() -> (r: Self)
        ensures
            r.first_heading is None,
    {
        DocumentVariables { first_heading: None }
    }
}

/// Content with its metadata and the facts derived from it.
#[derive(Clone, Debug)]
pub struct Document<C> {
    pub content: C,
    pub metadata: DocumentMetadata,
    pub variables: DocumentVariables,
}

/// A unit of raw input.
#[derive(Clone, Debug)]
pub enum Element {
    Markdown { content: String },
    Code { cell_number: usize, content: String, output: Option<Vec<CellOutput>> },
    Raw { content: String },
    Default,
}

impl Default for Element {
    fn default() -> (r: Self)
        ensures
            r is Default,
    {
        Element::Default
    }
}

/// What an `Element` holds.
pub enum ElementView {
    Markdown { content: Seq<char> },
    Code { cell_number: nat, content: Seq<char>, output: Option<Seq<CellOutputView>> },
    Raw { content: Seq<char> },
    Default,
}

impl View for Element {
    type V = ElementView;

    open spec fn view(&self) -> ElementView {
        match *self {
            Element::Markdown { content } => ElementView::Markdown { content: content@ },
            Element::Code { cell_number, content, output } => ElementView::Code {
                cell_number: cell_number as nat,
                content: content@,
                output: match output {
                    Some(o) => Some(outputs_view(o@)),
                    None => None,
                },
            },
            Element::Raw { content } => ElementView::Raw { content: content@ },
            Element::Default => ElementView::Default,
        }
    }
}

/// The raw content of a document: its elements in order.
pub type RawContent = Vec<Element>;

/// What the elements of `v` hold.
pub open spec fn elements_view(v: Seq<Element>) -> Seq<ElementView> {
    Seq::new(v.len(), |k: int| v[k]@)
}

/// A position in a document.
#[derive(Debug)]
pub struct DocPos {
    cell_number: Option<usize>,
    global_offset: usize,
    line: usize,
    local_position: Range<usize>,
}

impl Clone for DocPos {
    fn clone(&self) -> (r: Self)
        ensures
            r == *self,
    {
        DocPos {
            cell_number: self.cell_number,
            global_offset: self.global_offset,
            line: self.line,
            local_position: Range {
                start: self.local_position.start,
                end: self.local_position.end,
            },
        }
    }
}

impl DocPos {
    /// The notebook cell of the position, if it lies in one.
    pub closed spec fn spec_cell_number(&self) -> Option<usize> {
        self.cell_number
    }

    /// The offset of the position in the whole document.
    pub closed spec fn spec_global_offset(&self) -> usize {
        self.global_offset
    }

    /// The line of the position.
    pub closed spec fn spec_line(&self) -> usize {
        self.line
    }

    /// The range of the position inside its cell: where it starts and where it ends.
    pub closed spec fn spec_local_position(&self) -> Range<usize> {
        self.local_position
    }

    /// The position with these four parts.
    pub fn new(
        cell_number: Option<usize>,
        global_offset: usize,
        line: usize,
        local_position: Range<usize>,
    ) -> (r: Self)
        ensures
            r.spec_cell_number() == cell_number,
            r.spec_global_offset() == global_offset,
            r.spec_line() == line,
            r.spec_local_position() == local_position,
    {
        DocPos { cell_number, global_offset, line, local_position }
    }

    /// The position in words: its line, and its cell where it lies in one.
    pub open spec fn text(&self) -> Seq<char> {
        match self.spec_cell_number() {
            None => "line: "@ + decimal(self.spec_line() as nat),
            Some(n) => "cell: "@ + decimal(n as nat) + ", local position: "@ + decimal(
                self.spec_line() as nat,
            ),
        }
    }

    /// The position in words.
    pub fn to_string(&self) -> (r: String)
        ensures
            r@ == self.text(),
    {
        match self.cell_number {
            None => {
                let mut r = String::from_str("line: ");
                r.append(decimal_string(self.line).as_str());
                r
            },
            Some(n) => {
                let mut r = String::from_str("cell: ");
                r.append(decimal_string(n).as_str());
                r.append(", local position: ");
                r.append(decimal_string(self.line).as_str());
                r
            },
        }
    }

    /// The notebook cell of the position, if it lies in one.
    pub fn cell_number(&self) -> (r: Option<usize>)
        ensures
            r == self.spec_cell_number(),
    {
        self.cell_number
    }

    /// The line of the position.
    pub fn line(&self) -> (r: usize)
        ensures
            r == self.spec_line(),
    {
        self.line
    }
}

/// What to include when a document's elements are turned into events.
#[derive(Clone, Copy, Debug, PartialEq, Eq, Structural)]
pub struct IteratorConfig {
    pub include_output: bool,
    pub include_solutions: bool,
}

impl Default for IteratorConfig {
    fn default() -> (r: Self)
        ensures
            !r.include_output,
            !r.include_solutions,
    {
        IteratorConfig { include_output: false, include_solutions: false }
    }
}

impl IteratorConfig {
    /// The same configuration with cell outputs included.
    pub fn include_output(self) -> (r: Self)
        ensures
            r == (IteratorConfig { include_output: true, include_solutions: self.include_solutions }),
    {
        IteratorConfig { include_output: true, include_solutions: self.include_solutions }
    }

    /// The same configuration with solutions included.
    pub fn include_solutions(self) -> (r: Self)
        ensures
            r == (IteratorConfig { include_output: self.include_output, include_solutions: true }),
    {
        IteratorConfig { include_output: self.include_output, include_solutions: true }
    }
}

impl<T> Document<T> {
    /// The document with `f` applied to its content; metadata and variables stay.
    pub fn map<O, F: Fn(T) -> O>(self, f: F) -> (r: Document<O>)
        requires
            f.requires((self.content,)),
        ensures
            f.ensures((self.content,), r.content),
            r.metadata == self.metadata,
            r.variables == self.variables,
    {
        Document { content: f(self.content), metadata: self.metadata, variables: self.variables }
    }
}

/// What can be turned into the raw content of a document.
pub trait IntoRawContent {
    /// The elements that `self` stands for.
    spec fn raw_content(&self) -> Seq<ElementView>;

    fn into(self) -> (r: RawContent)
        ensures
            elements_view(r@) == self.raw_content(),
    ;
}

impl IntoRawContent for String {
    /// A text is one markdown element.
    open spec fn raw_content(&self) -> Seq<ElementView> {
        seq![ElementView::Markdown { content: self@ }]
    }

    fn into(self) -> (r: RawContent) {
        let mut r: Vec<Element> = Vec::new();
        r.push(Element::Markdown { content: self });
        assert(elements_view(r@) =~= self.raw_content());
        r
    }
}

/// The number of code cells among `cells`.
pub open spec fn code_cells(cells: Seq<Cell>) -> nat
    decreases cells.len(),
{
    if cells.len() == 0 {
        0
    } else {
        code_cells(cells.drop_last()) + if cells.last() is Code {
            1nat
        } else {
            0nat
        }
    }
}

/// The number of the code cell that is the `n`th of its notebook: counted from
/// two, since the count starts at one and a code cell takes the number behind
/// it. The largest `usize` is the last number.
pub open spec fn cell_number_of(n: nat) -> nat {
    if 1 + n <= usize::MAX {
        1 + n
    } else {
        usize::MAX as nat
    }
}

/// The element that the cell at index `k` of `cells` becomes. A code cell is
/// numbered by the code cells up to and including it.
pub open spec fn cell_element(cells: Seq<Cell>, k: int) -> ElementView {
    match cells[k] {
        Cell::Markdown { common } => ElementView::Markdown { content: common.source@ },
        Cell::Code { common, outputs, .. } => ElementView::Code {
            cell_number: cell_number_of(code_cells(cells.subrange(0, k + 1))),
            content: common.source@,
            output: Some(outputs_view(outputs@)),
        },
        Cell::Raw { common } => ElementView::Raw { content: common.source@ },
    }
}

impl IntoRawContent for Notebook {
    /// One element for each cell, in order. Only code cells advance the cell number.
    open spec fn raw_content(&self) -> Seq<ElementView> {
        Seq::new(self.cells@.len(), |k: int| cell_element(self.cells@, k))
    }

    fn into(self) -> (r: RawContent) {
        let mut r: Vec<Element> = Vec::new();
        let mut num: usize = 1;
        let mut k: usize = 0;
        let cells = self.cells;
        assert(cells@.subrange(0, 0) =~= Seq::<Cell>::empty());
        while k < cells.len()
            invariant
                k <= cells.len(),
                r.len() == k,
                num == cell_number_of(code_cells(cells@.subrange(0, k as int))),
                forall|j: int| 0 <= j < k ==> (#[trigger] r[j])@ == cell_element(cells@, j),
            decreases cells.len() - k,
        {
            proof {
                assert(cells@.subrange(0, k + 1).drop_last() =~= cells@.subrange(0, k as int));
            }
            let element = match &cells[k] {
                Cell::Markdown { common } => Element::Markdown { content: common.source.clone() },
                Cell::Code { common, outputs, .. } => {
                    num = num.saturating_add(1);
                    Element::Code {
                        cell_number: num,
                        content: common.source.clone(),
                        output: Some(clone_outputs(outputs)),
                    }
                },
                Cell::Raw { common } => Element::Raw { content: common.source.clone() },
            };
            r.push(element);
            k += 1;
        }
        assert(elements_view(r@) =~= Seq::new(
            cells@.len(),
            |k: int| cell_element(cells@, k),
        ));
        r
    }
}

impl Document<RawContent> {
    /// A document with this content and metadata, and nothing derived yet.
    pub fn new<C: IntoRawContent>(content: C, metadata: DocumentMetadata) -> (r: Self)
        ensures
            elements_view(r.content@) == content.raw_content(),
            r.metadata == metadata,
            r.variables.first_heading is None,
    {
        Document {
            metadata,
            variables: DocumentVariables { first_heading: None },
            content: content.into(),
        }
    }
}

/// The block that a code cell becomes: its source with its outputs, editable
/// and not folded.
pub open spec fn code_cell(content: Seq<char>, output: Option<Seq<CellOutputView>>) -> BlockView {
    BlockView::CodeBlock {
        source: content,
        reference: None,
        attr: CodeAttributes { editable: true, fold: false },
        tags: None,
        outputs: match output {
            Some(o) => o,
            None => Seq::empty(),
        },
    }
}

/// The blocks of an element, and the counts behind the numbering of its
/// shortcodes: markdown is built into blocks, a code cell is one code block,
/// and raw and empty elements have no blocks.
pub open spec fn element_blocks(e: ElementView, counts: Counts) -> (Seq<BlockView>, Counts) {
    match e {
        ElementView::Markdown { content } => text_blocks(encode_utf8(content), counts),
        ElementView::Code { content, output, .. } => (seq![code_cell(content, output)], counts),
        ElementView::Raw { .. } => (Seq::empty(), counts),
        ElementView::Default => (Seq::empty(), counts),
    }
}

/// The blocks of the elements `v` from the index `k` on, one element behind
/// the other, the shortcodes numbered through all of them.
pub open spec fn elements_blocks(v: Seq<ElementView>, counts: Counts, k: nat) -> Seq<BlockView>
    decreases v.len() - k,
{
    if k >= v.len() {
        Seq::empty()
    } else {
        let first = element_blocks(v[k as int], counts);
        first.0 + elements_blocks(v, first.1, k + 1)
    }
}

/// The blocks of the element `value`, its shortcodes numbered by `numbering`.
pub fn blocks_of_element(value: Element, numbering: &mut Numbering) -> (r: Vec<Block>)
    ensures
        (blocks_view(r@), final(numbering)@) == element_blocks(value@, old(numbering)@),
{
    match value {
        Element::Markdown { content } => build_blocks(content.as_str(), numbering),
        Element::Code { content, output, .. } => {
            let outputs = match output {
                Some(o) => o,
                None => Vec::new(),
            };
            let mut r: Vec<Block> = Vec::new();
            r.push(
                Block::CodeBlock {
                    source: content,
                    reference: None,
                    attr: CodeAttributes { editable: true, fold: false },
                    tags: None,
                    outputs,
                },
            );
            proof {
                assert(outputs_view(Seq::<CellOutput>::empty()) =~= Seq::<CellOutputView>::empty());
                assert(blocks_view(r@) =~= seq![code_cell(content@, value@->Code_output)]);
            }
            r
        },
        Element::Raw { .. } => {
            let r: Vec<Block> = Vec::new();
            assert(blocks_view(r@) =~= Seq::<BlockView>::empty());
            r
        },
        Element::Default => {
            let r: Vec<Block> = Vec::new();
            assert(blocks_view(r@) =~= Seq::<BlockView>::empty());
            r
        },
    }
}

impl Ast {
    /// The tree of the elements `value`: the blocks of each element, one
    /// element behind the other. Shortcodes are numbered through the whole
    /// document, from one for each name.
    ///
    /// Of the shortcodes that stand side by side in one markdown text, one
    /// inside another not counted, at most `PLACEHOLDER_COUNT` are built:
    /// those behind them stay text as they were written.
    pub fn from_raw(value: RawContent) -> (r: Ast)
        ensures
            r@ == elements_blocks(elements_view(value@), unnumbered(), 0),
    {
        let ghost views = elements_view(value@);
        let mut numbering = Numbering::new();
        let mut out: Vec<Block> = Vec::new();
        let mut value = value;
        let mut k: usize = 0;
        let total = value.len();
        let ghost n = total as nat;
        proof {
            assert(blocks_view(out@) =~= Seq::<BlockView>::empty());
            let whole = elements_blocks(views, unnumbered(), 0);
            assert(Seq::<BlockView>::empty() + whole =~= whole);
        }
        while value.len() > 0
            invariant
                k + value@.len() == n,
                n == views.len(),
                n <= usize::MAX,
                forall|j: int| 0 <= j < value@.len() ==> (#[trigger] value@[j])@ == views[k + j],
                elements_blocks(views, unnumbered(), 0) == blocks_view(out@) + elements_blocks(
                    views,
                    numbering@,
                    k as nat,
                ),
            decreases value.len(),
        {
            let ghost before = blocks_view(out@);
            let element = value.remove(0);
            let mut blocks = blocks_of_element(element, &mut numbering);
            let ghost added = blocks_view(blocks@);
            let ghost moved = blocks@;
            out.append(&mut blocks);
            proof {
                assert(blocks_view(out@) =~= before + added);
                let rest = elements_blocks(views, numbering@, (k + 1) as nat);
                assert(before + (added + rest) =~= (before + added) + rest);
            }
            k += 1;
        }
        proof {
            assert(blocks_view(out@) + Seq::<BlockView>::empty() =~= blocks_view(out@));
        }
        Ast(out)
    }
}

/// The tag of a code block of plain text.
pub open spec fn plain_block() -> ATagView {
    ATagView::CodeBlock(ACodeBlockKindView::Fenced("plaintext"@))
}

/// The text `text` in a code block of plain text.
pub open spec fn plain_text_events(text: Seq<char>) -> Seq<AEventView> {
    enclosed(plain_block(), seq![AEventView::Text(text)])
}

/// The events of one representation of a rich output: text in a code block,
/// an image and JavaScript as HTML, SVG and HTML as they are, and nothing
/// for JSON.
pub open spec fn output_value_events(v: OutputValueView) -> Seq<AEventView> {
    match v {
        OutputValueView::Plain(s) => plain_text_events(texts_joined(s)),
        OutputValueView::Image(s) => seq![
            AEventView::Html("<img src=\"data:image/png;base64,"@ + s + "\"></img>"@),
        ],
        OutputValueView::Svg(s) => seq![AEventView::Html(s)],
        OutputValueView::Json(_) => Seq::empty(),
        OutputValueView::Html(s) => seq![AEventView::Html(s)],
        OutputValueView::Javascript(s) => seq![
            AEventView::Html("<script>"@ + s + "</script>"@),
        ],
    }
}

/// The events of the representations `v`, one behind the other.
pub open spec fn output_values_events(v: Seq<OutputValueView>) -> Seq<AEventView>
    decreases v.len(),
{
    if v.len() == 0 {
        Seq::empty()
    } else {
        output_values_events(v.drop_last()) + output_value_events(v.last())
    }
}

/// The events of an output of a code cell: the text of a stream and the
/// value of an error in a code block of plain text.
pub open spec fn cell_output_events(o: CellOutputView) -> Seq<AEventView> {
    match o {
        CellOutputView::Stream { text, .. } => plain_text_events(text),
        CellOutputView::Data { data, .. } => output_values_events(data),
        CellOutputView::Error { evalue, .. } => plain_text_events(evalue),
    }
}

/// The events of the outputs `v`, one behind the other.
pub open spec fn cell_outputs_events(v: Seq<CellOutputView>) -> Seq<AEventView>
    decreases v.len(),
{
    if v.len() == 0 {
        Seq::empty()
    } else {
        cell_outputs_events(v.drop_last()) + cell_output_events(v.last())
    }
}

/// The events of an element: those of its markdown, or its source in a code
/// block of Python, with the events of its outputs where they are asked for.
/// Raw and empty elements have none.
pub open spec fn element_events(e: ElementView, config: IteratorConfig) -> Seq<AEventView> {
    match e {
        ElementView::Markdown { content } => markdown_events(content),
        ElementView::Code { content, output, .. } => code_events(content) + match output {
            Some(o) => if config.include_output {
                cell_outputs_events(o)
            } else {
                Seq::empty()
            },
            None => Seq::empty(),
        },
        ElementView::Raw { .. } => Seq::empty(),
        ElementView::Default => Seq::empty(),
    }
}

/// The events of the elements `v`, one behind the other.
pub open spec fn elements_events(v: Seq<ElementView>, config: IteratorConfig) -> Seq<AEventView>
    decreases v.len(),
{
    if v.len() == 0 {
        Seq::empty()
    } else {
        elements_events(v.drop_last(), config) + element_events(v.last(), config)
    }
}

/// The text `text` in a code block of plain text.
fn plain_text(text: String) -> (r: Vec<AEvent>)
    ensures
        events_view(r@) == plain_text_events(text@),
{
    enclose(
        ATag::CodeBlock(ACodeBlockKind::Fenced(String::from_str("plaintext"))),
        one_event(AEvent::Text(text)),
    )
}

impl OutputValue {
    /// The events of the representation.
    pub fn to_events(&self) -> (r: Vec<AEvent>)
        ensures
            events_view(r@) == output_value_events(self@),
    {
        match self {
            OutputValue::Plain(s) => plain_text(join_strings(s)),
            OutputValue::Image(s) => {
                let mut html = String::from_str("<img src=\"data:image/png;base64,");
                html.append(s.as_str());
                html.append("\"></img>");
                one_event(AEvent::Html(html))
            },
            OutputValue::Svg(s) => one_event(AEvent::Html(s.clone())),
            OutputValue::Json(_) => {
                let r: Vec<AEvent> = Vec::new();
                assert(events_view(r@) =~= Seq::<AEventView>::empty());
                r
            },
            OutputValue::Html(s) => one_event(AEvent::Html(s.clone())),
            OutputValue::Javascript(s) => {
                let mut html = String::from_str("<script>");
                html.append(s.as_str());
                html.append("</script>");
                one_event(AEvent::Html(html))
            },
        }
    }
}

impl CellOutput {
    /// The events of the output.
    pub fn to_events(&self) -> (r: Vec<AEvent>)
        ensures
            events_view(r@) == cell_output_events(self@),
    {
        match self {
            CellOutput::Stream { text, .. } => plain_text(text.clone()),
            CellOutput::Data { data, .. } => {
                let ghost views = values_view(data@);
                let mut out: Vec<AEvent> = Vec::new();
                let mut k: usize = 0;
                assert(events_view(out@) =~= Seq::<AEventView>::empty());
                assert(views.subrange(0, 0) =~= Seq::<OutputValueView>::empty());
                while k < data.len()
                    invariant
                        k <= data.len(),
                        views == values_view(data@),
                        events_view(out@) == output_values_events(views.subrange(0, k as int)),
                    decreases data.len() - k,
                {
                    append_events(&mut out, data[k].to_events());
                    proof {
                        assert(views.subrange(0, k + 1).drop_last() =~= views.subrange(
                            0,
                            k as int,
                        ));
                    }
                    k += 1;
                }
                assert(views.subrange(0, k as int) =~= views);
                out
            },
            CellOutput::Error { evalue, .. } => plain_text(evalue.clone()),
        }
    }
}

/// What can be turned into events under a configuration.
pub trait ConfigureCollector {
    type Item;

    type IntoIter;

    fn configure_iterator(self, config: IteratorConfig) -> Self::IntoIter;
}

/// What can be turned into the events of one cell under a configuration.
pub trait ConfigureElemIterator {
    type Item;

    type IntoIter;

    fn configure_iterator(self, cell_number: usize, config: IteratorConfig) -> Self::IntoIter;
}

impl<'a> ConfigureCollector for &'a Element {
    type Item = AEvent;

    type IntoIter = Vec<AEvent>;

    /// The events of the element.
    fn configure_iterator(self, config: IteratorConfig) -> (r: Vec<AEvent>)
        ensures
            events_view(r@) == element_events(self@, config),
    {
        match self {
            Element::Markdown { content } => markdown_to_events(content.as_str()),
            Element::Code { content, output, .. } => {
                let mut events = code_cell_events(content.as_str());
                let ghost start = events_view(events@);
                if config.include_output {
                    match output {
                        Some(os) => {
                            let ghost views = outputs_view(os@);
                            let mut k: usize = 0;
                            assert(views.subrange(0, 0) =~= Seq::<CellOutputView>::empty());
                            assert(start + Seq::<AEventView>::empty() =~= start);
                            while k < os.len()
                                invariant
                                    k <= os.len(),
                                    views == outputs_view(os@),
                                    events_view(events@) == start + cell_outputs_events(
                                        views.subrange(0, k as int),
                                    ),
                                decreases os.len() - k,
                            {
                                let ghost before = events_view(events@);
                                let piece = os[k].to_events();
                                let ghost added = events_view(piece@);
                                append_events(&mut events, piece);
                                proof {
                                    assert(views.subrange(0, k + 1).drop_last() =~= views.subrange(
                                        0,
                                        k as int,
                                    ));
                                    assert(start + (cell_outputs_events(
                                        views.subrange(0, k as int),
                                    ) + added) =~= before + added);
                                }
                                k += 1;
                            }
                            assert(views.subrange(0, k as int) =~= views);
                        },
                        None => {
                            assert(start + Seq::<AEventView>::empty() =~= start);
                        },
                    }
                } else {
                    assert(start + Seq::<AEventView>::empty() =~= start);
                }
                events
            },
            Element::Raw { .. } => {
                let r: Vec<AEvent> = Vec::new();
                assert(events_view(r@) =~= Seq::<AEventView>::empty());
                r
            },
            Element::Default => {
                let r: Vec<AEvent> = Vec::new();
                assert(events_view(r@) =~= Seq::<AEventView>::empty());
                r
            },
        }
    }
}

impl<'a> ConfigureCollector for &'a Document<RawContent> {
    type Item = AEvent;

    type IntoIter = Vec<AEvent>;

    /// The events of the elements of the document, one element behind the other.
    fn configure_iterator(self, config: IteratorConfig) -> (r: Vec<AEvent>)
        ensures
            events_view(r@) == elements_events(elements_view(self.content@), config),
    {
        let ghost views = elements_view(self.content@);
        let mut out: Vec<AEvent> = Vec::new();
        let mut k: usize = 0;
        assert(events_view(out@) =~= Seq::<AEventView>::empty());
        assert(views.subrange(0, 0) =~= Seq::<ElementView>::empty());
        while k < self.content.len()
            invariant
                k <= self.content.len(),
                views == elements_view(self.content@),
                events_view(out@) == elements_events(views.subrange(0, k as int), config),
            decreases self.content.len() - k,
        {
            let piece = (&self.content[k]).configure_iterator(config);
            append_events(&mut out, piece);
            proof {
                assert(views.subrange(0, k + 1).drop_last() =~= views.subrange(0, k as int));
            }
            k += 1;
        }
        assert(views.subrange(0, k as int) =~= views);
        out
    }
}

impl Document<RawContent> {
    /// The document as events: those of its elements. The metadata stays,
    /// and nothing is derived yet.
    pub fn to_events(&self, config: IteratorConfig) -> (r: Document<EventContent>)
        ensures
            events_view(r.content@) == elements_events(elements_view(self.content@), config),
            r.metadata@ == self.metadata@,
            r.variables.first_heading is None,
    {
        Document {
            metadata: clone_metadata(&self.metadata),
            variables: DocumentVariables { first_heading: None },
            content: self.configure_iterator(config),
        }
    }
}

impl Document<Ast> {
    /// The document as events: those of its blocks. The metadata stays, and
    /// nothing is derived yet.
    pub fn to_events(&self) -> (r: Document<EventContent>)
        ensures
            events_view(r.content@) == blocks_events(self.content@),
            r.metadata@ == self.metadata@,
            r.variables.first_heading is None,
    {
        Document {
            metadata: clone_metadata(&self.metadata),
            variables: DocumentVariables { first_heading: None },
            content: events_of_blocks(&self.content.0),
        }
    }
}

impl Document<EventContent> {
    /// The events of the document as events of pulldown-cmark that borrow
    /// their text.
    pub fn to_events<'a>(&'a self) -> (r: Vec<Event<'a>>)
        ensures
            parsed_view(r@) == events_view(self.content@),
    {
        let mut r: Vec<Event<'a>> = Vec::new();
        let mut k: usize = 0;
        while k < self.content.len()
            invariant
                k <= self.content.len(),
                r.len() == k,
                forall|j: int|
                    0 <= j < k ==> crate::events::event_view(#[trigger] r[j]) == self.content[j]@,
            decreases self.content.len() - k,
        {
            r.push(self.content[k].to_event());
            k += 1;
        }
        assert(parsed_view(r@) =~= events_view(self.content@));
        r
    }
}

/// What becomes of a document for one output format.
#[derive(Clone, Copy, Debug, PartialEq, Eq)]
pub enum Treatment {
    /// The document is kept with empty content.
    Empty,
    /// The document is rendered.
    Rendered,
    /// The document has no output in the format.
    Skipped,
}

/// What becomes of a document for one output format. A format that is not
/// parsed keeps the document with empty content, and so does a draft unless
/// drafts are shown. Every other document is rendered where its metadata
/// names the format among its outputs, and has no output where it does not.
pub open spec fn treatment_of(no_parse: bool, drafts_shown: bool, draft: bool, wanted: bool)
    -> Treatment {
    if no_parse || (draft && !drafts_shown) {
        Treatment::Empty
    } else if wanted {
        Treatment::Rendered
    } else {
        Treatment::Skipped
    }
}

/// What becomes of a document for one output format.
pub fn treatment(no_parse: bool, drafts_shown: bool, draft: bool, wanted: bool) -> (r: Treatment)
    ensures
        r == treatment_of(no_parse, drafts_shown, draft, wanted),
{
    if no_parse || (draft && !drafts_shown) {
        Treatment::Empty
    } else if wanted {
        Treatment::Rendered
    } else {
        Treatment::Skipped
    }
}

/// Does the metadata name `format` among the outputs of its document?
pub fn wants_output(metadata: &DocumentMetadata, format: OutputFormat) -> (r: bool)
    ensures
        r == metadata.outputs@.contains(format),
{
    let mut k: usize = 0;
    while k < metadata.outputs.len()
        invariant
            k <= metadata.outputs.len(),
            forall|j: int| 0 <= j < k ==> metadata.outputs@[j] != format,
        decreases metadata.outputs.len() - k,
    {
        if metadata.outputs[k] == format {
            return true;
        }
        k += 1;
    }
    false
}

/// Why a document could not be preprocessed.
#[derive(Clone, Debug)]
pub enum PreprocessError {
    /// A shortcode could not be processed.
    Shortcode(RenderError),
}

/// What rewrites the markdown of a document before it is parsed.
pub trait MarkdownPreprocessor {
    /// The markdown `input`, rewritten.
    fn process(&self, input: &str, ctx: &Vec<Binding>) -> Result<String, PreprocessError>;
}

/// The element `after` is what preprocessing may make of the element
/// `before`: markdown stays markdown, and every other element stays as it is.
pub open spec fn preprocessed(before: ElementView, after: ElementView) -> bool {
    if before is Markdown {
        after is Markdown
    } else {
        after == before
    }
}

/// A copy of the element `e`.
pub fn clone_element(e: &Element) -> (r: Element)
    ensures
        r@ == e@,
{
    match e {
        Element::Markdown { content } => Element::Markdown { content: content.clone() },
        Element::Code { cell_number, content, output } => Element::Code {
            cell_number: *cell_number,
            content: content.clone(),
            output: match output {
                Some(o) => Some(clone_outputs(o)),
                None => None,
            },
        },
        Element::Raw { content } => Element::Raw { content: content.clone() },
        Element::Default => Element::Default,
    }
}

/// No element of `elements` is markdown.
pub open spec fn no_markdown(elements: Seq<Element>) -> bool {
    forall|k: int| 0 <= k < elements.len() ==> !((#[trigger] elements[k])@ is Markdown)
}

/// What becomes of a markdown element for what the processor returned: the
/// markdown element of the rewritten text, or the error of the processor.
pub fn rewritten_element(result: Result<String, PreprocessError>) -> (r: Result<
    Element,
    PreprocessError,
>)
    ensures
        match result {
            Ok(text) => r matches Ok(e) && e@ == (ElementView::Markdown { content: text@ }),
            Err(error) => r == Err::<Element, PreprocessError>(error),
        },
{
    match result {
        Ok(text) => Ok(Element::Markdown { content: text }),
        Err(error) => Err(error),
    }
}

impl Document<RawContent> {
    /// The document with the markdown of each element rewritten by
    /// `processor`; the other elements and the metadata stay, and nothing is
    /// derived yet. The first error of the processor ends the work and is
    /// returned, so a document without markdown is always preprocessed, and
    /// to itself. What the markdown is rewritten to is for the processor to
    /// say.
    pub fn preprocess<P: MarkdownPreprocessor>(self, processor: &P, ctx: &Vec<Binding>) -> (r:
        Result<Document<RawContent>, PreprocessError>)
        ensures
            r matches Ok(d) ==> {
                &&& d.content@.len() == self.content@.len()
                &&& forall|k: int|
                    0 <= k < d.content@.len() ==> preprocessed(
                        self.content@[k]@,
                        (#[trigger] d.content@[k])@,
                    )
                &&& d.metadata == self.metadata
                &&& d.variables.first_heading is None
            },
            no_markdown(self.content@) ==> r is Ok,
    {
        let mut elements: Vec<Element> = Vec::new();
        let mut k: usize = 0;
        while k < self.content.len()
            invariant
                k <= self.content.len(),
                elements.len() == k,
                forall|j: int|
                    0 <= j < k ==> preprocessed(self.content@[j]@, (#[trigger] elements@[j])@),
            decreases self.content.len() - k,
        {
            let element = match &self.content[k] {
                Element::Markdown { content } => {
                    assert(self.content@[k as int]@ is Markdown);
                    match rewritten_element(processor.process(content.as_str(), ctx)) {
                        Ok(rewritten) => rewritten,
                        Err(e) => {
                            return Err(e);
                        },
                    }
                },
                other => clone_element(other),
            };
            elements.push(element);
            k += 1;
        }
        Ok(
            Document {
                content: elements,
                metadata: self.metadata,
                variables: DocumentVariables { first_heading: None },
            },
        )
    }
}

} // verus!
