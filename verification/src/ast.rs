//! The syntax tree that every output format is rendered from.

use crate::notebook::{
    clone_option, clone_outputs, clone_strings, option_view, outputs_view, strings_view,
    CellOutput, CellOutputView,
};
use pulldown_cmark::{HeadingLevel, LinkType};
use vstd::prelude::*;
use vstd::string::*;

verus! {

/// The level of a heading, `H1` to `H6`.
#[verifier::external_type_specification]
pub struct ExHeadingLevel(HeadingLevel);

/// How a link or an image was written in markdown.
#[verifier::external_type_specification]
pub struct ExLinkType(LinkType);

/// An argument of a shortcode call: by position, or by name.
#[derive(Clone, Debug)]
pub enum Argument<T> {
    Positional(T),
    Keyword(String, T),
}

/// Inline elements.
#[derive(Debug)]
pub enum Inline {
    /// Plain text
    Text(String),
    /// Emphasis
    Emphasis(Vec<Inline>),
    /// Strong
    Strong(Vec<Inline>),
    /// Strikethrough
    Strikethrough(Vec<Inline>),
    /// Inline code
    Code(String),
    SoftBreak,
    HardBreak,
    /// Horizontal rule
    Rule,
    /// An inline image: link type, url, alt text and what it wraps.
    Image(LinkType, String, String, Vec<Inline>),
    /// An inline link: link type, url, alt text and what it wraps.
    Link(LinkType, String, String, Vec<Inline>),
    /// Unescaped html.
    Html(String),
    /// Math element, inline or display. `trailing_space` records that a space
    /// followed the closing delimiter in the source.
    Math { source: String, display_block: bool, trailing_space: bool },
    Shortcode(Shortcode),
}

/// Code cell attributes.
#[derive(Clone, Copy, Debug, Default, PartialEq, Eq)]
pub struct CodeAttributes {
    /// Can edit cell
    pub editable: bool,
    /// Cell is folded by default.
    pub fold: bool,
}

/// Code cell output as the output templates receive it.
#[derive(Clone, Debug)]
pub enum CodeOutput {
    /// Base 64 encoded image
    Image(String),
    /// Svg source
    Svg(String),
    /// A JSON value
    Json(serde_json::Value),
    /// Literal html
    Html(String),
    /// Javascript source code
    Javascript(String),
}

/// Block elements. Mostly these are markdown's blocks; math is an inline even
/// in display mode.
#[derive(Debug)]
pub enum Block {
    Heading { lvl: HeadingLevel, id: Option<String>, classes: Vec<String>, inner: Vec<Inline> },
    Plain(Vec<Inline>),
    Paragraph(Vec<Inline>),
    BlockQuote(Vec<Inline>),
    /// A code block, from a fenced markdown block or from a notebook code cell.
    CodeBlock {
        /// Code source
        source: String,
        /// Code reference
        reference: Option<String>,
        /// Code attributes
        attr: CodeAttributes,
        /// Code tags
        tags: Option<Vec<String>>,
        /// Notebook cell outputs.
        outputs: Vec<CellOutput>,
    },
    /// A list: ordered, with the number of its first item, or unordered.
    List(Option<u64>, Vec<Block>),
    ListItem(Vec<Block>),
}

/// A shortcode call.
#[derive(Debug)]
pub enum Shortcode {
    /// `{{ name(args) }}`
    Inline(ShortcodeBase),
    /// `{% name(args) %} body {% end_name %}`
    Block(ShortcodeBase, Vec<Block>),
}

/// What both kinds of shortcode call have.
#[derive(Debug)]
pub struct ShortcodeBase {
    /// The name of the shortcode, which is the name of its template.
    pub name: String,
    /// The identifier that references to this call use.
    pub id: Option<String>,
    /// The ordinal of this call among the calls of its name in the document.
    pub num: usize,
    /// The arguments, in the order in which they were written.
    pub parameters: Vec<Argument<Vec<Block>>>,
}

/// A list of blocks in reading order.
#[derive(Debug)]
pub struct Ast(pub Vec<Block>);

/// What an `Argument` holds.
pub enum ArgumentView<T> {
    Positional(T),
    Keyword(Seq<char>, T),
}

/// What an `Inline` holds.
pub enum InlineView {
    Text(Seq<char>),
    Emphasis(Seq<InlineView>),
    Strong(Seq<InlineView>),
    Strikethrough(Seq<InlineView>),
    Code(Seq<char>),
    SoftBreak,
    HardBreak,
    Rule,
    Image(LinkType, Seq<char>, Seq<char>, Seq<InlineView>),
    Link(LinkType, Seq<char>, Seq<char>, Seq<InlineView>),
    Html(Seq<char>),
    Math { source: Seq<char>, display_block: bool, trailing_space: bool },
    Shortcode(ShortcodeView),
}

/// What a `Shortcode` holds.
pub enum ShortcodeView {
    Inline(ShortcodeBaseView),
    Block(ShortcodeBaseView, Seq<BlockView>),
}

/// What a `ShortcodeBase` holds.
pub struct ShortcodeBaseView {
    pub name: Seq<char>,
    pub id: Option<Seq<char>>,
    pub num: nat,
    pub parameters: Seq<ArgumentView<Seq<BlockView>>>,
}

/// What a `Block` holds.
pub enum BlockView {
    Heading {
        lvl: HeadingLevel,
        id: Option<Seq<char>>,
        classes: Seq<Seq<char>>,
        inner: Seq<InlineView>,
    },
    Plain(Seq<InlineView>),
    Paragraph(Seq<InlineView>),
    BlockQuote(Seq<InlineView>),
    CodeBlock {
        source: Seq<char>,
        reference: Option<Seq<char>>,
        attr: CodeAttributes,
        tags: Option<Seq<Seq<char>>>,
        outputs: Seq<CellOutputView>,
    },
    List(Option<u64>, Seq<BlockView>),
    ListItem(Seq<BlockView>),
}

/// What the inlines of `v` hold.
pub open spec fn inlines_view(v: Seq<Inline>) -> Seq<InlineView>
    decreases v,
{
    Seq::new(
        v.len(),
        |k: int|
            if 0 <= k < v.len() {
                inline_view(v[k])
            } else {
                arbitrary()
            },
    )
}

/// What the blocks of `v` hold.
pub open spec fn blocks_view(v: Seq<Block>) -> Seq<BlockView>
    decreases v,
{
    Seq::new(
        v.len(),
        |k: int|
            if 0 <= k < v.len() {
                block_view(v[k])
            } else {
                arbitrary()
            },
    )
}

/// What the arguments of `v` hold.
pub open spec fn arguments_view(v: Seq<Argument<Vec<Block>>>) -> Seq<ArgumentView<Seq<BlockView>>>
    decreases v,
{
    Seq::new(
        v.len(),
        |k: int|
            if 0 <= k < v.len() {
                argument_view(v[k])
            } else {
                arbitrary()
            },
    )
}

/// What the argument `a` holds.
pub open spec fn argument_view(a: Argument<Vec<Block>>) -> ArgumentView<Seq<BlockView>>
    decreases a,
{
    match a {
        Argument::Positional(v) => ArgumentView::Positional(blocks_view(v@)),
        Argument::Keyword(k, v) => ArgumentView::Keyword(k@, blocks_view(v@)),
    }
}

/// What the shortcode base `b` holds.
pub open spec fn base_view(b: ShortcodeBase) -> ShortcodeBaseView
    decreases b,
{
    ShortcodeBaseView {
        name: b.name@,
        id: option_view(b.id),
        num: b.num as nat,
        parameters: arguments_view(b.parameters@),
    }
}

/// What the shortcode `s` holds.
pub open spec fn shortcode_view(s: Shortcode) -> ShortcodeView
    decreases s,
{
    match s {
        Shortcode::Inline(b) => ShortcodeView::Inline(base_view(b)),
        Shortcode::Block(b, body) => ShortcodeView::Block(base_view(b), blocks_view(body@)),
    }
}

/// What the inline `i` holds.
pub open spec fn inline_view(i: Inline) -> InlineView
    decreases i,
{
    match i {
        Inline::Text(s) => InlineView::Text(s@),
        Inline::Emphasis(v) => InlineView::Emphasis(inlines_view(v@)),
        Inline::Strong(v) => InlineView::Strong(inlines_view(v@)),
        Inline::Strikethrough(v) => InlineView::Strikethrough(inlines_view(v@)),
        Inline::Code(s) => InlineView::Code(s@),
        Inline::SoftBreak => InlineView::SoftBreak,
        Inline::HardBreak => InlineView::HardBreak,
        Inline::Rule => InlineView::Rule,
        Inline::Image(t, url, alt, v) => InlineView::Image(t, url@, alt@, inlines_view(v@)),
        Inline::Link(t, url, alt, v) => InlineView::Link(t, url@, alt@, inlines_view(v@)),
        Inline::Html(s) => InlineView::Html(s@),
        Inline::Math { source, display_block, trailing_space } => InlineView::Math {
            source: source@,
            display_block,
            trailing_space,
        },
        Inline::Shortcode(s) => InlineView::Shortcode(shortcode_view(s)),
    }
}

/// What the block `b` holds.
pub open spec fn block_view(b: Block) -> BlockView
    decreases b,
{
    match b {
        Block::Heading { lvl, id, classes, inner } => BlockView::Heading {
            lvl,
            id: option_view(id),
            classes: strings_view(classes@),
            inner: inlines_view(inner@),
        },
        Block::Plain(v) => BlockView::Plain(inlines_view(v@)),
        Block::Paragraph(v) => BlockView::Paragraph(inlines_view(v@)),
        Block::BlockQuote(v) => BlockView::BlockQuote(inlines_view(v@)),
        Block::CodeBlock { source, reference, attr, tags, outputs } => BlockView::CodeBlock {
            source: source@,
            reference: option_view(reference),
            attr,
            tags: match tags {
                Some(t) => Some(strings_view(t@)),
                None => None,
            },
            outputs: outputs_view(outputs@),
        },
        Block::List(start, v) => BlockView::List(start, blocks_view(v@)),
        Block::ListItem(v) => BlockView::ListItem(blocks_view(v@)),
    }
}

impl View for Inline {
    type V = InlineView;

    open spec fn view(&self) -> InlineView {
        inline_view(*self)
    }
}

impl View for Block {
    type V = BlockView;

    open spec fn view(&self) -> BlockView {
        block_view(*self)
    }
}

impl View for Shortcode {
    type V = ShortcodeView;

    open spec fn view(&self) -> ShortcodeView {
        shortcode_view(*self)
    }
}

impl View for ShortcodeBase {
    type V = ShortcodeBaseView;

    open spec fn view(&self) -> ShortcodeBaseView {
        base_view(*self)
    }
}

impl View for Ast {
    type V = Seq<BlockView>;

    open spec fn view(&self) -> Seq<BlockView> {
        blocks_view(self.0@)
    }
}

/// A copy of `v`, inline by inline.
pub fn clone_inlines(v: &Vec<Inline>) -> (r: Vec<Inline>)
    ensures
        inlines_view(r@) == inlines_view(v@),
    decreases v,
{
    let mut r: Vec<Inline> = Vec::new();
    let mut k: usize = 0;
    while k < v.len()
        invariant
            k <= v.len(),
            r.len() == k,
            forall|j: int| 0 <= j < k ==> inline_view(r[j]) == inline_view(v[j]),
        decreases v.len() - k,
    {
        r.push(clone_inline(&v[k]));
        k += 1;
    }
    assert(inlines_view(r@) =~= inlines_view(v@));
    r
}

/// A copy of `v`, block by block.
pub fn clone_blocks(v: &Vec<Block>) -> (r: Vec<Block>)
    ensures
        blocks_view(r@) == blocks_view(v@),
    decreases v,
{
    let mut r: Vec<Block> = Vec::new();
    let mut k: usize = 0;
    while k < v.len()
        invariant
            k <= v.len(),
            r.len() == k,
            forall|j: int| 0 <= j < k ==> block_view(r[j]) == block_view(v[j]),
        decreases v.len() - k,
    {
        r.push(clone_block(&v[k]));
        k += 1;
    }
    assert(blocks_view(r@) =~= blocks_view(v@));
    r
}

/// A copy of `v`, argument by argument.
pub fn clone_arguments(v: &Vec<Argument<Vec<Block>>>) -> (r: Vec<Argument<Vec<Block>>>)
    ensures
        arguments_view(r@) == arguments_view(v@),
    decreases v,
{
    let mut r: Vec<Argument<Vec<Block>>> = Vec::new();
    let mut k: usize = 0;
    while k < v.len()
        invariant
            k <= v.len(),
            r.len() == k,
            forall|j: int| 0 <= j < k ==> argument_view(r[j]) == argument_view(v[j]),
        decreases v.len() - k,
    {
        let copy = match &v[k] {
            Argument::Positional(b) => Argument::Positional(clone_blocks(b)),
            Argument::Keyword(key, b) => Argument::Keyword(key.clone(), clone_blocks(b)),
        };
        r.push(copy);
        k += 1;
    }
    assert(arguments_view(r@) =~= arguments_view(v@));
    r
}

/// A copy of the shortcode base `b`.
pub fn clone_base(b: &ShortcodeBase) -> (r: ShortcodeBase)
    ensures
        r@ == b@,
    decreases b,
{
    ShortcodeBase {
        name: b.name.clone(),
        id: clone_option(&b.id),
        num: b.num,
        parameters: clone_arguments(&b.parameters),
    }
}

/// A copy of the shortcode `s`.
pub fn clone_shortcode(s: &Shortcode) -> (r: Shortcode)
    ensures
        r@ == s@,
    decreases s,
{
    match s {
        Shortcode::Inline(b) => Shortcode::Inline(clone_base(b)),
        Shortcode::Block(b, body) => Shortcode::Block(clone_base(b), clone_blocks(body)),
    }
}

/// A copy of the inline `i`.
pub fn clone_inline(i: &Inline) -> (r: Inline)
    ensures
        r@ == i@,
    decreases i,
{
    match i {
        Inline::Text(s) => Inline::Text(s.clone()),
        Inline::Emphasis(v) => Inline::Emphasis(clone_inlines(v)),
        Inline::Strong(v) => Inline::Strong(clone_inlines(v)),
        Inline::Strikethrough(v) => Inline::Strikethrough(clone_inlines(v)),
        Inline::Code(s) => Inline::Code(s.clone()),
        Inline::SoftBreak => Inline::SoftBreak,
        Inline::HardBreak => Inline::HardBreak,
        Inline::Rule => Inline::Rule,
        Inline::Image(t, url, alt, v) => Inline::Image(
            *t,
            url.clone(),
            alt.clone(),
            clone_inlines(v),
        ),
        Inline::Link(t, url, alt, v) => Inline::Link(
            *t,
            url.clone(),
            alt.clone(),
            clone_inlines(v),
        ),
        Inline::Html(s) => Inline::Html(s.clone()),
        Inline::Math { source, display_block, trailing_space } => Inline::Math {
            source: source.clone(),
            display_block: *display_block,
            trailing_space: *trailing_space,
        },
        Inline::Shortcode(s) => Inline::Shortcode(clone_shortcode(s)),
    }
}

/// A copy of the block `b`.
pub fn clone_block(b: &Block) -> (r: Block)
    ensures
        r@ == b@,
    decreases b,
{
    match b {
        Block::Heading { lvl, id, classes, inner } => Block::Heading {
            lvl: *lvl,
            id: clone_option(id),
            classes: clone_strings(classes),
            inner: clone_inlines(inner),
        },
        Block::Plain(v) => Block::Plain(clone_inlines(v)),
        Block::Paragraph(v) => Block::Paragraph(clone_inlines(v)),
        Block::BlockQuote(v) => Block::BlockQuote(clone_inlines(v)),
        Block::CodeBlock { source, reference, attr, tags, outputs } => Block::CodeBlock {
            source: source.clone(),
            reference: clone_option(reference),
            attr: *attr,
            tags: match tags {
                Some(t) => Some(clone_strings(t)),
                None => None,
            },
            outputs: clone_outputs(outputs),
        },
        Block::List(start, v) => Block::List(*start, clone_blocks(v)),
        Block::ListItem(v) => Block::ListItem(clone_blocks(v)),
    }
}

impl Clone for Inline {
    fn clone(&self) -> (r: Self)
        ensures
            r@ == self@,
    {
        clone_inline(self)
    }
}

impl Clone for Block {
    fn clone(&self) -> (r: Self)
        ensures
            r@ == self@,
    {
        clone_block(self)
    }
}

impl Clone for Shortcode {
    fn clone(&self) -> (r: Self)
        ensures
            r@ == self@,
    {
        clone_shortcode(self)
    }
}

impl Clone for ShortcodeBase {
    fn clone(&self) -> (r: Self)
        ensures
            r@ == self@,
    {
        clone_base(self)
    }
}

impl Clone for Ast {
    fn clone(&self) -> (r: Self)
        ensures
            r@ == self@,
    {
        Ast(clone_blocks(&self.0))
    }
}

/// `$$` around display math, `$` around inline math.
pub open spec fn math_delimiter(display_block: bool) -> Seq<char> {
    if display_block {
        seq!['$', '$']
    } else {
        seq!['$']
    }
}

/// Math as markdown writes it: the source between its delimiters, and a space
/// behind them where one trailed.
pub open spec fn math_markdown(src: Seq<char>, display_block: bool, trailing_space: bool) -> Seq<
    char,
> {
    math_delimiter(display_block) + src + math_delimiter(display_block) + if trailing_space {
        seq![' ']
    } else {
        Seq::empty()
    }
}

/// The text of the inlines `v`, one behind the other.
pub open spec fn inlines_text(v: Seq<InlineView>) -> Seq<char>
    decreases v,
{
    if v.len() == 0 {
        Seq::empty()
    } else {
        inlines_text(v.drop_last()) + inline_text(v.last())
    }
}

/// The text of a shortcode base: its name, `#`, and its id where it has one.
pub open spec fn base_text(b: ShortcodeBaseView) -> Seq<char> {
    b.name + seq!['#'] + match b.id {
        Some(id) => id,
        None => Seq::empty(),
    }
}

/// The text of a shortcode: that of its base.
pub open spec fn shortcode_text(s: ShortcodeView) -> Seq<char> {
    match s {
        ShortcodeView::Inline(b) => base_text(b),
        ShortcodeView::Block(b, _) => base_text(b),
    }
}

/// The text of an inline without its markup. Breaks, rules, images and links
/// have none.
pub open spec fn inline_text(i: InlineView) -> Seq<char>
    decreases i,
{
    match i {
        InlineView::Text(s) => s,
        InlineView::Emphasis(v) => inlines_text(v),
        InlineView::Strong(v) => inlines_text(v),
        InlineView::Strikethrough(v) => inlines_text(v),
        InlineView::Code(s) => s,
        InlineView::Html(s) => s,
        InlineView::Math { source, .. } => source,
        InlineView::Shortcode(s) => shortcode_text(s),
        _ => Seq::empty(),
    }
}

/// The text of a block without its markup: that of its inlines, the source
/// of a code cell, and for a list the text of its items.
pub open spec fn block_text(b: BlockView) -> Seq<char>
    decreases b,
{
    match b {
        BlockView::Heading { inner, .. } => inlines_text(inner),
        BlockView::Plain(v) => inlines_text(v),
        BlockView::Paragraph(v) => inlines_text(v),
        BlockView::BlockQuote(v) => inlines_text(v),
        BlockView::CodeBlock { source, .. } => source,
        BlockView::List(_, v) => blocks_text(v),
        BlockView::ListItem(v) => blocks_text(v),
    }
}

/// The text of the blocks `v`, one behind the other.
pub open spec fn blocks_text(v: Seq<BlockView>) -> Seq<char>
    decreases v,
{
    if v.len() == 0 {
        Seq::empty()
    } else {
        blocks_text(v.drop_last()) + block_text(v.last())
    }
}

/// Math as markdown writes it.
pub fn math_block_md(src: &str, display_block: bool, trailing_space: bool) -> (r: String)
    ensures
        r@ == math_markdown(src@, display_block, trailing_space),
{
    let delim = if display_block {
        "$$"
    } else {
        "$"
    };
    let trail = if trailing_space {
        " "
    } else {
        ""
    };
    proof {
        reveal_strlit("$$");
        reveal_strlit("$");
        reveal_strlit(" ");
        reveal_strlit("");
        assert(delim@ =~= math_delimiter(display_block));
        assert(trail@ =~= if trailing_space {
            seq![' ']
        } else {
            Seq::empty()
        });
    }
    let mut r = String::from_str(delim);
    r.append(src);
    r.append(delim);
    r.append(trail);
    r
}

/// The text of `vec`, one inline behind the other.
pub fn vec_inline_to_string(vec: &Vec<Inline>) -> (r: String)
    ensures
        r@ == inlines_text(inlines_view(vec@)),
    decreases vec,
{
    let mut out = String::new();
    let mut k: usize = 0;
    while k < vec.len()
        invariant
            k <= vec.len(),
            out@ == inlines_text(inlines_view(vec@).subrange(0, k as int)),
        decreases vec.len() - k,
    {
        let piece = vec[k].to_string();
        out.append(piece.as_str());
        proof {
            let views = inlines_view(vec@);
            assert(views.subrange(0, k + 1).drop_last() =~= views.subrange(0, k as int));
        }
        k += 1;
    }
    proof {
        assert(inlines_view(vec@).subrange(0, k as int) =~= inlines_view(vec@));
    }
    out
}

/// The text of the blocks `v`, one behind the other.
pub fn blocks_to_string(v: &Vec<Block>) -> (r: String)
    ensures
        r@ == blocks_text(blocks_view(v@)),
    decreases v,
{
    let mut out = String::new();
    let mut k: usize = 0;
    while k < v.len()
        invariant
            k <= v.len(),
            out@ == blocks_text(blocks_view(v@).subrange(0, k as int)),
        decreases v.len() - k,
    {
        let piece = v[k].to_string();
        out.append(piece.as_str());
        proof {
            let views = blocks_view(v@);
            assert(views.subrange(0, k + 1).drop_last() =~= views.subrange(0, k as int));
        }
        k += 1;
    }
    proof {
        assert(blocks_view(v@).subrange(0, k as int) =~= blocks_view(v@));
    }
    out
}

impl Block {
    /// The text of the block without its markup.
    pub fn to_string(&self) -> (r: String)
        ensures
            r@ == block_text(self@),
        decreases self,
    {
        match self {
            Block::Heading { inner, .. } => vec_inline_to_string(inner),
            Block::Plain(inner) => vec_inline_to_string(inner),
            Block::Paragraph(inner) => vec_inline_to_string(inner),
            Block::BlockQuote(inner) => vec_inline_to_string(inner),
            Block::CodeBlock { source, .. } => source.clone(),
            Block::List(_, items) => blocks_to_string(items),
            Block::ListItem(items) => blocks_to_string(items),
        }
    }
}

impl Inline {
    /// The text of the inline without its markup.
    pub fn to_string(&self) -> (r: String)
        ensures
            r@ == inline_text(self@),
        decreases self,
    {
        match self {
            Inline::Text(s) => s.clone(),
            Inline::Emphasis(inner) => vec_inline_to_string(inner),
            Inline::Strong(inner) => vec_inline_to_string(inner),
            Inline::Strikethrough(inner) => vec_inline_to_string(inner),
            Inline::Code(s) => s.clone(),
            Inline::SoftBreak => String::new(),
            Inline::HardBreak => String::new(),
            Inline::Rule => String::new(),
            Inline::Html(s) => s.clone(),
            Inline::Math { source, .. } => source.clone(),
            Inline::Shortcode(s) => s.to_string(),
            _ => String::new(),
        }
    }
}

impl Shortcode {
    /// The text of the shortcode: that of its base.
    pub fn to_string(&self) -> (r: String)
        ensures
            r@ == shortcode_text(self@),
    {
        match self {
            Shortcode::Inline(base) => base.to_string(),
            Shortcode::Block(base, _) => base.to_string(),
        }
    }
}

impl ShortcodeBase {
    /// The name, `#`, and the id where there is one.
    pub fn to_string(&self) -> (r: String)
        ensures
            r@ == base_text(self@),
    {
        let mut r = self.name.clone();
        proof {
            reveal_strlit("#");
        }
        r.append("#");
        match &self.id {
            Some(id) => {
                r.append(id.as_str());
            },
            None => {},
        }
        assert(r@ =~= base_text(self@));
        r
    }
}

} // verus!
