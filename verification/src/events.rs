//! Markdown events that own their text, and the ways to and from them: from
//! the events of pulldown-cmark, back to those, and from the syntax tree.

use crate::ast::{
    blocks_view, inlines_view, math_block_md, math_markdown, shortcode_text, Block, BlockView,
    Inline, InlineView,
};
use crate::notebook::{clone_option, clone_strings, option_view, strings_view};
use pulldown_cmark::{Alignment, CodeBlockKind, CowStr, Event, HeadingLevel, LinkType, Tag};
use vstd::prelude::*;
use vstd::string::*;

verus! {

/// A text that pulldown-cmark hands out.
#[verifier::external_type_specification]
#[verifier::external_body]
pub struct ExCowStr<'a>(CowStr<'a>);

/// How a table column is aligned.
#[verifier::external_type_specification]
pub struct ExAlignment(Alignment);

/// The kind of a code block of pulldown-cmark.
#[verifier::external_type_specification]
pub struct ExCodeBlockKind<'a>(CodeBlockKind<'a>);

/// An element of pulldown-cmark that has a start and an end.
#[verifier::external_type_specification]
pub struct ExTag<'a>(Tag<'a>);

/// A markdown event of pulldown-cmark.
#[verifier::external_type_specification]
pub struct ExEvent<'a>(Event<'a>);

/// The characters of a text that pulldown-cmark handed out.
pub uninterp spec fn cow_text(text: CowStr) -> Seq<char>;

/// What the events hold that pulldown-cmark makes of a markdown text with all
/// of its extensions on.
pub uninterp spec fn markdown_events(text: Seq<char>) -> Seq<AEventView>;

/// `to_string` of a `pulldown_cmark::CowStr`: its characters as a string.
#[verifier::external_body]
pub(crate) fn cow_string(text: &CowStr) -> (r: String)
    ensures
        r@ == cow_text(*text),
{
    text.to_string()
}

/// `pulldown_cmark::Parser::new_ext` with `Options::all`, collected: the
/// events of the markdown text `input`, in their order.
#[verifier::external_body]
pub(crate) fn tokenize<'a>(input: &'a str) -> (r: Vec<Event<'a>>)
    ensures
        parsed_view(r@) == markdown_events(input@),
{
    pulldown_cmark::Parser::new_ext(input, pulldown_cmark::Options::all()).collect()
}

/// The kind of a code block.
#[derive(Debug)]
pub enum ACodeBlockKind {
    Indented,
    /// Fenced, with the text behind the opening fence.
    Fenced(String),
}

/// An element that has a start and an end.
#[derive(Debug)]
pub enum ATag {
    Paragraph,
    /// A heading: its level, its id and its classes.
    Heading(HeadingLevel, Option<String>, Vec<String>),
    BlockQuote,
    CodeBlock(ACodeBlockKind),
    /// A list, with the number of its first item where it is ordered.
    List(Option<u64>),
    Item,
    FootnoteDefinition(String),
    Table(Vec<Alignment>),
    TableHead,
    TableRow,
    TableCell,
    Emphasis,
    Strong,
    Strikethrough,
    /// A link: its type, its url and its title.
    Link(LinkType, String, String),
    /// An image: its type, its url and its title.
    Image(LinkType, String, String),
}

/// A markdown event.
#[derive(Debug)]
pub enum AEvent {
    Start(ATag),
    End(ATag),
    Text(String),
    Code(String),
    Html(String),
    FootnoteReference(String),
    SoftBreak,
    HardBreak,
    Rule,
    TaskListMarker(bool),
}

/// The events of a document.
pub type EventContent = Vec<AEvent>;

/// What an `ACodeBlockKind` holds.
pub enum ACodeBlockKindView {
    Indented,
    Fenced(Seq<char>),
}

/// What an `ATag` holds.
pub enum ATagView {
    Paragraph,
    Heading(HeadingLevel, Option<Seq<char>>, Seq<Seq<char>>),
    BlockQuote,
    CodeBlock(ACodeBlockKindView),
    List(Option<u64>),
    Item,
    FootnoteDefinition(Seq<char>),
    Table(Seq<Alignment>),
    TableHead,
    TableRow,
    TableCell,
    Emphasis,
    Strong,
    Strikethrough,
    Link(LinkType, Seq<char>, Seq<char>),
    Image(LinkType, Seq<char>, Seq<char>),
}

/// What an `AEvent` holds.
pub enum AEventView {
    Start(ATagView),
    End(ATagView),
    Text(Seq<char>),
    Code(Seq<char>),
    Html(Seq<char>),
    FootnoteReference(Seq<char>),
    SoftBreak,
    HardBreak,
    Rule,
    TaskListMarker(bool),
}

impl View for ACodeBlockKind {
    type V = ACodeBlockKindView;

    open spec fn view(&self) -> ACodeBlockKindView {
        match *self {
            ACodeBlockKind::Indented => ACodeBlockKindView::Indented,
            ACodeBlockKind::Fenced(s) => ACodeBlockKindView::Fenced(s@),
        }
    }
}

impl View for ATag {
    type V = ATagView;

    open spec fn view(&self) -> ATagView {
        match *self {
            ATag::Paragraph => ATagView::Paragraph,
            ATag::Heading(lvl, id, classes) => ATagView::Heading(
                lvl,
                option_view(id),
                strings_view(classes@),
            ),
            ATag::BlockQuote => ATagView::BlockQuote,
            ATag::CodeBlock(k) => ATagView::CodeBlock(k@),
            ATag::List(start) => ATagView::List(start),
            ATag::Item => ATagView::Item,
            ATag::FootnoteDefinition(s) => ATagView::FootnoteDefinition(s@),
            ATag::Table(a) => ATagView::Table(a@),
            ATag::TableHead => ATagView::TableHead,
            ATag::TableRow => ATagView::TableRow,
            ATag::TableCell => ATagView::TableCell,
            ATag::Emphasis => ATagView::Emphasis,
            ATag::Strong => ATagView::Strong,
            ATag::Strikethrough => ATagView::Strikethrough,
            ATag::Link(tp, url, title) => ATagView::Link(tp, url@, title@),
            ATag::Image(tp, url, title) => ATagView::Image(tp, url@, title@),
        }
    }
}

impl View for AEvent {
    type V = AEventView;

    open spec fn view(&self) -> AEventView {
        match *self {
            AEvent::Start(t) => AEventView::Start(t@),
            AEvent::End(t) => AEventView::End(t@),
            AEvent::Text(s) => AEventView::Text(s@),
            AEvent::Code(s) => AEventView::Code(s@),
            AEvent::Html(s) => AEventView::Html(s@),
            AEvent::FootnoteReference(s) => AEventView::FootnoteReference(s@),
            AEvent::SoftBreak => AEventView::SoftBreak,
            AEvent::HardBreak => AEventView::HardBreak,
            AEvent::Rule => AEventView::Rule,
            AEvent::TaskListMarker(b) => AEventView::TaskListMarker(b),
        }
    }
}

/// What the events of `v` hold.
pub open spec fn events_view(v: Seq<AEvent>) -> Seq<AEventView> {
    Seq::new(v.len(), |k: int| v[k]@)
}

impl Clone for ACodeBlockKind {
    fn clone(&self) -> (r: Self)
        ensures
            r@ == self@,
    {
        match self {
            ACodeBlockKind::Indented => ACodeBlockKind::Indented,
            ACodeBlockKind::Fenced(s) => ACodeBlockKind::Fenced(s.clone()),
        }
    }
}

/// A copy of `v`, alignment by alignment.
fn clone_alignments(v: &Vec<Alignment>) -> (r: Vec<Alignment>)
    ensures
        r@ == v@,
{
    let mut r: Vec<Alignment> = Vec::new();
    let mut k: usize = 0;
    while k < v.len()
        invariant
            k <= v.len(),
            r@ == v@.subrange(0, k as int),
        decreases v.len() - k,
    {
        r.push(v[k]);
        assert(r@ =~= v@.subrange(0, k + 1));
        k += 1;
    }
    assert(v@.subrange(0, k as int) =~= v@);
    r
}

impl Clone for ATag {
    fn clone(&self) -> (r: Self)
        ensures
            r@ == self@,
    {
        match self {
            ATag::Paragraph => ATag::Paragraph,
            ATag::Heading(lvl, id, classes) => ATag::Heading(
                *lvl,
                clone_option(id),
                clone_strings(classes),
            ),
            ATag::BlockQuote => ATag::BlockQuote,
            ATag::CodeBlock(k) => ATag::CodeBlock(k.clone()),
            ATag::List(start) => ATag::List(*start),
            ATag::Item => ATag::Item,
            ATag::FootnoteDefinition(s) => ATag::FootnoteDefinition(s.clone()),
            ATag::Table(a) => ATag::Table(clone_alignments(a)),
            ATag::TableHead => ATag::TableHead,
            ATag::TableRow => ATag::TableRow,
            ATag::TableCell => ATag::TableCell,
            ATag::Emphasis => ATag::Emphasis,
            ATag::Strong => ATag::Strong,
            ATag::Strikethrough => ATag::Strikethrough,
            ATag::Link(tp, url, title) => ATag::Link(*tp, url.clone(), title.clone()),
            ATag::Image(tp, url, title) => ATag::Image(*tp, url.clone(), title.clone()),
        }
    }
}

impl Clone for AEvent {
    fn clone(&self) -> (r: Self)
        ensures
            r@ == self@,
    {
        match self {
            AEvent::Start(t) => AEvent::Start(t.clone()),
            AEvent::End(t) => AEvent::End(t.clone()),
            AEvent::Text(s) => AEvent::Text(s.clone()),
            AEvent::Code(s) => AEvent::Code(s.clone()),
            AEvent::Html(s) => AEvent::Html(s.clone()),
            AEvent::FootnoteReference(s) => AEvent::FootnoteReference(s.clone()),
            AEvent::SoftBreak => AEvent::SoftBreak,
            AEvent::HardBreak => AEvent::HardBreak,
            AEvent::Rule => AEvent::Rule,
            AEvent::TaskListMarker(b) => AEvent::TaskListMarker(*b),
        }
    }
}

/// The text of an optional text.
pub open spec fn optional_text(s: Option<&str>) -> Option<Seq<char>> {
    match s {
        Some(s) => Some(s@),
        None => None,
    }
}

/// The texts of `v`.
pub open spec fn texts_view(v: Seq<&str>) -> Seq<Seq<char>> {
    Seq::new(v.len(), |k: int| v[k]@)
}

/// What the kind of a code block of pulldown-cmark holds.
pub open spec fn kind_view(k: CodeBlockKind) -> ACodeBlockKindView {
    match k {
        CodeBlockKind::Indented => ACodeBlockKindView::Indented,
        CodeBlockKind::Fenced(info) => ACodeBlockKindView::Fenced(cow_text(info)),
    }
}

/// What a tag of pulldown-cmark holds.
pub open spec fn tag_view(t: Tag) -> ATagView {
    match t {
        Tag::Paragraph => ATagView::Paragraph,
        Tag::Heading(lvl, id, classes) => ATagView::Heading(
            lvl,
            optional_text(id),
            texts_view(classes@),
        ),
        Tag::BlockQuote => ATagView::BlockQuote,
        Tag::CodeBlock(k) => ATagView::CodeBlock(kind_view(k)),
        Tag::List(start) => ATagView::List(start),
        Tag::Item => ATagView::Item,
        Tag::FootnoteDefinition(s) => ATagView::FootnoteDefinition(cow_text(s)),
        Tag::Table(a) => ATagView::Table(a@),
        Tag::TableHead => ATagView::TableHead,
        Tag::TableRow => ATagView::TableRow,
        Tag::TableCell => ATagView::TableCell,
        Tag::Emphasis => ATagView::Emphasis,
        Tag::Strong => ATagView::Strong,
        Tag::Strikethrough => ATagView::Strikethrough,
        Tag::Link(tp, url, title) => ATagView::Link(tp, cow_text(url), cow_text(title)),
        Tag::Image(tp, url, title) => ATagView::Image(tp, cow_text(url), cow_text(title)),
    }
}

/// What an event of pulldown-cmark holds.
pub open spec fn event_view(e: Event) -> AEventView {
    match e {
        Event::Start(t) => AEventView::Start(tag_view(t)),
        Event::End(t) => AEventView::End(tag_view(t)),
        Event::Text(s) => AEventView::Text(cow_text(s)),
        Event::Code(s) => AEventView::Code(cow_text(s)),
        Event::Html(s) => AEventView::Html(cow_text(s)),
        Event::FootnoteReference(s) => AEventView::FootnoteReference(cow_text(s)),
        Event::SoftBreak => AEventView::SoftBreak,
        Event::HardBreak => AEventView::HardBreak,
        Event::Rule => AEventView::Rule,
        Event::TaskListMarker(b) => AEventView::TaskListMarker(b),
    }
}

/// What the events of pulldown-cmark in `v` hold.
pub open spec fn parsed_view(v: Seq<Event>) -> Seq<AEventView> {
    Seq::new(v.len(), |k: int| event_view(v[k]))
}

/// `pulldown_cmark::CowStr::Borrowed`: the text `s` as pulldown-cmark hands
/// texts out.
#[verifier::external_body]
pub(crate) fn cow_of<'a>(s: &'a str) -> (r: CowStr<'a>)
    ensures
        cow_text(r) == s@,
{
    CowStr::Borrowed(s)
}

impl ATag {
    /// The tag of pulldown-cmark as a tag that owns its text.
    pub fn from_tag(tag: &Tag) -> (r: ATag)
        ensures
            r@ == tag_view(*tag),
    {
        match tag {
            Tag::Paragraph => ATag::Paragraph,
            Tag::Heading(lvl, id, classes) => {
                let id = match id {
                    Some(s) => Some(String::from_str(*s)),
                    None => None,
                };
                let mut names: Vec<String> = Vec::new();
                let mut k: usize = 0;
                while k < classes.len()
                    invariant
                        k <= classes.len(),
                        names.len() == k,
                        forall|j: int| 0 <= j < k ==> (#[trigger] names[j])@ == classes[j]@,
                    decreases classes.len() - k,
                {
                    names.push(String::from_str(classes[k]));
                    k += 1;
                }
                proof {
                    assert(strings_view(names@) =~= texts_view(classes@));
                }
                ATag::Heading(*lvl, id, names)
            },
            Tag::BlockQuote => ATag::BlockQuote,
            Tag::CodeBlock(kind) => match kind {
                CodeBlockKind::Indented => ATag::CodeBlock(ACodeBlockKind::Indented),
                CodeBlockKind::Fenced(info) => ATag::CodeBlock(
                    ACodeBlockKind::Fenced(cow_string(info)),
                ),
            },
            Tag::List(start) => ATag::List(*start),
            Tag::Item => ATag::Item,
            Tag::FootnoteDefinition(s) => ATag::FootnoteDefinition(cow_string(s)),
            Tag::Table(a) => ATag::Table(clone_alignments(a)),
            Tag::TableHead => ATag::TableHead,
            Tag::TableRow => ATag::TableRow,
            Tag::TableCell => ATag::TableCell,
            Tag::Emphasis => ATag::Emphasis,
            Tag::Strong => ATag::Strong,
            Tag::Strikethrough => ATag::Strikethrough,
            Tag::Link(tp, url, title) => ATag::Link(*tp, cow_string(url), cow_string(title)),
            Tag::Image(tp, url, title) => ATag::Image(*tp, cow_string(url), cow_string(title)),
        }
    }

    /// The tag as a tag of pulldown-cmark that borrows its text.
    pub fn to_tag<'a>(&'a self) -> (r: Tag<'a>)
        ensures
            tag_view(r) == self@,
    {
        match self {
            ATag::Paragraph => Tag::Paragraph,
            ATag::Heading(lvl, id, classes) => {
                let id: Option<&'a str> = match id {
                    Some(s) => Some(s.as_str()),
                    None => None,
                };
                let mut names: Vec<&'a str> = Vec::new();
                let mut k: usize = 0;
                while k < classes.len()
                    invariant
                        k <= classes.len(),
                        names.len() == k,
                        forall|j: int| 0 <= j < k ==> (#[trigger] names[j])@ == classes[j]@,
                    decreases classes.len() - k,
                {
                    names.push(classes[k].as_str());
                    k += 1;
                }
                proof {
                    assert(strings_view(classes@) =~= texts_view(names@));
                }
                Tag::Heading(*lvl, id, names)
            },
            ATag::BlockQuote => Tag::BlockQuote,
            ATag::CodeBlock(kind) => match kind {
                ACodeBlockKind::Indented => Tag::CodeBlock(CodeBlockKind::Indented),
                ACodeBlockKind::Fenced(info) => Tag::CodeBlock(
                    CodeBlockKind::Fenced(cow_of(info.as_str())),
                ),
            },
            ATag::List(start) => Tag::List(*start),
            ATag::Item => Tag::Item,
            ATag::FootnoteDefinition(s) => Tag::FootnoteDefinition(cow_of(s.as_str())),
            ATag::Table(a) => Tag::Table(clone_alignments(a)),
            ATag::TableHead => Tag::TableHead,
            ATag::TableRow => Tag::TableRow,
            ATag::TableCell => Tag::TableCell,
            ATag::Emphasis => Tag::Emphasis,
            ATag::Strong => Tag::Strong,
            ATag::Strikethrough => Tag::Strikethrough,
            ATag::Link(tp, url, title) => Tag::Link(
                *tp,
                cow_of(url.as_str()),
                cow_of(title.as_str()),
            ),
            ATag::Image(tp, url, title) => Tag::Image(
                *tp,
                cow_of(url.as_str()),
                cow_of(title.as_str()),
            ),
        }
    }
}

impl AEvent {
    /// The event of pulldown-cmark as an event that owns its text.
    pub fn from_event(event: &Event) -> (r: AEvent)
        ensures
            r@ == event_view(*event),
    {
        match event {
            Event::Start(t) => AEvent::Start(ATag::from_tag(t)),
            Event::End(t) => AEvent::End(ATag::from_tag(t)),
            Event::Text(s) => AEvent::Text(cow_string(s)),
            Event::Code(s) => AEvent::Code(cow_string(s)),
            Event::Html(s) => AEvent::Html(cow_string(s)),
            Event::FootnoteReference(s) => AEvent::FootnoteReference(cow_string(s)),
            Event::SoftBreak => AEvent::SoftBreak,
            Event::HardBreak => AEvent::HardBreak,
            Event::Rule => AEvent::Rule,
            Event::TaskListMarker(b) => AEvent::TaskListMarker(*b),
        }
    }

    /// The event as an event of pulldown-cmark that borrows its text.
    pub fn to_event<'a>(&'a self) -> (r: Event<'a>)
        ensures
            event_view(r) == self@,
    {
        match self {
            AEvent::Start(t) => Event::Start(t.to_tag()),
            AEvent::End(t) => Event::End(t.to_tag()),
            AEvent::Text(s) => Event::Text(cow_of(s.as_str())),
            AEvent::Code(s) => Event::Code(cow_of(s.as_str())),
            AEvent::Html(s) => Event::Html(cow_of(s.as_str())),
            AEvent::FootnoteReference(s) => Event::FootnoteReference(cow_of(s.as_str())),
            AEvent::SoftBreak => Event::SoftBreak,
            AEvent::HardBreak => Event::HardBreak,
            AEvent::Rule => Event::Rule,
            AEvent::TaskListMarker(b) => Event::TaskListMarker(*b),
        }
    }
}

/// The events of pulldown-cmark in `events` as events that own their text.
pub fn from_events(events: &Vec<Event>) -> (r: Vec<AEvent>)
    ensures
        events_view(r@) == parsed_view(events@),
{
    let mut r: Vec<AEvent> = Vec::new();
    let mut k: usize = 0;
    while k < events.len()
        invariant
            k <= events.len(),
            r.len() == k,
            forall|j: int| 0 <= j < k ==> (#[trigger] r[j])@ == event_view(events[j]),
        decreases events.len() - k,
    {
        r.push(AEvent::from_event(&events[k]));
        k += 1;
    }
    assert(events_view(r@) =~= parsed_view(events@));
    r
}

/// The events of the markdown text `text`.
pub fn markdown_to_events(text: &str) -> (r: Vec<AEvent>)
    ensures
        events_view(r@) == markdown_events(text@),
{
    let parsed = tokenize(text);
    from_events(&parsed)
}

/// The start of an element, what stands inside it, and its end.
pub open spec fn enclosed(tag: ATagView, inner: Seq<AEventView>) -> Seq<AEventView> {
    seq![AEventView::Start(tag)] + inner + seq![AEventView::End(tag)]
}

/// The tag of a code block of Python.
pub open spec fn python_block() -> ATagView {
    ATagView::CodeBlock(ACodeBlockKindView::Fenced("python"@))
}

/// The events of a code cell: its source in a code block of Python.
pub open spec fn code_events(source: Seq<char>) -> Seq<AEventView> {
    enclosed(python_block(), seq![AEventView::Text(source)])
}

/// The events of the inlines `v`, one behind the other.
pub open spec fn inlines_events(v: Seq<InlineView>) -> Seq<AEventView>
    decreases v,
{
    if v.len() == 0 {
        Seq::empty()
    } else {
        inlines_events(v.drop_last()) + inline_events(v.last())
    }
}

/// The events of an inline. Math is written as markdown writes it, and a
/// shortcode as its name and id.
pub open spec fn inline_events(i: InlineView) -> Seq<AEventView>
    decreases i,
{
    match i {
        InlineView::Text(s) => seq![AEventView::Text(s)],
        InlineView::Emphasis(v) => enclosed(ATagView::Emphasis, inlines_events(v)),
        InlineView::Strong(v) => enclosed(ATagView::Strong, inlines_events(v)),
        InlineView::Strikethrough(v) => enclosed(ATagView::Strikethrough, inlines_events(v)),
        InlineView::Code(s) => seq![AEventView::Code(s)],
        InlineView::SoftBreak => seq![AEventView::SoftBreak],
        InlineView::HardBreak => seq![AEventView::HardBreak],
        InlineView::Rule => seq![AEventView::Rule],
        InlineView::Image(tp, url, alt, v) => enclosed(
            ATagView::Image(tp, url, alt),
            inlines_events(v),
        ),
        InlineView::Link(tp, url, alt, v) => enclosed(
            ATagView::Link(tp, url, alt),
            inlines_events(v),
        ),
        InlineView::Html(s) => seq![AEventView::Html(s)],
        InlineView::Math { source, display_block, trailing_space } => seq![
            AEventView::Text(math_markdown(source, display_block, trailing_space)),
        ],
        InlineView::Shortcode(s) => seq![AEventView::Text(shortcode_text(s))],
    }
}

/// The events of the blocks `v`, one behind the other.
pub open spec fn blocks_events(v: Seq<BlockView>) -> Seq<AEventView>
    decreases v,
{
    if v.len() == 0 {
        Seq::empty()
    } else {
        blocks_events(v.drop_last()) + block_events(v.last())
    }
}

/// The events of a block: the start of its element, the events of what it
/// holds, and the end of its element. A plain block has no element of its own.
pub open spec fn block_events(b: BlockView) -> Seq<AEventView>
    decreases b,
{
    match b {
        BlockView::Heading { lvl, id, classes, inner } => enclosed(
            ATagView::Heading(lvl, id, classes),
            inlines_events(inner),
        ),
        BlockView::Plain(v) => inlines_events(v),
        BlockView::Paragraph(v) => enclosed(ATagView::Paragraph, inlines_events(v)),
        BlockView::BlockQuote(v) => enclosed(ATagView::BlockQuote, inlines_events(v)),
        BlockView::CodeBlock { source, .. } => code_events(source),
        BlockView::List(start, v) => enclosed(ATagView::List(start), blocks_events(v)),
        BlockView::ListItem(v) => enclosed(ATagView::Item, blocks_events(v)),
    }
}

/// Puts the events `more` behind `out`.
pub fn append_events(out: &mut Vec<AEvent>, more: Vec<AEvent>)
    ensures
        events_view(final(out)@) == events_view(old(out)@) + events_view(more@),
{
    let mut more = more;
    let ghost added = more@;
    out.append(&mut more);
    assert(events_view(out@) =~= events_view(old(out)@) + events_view(added));
}

/// The one event `event` as a list.
pub fn one_event(event: AEvent) -> (r: Vec<AEvent>)
    ensures
        events_view(r@) == seq![event@],
{
    let mut r: Vec<AEvent> = Vec::new();
    r.push(event);
    assert(events_view(r@) =~= seq![event@]);
    r
}

/// The start of the element `tag`, the events `inner`, and its end.
pub fn enclose(tag: ATag, inner: Vec<AEvent>) -> (r: Vec<AEvent>)
    ensures
        events_view(r@) == enclosed(tag@, events_view(inner@)),
{
    let mut r = one_event(AEvent::Start(tag.clone()));
    append_events(&mut r, inner);
    append_events(&mut r, one_event(AEvent::End(tag)));
    r
}

/// The events of a code cell with the source `source`.
pub fn code_cell_events(source: &str) -> (r: Vec<AEvent>)
    ensures
        events_view(r@) == code_events(source@),
{
    enclose(
        ATag::CodeBlock(ACodeBlockKind::Fenced(String::from_str("python"))),
        one_event(AEvent::Text(String::from_str(source))),
    )
}

/// The events of the inlines `v`.
pub fn events_of_inlines(v: &Vec<Inline>) -> (r: Vec<AEvent>)
    ensures
        events_view(r@) == inlines_events(inlines_view(v@)),
    decreases v,
{
    let ghost views = inlines_view(v@);
    let mut out: Vec<AEvent> = Vec::new();
    let mut k: usize = 0;
    assert(events_view(out@) =~= Seq::<AEventView>::empty());
    assert(views.subrange(0, 0) =~= Seq::<InlineView>::empty());
    while k < v.len()
        invariant
            k <= v.len(),
            views == inlines_view(v@),
            events_view(out@) == inlines_events(views.subrange(0, k as int)),
        decreases v.len() - k,
    {
        let piece = events_of_inline(&v[k]);
        append_events(&mut out, piece);
        proof {
            assert(views.subrange(0, k + 1).drop_last() =~= views.subrange(0, k as int));
        }
        k += 1;
    }
    assert(views.subrange(0, k as int) =~= views);
    out
}

/// The events of the inline `i`.
pub fn events_of_inline(i: &Inline) -> (r: Vec<AEvent>)
    ensures
        events_view(r@) == inline_events(i@),
    decreases i,
{
    match i {
        Inline::Text(s) => one_event(AEvent::Text(s.clone())),
        Inline::Emphasis(v) => enclose(ATag::Emphasis, events_of_inlines(v)),
        Inline::Strong(v) => enclose(ATag::Strong, events_of_inlines(v)),
        Inline::Strikethrough(v) => enclose(ATag::Strikethrough, events_of_inlines(v)),
        Inline::Code(s) => one_event(AEvent::Code(s.clone())),
        Inline::SoftBreak => one_event(AEvent::SoftBreak),
        Inline::HardBreak => one_event(AEvent::HardBreak),
        Inline::Rule => one_event(AEvent::Rule),
        Inline::Image(tp, url, alt, v) => enclose(
            ATag::Image(*tp, url.clone(), alt.clone()),
            events_of_inlines(v),
        ),
        Inline::Link(tp, url, alt, v) => enclose(
            ATag::Link(*tp, url.clone(), alt.clone()),
            events_of_inlines(v),
        ),
        Inline::Html(s) => one_event(AEvent::Html(s.clone())),
        Inline::Math { source, display_block, trailing_space } => one_event(
            AEvent::Text(math_block_md(source.as_str(), *display_block, *trailing_space)),
        ),
        Inline::Shortcode(s) => one_event(AEvent::Text(s.to_string())),
    }
}

/// The events of the blocks `v`.
pub fn events_of_blocks(v: &Vec<Block>) -> (r: Vec<AEvent>)
    ensures
        events_view(r@) == blocks_events(blocks_view(v@)),
    decreases v,
{
    let ghost views = blocks_view(v@);
    let mut out: Vec<AEvent> = Vec::new();
    let mut k: usize = 0;
    assert(events_view(out@) =~= Seq::<AEventView>::empty());
    assert(views.subrange(0, 0) =~= Seq::<BlockView>::empty());
    while k < v.len()
        invariant
            k <= v.len(),
            views == blocks_view(v@),
            events_view(out@) == blocks_events(views.subrange(0, k as int)),
        decreases v.len() - k,
    {
        let piece = events_of_block(&v[k]);
        append_events(&mut out, piece);
        proof {
            assert(views.subrange(0, k + 1).drop_last() =~= views.subrange(0, k as int));
        }
        k += 1;
    }
    assert(views.subrange(0, k as int) =~= views);
    out
}

/// The events of the block `b`.
pub fn events_of_block(b: &Block) -> (r: Vec<AEvent>)
    ensures
        events_view(r@) == block_events(b@),
    decreases b,
{
    match b {
        Block::Heading { lvl, id, classes, inner } => enclose(
            ATag::Heading(*lvl, clone_option(id), clone_strings(classes)),
            events_of_inlines(inner),
        ),
        Block::Plain(v) => events_of_inlines(v),
        Block::Paragraph(v) => enclose(ATag::Paragraph, events_of_inlines(v)),
        Block::BlockQuote(v) => enclose(ATag::BlockQuote, events_of_inlines(v)),
        Block::CodeBlock { source, .. } => code_cell_events(source.as_str()),
        Block::List(start, v) => enclose(ATag::List(*start), events_of_blocks(v)),
        Block::ListItem(v) => enclose(ATag::Item, events_of_blocks(v)),
    }
}

} // verus!
