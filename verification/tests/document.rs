use cdoc::ast::{math_block_md, vec_inline_to_string, Ast, Block, CodeAttributes, Inline, Shortcode, ShortcodeBase};
use cdoc::builder::numbering::Numbering;
use cdoc::builder::text::decimal_string;
use cdoc::document::{
    blocks_of_element, default_outputs, default_true, ConfigureCollector, DocPos, Document,
    DocumentMetadata, DocumentVariables, Element, IntoRawContent, IteratorConfig, LayoutSettings,
    rewritten_element, treatment, wants_output, MarkdownPreprocessor, OutputFormat,
    PreprocessError, Treatment,
};
use cdoc::events::{ACodeBlockKind, AEvent, ATag};
use cdoc::notebook::{Cell, CellCommon, CellOutput, Notebook, OutputValue, StreamType};
use cdoc::plan::Binding;
use cdoc::front_matter::split_front_matter;
use cdoc::preprocessors::cell_outputs::{CellOutputConfig, CellProcessor, CellVisitor};
use cdoc::preprocessors::ordinals::highest;
use cdoc::renderers::shortcode::RenderError;
use pulldown_cmark::{Event, HeadingLevel, LinkType, Tag};

fn text(s: &str) -> Inline {
    Inline::Text(s.to_string())
}

fn common(source: &str) -> CellCommon {
    CellCommon { source: source.to_string() }
}

#[test]
fn math_is_written_between_its_delimiters() {
    assert_eq!(math_block_md("x", false, false), "$x$");
    assert_eq!(math_block_md("x", false, true), "$x$ ");
    assert_eq!(math_block_md("x", true, false), "$$x$$");
    assert_eq!(math_block_md("", true, true), "$$$$ ");
}

#[test]
fn inline_text_leaves_markup_out() {
    let inlines = vec![
        text("a"),
        Inline::Emphasis(vec![text("b"), Inline::Strong(vec![text("c")])]),
        Inline::Code("d".to_string()),
        Inline::SoftBreak,
        Inline::HardBreak,
        Inline::Rule,
        Inline::Link(LinkType::Inline, "u".to_string(), "t".to_string(), vec![text("hidden")]),
        Inline::Image(LinkType::Inline, "u".to_string(), "t".to_string(), vec![]),
        Inline::Html("<e>".to_string()),
        Inline::Math { source: "f".to_string(), display_block: true, trailing_space: true },
        Inline::Strikethrough(vec![text("g")]),
    ];
    assert_eq!(vec_inline_to_string(&inlines), "abcd<e>fg");
}

#[test]
fn shortcode_text_is_name_and_id() {
    let with_id = ShortcodeBase { name: "fig".to_string(), id: Some("one".to_string()), num: 1, parameters: vec![] };
    assert_eq!(with_id.to_string(), "fig#one");
    let without = ShortcodeBase { name: "fig".to_string(), id: None, num: 1, parameters: vec![] };
    assert_eq!(without.to_string(), "fig#");
    assert_eq!(Shortcode::Block(without.clone(), vec![]).to_string(), "fig#");
    assert_eq!(Inline::Shortcode(Shortcode::Inline(with_id)).to_string(), "fig#one");
}

#[test]
fn defaults() {
    assert!(default_true());
    assert_eq!(
        default_outputs(),
        vec![OutputFormat::Notebook, OutputFormat::Html, OutputFormat::Info, OutputFormat::LaTeX]
    );
    let m = DocumentMetadata::default();
    assert_eq!(m.title, None);
    assert!(!m.exercises && !m.notebook_output && !m.code_solutions);
    assert!(!m.cell_outputs && !m.interactive && !m.editable);
    assert_eq!(m.layout, LayoutSettings { hide_sidebar: false });
    assert!(m.outputs.is_empty());
    assert_eq!(LayoutSettings::default(), LayoutSettings { hide_sidebar: false });
    assert_eq!(DocumentVariables::default().first_heading, None);
    assert!(matches!(Element::default(), Element::Default));
    assert_eq!(IteratorConfig::default(), IteratorConfig { include_output: false, include_solutions: false });
}

#[test]
fn iterator_config_builders() {
    let c = IteratorConfig::default();
    assert_eq!(c.include_output(), IteratorConfig { include_output: true, include_solutions: false });
    assert_eq!(c.include_solutions(), IteratorConfig { include_output: false, include_solutions: true });
    assert_eq!(
        c.include_solutions().include_output(),
        IteratorConfig { include_output: true, include_solutions: true }
    );
}

#[test]
fn doc_pos_keeps_its_parts() {
    let p = DocPos::new(Some(3), 10, 4, 1..5);
    assert_eq!(p.cell_number(), Some(3));
    assert_eq!(p.line(), 4);
    let q = p.clone();
    assert_eq!(q.cell_number(), Some(3));
    assert_eq!(DocPos::new(None, 0, 7, 0..0).cell_number(), None);
}

#[test]
fn map_changes_the_content_only() {
    let mut metadata = DocumentMetadata::default();
    metadata.title = Some("T".to_string());
    let doc = Document { content: 20usize, metadata, variables: DocumentVariables::default() };
    let mapped = doc.map(|n| n + 1);
    assert_eq!(mapped.content, 21);
    assert_eq!(mapped.metadata.title, Some("T".to_string()));
}

#[test]
fn text_is_one_markdown_element() {
    let raw = IntoRawContent::into("# hi".to_string());
    assert_eq!(raw.len(), 1);
    assert!(matches!(&raw[0], Element::Markdown { content } if content == "# hi"));
    let doc = Document::new("x".to_string(), DocumentMetadata::default());
    assert_eq!(doc.content.len(), 1);
    assert_eq!(doc.variables.first_heading, None);
}

#[test]
fn only_code_cells_advance_the_cell_number() {
    let notebook = Notebook {
        cells: vec![
            Cell::Markdown { common: common("m1") },
            Cell::Code { common: common("c1"), execution_count: None, outputs: vec![] },
            Cell::Raw { common: common("r") },
            Cell::Markdown { common: common("m2") },
            Cell::Code { common: common("c2"), execution_count: Some(2), outputs: vec![] },
        ],
    };
    let raw = IntoRawContent::into(notebook);
    assert_eq!(raw.len(), 5);
    assert!(matches!(&raw[0], Element::Markdown { content } if content == "m1"));
    assert!(matches!(&raw[1], Element::Code { cell_number: 2, content, output: Some(o) } if content == "c1" && o.is_empty()));
    assert!(matches!(&raw[2], Element::Raw { content } if content == "r"));
    assert!(matches!(&raw[4], Element::Code { cell_number: 3, .. }));
}

#[test]
fn code_element_is_one_editable_code_block() {
    let outputs = vec![CellOutput::Stream { name: StreamType::StdOut, text: "1".to_string() }];
    let mut numbering = Numbering::new();
    let blocks = blocks_of_element(
        Element::Code { cell_number: 4, content: "x = 1".to_string(), output: Some(outputs) },
        &mut numbering,
    );
    assert_eq!(blocks.len(), 1);
    match &blocks[0] {
        Block::CodeBlock { source, reference, attr, tags, outputs } => {
            assert_eq!(source, "x = 1");
            assert_eq!(*reference, None);
            assert_eq!(*attr, CodeAttributes { editable: true, fold: false });
            assert_eq!(*tags, None);
            assert_eq!(outputs.len(), 1);
        }
        other => panic!("expected a code block, found {:?}", other),
    }
    let bare = blocks_of_element(
        Element::Code { cell_number: 1, content: "".to_string(), output: None },
        &mut numbering,
    );
    assert!(matches!(&bare[0], Block::CodeBlock { outputs, .. } if outputs.is_empty()));
}

#[test]
fn raw_and_empty_elements_have_no_blocks() {
    let mut numbering = Numbering::new();
    assert!(blocks_of_element(Element::Raw { content: "# raw".to_string() }, &mut numbering).is_empty());
    assert!(blocks_of_element(Element::Default, &mut numbering).is_empty());
}

#[test]
fn shortcodes_are_numbered_through_all_elements() {
    let ast = Ast::from_raw(vec![
        Element::Markdown { content: "{{ fig(a) }}".to_string() },
        Element::Code { cell_number: 2, content: "c".to_string(), output: None },
        Element::Raw { content: "{{ fig(raw) }}".to_string() },
        Element::Markdown { content: "{{ fig(b) }}".to_string() },
    ]);
    assert_eq!(ast.0.len(), 3);
    let num = |b: &Block| match b {
        Block::Paragraph(inner) => match &inner[0] {
            Inline::Shortcode(Shortcode::Inline(base)) => base.num,
            other => panic!("expected a shortcode, found {:?}", other),
        },
        other => panic!("expected a paragraph, found {:?}", other),
    };
    assert_eq!(num(&ast.0[0]), 1);
    assert!(matches!(&ast.0[1], Block::CodeBlock { .. }));
    assert_eq!(num(&ast.0[2]), 2);
}

#[test]
fn code_element_events() {
    let element = Element::Code {
        cell_number: 2,
        content: "x".to_string(),
        output: Some(vec![
            CellOutput::Stream { name: StreamType::StdOut, text: "out".to_string() },
            CellOutput::Data {
                execution_count: None,
                data: vec![
                    OutputValue::Image("AAAA".to_string()),
                    OutputValue::Javascript("f()".to_string()),
                    OutputValue::Json(serde_json::Value::Null),
                ],
            },
        ]),
    };
    let plain = (&element).configure_iterator(IteratorConfig::default());
    assert_eq!(plain.len(), 3);
    assert!(matches!(&plain[0], AEvent::Start(ATag::CodeBlock(ACodeBlockKind::Fenced(l))) if l == "python"));
    assert!(matches!(&plain[1], AEvent::Text(t) if t == "x"));
    assert!(matches!(&plain[2], AEvent::End(ATag::CodeBlock(ACodeBlockKind::Fenced(l))) if l == "python"));
    let with = (&element).configure_iterator(IteratorConfig::default().include_output());
    assert_eq!(with.len(), 8);
    assert!(matches!(&with[3], AEvent::Start(ATag::CodeBlock(ACodeBlockKind::Fenced(l))) if l == "plaintext"));
    assert!(matches!(&with[4], AEvent::Text(t) if t == "out"));
    assert!(matches!(&with[6], AEvent::Html(h) if h == "<img src=\"data:image/png;base64,AAAA\"></img>"));
    assert!(matches!(&with[7], AEvent::Html(h) if h == "<script>f()</script>"));
}

#[test]
fn markdown_element_events_are_those_of_the_tokenizer() {
    let element = Element::Markdown { content: "a *b*".to_string() };
    let events = (&element).configure_iterator(IteratorConfig::default());
    assert_eq!(events.len(), 6);
    assert!(matches!(&events[0], AEvent::Start(ATag::Paragraph)));
    assert!(matches!(&events[1], AEvent::Text(t) if t == "a "));
    assert!(matches!(&events[2], AEvent::Start(ATag::Emphasis)));
    assert!(matches!(&events[3], AEvent::Text(t) if t == "b"));
    assert!(matches!(&events[4], AEvent::End(ATag::Emphasis)));
    assert!(matches!(&events[5], AEvent::End(ATag::Paragraph)));
    assert!((&Element::Raw { content: "x".to_string() }).configure_iterator(IteratorConfig::default()).is_empty());
    assert!((&Element::Default).configure_iterator(IteratorConfig::default()).is_empty());
}

#[test]
fn raw_document_to_events() {
    let mut metadata = DocumentMetadata::default();
    metadata.title = Some("T".to_string());
    let doc = Document {
        content: vec![
            Element::Markdown { content: "hi".to_string() },
            Element::Code { cell_number: 2, content: "c".to_string(), output: None },
        ],
        metadata,
        variables: DocumentVariables { first_heading: Some("old".to_string()) },
    };
    let events = doc.to_events(IteratorConfig::default());
    assert_eq!(events.content.len(), 6);
    assert_eq!(events.metadata.title, Some("T".to_string()));
    assert_eq!(events.variables.first_heading, None);
    let back: Vec<Event> = events.to_events();
    assert_eq!(back.len(), 6);
    assert!(matches!(&back[0], Event::Start(Tag::Paragraph)));
    assert!(matches!(&back[1], Event::Text(t) if t.as_ref() == "hi"));
}

#[test]
fn tree_to_events() {
    let doc = Document {
        content: Ast(vec![
            Block::Heading {
                lvl: HeadingLevel::H2,
                id: Some("i".to_string()),
                classes: vec!["c".to_string()],
                inner: vec![text("T")],
            },
            Block::List(Some(3), vec![Block::ListItem(vec![Block::Plain(vec![text("a"), Inline::Code("b".to_string())])])]),
            Block::Paragraph(vec![Inline::Link(LinkType::Inline, "u".to_string(), "t".to_string(), vec![text("l")])]),
        ]),
        metadata: DocumentMetadata::default(),
        variables: DocumentVariables::default(),
    };
    let events = doc.to_events().content;
    assert_eq!(events.len(), 14);
    assert!(matches!(&events[0], AEvent::Start(ATag::Heading(HeadingLevel::H2, Some(i), c)) if i == "i" && c.len() == 1));
    assert!(matches!(&events[2], AEvent::End(ATag::Heading(..))));
    assert!(matches!(&events[3], AEvent::Start(ATag::List(Some(3)))));
    assert!(matches!(&events[4], AEvent::Start(ATag::Item)));
    assert!(matches!(&events[6], AEvent::Code(c) if c == "b"));
    assert!(matches!(&events[10], AEvent::Start(ATag::Link(LinkType::Inline, u, t)) if u == "u" && t == "t"));
    assert!(matches!(&events[13], AEvent::End(ATag::Paragraph)));
}

#[test]
fn events_survive_the_way_to_pulldown_and_back() {
    let events = cdoc::events::markdown_to_events("# T {#i .c}\n\n| a |\n|:-:|\n| b |\n\n```rs\nx\n```\n\n[^n]: note\n");
    for event in &events {
        let there = event.to_event();
        let back = AEvent::from_event(&there);
        assert_eq!(format!("{:?}", back), format!("{:?}", event));
    }
    assert!(events.iter().any(|e| matches!(e, AEvent::Start(ATag::Table(a)) if a.len() == 1)));
    assert!(events.iter().any(|e| matches!(e, AEvent::Start(ATag::CodeBlock(ACodeBlockKind::Fenced(l))) if l == "rs")));
}

struct Upper;

impl MarkdownPreprocessor for Upper {
    fn process(&self, input: &str, _ctx: &Vec<Binding>) -> Result<String, PreprocessError> {
        if input.contains("fail") {
            Err(PreprocessError::Shortcode(RenderError::TemplateNotFound("fail".to_string())))
        } else {
            Ok(input.to_uppercase())
        }
    }
}

#[test]
fn preprocess_rewrites_markdown_only() {
    let doc = Document {
        content: vec![
            Element::Markdown { content: "abc".to_string() },
            Element::Code { cell_number: 2, content: "code".to_string(), output: None },
            Element::Raw { content: "raw".to_string() },
        ],
        metadata: DocumentMetadata::default(),
        variables: DocumentVariables { first_heading: Some("h".to_string()) },
    };
    let out = doc.preprocess(&Upper, &Vec::new()).unwrap();
    assert!(matches!(&out.content[0], Element::Markdown { content } if content == "ABC"));
    assert!(matches!(&out.content[1], Element::Code { cell_number: 2, content, .. } if content == "code"));
    assert!(matches!(&out.content[2], Element::Raw { content } if content == "raw"));
    assert_eq!(out.variables.first_heading, None);
}

#[test]
fn preprocess_returns_the_first_error() {
    let doc = Document {
        content: vec![Element::Markdown { content: "will fail".to_string() }],
        metadata: DocumentMetadata::default(),
        variables: DocumentVariables::default(),
    };
    assert!(matches!(
        doc.preprocess(&Upper, &Vec::new()),
        Err(PreprocessError::Shortcode(RenderError::TemplateNotFound(n))) if n == "fail"
    ));
}

fn cell(outputs: Vec<CellOutput>) -> Block {
    Block::CodeBlock {
        source: "s".to_string(),
        reference: Some("fig1".to_string()),
        attr: CodeAttributes::default(),
        tags: None,
        outputs,
    }
}

fn command_of(block: &Block) -> (String, Option<String>, String, String) {
    match block {
        Block::Plain(inner) => match &inner[0] {
            Inline::Shortcode(Shortcode::Inline(base)) => match &base.parameters[0] {
                cdoc::ast::Argument::Keyword(key, value) => match &value[0] {
                    Block::Plain(v) => (base.name.clone(), base.id.clone(), key.clone(), vec_inline_to_string(v)),
                    other => panic!("expected a plain block, found {:?}", other),
                },
                other => panic!("expected a keyword argument, found {:?}", other),
            },
            other => panic!("expected a shortcode, found {:?}", other),
        },
        other => panic!("expected a plain block, found {:?}", other),
    }
}

fn ordinal_of(block: &Block) -> usize {
    match block {
        Block::Plain(inner) => match &inner[0] {
            Inline::Shortcode(Shortcode::Inline(base)) => base.num,
            other => panic!("expected a shortcode, found {:?}", other),
        },
        other => panic!("expected a plain block, found {:?}", other),
    }
}

#[test]
fn inserted_calls_are_numbered_behind_the_calls_of_the_document() {
    let own = |name: &str, num: usize| {
        Inline::Shortcode(Shortcode::Inline(ShortcodeBase {
            name: name.to_string(),
            id: None,
            num,
            parameters: vec![cdoc::ast::Argument::Positional(vec![Block::Plain(vec![
                Inline::Shortcode(Shortcode::Inline(ShortcodeBase {
                    name: "figure".to_string(),
                    id: None,
                    num: num + 1,
                    parameters: vec![],
                })),
            ])])],
        }))
    };
    let image = || CellOutput::Data {
        execution_count: None,
        data: vec![OutputValue::Image("PNG".to_string()), OutputValue::Plain(vec!["t".to_string()])],
    };
    let blocks = vec![
        cell(vec![image()]),
        Block::Paragraph(vec![own("figure", 1), own("note", 9)]),
        cell(vec![image()]),
    ];
    assert_eq!(highest(&blocks, "figure"), 10);
    assert_eq!(highest(&blocks, "note"), 9);
    assert_eq!(highest(&blocks, "output_text"), 0);
    let mut document = Document {
        content: Ast(blocks),
        metadata: DocumentMetadata::default(),
        variables: DocumentVariables::default(),
    };
    document.metadata.cell_outputs = true;
    let out = CellProcessor.process(document).content.0;
    assert_eq!(out.len(), 7);
    assert_eq!((command_of(&out[1]).0.as_str(), ordinal_of(&out[1])), ("figure", 11));
    assert_eq!((command_of(&out[2]).0.as_str(), ordinal_of(&out[2])), ("output_text", 1));
    assert_eq!((command_of(&out[5]).0.as_str(), ordinal_of(&out[5])), ("figure", 12));
    assert_eq!((command_of(&out[6]).0.as_str(), ordinal_of(&out[6])), ("output_text", 2));
}

#[test]
fn cell_outputs_become_shortcode_calls() {
    let blocks = vec![
        Block::Paragraph(vec![text("p")]),
        cell(vec![
            CellOutput::Stream { name: StreamType::StdOut, text: "hello".to_string() },
            CellOutput::Data {
                execution_count: None,
                data: vec![
                    OutputValue::Plain(vec!["a".to_string(), "b".to_string()]),
                    OutputValue::Image("PNG".to_string()),
                    OutputValue::Svg("<svg/>".to_string()),
                    OutputValue::Html("<b>".to_string()),
                ],
            },
            CellOutput::Error { ename: "E".to_string(), evalue: "v".to_string(), traceback: vec![] },
        ]),
        Block::List(None, vec![Block::ListItem(vec![cell(vec![CellOutput::Stream {
            name: StreamType::StdErr,
            text: "inner".to_string(),
        }])])]),
    ];
    let mut visitor = CellVisitor::behind(&blocks);
    assert_eq!((visitor.texts, visitor.figures), (0, 0));
    let out = visitor.visit_vec_block(&blocks);
    assert_eq!((visitor.texts, visitor.figures), (3, 2));
    assert_eq!(out.len(), 7);
    assert!(matches!(&out[0], Block::Paragraph(_)));
    assert!(matches!(&out[1], Block::CodeBlock { outputs, .. } if outputs.len() == 3));
    assert_eq!(command_of(&out[2]), ("output_text".to_string(), None, "value".to_string(), "hello".to_string()));
    assert_eq!(command_of(&out[3]), ("output_text".to_string(), None, "value".to_string(), "ab".to_string()));
    assert_eq!(command_of(&out[4]), ("figure".to_string(), Some("fig1".to_string()), "base64".to_string(), "PNG".to_string()));
    assert_eq!(command_of(&out[5]), ("figure".to_string(), Some("fig1".to_string()), "svg".to_string(), "<svg/>".to_string()));
    match &out[6] {
        Block::List(None, items) => match &items[0] {
            Block::ListItem(children) => {
                assert_eq!(children.len(), 2);
                assert_eq!(command_of(&children[1]).3, "inner");
                assert_eq!(ordinal_of(&children[1]), 3);
            }
            other => panic!("expected an item, found {:?}", other),
        },
        other => panic!("expected a list, found {:?}", other),
    }
}

#[test]
fn cell_processor_runs_only_where_outputs_are_asked_for() {
    let make = |cell_outputs: bool| {
        let mut metadata = DocumentMetadata::default();
        metadata.cell_outputs = cell_outputs;
        Document {
            content: Ast(vec![cell(vec![CellOutput::Stream { name: StreamType::StdOut, text: "x".to_string() }])]),
            metadata,
            variables: DocumentVariables::default(),
        }
    };
    let mut processor: CellProcessor = CellOutputConfig.build();
    assert_eq!(processor.name(), "Cell processing");
    assert_eq!(processor.process(make(true)).content.0.len(), 2);
    assert_eq!(processor.process(make(false)).content.0.len(), 1);
}

#[test]
fn clones_are_equal_in_what_they_hold() {
    let block = Block::List(
        Some(1),
        vec![Block::ListItem(vec![Block::Paragraph(vec![
            text("a"),
            Inline::Shortcode(Shortcode::Block(
                ShortcodeBase {
                    name: "n".to_string(),
                    id: Some("i".to_string()),
                    num: 3,
                    parameters: vec![cdoc::ast::Argument::Keyword("k".to_string(), vec![Block::Plain(vec![text("v")])])],
                },
                vec![cell(vec![CellOutput::Data {
                    execution_count: Some(1),
                    data: vec![OutputValue::Json(serde_json::Value::String("j".to_string()))],
                }])],
            )),
        ])])],
    );
    assert_eq!(format!("{:?}", block.clone()), format!("{:?}", block));
}

#[test]
fn doc_pos_in_words() {
    assert_eq!(DocPos::new(None, 0, 7, 0..0).to_string(), "line: 7");
    assert_eq!(DocPos::new(Some(12), 0, 340, 0..0).to_string(), "cell: 12, local position: 340");
    assert_eq!(DocPos::new(Some(0), 0, 0, 0..0).to_string(), "cell: 0, local position: 0");
}

#[test]
fn numbers_in_base_ten() {
    assert_eq!(decimal_string(0), "0");
    assert_eq!(decimal_string(9), "9");
    assert_eq!(decimal_string(10), "10");
    assert_eq!(decimal_string(1234567890), "1234567890");
    assert_eq!(decimal_string(usize::MAX), usize::MAX.to_string());
}

#[test]
fn events_become_a_tree_again() {
    let blocks = vec![
        Block::Heading { lvl: HeadingLevel::H1, id: None, classes: vec![], inner: vec![text("T")] },
        Block::Paragraph(vec![text("a"), Inline::Strong(vec![text("b")])]),
        Block::List(None, vec![Block::ListItem(vec![Block::Plain(vec![text("i")])])]),
    ];
    let doc = Document {
        content: Ast(blocks),
        metadata: DocumentMetadata::default(),
        variables: DocumentVariables::default(),
    };
    let events = doc.to_events();
    let back = Ast::from_events(&events.content);
    assert_eq!(format!("{:?}", back.0), format!("{:?}", doc.content.0));
}

struct Refusing;

impl MarkdownPreprocessor for Refusing {
    fn process(&self, _input: &str, _ctx: &Vec<Binding>) -> Result<String, PreprocessError> {
        Err(PreprocessError::Shortcode(RenderError::TemplateNotFound("any".to_string())))
    }
}

#[test]
fn document_without_markdown_is_always_preprocessed() {
    let doc = Document {
        content: vec![
            Element::Code { cell_number: 2, content: "code".to_string(), output: None },
            Element::Raw { content: "raw".to_string() },
            Element::Default,
        ],
        metadata: DocumentMetadata::default(),
        variables: DocumentVariables::default(),
    };
    let out = doc.preprocess(&Refusing, &Vec::new()).unwrap();
    assert_eq!(out.content.len(), 3);
    assert!(matches!(&out.content[0], Element::Code { cell_number: 2, content, output: None } if content == "code"));
    assert!(matches!(&out.content[1], Element::Raw { content } if content == "raw"));
    assert!(matches!(&out.content[2], Element::Default));

    let empty = Document {
        content: Vec::new(),
        metadata: DocumentMetadata::default(),
        variables: DocumentVariables::default(),
    };
    assert!(empty.preprocess(&Refusing, &Vec::new()).unwrap().content.is_empty());
}

#[test]
fn rewritten_text_becomes_a_markdown_element() {
    assert!(matches!(
        rewritten_element(Ok("new".to_string())),
        Ok(Element::Markdown { content }) if content == "new"
    ));
    assert!(matches!(
        rewritten_element(Err(PreprocessError::Shortcode(RenderError::Json("j".to_string())))),
        Err(PreprocessError::Shortcode(RenderError::Json(m))) if m == "j"
    ));
}

#[test]
fn front_matter_stands_between_two_lines_of_dashes() {
    assert_eq!(
        split_front_matter("---\n{\"title\": \"é\"}\n---\n# T\n"),
        (Some("{\"title\": \"é\"}".to_string()), "# T\n".to_string())
    );
    assert_eq!(
        split_front_matter("---\na\n---\nb\n---\nc"),
        (Some("a".to_string()), "b\n---\nc".to_string())
    );
    assert_eq!(split_front_matter("---\n\n---\n"), (Some("".to_string()), "".to_string()));
    assert_eq!(split_front_matter("---\n---\nx"), (None, "---\n---\nx".to_string()));
    assert_eq!(split_front_matter("---\nopen\n"), (None, "---\nopen\n".to_string()));
    assert_eq!(split_front_matter(" ---\na\n---\n"), (None, " ---\na\n---\n".to_string()));
    assert_eq!(split_front_matter(""), (None, "".to_string()));
}

#[test]
fn documents_are_kept_empty_rendered_or_skipped() {
    assert_eq!(treatment(true, true, false, true), Treatment::Empty);
    assert_eq!(treatment(true, false, true, false), Treatment::Empty);
    assert_eq!(treatment(false, false, true, true), Treatment::Empty);
    assert_eq!(treatment(false, true, true, true), Treatment::Rendered);
    assert_eq!(treatment(false, false, false, true), Treatment::Rendered);
    assert_eq!(treatment(false, true, true, false), Treatment::Skipped);
    assert_eq!(treatment(false, false, false, false), Treatment::Skipped);
    let mut metadata = DocumentMetadata::default();
    assert!(!wants_output(&metadata, OutputFormat::Html));
    metadata.outputs = vec![OutputFormat::LaTeX, OutputFormat::Html];
    assert!(wants_output(&metadata, OutputFormat::Html));
    assert!(!wants_output(&metadata, OutputFormat::Markdown));
}
