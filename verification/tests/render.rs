use cdoc::ast::{Argument, Ast, Block, CodeAttributes, Inline, Shortcode, ShortcodeBase};
use cdoc::builder::markdown::str_to_blocks;
use cdoc::counter::IdCounter;
use cdoc::document::{Document, DocumentMetadata, DocumentVariables, OutputFormat};
use cdoc::engine::{engine_result, template_id, TemplateManager};
use cdoc::notebook::{CellOutput, OutputValue, StreamType};
use cdoc::plan::{Arg, Binding, Piece, Reference};
use cdoc::renderers::generic::{header_lvl_to_int, write_result, GenericRenderer, WriteError};
use cdoc::renderers::latex::LatexRenderer;
use cdoc::renderers::markdown::{MarkdownRenderer, ToMarkdown, ToMarkdownContext};
use cdoc::renderers::run::{
    build_context, flavor_of, highlight, highlight_result, json_result, render_document, run, DocumentRenderer,
    RenderContext,
};
use cdoc::renderers::references::references;
use cdoc::renderers::shortcode::{add_args, PlanEnv, RenderError};
use cdoc::renderers::tree::{plan_blocks, plan_inline, Flavor};
use cdoc::templates::{
    SchemaError, ShortcodeDefinition, ShortcodeParameter, TemplateDefinition, TemplateSource,
    TemplateType,
};
use pulldown_cmark::{HeadingLevel, LinkType};
use syntect::highlighting::ThemeSet;
use syntect::parsing::SyntaxSet;

fn builtin(name: &str, sources: &[(OutputFormat, &str)]) -> TemplateDefinition {
    TemplateDefinition {
        name: name.to_string(),
        type_: TemplateType::Builtin,
        shortcode: None,
        templates: sources
            .iter()
            .map(|(format, source)| TemplateSource { format: *format, source: source.to_string() })
            .collect(),
    }
}

fn shortcode(name: &str, params: &[(&str, bool)], source: &str) -> TemplateDefinition {
    TemplateDefinition {
        name: name.to_string(),
        type_: TemplateType::Shortcode,
        shortcode: Some(ShortcodeDefinition {
            parameters: params
                .iter()
                .map(|(n, optional)| ShortcodeParameter { name: n.to_string(), optional: *optional })
                .collect(),
        }),
        templates: vec![
            TemplateSource { format: OutputFormat::Html, source: source.to_string() },
            TemplateSource { format: OutputFormat::Markdown, source: source.to_string() },
            TemplateSource { format: OutputFormat::LaTeX, source: source.to_string() },
        ],
    }
}

fn definitions() -> Vec<TemplateDefinition> {
    let html = OutputFormat::Html;
    let md = OutputFormat::Markdown;
    let tex = OutputFormat::LaTeX;
    vec![
        builtin("emphasis", &[(html, "<em>{{ value }}</em>")]),
        builtin("strong", &[(html, "<strong>{{ value }}</strong>")]),
        builtin("strikethrough", &[(html, "<s>{{ value }}</s>")]),
        builtin("inline_code", &[(html, "<code>{{ value }}</code>")]),
        builtin("soft_break", &[(html, "\n")]),
        builtin("hard_break", &[(html, "<br>")]),
        builtin("horizontal_rule", &[(html, "<hr>")]),
        builtin("paragraph", &[(html, "<p>{{ value }}</p>")]),
        builtin("header", &[(html, "<h{{ level }}>{{ inner }}</h{{ level }}>")]),
        builtin("image", &[(html, "<img src=\"{{ url }}\" alt=\"{{ alt }}\">"), (tex, "\\img{ {{- url -}} }")]),
        builtin("link", &[(html, "<a href=\"{{ url }}\">{{ inner }}</a>"), (tex, "\\href{ {{- url -}} }{ {{- inner -}} }")]),
        builtin("math", &[(html, "<math display=\"{{ display_mode }}\">{{ value }}</math>")]),
        builtin(
            "list_unordered",
            &[(html, "<ul>{{ value }}</ul>"), (md, "{{ value }}"), (tex, "\\begin{itemize}{{ value }}\\end{itemize}")],
        ),
        builtin(
            "list_ordered",
            &[(html, "<ol start=\"{{ start }}\">{{ value }}</ol>"), (md, "{{ value }}"), (tex, "\\begin{enumerate}{{ value }}\\end{enumerate}")],
        ),
        builtin(
            "list_item",
            &[
                (html, "<li>{{ value }}</li>"),
                (md, "{% if idx %}{{ idx }}. {% else %}- {% endif %}{{ value }}"),
                (tex, "\\item {{ value }}"),
            ],
        ),
        builtin(
            "cell",
            &[
                (html, "<div id=\"cell-{{ id }}\" data-editable=\"{{ editable }}\">{{ highlighted }}{{ outputs }}</div>"),
                (tex, "\\begin{lstlisting}{{ source }}\\end{lstlisting}{{ outputs }}"),
            ],
        ),
        builtin("output_text", &[(html, "<pre>{{ value }}</pre>"), (tex, "\\verb|{{ value }}|")]),
        builtin("output_error", &[(html, "<pre class=\"error\">{{ value }}</pre>"), (tex, "ERR {{ value }}")]),
        builtin("output_img", &[(html, "<img src=\"data:image/png;base64,{{ value }}\">")]),
        builtin("output_svg", &[(html, "{{ value }}")]),
        shortcode("note", &[("title", false)], "[note {{ num }}: {{ title }}]"),
        shortcode("box", &[("title", true)], "[box {{ num }}{% if title %} {{ title }}{% endif %}: {{ body }}]"),
        shortcode("ref", &[("to", false)], "[ref {{ to }} of {{ ids | length }}{% if id %} #{{ id }}{% endif %}]"),
    ]
}

struct Fixture {
    templates: TemplateManager,
    syntax_set: SyntaxSet,
    themes: ThemeSet,
    counter: IdCounter,
}

fn fixture() -> Fixture {
    Fixture {
        templates: TemplateManager::new(definitions()).unwrap(),
        syntax_set: SyntaxSet::load_defaults_newlines(),
        themes: ThemeSet::load_defaults(),
        counter: IdCounter::new(1),
    }
}

fn document(blocks: Vec<Block>) -> Document<Ast> {
    Document {
        content: Ast(blocks),
        metadata: DocumentMetadata::default(),
        variables: DocumentVariables::default(),
    }
}

fn render(fixture: &Fixture, format: OutputFormat, blocks: Vec<Block>) -> Result<String, RenderError> {
    let doc = document(blocks);
    let ctx = RenderContext {
        templates: &fixture.templates,
        extra_args: Vec::new(),
        format,
        doc: &doc,
        ids: Vec::new(),
        syntax_set: &fixture.syntax_set,
        theme: &fixture.themes.themes["base16-ocean.light"],
        counter: &fixture.counter,
    };
    render_document(flavor_of(format), &ctx).map(|d| d.content)
}

fn text(s: &str) -> Inline {
    Inline::Text(s.to_string())
}

fn call(name: &str, parameters: Vec<Argument<Vec<Block>>>) -> ShortcodeBase {
    ShortcodeBase { name: name.to_string(), id: None, num: 1, parameters }
}

fn value(s: &str) -> Vec<Block> {
    vec![Block::Plain(vec![text(s)])]
}

#[test]
fn heading_levels_are_numbered_from_one() {
    assert_eq!(header_lvl_to_int(&HeadingLevel::H1), 1);
    assert_eq!(header_lvl_to_int(&HeadingLevel::H2), 2);
    assert_eq!(header_lvl_to_int(&HeadingLevel::H3), 3);
    assert_eq!(header_lvl_to_int(&HeadingLevel::H4), 4);
    assert_eq!(header_lvl_to_int(&HeadingLevel::H5), 5);
    assert_eq!(header_lvl_to_int(&HeadingLevel::H6), 6);
}

#[test]
fn template_names_hold_kind_name_and_format() {
    assert_eq!(template_id(TemplateType::Builtin, "emphasis", OutputFormat::Html), "builtin_emphasis.html");
    assert_eq!(template_id(TemplateType::Shortcode, "note", OutputFormat::LaTeX), "shortcode_note.latex");
    assert_eq!(template_id(TemplateType::Layout, "page", OutputFormat::Markdown), "layout_page.markdown");
    assert_eq!(template_id(TemplateType::Builtin, "x", OutputFormat::Notebook), "builtin_x.notebook");
    assert_eq!(template_id(TemplateType::Builtin, "x", OutputFormat::Info), "builtin_x.info");
}

#[test]
fn markdown_inlines_are_written_as_markdown() {
    let f = fixture();
    let blocks = vec![Block::Paragraph(vec![
        text("a "),
        Inline::Emphasis(vec![text("b")]),
        text(" "),
        Inline::Strong(vec![text("c")]),
        text(" "),
        Inline::Strikethrough(vec![text("d")]),
        text(" "),
        Inline::Code("e".to_string()),
        Inline::SoftBreak,
        Inline::Link(LinkType::Inline, "u".to_string(), "t".to_string(), vec![text("ignored")]),
        Inline::Image(LinkType::Inline, "i.png".to_string(), "alt".to_string(), vec![]),
        Inline::HardBreak,
        Inline::Rule,
        Inline::Html("<b>".to_string()),
        Inline::Math { source: "x^2".to_string(), display_block: false, trailing_space: true },
        Inline::Math { source: "y".to_string(), display_block: true, trailing_space: false },
    ])];
    assert_eq!(
        render(&f, OutputFormat::Markdown, blocks).unwrap(),
        "a *b* **c** ~~d~~ `e`\n[t](u)![alt](i.png)\n\n---\n<b>$x^2$ $$y$$\n\n"
    );
}

#[test]
fn markdown_blocks_are_written_as_markdown() {
    let f = fixture();
    let blocks = vec![
        Block::Heading { lvl: HeadingLevel::H2, id: None, classes: vec![], inner: vec![text("Title")] },
        Block::Plain(vec![text("plain")]),
        Block::BlockQuote(vec![text("quote")]),
        Block::CodeBlock {
            source: "x = 1".to_string(),
            reference: None,
            attr: CodeAttributes::default(),
            tags: None,
            outputs: vec![],
        },
    ];
    assert_eq!(render(&f, OutputFormat::Markdown, blocks).unwrap(), "## Title\nplainquote```\nx = 1\n```");
}

#[test]
fn list_numbering() {
    let f = fixture();
    let blocks = str_to_blocks("1. a\n2. b\n   1. c");
    let out = render(&f, OutputFormat::Markdown, blocks).unwrap();
    assert_eq!(out, "\n1. a\n2. b\n\t1. c\n\n\n\n");
}

#[test]
fn numbering_goes_on_behind_a_nested_list() {
    let f = fixture();
    let blocks = str_to_blocks("1. a\n   1. x\n   2. y\n2. b\n3. c");
    let out = render(&f, OutputFormat::Markdown, blocks).unwrap();
    assert!(out.contains("1. a"));
    assert!(out.contains("\t1. x\n"));
    assert!(out.contains("\t2. y\n"));
    assert!(out.contains("\n2. b\n"));
    assert!(out.contains("\n3. c\n"));
}

#[test]
fn unordered_items_have_no_number() {
    let f = fixture();
    let blocks = str_to_blocks("- a\n- b");
    assert_eq!(render(&f, OutputFormat::Markdown, blocks).unwrap(), "\n- a\n- b\n\n");
}

#[test]
fn round_trip_keeps_the_structure() {
    let f = fixture();
    let source = "# Title\n\nSome *emphasis* and **strong** text.\n\n1. a\n2. b\n";
    let first = str_to_blocks(source);
    let rendered = render(&f, OutputFormat::Markdown, first.clone()).unwrap();
    let second = str_to_blocks(&rendered);
    let again = render(&f, OutputFormat::Markdown, second.clone()).unwrap();
    assert_eq!(first.len(), second.len());
    assert!(matches!(&second[0], Block::Heading { lvl: HeadingLevel::H1, .. }));
    assert!(matches!(&second[2], Block::List(Some(1), items) if items.len() == 2));
    assert_eq!(str_to_blocks(&again).len(), second.len());
}

#[test]
fn latex_inlines_are_control_sequences() {
    let f = fixture();
    let blocks = vec![
        Block::Heading { lvl: HeadingLevel::H1, id: None, classes: vec![], inner: vec![text("One")] },
        Block::Heading { lvl: HeadingLevel::H2, id: None, classes: vec![], inner: vec![text("Two")] },
        Block::Heading { lvl: HeadingLevel::H4, id: None, classes: vec![], inner: vec![text("Four")] },
        Block::Paragraph(vec![
            Inline::Emphasis(vec![text("e")]),
            Inline::Strong(vec![text("s")]),
            Inline::Strikethrough(vec![text("t")]),
            Inline::Code("c".to_string()),
            Inline::SoftBreak,
            Inline::HardBreak,
            Inline::Rule,
        ]),
    ];
    assert_eq!(
        render(&f, OutputFormat::LaTeX, blocks).unwrap(),
        "\\section{One}\n\\subsection{Two}\n\\subsubsection{Four}\n\\emph{e}\\textbf{s}\\textbf{t}\\lstinline! c !\n\n\\\\\n\\hrule\n"
    );
}

#[test]
fn latex_links_and_lists_go_through_templates() {
    let f = fixture();
    let blocks = vec![
        Block::Plain(vec![Inline::Link(LinkType::Inline, "u".to_string(), "".to_string(), vec![text("here")])]),
        Block::List(None, vec![Block::ListItem(vec![Block::Plain(vec![text("a")])])]),
    ];
    assert_eq!(
        render(&f, OutputFormat::LaTeX, blocks).unwrap(),
        "\\href{u}{here}\\begin{itemize}\\item a\\end{itemize}"
    );
}

#[test]
fn generic_renderer_delegates_to_templates() {
    let f = fixture();
    let blocks = vec![
        Block::Heading { lvl: HeadingLevel::H3, id: None, classes: vec![], inner: vec![text("T")] },
        Block::Paragraph(vec![text("a "), Inline::Emphasis(vec![text("b")]), Inline::Html("<i>".to_string())]),
        Block::List(Some(4), vec![Block::ListItem(vec![Block::Plain(vec![text("x")])])]),
    ];
    assert_eq!(
        render(&f, OutputFormat::Html, blocks).unwrap(),
        "<h3>T</h3><p>a <em>b</em><i></p><ol start=\"4\"><li>x</li></ol>"
    );
}

#[test]
fn code_cells_get_fresh_ids_and_outputs() {
    let f = fixture();
    let cell = || Block::CodeBlock {
        source: "print(1)".to_string(),
        reference: None,
        attr: CodeAttributes { editable: true, fold: false },
        tags: None,
        outputs: vec![
            CellOutput::Stream { name: StreamType::StdOut, text: "1\n".to_string() },
            CellOutput::Data {
                execution_count: Some(1),
                data: vec![
                    OutputValue::Plain(vec!["a".to_string(), "b".to_string()]),
                    OutputValue::Html("<b>x</b>".to_string()),
                    OutputValue::Javascript("alert(1)".to_string()),
                    OutputValue::Json(serde_json::Value::Bool(true)),
                ],
            },
            CellOutput::Error { ename: "E".to_string(), evalue: "bad".to_string(), traceback: vec![] },
        ],
    };
    let out = render(&f, OutputFormat::Html, vec![cell(), cell()]).unwrap();
    assert!(out.contains("id=\"cell-1\""));
    assert!(out.contains("id=\"cell-2\""));
    assert!(out.contains("<pre>1\n</pre><pre>ab</pre><b>x</b>true<pre class=\"error\">bad</pre>"));
    assert!(out.contains("<pre style="));
    assert!(!out.contains("alert"));
}

#[test]
fn latex_cells_keep_text_and_drop_html() {
    let f = fixture();
    let cell = Block::CodeBlock {
        source: "s".to_string(),
        reference: None,
        attr: CodeAttributes::default(),
        tags: None,
        outputs: vec![
            CellOutput::Stream { name: StreamType::StdErr, text: "out".to_string() },
            CellOutput::Data {
                execution_count: None,
                data: vec![OutputValue::Plain(vec!["p".to_string()]), OutputValue::Html("<b>".to_string())],
            },
            CellOutput::Error { ename: "E".to_string(), evalue: "bad".to_string(), traceback: vec![] },
        ],
    };
    assert_eq!(
        render(&f, OutputFormat::LaTeX, vec![cell]).unwrap(),
        "\\begin{lstlisting}s\\end{lstlisting}out\\verb|p|ERR bad"
    );
}

#[test]
fn shortcode_arguments_are_rendered_before_the_template() {
    let f = fixture();
    let sc = Shortcode::Inline(call(
        "note",
        vec![Argument::Keyword("title".to_string(), vec![Block::Plain(vec![Inline::Emphasis(vec![text("x")])])])],
    ));
    let blocks = vec![Block::Plain(vec![Inline::Shortcode(sc)])];
    assert_eq!(render(&f, OutputFormat::Html, blocks.clone()).unwrap(), "[note 1: <em>x</em>]");
    assert_eq!(render(&f, OutputFormat::Markdown, blocks.clone()).unwrap(), "[note 1: *x*]");
    assert_eq!(render(&f, OutputFormat::LaTeX, blocks).unwrap(), "[note 1: \\emph{x}]");
}

#[test]
fn positional_arguments_are_bound_by_position() {
    let f = fixture();
    let sc = Shortcode::Inline(call("note", vec![Argument::Positional(value("first"))]));
    assert_eq!(
        render(&f, OutputFormat::Html, vec![Block::Plain(vec![Inline::Shortcode(sc)])]).unwrap(),
        "[note 1: first]"
    );
}

#[test]
fn block_shortcode_receives_its_body() {
    let f = fixture();
    let sc = Shortcode::Block(call("box", vec![]), vec![Block::Paragraph(vec![text("inside")])]);
    let blocks = vec![Block::Plain(vec![Inline::Shortcode(sc)])];
    assert_eq!(render(&f, OutputFormat::Html, blocks.clone()).unwrap(), "[box 1: <p>inside</p>]");
    assert_eq!(render(&f, OutputFormat::Markdown, blocks).unwrap(), "[box 1: inside\n\n]\n\n");
}

#[test]
fn argument_validation() {
    let f = fixture();
    let bogus = Shortcode::Inline(call(
        "note",
        vec![
            Argument::Keyword("title".to_string(), value("x")),
            Argument::Keyword("bogus".to_string(), value("y")),
        ],
    ));
    match render(&f, OutputFormat::Html, vec![Block::Plain(vec![Inline::Shortcode(bogus)])]) {
        Err(RenderError::InvalidArguments(name, errors)) => {
            assert_eq!(name, "note");
            assert_eq!(errors.len(), 1);
            assert!(matches!(&errors[0], SchemaError::UnknownKeyword(k) if k == "bogus"));
            assert_eq!(errors[0].name(), Some("bogus".to_string()));
        }
        other => panic!("expected a schema error, found {:?}", other),
    }
    let missing = Shortcode::Inline(call("note", vec![]));
    match render(&f, OutputFormat::Html, vec![Block::Plain(vec![Inline::Shortcode(missing)])]) {
        Err(RenderError::InvalidArguments(_, errors)) => {
            assert_eq!(errors.len(), 1);
            assert!(matches!(&errors[0], SchemaError::MissingArgument(p) if p == "title"));
        }
        other => panic!("expected a schema error, found {:?}", other),
    }
}

#[test]
fn argument_validation_from_source_text() {
    let f = fixture();
    let bogus = str_to_blocks("{{ note(title=\"x\", bogus=\"y\") }}");
    assert!(matches!(
        render(&f, OutputFormat::Html, bogus),
        Err(RenderError::InvalidArguments(_, errors))
            if matches!(&errors[0], SchemaError::UnknownKeyword(k) if k == "bogus")
    ));
    let missing = str_to_blocks("{{ note() }}");
    assert!(matches!(
        render(&f, OutputFormat::Html, missing),
        Err(RenderError::InvalidArguments(_, errors))
            if matches!(&errors[0], SchemaError::MissingArgument(p) if p == "title")
    ));
    let fine = str_to_blocks("{{ note(title=\"x\") }}");
    assert_eq!(render(&f, OutputFormat::Html, fine).unwrap(), "<p>[note 1: <p>x</p>]</p>");
}

#[test]
fn surplus_positional_argument_is_reported() {
    let f = fixture();
    let sc = Shortcode::Inline(call(
        "note",
        vec![Argument::Positional(value("a")), Argument::Positional(value("b"))],
    ));
    match render(&f, OutputFormat::Html, vec![Block::Plain(vec![Inline::Shortcode(sc)])]) {
        Err(RenderError::InvalidArguments(_, errors)) => {
            assert!(matches!(&errors[0], SchemaError::TooManyArguments { expected: 1, position: 1 }));
            assert_eq!(errors[0].name(), None);
        }
        other => panic!("expected a schema error, found {:?}", other),
    }
}

#[test]
fn unknown_shortcode_is_not_found() {
    let f = fixture();
    let sc = Shortcode::Inline(call("nope", vec![]));
    assert!(matches!(
        render(&f, OutputFormat::Html, vec![Block::Plain(vec![Inline::Shortcode(sc)])]),
        Err(RenderError::TemplateNotFound(name)) if name == "nope"
    ));
}

#[test]
fn template_without_a_source_for_the_format_is_not_found() {
    let f = fixture();
    let blocks = vec![Block::Paragraph(vec![Inline::Emphasis(vec![text("x")])])];
    assert!(matches!(
        render(&f, OutputFormat::Info, blocks),
        Err(RenderError::TemplateNotFound(name)) if name == "emphasis"
    ));
}

#[test]
fn engine_errors_are_reported() {
    let broken = vec![builtin("paragraph", &[(OutputFormat::Html, "{{ value")])];
    assert!(matches!(
        TemplateManager::new(broken),
        Err(RenderError::Engine { template, .. }) if template == "paragraph"
    ));
    let failing = vec![builtin("paragraph", &[(OutputFormat::Html, "{{ missing }}")])];
    let f = Fixture { templates: TemplateManager::new(failing).unwrap(), ..fixture() };
    assert!(matches!(
        render(&f, OutputFormat::Html, vec![Block::Paragraph(vec![text("x")])]),
        Err(RenderError::Engine { .. })
    ));
}

#[test]
fn shortcodes_see_ids_and_extra_arguments() {
    let f = fixture();
    let doc = document(vec![Block::Plain(vec![Inline::Shortcode(Shortcode::Inline(ShortcodeBase {
        name: "ref".to_string(),
        id: Some("here".to_string()),
        num: 7,
        parameters: vec![Argument::Keyword("to".to_string(), value("fig1"))],
    }))])]);
    let ctx = RenderContext {
        templates: &f.templates,
        extra_args: vec![Binding { key: "site".to_string(), value: Arg::Text("s".to_string()) }],
        format: OutputFormat::Html,
        doc: &doc,
        ids: vec![
            Reference { id: "fig1".to_string(), num: 1, name: "figure".to_string(), parameters: Vec::new() },
            Reference { id: "fig2".to_string(), num: 2, name: "figure".to_string(), parameters: Vec::new() },
        ],
        syntax_set: &f.syntax_set,
        theme: &f.themes.themes["base16-ocean.light"],
        counter: &f.counter,
    };
    let mut renderer = GenericRenderer;
    assert_eq!(renderer.render_doc(&ctx).unwrap().content, "[ref fig1 of 2 #here]");
}

#[test]
fn renderers_keep_the_metadata() {
    let f = fixture();
    let mut doc = document(vec![Block::Plain(vec![text("x")])]);
    doc.metadata.title = Some("T".to_string());
    doc.metadata.interactive = true;
    doc.variables.first_heading = Some("H".to_string());
    let ctx = RenderContext {
        templates: &f.templates,
        extra_args: Vec::new(),
        format: OutputFormat::LaTeX,
        doc: &doc,
        ids: Vec::new(),
        syntax_set: &f.syntax_set,
        theme: &f.themes.themes["base16-ocean.light"],
        counter: &f.counter,
    };
    let out = LatexRenderer.render_doc(&ctx).unwrap();
    assert_eq!(out.content, "x");
    assert_eq!(out.metadata.title, Some("T".to_string()));
    assert!(out.metadata.interactive);
    assert_eq!(out.variables.first_heading, Some("H".to_string()));
    let md = MarkdownRenderer.render_doc(&ctx).unwrap();
    assert_eq!(md.content, "x");
}

#[test]
fn plans_say_what_a_template_receives() {
    let defs = definitions();
    let extra = Vec::new();
    let ids = Vec::new();
    let metadata = DocumentMetadata::default();
    let env = PlanEnv { definitions: &defs, extra_args: &extra, ids: &ids, metadata: &metadata };
    let (plan, state) = plan_inline(
        Flavor::Templated,
        &Inline::Emphasis(vec![text("x")]),
        &env,
        ToMarkdownContext::new(),
    )
    .unwrap();
    assert_eq!(state, ToMarkdownContext::new());
    assert_eq!(plan.len(), 1);
    match &plan[0] {
        Piece::Template { name, kind, args } => {
            assert_eq!(name, "emphasis");
            assert_eq!(*kind, TemplateType::Builtin);
            assert_eq!(args.len(), 1);
            assert_eq!(args[0].key, "value");
            assert!(matches!(&args[0].value, Arg::Rendered(p) if matches!(&p[0], Piece::Text(t) if t == "x")));
        }
        other => panic!("expected a template call, found {:?}", other),
    }
}

#[test]
fn list_items_receive_their_number_and_level() {
    let defs = definitions();
    let extra = Vec::new();
    let ids = Vec::new();
    let metadata = DocumentMetadata::default();
    let env = PlanEnv { definitions: &defs, extra_args: &extra, ids: &ids, metadata: &metadata };
    let blocks = str_to_blocks("1. a\n2. b\n   1. c");
    let (plan, state) = plan_blocks(Flavor::Markdown, &blocks, &env, ToMarkdownContext::new()).unwrap();
    assert_eq!(state, ToMarkdownContext::new());
    fn items(pieces: &[Piece], out: &mut Vec<(usize, Option<u64>)>) {
        let mut pending = 0;
        for piece in pieces {
            match piece {
                Piece::Text(t) if t == "\t" => pending += 1,
                Piece::Template { name, args, .. } => {
                    if name == "list_item" {
                        let idx = match &args[0].value {
                            Arg::Number(n) => Some(*n),
                            _ => None,
                        };
                        out.push((pending, idx));
                    }
                    pending = 0;
                    for binding in args {
                        if let Arg::Rendered(inner) = &binding.value {
                            items(inner, out);
                        }
                    }
                }
                _ => pending = 0,
            }
        }
    }
    let mut found = Vec::new();
    items(&plan, &mut found);
    assert_eq!(found, vec![(0, Some(1)), (0, Some(2)), (1, Some(1))]);
}

#[test]
fn plain_plans_run_to_their_text() {
    let f = fixture();
    let doc = document(vec![]);
    let ctx = RenderContext {
        templates: &f.templates,
        extra_args: Vec::new(),
        format: OutputFormat::Html,
        doc: &doc,
        ids: Vec::new(),
        syntax_set: &f.syntax_set,
        theme: &f.themes.themes["base16-ocean.light"],
        counter: &f.counter,
    };
    let plan = vec![Piece::Text("a".to_string()), Piece::Text("".to_string()), Piece::Text("bc".to_string())];
    assert_eq!(run(&plan, &ctx).unwrap(), "abc");
    assert_eq!(run(&Vec::new(), &ctx).unwrap(), "");
}

#[test]
fn later_bindings_win() {
    let f = fixture();
    let doc = document(vec![]);
    let ctx = RenderContext {
        templates: &f.templates,
        extra_args: Vec::new(),
        format: OutputFormat::Html,
        doc: &doc,
        ids: Vec::new(),
        syntax_set: &f.syntax_set,
        theme: &f.themes.themes["base16-ocean.light"],
        counter: &f.counter,
    };
    let plan = vec![Piece::Template {
        name: "paragraph".to_string(),
        kind: TemplateType::Builtin,
        args: vec![
            Binding { key: "value".to_string(), value: Arg::Text("first".to_string()) },
            Binding { key: "value".to_string(), value: Arg::Number(2) },
        ],
    }];
    assert_eq!(run(&plan, &ctx).unwrap(), "<p>2</p>");
}

#[test]
fn id_uniqueness() {
    let counter = IdCounter::new(1);
    let mut seen = std::collections::HashSet::new();
    for _ in 0..1000 {
        assert!(seen.insert(counter.get_id()));
    }
    assert_eq!(seen.len(), 1000);
    assert_eq!(cdoc::counter::get_id(&counter), 1001);
}

#[test]
fn templates_receive_flags_and_lists() {
    let mut defs = definitions();
    defs.push(shortcode("names", &[], "{{ defs | length }}:{{ defs.names.type }}:{{ defs.names.parameters | length }}:{{ defs.emphasis.formats | first }}:{% if defs.emphasis.parameters %}p{% endif %}"));
    let f = Fixture { templates: TemplateManager::new(defs).unwrap(), ..fixture() };
    let math = vec![Block::Plain(vec![Inline::Math {
        source: "x".to_string(),
        display_block: true,
        trailing_space: false,
    }])];
    assert_eq!(render(&f, OutputFormat::Html, math).unwrap(), "<math display=\"true\">x</math>");
    let names = vec![Block::Plain(vec![Inline::Shortcode(Shortcode::Inline(call("names", vec![])))])];
    assert_eq!(render(&f, OutputFormat::Html, names).unwrap(), "24:shortcode:0:html:");
}

#[test]
fn references_are_collected_in_document_order() {
    let blocks = str_to_blocks("{{ fig#a(x) }} {% box#b(title=\"{{ fig#c(y) }}\") %}{{ fig(z) }} {{ tab#d }}{% end_box %}");
    let found: Vec<(String, usize, String)> =
        references(&blocks).into_iter().map(|r| (r.id, r.num, r.name)).collect();
    assert_eq!(
        found,
        vec![
            ("a".to_string(), 1, "fig".to_string()),
            ("b".to_string(), 1, "box".to_string()),
            ("c".to_string(), 2, "fig".to_string()),
            ("d".to_string(), 1, "tab".to_string()),
        ]
    );
}

#[test]
fn rendered_arguments_are_bound_by_add_args() {
    let schema = ShortcodeDefinition {
        parameters: vec![ShortcodeParameter { name: "title".to_string(), optional: false }],
    };
    let mut args = vec![Binding { key: "site".to_string(), value: Arg::Bool(true) }];
    let ids = vec![Reference { id: "a".to_string(), num: 1, name: "fig".to_string(), parameters: Vec::new() }];
    let arguments = vec![
        Argument::Positional(vec![Piece::Text("t".to_string())]),
        Argument::Keyword("extra".to_string(), vec![]),
    ];
    assert!(add_args(&schema, &mut args, &Some("me".to_string()), 4, &ids, arguments).is_ok());
    let keys: Vec<&str> = args.iter().map(|b| b.key.as_str()).collect();
    assert_eq!(keys, vec!["site", "id", "num", "ids", "id_map", "title", "extra"]);
    assert!(matches!(&args[2].value, Arg::Number(4)));
    assert!(matches!(&args[5].value, Arg::Rendered(p) if matches!(&p[0], Piece::Text(t) if t == "t")));
    let surplus = vec![Argument::Keyword("k".to_string(), vec![]), Argument::Positional(vec![])];
    let mut untouched = Vec::new();
    assert!(matches!(
        add_args(&schema, &mut untouched, &None, 1, &ids, surplus),
        Err(SchemaError::TooManyArguments { expected: 1, position: 1 })
    ));
    assert!(untouched.is_empty());
}

#[test]
fn to_markdown_moves_the_context() {
    let defs = definitions();
    let extra = Vec::new();
    let ids = Vec::new();
    let metadata = DocumentMetadata::default();
    let env = PlanEnv { definitions: &defs, extra_args: &extra, ids: &ids, metadata: &metadata };
    let mut ctx = ToMarkdownContext { list_idx: Some(4), list_lvl: 2 };
    let item = Block::ListItem(vec![Block::Plain(vec![text("x")])]);
    let plan = item.to_markdown(&env, &mut ctx).unwrap();
    assert_eq!(ctx, ToMarkdownContext { list_idx: Some(5), list_lvl: 2 });
    assert!(matches!(&plan[0], Piece::Text(t) if t == "\t"));
    assert!(matches!(&plan[1], Piece::Template { name, args, .. }
        if name == "list_item" && matches!(&args[0].value, Arg::Number(4))));
    let list = vec![Block::List(None, vec![item])];
    list.to_markdown(&env, &mut ctx).unwrap();
    assert_eq!(ctx, ToMarkdownContext { list_idx: Some(5), list_lvl: 2 });
    let inlines = vec![text("a"), Inline::Emphasis(vec![text("b")])];
    assert_eq!(inlines.to_markdown(&env, &mut ctx).unwrap().len(), 4);
    assert_eq!(text("a").to_markdown(&env, &mut ctx).unwrap().len(), 1);
    let missing = Inline::Shortcode(Shortcode::Inline(call("nope", vec![])));
    assert!(missing.to_markdown(&env, &mut ctx).is_err());
    assert_eq!(ctx, ToMarkdownContext { list_idx: Some(5), list_lvl: 2 });
}

#[test]
fn renderers_render_in_their_own_flavor() {
    let f = fixture();
    let doc = document(vec![Block::Paragraph(vec![Inline::Emphasis(vec![text("x")])])]);
    let ctx = RenderContext {
        templates: &f.templates,
        extra_args: Vec::new(),
        format: OutputFormat::Html,
        doc: &doc,
        ids: Vec::new(),
        syntax_set: &f.syntax_set,
        theme: &f.themes.themes["base16-ocean.light"],
        counter: &f.counter,
    };
    assert_eq!(LatexRenderer.render(&ctx).unwrap().content, "\\emph{x}\n");
    assert_eq!(MarkdownRenderer.render(&ctx).unwrap().content, "*x*\n\n");
    assert_eq!(GenericRenderer.render_doc(&ctx).unwrap().content, "<p><em>x</em></p>");
    assert_eq!(flavor_of(OutputFormat::Html), Flavor::Templated);
    assert_eq!(flavor_of(OutputFormat::Notebook), Flavor::Templated);
    assert_eq!(flavor_of(OutputFormat::Info), Flavor::Templated);
    assert_eq!(flavor_of(OutputFormat::LaTeX), Flavor::Latex);
    assert_eq!(flavor_of(OutputFormat::Markdown), Flavor::Markdown);
}

#[test]
fn bytes_are_written_behind_the_buffer() {
    let mut buf = vec![1u8];
    cdoc::renderers::generic::write_bytes("aé", &mut buf);
    assert_eq!(buf, vec![1u8, b'a', 0xc3, 0xa9]);
    cdoc::renderers::generic::write_bytes("", &mut buf);
    assert_eq!(buf.len(), 4);
}

#[test]
fn json_pieces_run_to_their_json_text() {
    let f = fixture();
    let doc = document(vec![]);
    let ctx = RenderContext {
        templates: &f.templates,
        extra_args: Vec::new(),
        format: OutputFormat::Html,
        doc: &doc,
        ids: Vec::new(),
        syntax_set: &f.syntax_set,
        theme: &f.themes.themes["base16-ocean.light"],
        counter: &f.counter,
    };
    let value: serde_json::Value = serde_json::from_str("{ \"a\": [1, null, \"x\"] }").unwrap();
    let plan = vec![Piece::Text("<".to_string()), Piece::Json(value), Piece::Text(">".to_string())];
    assert_eq!(run(&plan, &ctx).unwrap(), "<{\"a\":[1,null,\"x\"]}>");
}

#[test]
fn outside_results_become_render_results() {
    assert_eq!(json_result(Ok("1".to_string())).unwrap(), "1");
    let broken = serde_json::from_str::<serde_json::Value>("{").unwrap_err();
    let message = broken.to_string();
    assert!(matches!(json_result(Err(broken)), Err(RenderError::Json(m)) if m == message));

    assert_eq!(highlight_result(Ok("<pre>".to_string())).unwrap(), "<pre>");
    let failed = syntect::Error::Fmt(std::fmt::Error);
    let message = failed.to_string();
    assert!(matches!(highlight_result(Err(failed)), Err(RenderError::Highlight(m)) if m == message));

    assert_eq!(engine_result("builtin_x.html", Ok("out".to_string())).unwrap(), "out");
    let refused = tera::Error::msg("no");
    let message = refused.to_string();
    assert!(matches!(
        engine_result("builtin_x.html", Err(refused)),
        Err(RenderError::Engine { template, message: m }) if template == "builtin_x.html" && m == message
    ));
}

#[test]
fn highlighting_needs_a_python_syntax() {
    let f = fixture();
    let doc = document(vec![]);
    let none = SyntaxSet::new();
    let ctx = RenderContext {
        templates: &f.templates,
        extra_args: Vec::new(),
        format: OutputFormat::Html,
        doc: &doc,
        ids: Vec::new(),
        syntax_set: &none,
        theme: &f.themes.themes["base16-ocean.light"],
        counter: &f.counter,
    };
    assert!(matches!(
        highlight("x = 1", &ctx),
        Err(RenderError::Highlight(m)) if m == "no syntax for the extension py"
    ));
    let ctx = RenderContext { syntax_set: &f.syntax_set, ..ctx };
    let html = highlight("x = 1", &ctx).unwrap();
    assert!(html.starts_with("<pre style="));
    assert!(html.contains("x"));
    assert_ne!(html, "x = 1");
}

#[test]
fn values_without_engine_work_always_make_a_context() {
    let f = fixture();
    let doc = document(vec![]);
    let ctx = RenderContext {
        templates: &f.templates,
        extra_args: Vec::new(),
        format: OutputFormat::Html,
        doc: &doc,
        ids: Vec::new(),
        syntax_set: &f.syntax_set,
        theme: &f.themes.themes["base16-ocean.light"],
        counter: &f.counter,
    };
    let args = vec![
        Binding { key: "flag".to_string(), value: Arg::Bool(true) },
        Binding {
            key: "inner".to_string(),
            value: Arg::Rendered(vec![Piece::Text("a".to_string()), Piece::Text("b".to_string())]),
        },
        Binding { key: "code".to_string(), value: Arg::Highlighted("x = 1".to_string()) },
        Binding { key: "flag".to_string(), value: Arg::Number(7) },
    ];
    let context = build_context(&args, &ctx).unwrap();
    assert_eq!(context.get("flag"), Some(&serde_json::Value::from(7u64)));
    assert_eq!(context.get("inner"), Some(&serde_json::Value::from("ab")));
    let html = highlight("x = 1", &ctx).unwrap();
    assert_eq!(context.get("code"), Some(&serde_json::Value::from(html)));
    assert_eq!(context.get("other"), None);
}

#[test]
fn templates_look_references_up_by_id() {
    let mut defs = definitions();
    defs.push(shortcode(
        "see",
        &[("to", false)],
        "{% set r = id_map[to] %}{{ r.1.name }} {{ r.0 }} {{ r.1.id }}{% if ids is object %} of {{ ids | length }}{% endif %}",
    ));
    let f = Fixture { templates: TemplateManager::new(defs).unwrap(), ..fixture() };
    let see = |to: &str| {
        vec![Block::Plain(vec![Inline::Shortcode(Shortcode::Inline(call(
            "see",
            vec![Argument::Keyword("to".to_string(), value(to))],
        )))])]
    };
    let doc = document(see("fig2"));
    let ctx = RenderContext {
        templates: &f.templates,
        extra_args: Vec::new(),
        format: OutputFormat::Html,
        doc: &doc,
        ids: vec![
            Reference { id: "fig1".to_string(), num: 1, name: "figure".to_string(), parameters: Vec::new() },
            Reference { id: "fig2".to_string(), num: 2, name: "figure".to_string(), parameters: Vec::new() },
            Reference { id: "fig2".to_string(), num: 5, name: "table".to_string(), parameters: Vec::new() },
        ],
        syntax_set: &f.syntax_set,
        theme: &f.themes.themes["base16-ocean.light"],
        counter: &f.counter,
    };
    assert_eq!(render_document(Flavor::Templated, &ctx).unwrap().content, "table 5 fig2 of 2");
}

#[test]
fn empty_lists_and_empty_records_differ() {
    let f = fixture();
    let doc = document(vec![]);
    let ctx = RenderContext {
        templates: &f.templates,
        extra_args: Vec::new(),
        format: OutputFormat::Html,
        doc: &doc,
        ids: Vec::new(),
        syntax_set: &f.syntax_set,
        theme: &f.themes.themes["base16-ocean.light"],
        counter: &f.counter,
    };
    let args = vec![
        Binding { key: "list".to_string(), value: Arg::Texts(Vec::new()) },
        Binding { key: "record".to_string(), value: Arg::References(Vec::new()) },
        Binding { key: "names".to_string(), value: Arg::Texts(vec!["a".to_string()]) },
    ];
    let context = build_context(&args, &ctx).unwrap();
    assert_eq!(context.get("list"), Some(&serde_json::Value::Array(Vec::new())));
    assert_eq!(context.get("record"), Some(&serde_json::Value::Object(serde_json::Map::new())));
    assert_eq!(
        context.get("names"),
        Some(&serde_json::Value::Array(vec![serde_json::Value::from("a")]))
    );
}

#[test]
fn writers_that_take_too_little_are_reported() {
    assert!(write_result(3, Ok(3)).is_ok());
    assert!(write_result(0, Ok(0)).is_ok());
    assert!(matches!(write_result(3, Ok(2)), Err(WriteError::Incomplete)));
    assert!(matches!(write_result(3, Ok(4)), Err(WriteError::Incomplete)));
    assert!(matches!(write_result(3, Err("disk".to_string())), Err(WriteError::Failed(m)) if m == "disk"));
}

#[test]
fn adjacent_paragraphs_stay_apart() {
    let f = fixture();
    let blocks = vec![
        Block::Paragraph(vec![text("one")]),
        Block::Paragraph(vec![text("two"), Inline::Emphasis(vec![text("x")])]),
    ];
    let written = render(&f, OutputFormat::Markdown, blocks).unwrap();
    assert_eq!(written, "one\n\ntwo*x*\n\n");
    let again = str_to_blocks(&written);
    assert_eq!(again.len(), 2);
    assert!(matches!(&again[0], Block::Paragraph(i) if matches!(&i[0], Inline::Text(t) if t == "one")));
    assert!(matches!(&again[1], Block::Paragraph(i) if i.len() == 2));
}

#[test]
fn a_run_fails_with_its_first_failure() {
    let f = fixture();
    let doc = document(vec![]);
    let none = SyntaxSet::new();
    let ctx = RenderContext {
        templates: &f.templates,
        extra_args: Vec::new(),
        format: OutputFormat::Html,
        doc: &doc,
        ids: Vec::new(),
        syntax_set: &none,
        theme: &f.themes.themes["base16-ocean.light"],
        counter: &f.counter,
    };
    let call = |name: &str, args: Vec<Binding>| Piece::Template {
        name: name.to_string(),
        kind: TemplateType::Builtin,
        args,
    };
    let code = || Binding { key: "code".to_string(), value: Arg::Highlighted("x".to_string()) };
    let inner = |plan: Vec<Piece>| Binding { key: "value".to_string(), value: Arg::Rendered(plan) };

    let missing = vec![Piece::Text("a".to_string()), call("nope", vec![]), call("gone", vec![])];
    assert!(matches!(run(&missing, &ctx), Err(RenderError::TemplateNotFound(n)) if n == "nope"));

    let values_first = vec![call("nope", vec![code()])];
    assert!(matches!(
        run(&values_first, &ctx),
        Err(RenderError::Highlight(m)) if m == "no syntax for the extension py"
    ));

    let nested = vec![call("emphasis", vec![inner(vec![call("nope", vec![])])]), call("gone", vec![])];
    assert!(matches!(run(&nested, &ctx), Err(RenderError::TemplateNotFound(n)) if n == "nope"));

    let behind_the_engine =
        vec![call("emphasis", vec![inner(vec![Piece::Text("x".to_string())])]), call("gone", vec![])];
    assert!(matches!(run(&behind_the_engine, &ctx), Err(RenderError::TemplateNotFound(n)) if n == "gone"));

    assert!(matches!(
        build_context(&vec![inner(vec![Piece::Text("x".to_string())]), code(), inner(vec![call("nope", vec![])])], &ctx),
        Err(RenderError::Highlight(m)) if m == "no syntax for the extension py"
    ));
}

#[test]
fn references_carry_the_definition_of_their_call() {
    let blocks = str_to_blocks("{{ fig#a(one, caption=\"The *cap* `c`\") }} {{ see(to=a) }}");
    let found = references(&blocks);
    assert_eq!(found.len(), 1);
    assert_eq!((found[0].id.as_str(), found[0].num, found[0].name.as_str()), ("a", 1, "fig"));
    let seen: Vec<(Option<&str>, &str)> =
        found[0].parameters.iter().map(|p| (p.key.as_deref(), p.value.as_str())).collect();
    assert_eq!(seen, vec![(None, "one"), (Some("caption"), "The cap c")]);

    let mut defs = definitions();
    defs.push(shortcode("fig", &[("file", false), ("caption", true)], ""));
    defs.push(shortcode(
        "see",
        &[("to", false)],
        "{% set key = to | striptags %}{% set r = id_map[key] %}{{ r.1.name }} {{ r.0 }}: {{ r.1.parameters.1.value }} ({{ r.1.parameters.1.key }}{% if not r.1.parameters.0.key %}, by position{% endif %})",
    ));
    let f = Fixture { templates: TemplateManager::new(defs).unwrap(), ..fixture() };
    let doc = document(blocks);
    let ctx = RenderContext {
        templates: &f.templates,
        extra_args: Vec::new(),
        format: OutputFormat::Html,
        doc: &doc,
        ids: found,
        syntax_set: &f.syntax_set,
        theme: &f.themes.themes["base16-ocean.light"],
        counter: &f.counter,
    };
    assert_eq!(
        render_document(Flavor::Templated, &ctx).unwrap().content,
        "<p> fig 1: The cap c (caption, by position)</p>"
    );
}
