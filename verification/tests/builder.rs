use cdoc::ast::{Argument, Block, Inline, Shortcode};
use cdoc::builder::call::parse;
use cdoc::builder::markdown::str_to_blocks;
use cdoc::builder::numbering::Numbering;

fn chars(s: &str) -> Vec<char> {
    s.chars().collect()
}

fn text_of(inlines: &[Inline]) -> String {
    inlines.iter().map(|i| i.to_string()).collect()
}

fn shortcodes(blocks: &[Block], out: &mut Vec<(String, usize)>) {
    for block in blocks {
        match block {
            Block::Heading { inner, .. }
            | Block::Plain(inner)
            | Block::Paragraph(inner)
            | Block::BlockQuote(inner) => inline_shortcodes(inner, out),
            Block::List(_, items) | Block::ListItem(items) => shortcodes(items, out),
            Block::CodeBlock { .. } => {}
        }
    }
}

fn inline_shortcodes(inlines: &[Inline], out: &mut Vec<(String, usize)>) {
    for inline in inlines {
        match inline {
            Inline::Shortcode(Shortcode::Inline(base)) => {
                out.push((base.name.clone(), base.num));
                for p in &base.parameters {
                    match p {
                        Argument::Positional(b) | Argument::Keyword(_, b) => shortcodes(b, out),
                    }
                }
            }
            Inline::Shortcode(Shortcode::Block(base, body)) => {
                out.push((base.name.clone(), base.num));
                for p in &base.parameters {
                    match p {
                        Argument::Positional(b) | Argument::Keyword(_, b) => shortcodes(b, out),
                    }
                }
                shortcodes(body, out);
            }
            Inline::Emphasis(v) | Inline::Strong(v) | Inline::Strikethrough(v) => {
                inline_shortcodes(v, out)
            }
            Inline::Image(_, _, _, v) | Inline::Link(_, _, _, v) => inline_shortcodes(v, out),
            _ => {}
        }
    }
}

#[test]
fn call_with_name_only() {
    let call = parse(&chars(" fig ")).unwrap();
    assert_eq!(call.name, "fig");
    assert_eq!(call.id, None);
    assert!(call.args.is_empty());
}

#[test]
fn call_with_positional_and_keyword_arguments() {
    let call = parse(&chars("note(first, title=\"a, b\", width = 3)")).unwrap();
    assert_eq!(call.name, "note");
    assert_eq!(call.args.len(), 3);
    assert_eq!(call.args[0].key, None);
    assert_eq!(call.args[0].value, chars("first"));
    assert_eq!(call.args[1].key, Some("title".to_string()));
    assert_eq!(call.args[1].value, chars("a, b"));
    assert_eq!(call.args[2].key, Some("width".to_string()));
    assert_eq!(call.args[2].value, chars("3"));
}

#[test]
fn call_with_id() {
    let call = parse(&chars("figure#intro(url=\"a.png\")")).unwrap();
    assert_eq!(call.name, "figure");
    assert_eq!(call.id, Some("intro".to_string()));
    assert_eq!(call.args.len(), 1);
}

#[test]
fn call_with_empty_parentheses() {
    let call = parse(&chars("note()")).unwrap();
    assert_eq!(call.name, "note");
    assert!(call.args.is_empty());
    let spaced = parse(&chars("note(  )")).unwrap();
    assert!(spaced.args.is_empty());
}

#[test]
fn call_keeps_commas_inside_parentheses() {
    let call = parse(&chars("outer(inner(a, b), c)")).unwrap();
    assert_eq!(call.args.len(), 2);
    assert_eq!(call.args[0].value, chars("inner(a, b)"));
    assert_eq!(call.args[1].value, chars("c"));
}

#[test]
fn positional_argument_behind_a_named_one_is_no_call() {
    assert!(parse(&chars("note(a, k=b)")).is_some());
    assert!(parse(&chars("note(k=b, a)")).is_none());
    assert!(parse(&chars("note(a, k=b, c, l=d)")).is_none());
}

#[test]
fn malformed_calls_are_no_calls() {
    assert!(parse(&chars("")).is_none());
    assert!(parse(&chars("   ")).is_none());
    assert!(parse(&chars("(a)")).is_none());
    assert!(parse(&chars("note(a")).is_none());
    assert!(parse(&chars("note junk")).is_none());
}

#[test]
fn numbering_counts_each_name_from_one() {
    let mut numbering = Numbering::new();
    assert_eq!(numbering.next("fig"), 1);
    assert_eq!(numbering.next("fig"), 2);
    assert_eq!(numbering.next("table"), 1);
    assert_eq!(numbering.next("fig"), 3);
}

#[test]
fn ordinal_stability() {
    let blocks = str_to_blocks("{{ fig(a) }} {{ fig(b) }} {{ table(c) }} {{ fig(d) }}");
    let mut found = Vec::new();
    shortcodes(&blocks, &mut found);
    assert_eq!(
        found,
        vec![
            ("fig".to_string(), 1),
            ("fig".to_string(), 2),
            ("table".to_string(), 1),
            ("fig".to_string(), 3)
        ]
    );
    let again = str_to_blocks("{{ fig(a) }} {{ fig(b) }} {{ table(c) }} {{ fig(d) }}");
    let mut found_again = Vec::new();
    shortcodes(&again, &mut found_again);
    assert_eq!(found, found_again);
}

#[test]
fn plain_markdown_becomes_blocks() {
    let blocks = str_to_blocks("# Title\n\nSome *emphasis* here.\n");
    assert_eq!(blocks.len(), 2);
    match &blocks[0] {
        Block::Heading { lvl, inner, .. } => {
            assert_eq!(*lvl, pulldown_cmark::HeadingLevel::H1);
            assert_eq!(text_of(inner), "Title");
        }
        other => panic!("expected a heading, found {:?}", other),
    }
    match &blocks[1] {
        Block::Paragraph(inner) => {
            assert_eq!(inner.len(), 3);
            assert!(matches!(&inner[1], Inline::Emphasis(_)));
            assert_eq!(text_of(inner), "Some emphasis here.");
        }
        other => panic!("expected a paragraph, found {:?}", other),
    }
}

#[test]
fn inline_shortcode_stays_inside_its_paragraph() {
    let blocks = str_to_blocks("before {{ note(x) }} after");
    assert_eq!(blocks.len(), 1);
    match &blocks[0] {
        Block::Paragraph(inner) => {
            assert_eq!(inner.len(), 3);
            assert!(matches!(&inner[0], Inline::Text(t) if t == "before "));
            match &inner[1] {
                Inline::Shortcode(Shortcode::Inline(base)) => {
                    assert_eq!(base.name, "note");
                    assert_eq!(base.num, 1);
                    assert_eq!(base.parameters.len(), 1);
                    match &base.parameters[0] {
                        Argument::Positional(value) => {
                            assert_eq!(value.len(), 1);
                            assert!(matches!(&value[0], Block::Paragraph(_)));
                        }
                        other => panic!("expected a positional argument, found {:?}", other),
                    }
                }
                other => panic!("expected a shortcode, found {:?}", other),
            }
            assert!(matches!(&inner[2], Inline::Text(t) if t == " after"));
        }
        other => panic!("expected a paragraph, found {:?}", other),
    }
}

#[test]
fn block_shortcode_has_a_parsed_body() {
    let blocks = str_to_blocks("{% box(title=\"T\") %}\n# Inside\n\ntext\n{% end_box %}");
    assert_eq!(blocks.len(), 1);
    match &blocks[0] {
        Block::Paragraph(inner) => match &inner[0] {
            Inline::Shortcode(Shortcode::Block(base, body)) => {
                assert_eq!(base.name, "box");
                assert!(matches!(&base.parameters[0], Argument::Keyword(k, _) if k == "title"));
                assert_eq!(body.len(), 2);
                assert!(matches!(&body[0], Block::Heading { .. }));
                assert!(matches!(&body[1], Block::Paragraph(_)));
            }
            other => panic!("expected a block shortcode, found {:?}", other),
        },
        other => panic!("expected a paragraph, found {:?}", other),
    }
}

#[test]
fn nested_shortcodes_are_numbered_in_document_order() {
    let blocks = str_to_blocks("{% box %}{{ fig(a) }}{% end_box %} {{ fig(b) }} {{ box }}");
    let mut found = Vec::new();
    shortcodes(&blocks, &mut found);
    assert_eq!(
        found,
        vec![
            ("box".to_string(), 1),
            ("fig".to_string(), 1),
            ("fig".to_string(), 2),
            ("box".to_string(), 2)
        ]
    );
}

#[test]
fn shortcode_in_code_span_is_code() {
    let blocks = str_to_blocks("see `{{ x }}` here");
    match &blocks[0] {
        Block::Paragraph(inner) => {
            assert!(inner.iter().all(|i| !matches!(i, Inline::Shortcode(_))));
            assert!(inner.iter().any(|i| matches!(i, Inline::Code(c) if c == "{{ x }}")));
        }
        other => panic!("expected a paragraph, found {:?}", other),
    }
}

#[test]
fn malformed_shortcode_stays_text() {
    let blocks = str_to_blocks("a {{ (oops }} b");
    let mut found = Vec::new();
    shortcodes(&blocks, &mut found);
    assert!(found.is_empty());
    match &blocks[0] {
        Block::Paragraph(inner) => assert_eq!(text_of(inner), "a {{ (oops }} b"),
        other => panic!("expected a paragraph, found {:?}", other),
    }
}

#[test]
fn lists_nest() {
    let blocks = str_to_blocks("1. a\n2. b\n   1. c");
    assert_eq!(blocks.len(), 1);
    match &blocks[0] {
        Block::List(Some(1), items) => {
            assert_eq!(items.len(), 2);
            match &items[1] {
                Block::ListItem(children) => {
                    assert!(children.iter().any(|c| matches!(c, Block::List(Some(1), _))));
                }
                other => panic!("expected a list item, found {:?}", other),
            }
        }
        other => panic!("expected an ordered list, found {:?}", other),
    }
}

#[test]
fn fenced_code_becomes_a_code_block() {
    let blocks = str_to_blocks("```python\nprint(1)\n```\n");
    assert_eq!(blocks.len(), 1);
    match &blocks[0] {
        Block::CodeBlock { source, outputs, attr, .. } => {
            assert_eq!(source, "print(1)\n");
            assert!(outputs.is_empty());
            assert!(!attr.editable);
        }
        other => panic!("expected a code block, found {:?}", other),
    }
}

#[test]
fn text_with_other_scripts_is_kept() {
    let blocks = str_to_blocks("héllo {{ note(ünï) }} wörld");
    match &blocks[0] {
        Block::Paragraph(inner) => {
            assert!(matches!(&inner[0], Inline::Text(t) if t == "héllo "));
            assert!(matches!(&inner[2], Inline::Text(t) if t == " wörld"));
        }
        other => panic!("expected a paragraph, found {:?}", other),
    }
}

#[test]
fn paragraph_behind_html_stays_a_paragraph() {
    let blocks = str_to_blocks("<div>\n\npara\n");
    assert_eq!(blocks.len(), 2);
    assert!(matches!(&blocks[0], Block::Plain(v) if matches!(&v[0], Inline::Html(_))));
    assert!(matches!(&blocks[1], Block::Paragraph(v) if text_of(v) == "para"));
}

#[test]
fn quote_holds_the_inlines_of_its_paragraphs() {
    let blocks = str_to_blocks("> one\n>\n> two\n\nafter");
    assert_eq!(blocks.len(), 2);
    assert!(matches!(&blocks[0], Block::BlockQuote(v) if text_of(v) == "onetwo"));
    assert!(matches!(&blocks[1], Block::Paragraph(v) if text_of(v) == "after"));
}

#[test]
fn private_use_characters_of_the_text_stay_text() {
    let blocks = str_to_blocks("a\u{e000}b {{ fig }} c\u{e001}d {{ tab }}\u{e003}");
    assert_eq!(blocks.len(), 1);
    match &blocks[0] {
        Block::Paragraph(inner) => {
            assert_eq!(inner.len(), 5);
            assert!(matches!(&inner[0], Inline::Text(t) if t == "a\u{e000}b "));
            assert!(matches!(&inner[1], Inline::Shortcode(Shortcode::Inline(b)) if b.name == "fig"));
            assert!(matches!(&inner[2], Inline::Text(t) if t == " c\u{e001}d "));
            assert!(matches!(&inner[3], Inline::Shortcode(Shortcode::Inline(b)) if b.name == "tab"));
            assert!(matches!(&inner[4], Inline::Text(t) if t == "\u{e003}"));
        },
        other => panic!("expected a paragraph, found {:?}", other),
    }
}

#[test]
fn shortcodes_nest_as_deep_as_they_are_written() {
    let mut text = String::from("x");
    for _ in 0..40 {
        text = format!("{{{{ w({}) }}}}", text);
    }
    let mut blocks = str_to_blocks(&text);
    for depth in 0..40 {
        assert_eq!(blocks.len(), 1, "at depth {}", depth);
        let inner = match blocks.remove(0) {
            Block::Paragraph(inner) | Block::Plain(inner) => inner,
            other => panic!("expected inlines, found {:?}", other),
        };
        assert_eq!(inner.len(), 1, "at depth {}", depth);
        blocks = match inner.into_iter().next() {
            Some(Inline::Shortcode(Shortcode::Inline(base))) => {
                assert_eq!(base.name, "w");
                assert_eq!(base.num, depth + 1);
                match base.parameters.into_iter().next() {
                    Some(Argument::Positional(value)) => value,
                    other => panic!("expected an argument by position, found {:?}", other),
                }
            },
            other => panic!("expected a shortcode, found {:?}", other),
        };
    }
    assert!(matches!(&blocks[0], Block::Paragraph(inner) if matches!(&inner[0], Inline::Text(t) if t == "x")));
}
