use cdoc::scanner::{
    extract_block, extract_inline, find_all_blocks, find_next_block, find_opener, find_shortcode,
    find_shortcode_from, ShortcodeIdx,
};
use cdoc::segments::{split_shortcodes, Segment};

#[test]
fn inline_shortcode_is_found() {
    assert_eq!(find_shortcode("a {{ x }} b"), Some(ShortcodeIdx::Inline(2, 7)));
}

#[test]
fn nested_inline_shortcode_balances() {
    let input = "{{ a({{ b }}) }} tail }}";
    assert_eq!(find_shortcode(input), Some(ShortcodeIdx::Inline(0, 14)));
}

#[test]
fn unbalanced_inline_is_none() {
    assert_eq!(find_shortcode("{{ a {{ b }}"), None);
    assert_eq!(find_shortcode("{{ never closed"), None);
    assert_eq!(extract_inline(0, "{{"), None);
}

#[test]
fn no_delimiter_is_none() {
    assert_eq!(find_shortcode("plain text"), None);
    assert_eq!(find_shortcode(""), None);
    assert_eq!(find_opener("plain", 0), None);
}

#[test]
fn balanced_nesting_returns_outer_pair() {
    let input = "{% box %}{% box %}{% end_box %}{% end_box %}";
    assert_eq!(
        find_shortcode(input),
        Some(ShortcodeIdx::Block { def: (0, 7), end: (31, 42) })
    );
}

#[test]
fn balanced_nesting_with_text_around() {
    let input = "intro {% box %}{% box %}{% end_box %}{% end_box %} and {% more %}";
    assert_eq!(
        find_shortcode(input),
        Some(ShortcodeIdx::Block { def: (6, 13), end: (37, 48) })
    );
}

#[test]
fn simple_block_shortcode() {
    let input = "{% note(a) %}body{% end_note %}";
    assert_eq!(
        extract_block(0, input),
        Some(ShortcodeIdx::Block { def: (0, 11), end: (17, 29) })
    );
}

#[test]
fn end_tag_name_is_not_checked() {
    let input = "{% a %}x{% end_b %}";
    assert_eq!(
        find_shortcode(input),
        Some(ShortcodeIdx::Block { def: (0, 5), end: (8, 17) })
    );
}

#[test]
fn unclosed_block_is_none() {
    assert_eq!(find_shortcode("{% a %} body"), None);
    assert_eq!(find_shortcode("{% a "), None);
    assert_eq!(find_shortcode("{% a %}{% b %}{% end"), None);
    assert_eq!(find_shortcode("{% a %}{% end"), None);
}

#[test]
fn first_opener_decides_the_kind() {
    assert_eq!(
        find_shortcode("{% a %}{{ x }}{% end %}"),
        Some(ShortcodeIdx::Block { def: (0, 5), end: (14, 21) })
    );
    assert_eq!(find_shortcode("{{ x }}{% a %}{% end %}"), Some(ShortcodeIdx::Inline(0, 5)));
    assert_eq!(find_opener("ab{%{{", 0), Some(2));
    assert_eq!(find_opener("ab{%{{", 3), Some(4));
}

#[test]
fn shortcode_search_from_an_offset() {
    let input = "{{ a }} {{ b }}";
    assert_eq!(find_shortcode_from(input, 0), Some(ShortcodeIdx::Inline(0, 5)));
    assert_eq!(find_shortcode_from(input, 7), Some(ShortcodeIdx::Inline(8, 13)));
    assert_eq!(find_shortcode_from(input, 9), None);
    assert_eq!(find_shortcode_from(input, 100), None);
}

#[test]
fn offsets_are_byte_offsets() {
    let input = "é {{ x }}";
    assert_eq!(find_shortcode(input), Some(ShortcodeIdx::Inline(3, 8)));
}

#[test]
fn single_backtick_span() {
    assert_eq!(find_next_block("a `code` b"), Some((2, 8)));
}

#[test]
fn triple_backtick_span() {
    assert_eq!(find_next_block("```a`b```"), Some((0, 9)));
    assert_eq!(find_next_block("x ```\ncode\n``` y"), Some((2, 14)));
}

#[test]
fn backticks_at_the_end() {
    assert_eq!(find_next_block("```"), None);
    assert_eq!(find_next_block("a ```code"), None);
    assert_eq!(find_next_block("``"), Some((0, 2)));
    assert_eq!(find_next_block("``` ```"), Some((0, 7)));
}

#[test]
fn unclosed_span_is_none() {
    assert_eq!(find_next_block("a `code"), None);
    assert_eq!(find_next_block("```code``"), None);
    assert_eq!(find_next_block("no ticks"), None);
}

#[test]
fn all_spans_in_order() {
    assert_eq!(find_all_blocks("`a` and `b` and ```c```"), vec![(0, 3), (8, 11), (16, 23)]);
    assert_eq!(find_all_blocks("none"), Vec::<(usize, usize)>::new());
    assert_eq!(find_all_blocks("`a` then `open"), vec![(0, 3)]);
}

#[test]
fn spans_do_not_overlap() {
    let spans = find_all_blocks("`a``b` `c` ```d``` `e`");
    for pair in spans.windows(2) {
        assert!(pair[0].1 <= pair[1].0);
    }
    for span in &spans {
        assert!(span.0 < span.1);
    }
}

#[test]
fn split_finds_text_and_shortcodes() {
    assert_eq!(
        split_shortcodes("a {{ x }} b"),
        vec![
            Segment::Text(0, 2),
            Segment::Shortcode(ShortcodeIdx::Inline(2, 7)),
            Segment::Text(9, 11)
        ]
    );
}

#[test]
fn code_span_immunity() {
    assert_eq!(split_shortcodes("`{{ x }}`"), vec![Segment::Text(0, 9)]);
    assert_eq!(split_shortcodes("see `{{ x }}` here"), vec![Segment::Text(0, 18)]);
    assert_eq!(split_shortcodes("```\n{% a %}\n{% end %}\n```"), vec![Segment::Text(0, 25)]);
}

#[test]
fn shortcode_behind_a_code_span_is_found() {
    assert_eq!(
        split_shortcodes("`{{ x }}` {{ y }}"),
        vec![Segment::Text(0, 10), Segment::Shortcode(ShortcodeIdx::Inline(10, 15))]
    );
}

#[test]
fn split_of_plain_and_empty_text() {
    assert_eq!(split_shortcodes("plain"), vec![Segment::Text(0, 5)]);
    assert_eq!(split_shortcodes(""), Vec::<Segment>::new());
}

#[test]
fn unbalanced_opener_leaves_text() {
    assert_eq!(split_shortcodes("a {{ b"), vec![Segment::Text(0, 6)]);
}

#[test]
fn split_block_and_inline() {
    let input = "{% a %}x{% end_a %}{{ b }}";
    assert_eq!(
        split_shortcodes(input),
        vec![
            Segment::Shortcode(ShortcodeIdx::Block { def: (0, 5), end: (8, 17) }),
            Segment::Shortcode(ShortcodeIdx::Inline(19, 24)),
        ]
    );
}

#[test]
fn adjacent_delimiters_are_all_seen() {
    assert_eq!(find_shortcode("{{a{{b}}}}"), Some(ShortcodeIdx::Inline(0, 8)));
    assert_eq!(find_shortcode("{{{{}}}}"), Some(ShortcodeIdx::Inline(0, 6)));
    assert_eq!(find_shortcode("{{}}"), Some(ShortcodeIdx::Inline(0, 2)));
    assert_eq!(
        find_shortcode("{% a %}{% b %}{% end %}{% end %}"),
        Some(ShortcodeIdx::Block { def: (0, 5), end: (23, 30) })
    );
    assert_eq!(find_shortcode("{% a %}{% b %}{% end_b %}{%end%}{% end_a %}"), None);
    assert_eq!(
        find_shortcode("{% a %}{% b %}{% end_b %}{% end_a %}"),
        Some(ShortcodeIdx::Block { def: (0, 5), end: (25, 34) })
    );
}
