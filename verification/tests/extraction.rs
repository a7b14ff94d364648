use sphinx_scraper::cache::DocumentCache;
use sphinx_scraper::content::parse_node;
use sphinx_scraper::signature::{parse_signature_node, Color};
use sphinx_scraper::tree::HtmlNode;

fn txt(s: &str) -> HtmlNode {
    HtmlNode::Text { text: s.to_string() }
}

fn el(tag: &str, attrs: &[(&str, &str)], children: Vec<HtmlNode>) -> HtmlNode {
    HtmlNode::Element {
        tag: tag.to_string(),
        attrs: attrs
            .iter()
            .map(|(k, v)| (k.to_string(), v.to_string()))
            .collect(),
        children,
    }
}

fn region(children: Vec<HtmlNode>) -> HtmlNode {
    el("dd", &[], children)
}

const BASE: &str = "https://docs.example.com";

#[test]
fn bold_renders_as_double_asterisks() {
    let n = region(vec![el("b", &[], vec![txt("x")])]);
    let (text, fields) = parse_node(&n, BASE);
    assert_eq!(text, "**x**");
    assert!(fields.is_empty());
}

#[test]
fn italic_emphasis_underline_code_render() {
    let i = region(vec![el("i", &[], vec![txt("x")])]);
    assert_eq!(parse_node(&i, BASE).0, "*x*");
    let em = region(vec![el("em", &[], vec![txt("x")])]);
    assert_eq!(parse_node(&em, BASE).0, "*x*");
    let strong = region(vec![el("strong", &[], vec![txt("x")])]);
    assert_eq!(parse_node(&strong, BASE).0, "**x**");
    let u = region(vec![el("u", &[], vec![txt("x")])]);
    assert_eq!(parse_node(&u, BASE).0, "__x__");
    let code = region(vec![el("code", &[], vec![txt("x")])]);
    assert_eq!(parse_node(&code, BASE).0, "`x`");
}

#[test]
fn relative_link_is_prefixed_with_base_url() {
    let n = region(vec![el("a", &[("href", "/api/foo")], vec![txt("text")])]);
    let (text, fields) = parse_node(&n, BASE);
    assert_eq!(text, "[text](https://docs.example.com/api/foo)");
    assert!(fields.is_empty());
}

#[test]
fn absolute_link_is_kept_unchanged() {
    let n = region(vec![el(
        "a",
        &[("href", "https://other.com/x")],
        vec![txt("text")],
    )]);
    let (text, _) = parse_node(&n, BASE);
    assert_eq!(text, "[text](https://other.com/x)");
}

#[test]
fn link_without_href_contributes_nothing() {
    let n = region(vec![el("a", &[], vec![txt("text")])]);
    let (text, fields) = parse_node(&n, BASE);
    assert_eq!(text, "");
    assert!(fields.is_empty());
}

#[test]
fn unordered_list_renders_bullets() {
    let n = region(vec![el(
        "ul",
        &[],
        vec![
            el("li", &[], vec![txt("a")]),
            el("li", &[], vec![txt("b")]),
        ],
    )]);
    let (text, _) = parse_node(&n, BASE);
    assert_eq!(text, "\n\u{2022} a\n\u{2022} b\n");
}

#[test]
fn ordered_list_numbering_starts_at_zero() {
    let n = region(vec![el(
        "ol",
        &[],
        vec![
            el("li", &[], vec![txt("a")]),
            el("li", &[], vec![txt("b")]),
        ],
    )]);
    let (text, _) = parse_node(&n, BASE);
    assert_eq!(text, "0. a\n1. b\n");
}

#[test]
fn admonition_with_title_and_content_becomes_a_field() {
    let n = region(vec![el(
        "div",
        &[("class", "admonition")],
        vec![
            el("p", &[], vec![txt(" Note ")]),
            el("p", &[], vec![txt("Be careful.")]),
        ],
    )]);
    let (text, fields) = parse_node(&n, BASE);
    assert_eq!(text, "");
    assert_eq!(fields.len(), 1);
    assert_eq!(fields[0].name, "Note");
    assert_eq!(fields[0].value, "Be careful.");
    assert!(!fields[0].inline);
}

#[test]
fn admonition_with_empty_title_is_suppressed() {
    let n = region(vec![el(
        "div",
        &[("class", "admonition")],
        vec![
            el("p", &[], vec![txt("   ")]),
            el("p", &[], vec![txt("Be careful.")]),
        ],
    )]);
    let (_, fields) = parse_node(&n, BASE);
    assert!(fields.is_empty());
}

#[test]
fn admonition_with_empty_content_is_suppressed() {
    let n = region(vec![el(
        "div",
        &[("class", "admonition")],
        vec![
            el("p", &[], vec![txt("Note")]),
            el("p", &[], vec![txt(" \n ")]),
        ],
    )]);
    let (_, fields) = parse_node(&n, BASE);
    assert!(fields.is_empty());
}

#[test]
fn empty_definition_gets_placeholder_value() {
    let n = region(vec![el(
        "dl",
        &[("class", "field-list")],
        vec![
            el("dt", &[], vec![txt("Parameters")]),
            el("dd", &[], vec![]),
        ],
    )]);
    let (_, fields) = parse_node(&n, BASE);
    assert_eq!(fields.len(), 1);
    assert_eq!(fields[0].name, "Parameters");
    assert_eq!(fields[0].value, "No content provided.");
}

#[test]
fn field_list_pairs_become_fields() {
    let n = region(vec![el(
        "dl",
        &[("class", "field-list")],
        vec![
            el("dt", &[], vec![txt("Parameters")]),
            el("dd", &[], vec![txt("the inputs")]),
            el("dt", &[], vec![txt("Returns")]),
            el("dd", &[], vec![txt("the output")]),
        ],
    )]);
    let (_, fields) = parse_node(&n, BASE);
    assert_eq!(fields.len(), 2);
    assert_eq!(fields[0].name, "Parameters");
    assert_eq!(fields[0].value, "the inputs");
    assert_eq!(fields[1].name, "Returns");
    assert_eq!(fields[1].value, "the output");
}

#[test]
fn non_field_list_definition_list_ends_the_region() {
    let n = region(vec![
        el("p", &[], vec![txt("a")]),
        el("dl", &[("class", "x")], vec![el("dt", &[], vec![txt("t")])]),
        el("p", &[], vec![txt("b")]),
    ]);
    let (text, fields) = parse_node(&n, BASE);
    assert_eq!(text, "a");
    assert!(fields.is_empty());
}

#[test]
fn rubric_names_the_following_python_block() {
    let n = region(vec![
        el("p", &[("class", "rubric")], vec![txt("Examples")]),
        el(
            "div",
            &[("class", "highlight-python3")],
            vec![txt("print(1)\n")],
        ),
    ]);
    let (text, fields) = parse_node(&n, BASE);
    assert_eq!(text, "");
    assert_eq!(fields.len(), 1);
    assert_eq!(fields[0].name, "Examples");
    assert_eq!(fields[0].value, "```py\nprint(1)\n```");
}

#[test]
fn default_highlight_block_is_inlined() {
    let n = region(vec![el(
        "div",
        &[("class", "highlight-default")],
        vec![txt("raw text\n")],
    )]);
    let (text, fields) = parse_node(&n, BASE);
    assert_eq!(text, "```\nraw text\n```");
    assert!(fields.is_empty());
}

#[test]
fn describe_blocks_become_supported_operations() {
    let n = region(vec![el(
        "div",
        &[("class", "operations")],
        vec![
            el(
                "dl",
                &[("class", "describe")],
                vec![
                    el("dt", &[], vec![txt("x + y")]),
                    el("dd", &[], vec![txt("adds\nthem")]),
                ],
            ),
            el(
                "dl",
                &[("class", "describe")],
                vec![
                    el("dt", &[], vec![txt("x * y")]),
                    el("dd", &[], vec![txt("multiplies")]),
                ],
            ),
        ],
    )]);
    let (_, fields) = parse_node(&n, BASE);
    assert_eq!(fields.len(), 1);
    assert_eq!(fields[0].name, "Supported Operations");
    assert_eq!(
        fields[0].value,
        "**`x + y`** - adds them\n**`x * y`** - multiplies"
    );
}

#[test]
fn headings_are_captured_but_render_nothing() {
    let n = region(vec![
        el("h1", &[], vec![txt("Title")]),
        el("p", &[], vec![txt("body")]),
    ]);
    let (text, _) = parse_node(&n, BASE);
    assert_eq!(text, "body");
}

#[test]
fn elements_without_class_are_skipped_and_classed_wrappers_flattened() {
    let n = region(vec![
        el("span", &[], vec![txt("dropped")]),
        el(
            "section",
            &[("class", "wrapper")],
            vec![el("p", &[], vec![txt("kept")])],
        ),
    ]);
    let (text, _) = parse_node(&n, BASE);
    assert_eq!(text, "kept");
}

#[test]
fn signature_tokens_are_classified() {
    let dt = el(
        "dt",
        &[("id", "mod.func")],
        vec![
            el("span", &[("class", "sig-prename descclassname")], vec![txt("mod.")]),
            el("span", &[("class", "sig-name")], vec![txt("func")]),
            el("span", &[("class", "sig-paren")], vec![txt("(")]),
            el(
                "em",
                &[("class", "sig-param")],
                vec![
                    el("span", &[("class", "n")], vec![txt("x")]),
                    el("span", &[("class", "default_value")], vec![txt("1")]),
                ],
            ),
            el("em", &[], vec![txt("annotation")]),
            el("span", &[("class", "sig-paren")], vec![txt(")")]),
            txt(" -> int"),
        ],
    );
    let spans = parse_signature_node(&dt);
    let got: Vec<(&str, bool, Color)> = spans
        .iter()
        .map(|s| (s.content.as_str(), s.bold, s.color))
        .collect();
    assert_eq!(
        got,
        vec![
            ("mod.", false, Color::White),
            ("func", true, Color::White),
            ("(", true, Color::Gray),
            ("x", false, Color::Yellow),
            ("1", false, Color::Cyan),
            ("annotation", false, Color::Green),
            (")", true, Color::Gray),
            (" -> int", true, Color::Gray),
        ]
    );
}

#[test]
fn sig_prename_without_descclassname_is_red() {
    let dt = el(
        "dt",
        &[],
        vec![el("span", &[("class", "sig-prename")], vec![txt("Owner.")])],
    );
    let spans = parse_signature_node(&dt);
    assert_eq!(spans.len(), 1);
    assert_eq!(spans[0].color, Color::Red);
    assert!(!spans[0].bold);
}

#[test]
fn nested_list_items_appear_once_per_li_descendant() {
    let n = region(vec![el(
        "ul",
        &[],
        vec![el(
            "li",
            &[],
            vec![txt("a"), el("ul", &[], vec![el("li", &[], vec![txt("b")])])],
        )],
    )]);
    let (text, _) = parse_node(&n, BASE);
    assert_eq!(text, "\n\u{2022} a\n\u{2022} b\n\n\u{2022} b\n");
}

#[test]
fn comments_render_nothing() {
    let n = region(vec![
        HtmlNode::Comment {
            text: "hidden".to_string(),
        },
        el("p", &[], vec![txt("shown")]),
    ]);
    let (text, fields) = parse_node(&n, BASE);
    assert_eq!(text, "shown");
    assert!(fields.is_empty());
}

#[test]
fn has_document_is_false_then_true() {
    let mut cache = DocumentCache::new();
    assert!(!cache.has_document("https://docs.example.com/page"));
    cache.get_or_parse("https://docs.example.com/page", "<html></html>");
    assert!(cache.has_document("https://docs.example.com/page"));
    assert!(!cache.has_document("https://docs.example.com/other"));
}

#[test]
fn hello_world_greets() {
    assert_eq!(sphinx_scraper::hello_world(), "Hello, world!");
}
