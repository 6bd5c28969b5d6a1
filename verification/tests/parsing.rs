//! Tests of the markup and rule-sheet parsers, colors, selectors,
//! string utilities, and word wrap.

use ukechug::css::{CSSParser, Color, Selector, SimpleSelector, Unit, Value};
use ukechug::dom::NodeType;
use ukechug::html::HTMLParser;
use ukechug::render::text_drawer::{calculate_text_height, wrap_lines};
use ukechug::strutil::{split_ws, str_eq, trim};

#[test]
fn color_round_trip() {
    // A #rrggbb literal parses to the same RGBA as its channels, with
    // alpha 255; the keyword "black" resolves to the same RGBA as
    // #000000.
    assert_eq!(Color::from_hex("#1a2b3c"), Some(Color::new(0x1a, 0x2b, 0x3c, 255)));
    let black_lit = Color::from_hex("#000000").unwrap();
    let black_kw = ukechug::render::display_list::value_to_color(&Value::Keyword(
        "black".to_string(),
    ));
    assert_eq!(black_lit, black_kw);
}

#[test]
fn color_from_hex_rejects() {
    assert_eq!(Color::from_hex("#12345"), None);
    assert_eq!(Color::from_hex("123456!"), None);
    assert_eq!(Color::from_hex("#12345g"), None);
    assert_eq!(Color::from_hex(""), None);
}

#[test]
fn color_constructors() {
    assert_eq!(Color::white(), Color::new(255, 255, 255, 255));
    assert_eq!(Color::black(), Color::new(0, 0, 0, 255));
}

#[test]
fn selector_specificity_counts() {
    let sel = Selector::Simple(SimpleSelector {
        tag_name: Some("h1".to_string()),
        id: Some("x".to_string()),
        classes: vec!["a".to_string(), "b".to_string()],
    });
    assert_eq!(sel.specificity(), (1, 2, 1));
    let bare = Selector::Simple(SimpleSelector { tag_name: None, id: None, classes: vec![] });
    assert_eq!(bare.specificity(), (0, 0, 0));
}

#[test]
fn value_to_px() {
    assert_eq!(Value::Length(12, Unit::Px).to_px(), 12);
    assert_eq!(Value::Length(12, Unit::Em).to_px(), 0);
    assert_eq!(Value::Keyword("auto".to_string()).to_px(), 0);
    assert_eq!(Value::Color(Color::black()).to_px(), 0);
}

#[test]
fn css_parse_rule() {
    let parser = CSSParser::new();
    let sheet = parser.parse("h1.title { color: #ff0000; margin: 10px; }");
    assert_eq!(sheet.rules.len(), 1);
    let rule = &sheet.rules[0];
    assert_eq!(rule.selectors.len(), 1);
    let Selector::Simple(s) = &rule.selectors[0];
    assert_eq!(s.tag_name.as_ref().unwrap().as_str(), "h1");
    assert!(s.id.is_none());
    assert_eq!(s.classes.len(), 1);
    assert_eq!(s.classes[0].as_str(), "title");
    assert_eq!(rule.declarations.len(), 2);
    assert_eq!(rule.declarations[0].name.as_str(), "color");
    assert_eq!(rule.declarations[0].value, Value::Color(Color::new(255, 0, 0, 255)));
    assert_eq!(rule.declarations[1].name.as_str(), "margin");
    assert_eq!(rule.declarations[1].value, Value::Length(10, Unit::Px));
}

#[test]
fn css_parse_units_and_keywords() {
    let parser = CSSParser::new();
    let sheet = parser.parse("p { width: 50%; height: 2em; display: block; pad: 3rem; }");
    let decls = &sheet.rules[0].declarations;
    assert_eq!(decls[0].value, Value::Length(50, Unit::Percent));
    assert_eq!(decls[1].value, Value::Length(2, Unit::Em));
    assert_eq!(decls[2].value, Value::Keyword("block".to_string()));
    assert_eq!(decls[3].value, Value::Length(3, Unit::Rem));
}

#[test]
fn css_selector_list_sorted_by_specificity() {
    let parser = CSSParser::new();
    let sheet = parser.parse("p, #big, .cls { color: red; }");
    let sels = &sheet.rules[0].selectors;
    assert_eq!(sels.len(), 3);
    // Most specific first: the id, then the class, then the tag.
    assert_eq!(sels[0].specificity(), (1, 0, 0));
    assert_eq!(sels[1].specificity(), (0, 1, 0));
    assert_eq!(sels[2].specificity(), (0, 0, 1));
}

#[test]
fn css_parse_multiple_rules() {
    let parser = CSSParser::new();
    let sheet = parser.parse("a { x: 1px; } b { y: 2px; }");
    assert_eq!(sheet.rules.len(), 2);
    assert_eq!(sheet.rules[1].declarations[0].value, Value::Length(2, Unit::Px));
}

#[test]
fn html_parse_element_tree() {
    let mut parser = HTMLParser::new();
    let root = parser.parse("<div id=\"main\" class=\"a b\"><p>hi</p><span>x</span></div>");
    match &root.node_type {
        NodeType::Element(e) => {
            assert_eq!(e.tag_name.as_str(), "div");
            assert_eq!(e.id().unwrap().as_str(), "main");
            let classes = e.classes();
            assert_eq!(classes.len(), 2);
        },
        _ => panic!("expected element root"),
    }
    assert_eq!(root.children.len(), 2);
    match &root.children[0].node_type {
        NodeType::Element(e) => assert_eq!(e.tag_name.as_str(), "p"),
        _ => panic!("expected p"),
    }
    match &root.children[0].children[0].node_type {
        NodeType::Text(t) => assert_eq!(t.as_str(), "hi"),
        _ => panic!("expected text"),
    }
}

#[test]
fn html_parse_wraps_siblings() {
    let mut parser = HTMLParser::new();
    let root = parser.parse("<p>a</p><p>b</p>");
    match &root.node_type {
        NodeType::Element(e) => assert_eq!(e.tag_name.as_str(), "html"),
        _ => panic!("expected wrapping element"),
    }
    assert_eq!(root.children.len(), 2);
}

#[test]
fn html_parse_single_quotes_and_text() {
    let mut parser = HTMLParser::new();
    let root = parser.parse("<a href='x y'>link text</a>");
    match &root.node_type {
        NodeType::Element(e) => {
            assert_eq!(e.get_attribute("href").unwrap().as_str(), "x y");
        },
        _ => panic!("expected element"),
    }
    match &root.children[0].node_type {
        NodeType::Text(t) => assert_eq!(t.as_str(), "link text"),
        _ => panic!("expected text"),
    }
}

#[test]
fn html_parse_malformed_does_not_panic() {
    let mut parser = HTMLParser::new();
    // Unclosed tags and stray markup must not stop the parser.
    let _root = parser.parse("<div><p>unclosed");
    let mut parser2 = HTMLParser::new();
    let _root2 = parser2.parse("<<<>>");
    let mut parser3 = HTMLParser::new();
    let _root3 = parser3.parse("");
}

#[test]
fn wrap_idempotent_and_monotone() {
    // Wrapping the same words at the same limit twice produces
    // identical break points; reducing the limit never decreases the
    // line count.
    let widths: Vec<u64> = vec![40, 40, 40, 40];
    let first = wrap_lines(&widths, 10, 100);
    let second = wrap_lines(&widths, 10, 100);
    assert_eq!(first, second);
    assert_eq!(first, vec![(0, 2), (2, 4)]);
    let narrow = wrap_lines(&widths, 10, 50);
    assert!(narrow.len() >= first.len());
    assert_eq!(narrow, vec![(0, 1), (1, 2), (2, 3), (3, 4)]);
}

#[test]
fn wrap_overlong_word_alone() {
    let widths: Vec<u64> = vec![500, 10];
    let lines = wrap_lines(&widths, 5, 100);
    assert_eq!(lines, vec![(0, 1), (1, 2)]);
}

#[test]
fn wrap_empty() {
    let widths: Vec<u64> = vec![];
    assert_eq!(wrap_lines(&widths, 5, 100).len(), 0);
}

#[test]
fn text_height_formula() {
    // Two lines at font size 16: each line is 24 pixels high.
    let widths: Vec<u64> = vec![60, 60];
    assert_eq!(calculate_text_height(&widths, 10, 16, 100), 48);
    // One line when everything fits.
    assert_eq!(calculate_text_height(&widths, 10, 16, 200), 24);
}

#[test]
fn split_and_trim() {
    let words = split_ws("  one  two\tthree \n");
    let got: Vec<&str> = words.iter().map(|s| s.as_str()).collect();
    assert_eq!(got, vec!["one", "two", "three"]);
    assert_eq!(trim("  abc  ").as_str(), "abc");
    assert_eq!(trim("\t \n").as_str(), "");
    assert_eq!(trim("x").as_str(), "x");
    assert!(str_eq("abc", "abc"));
    assert!(!str_eq("abc", "abd"));
    assert!(!str_eq("abc", "ab"));
}

#[test]
fn wrap_offsets_place_lines() {
    // Each wrapped line sits one line-advance (1.5 font sizes) below
    // the previous one.
    let widths: Vec<u64> = vec![40, 40, 40, 40];
    let lines = ukechug::render::text_drawer::wrap_lines_with_offsets(&widths, 10, 100, 16);
    assert_eq!(lines, vec![(0, 2, 0), (2, 4, 24)]);
}
