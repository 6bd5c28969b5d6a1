//! End-to-end tests of the cascade, box-tree, layout, and painting
//! stages.

use ukechug::css::{Color, Declaration, Rule, Selector, SimpleSelector, Stylesheet, Unit, Value};
use ukechug::dom::{AttrMap, Node, NodeType, DOMTree};
use ukechug::layout::{build_layout_tree, layout_tree, BoxType, Dimensions};
use ukechug::render::display_list::{build_display_list, value_to_color, DrawCmd};
use ukechug::render::image_renderer::ImageRenderer;
use ukechug::render::text_renderer::TextRenderer;
use ukechug::style::{style_tree, Display, PropertyMap, StyledNode};

fn elem(tag: &str, attrs: &[(&str, &str)], children: Vec<Node>) -> Node {
    let mut m: AttrMap = AttrMap::new();
    for (k, v) in attrs {
        m.insert(k.to_string(), v.to_string());
    }
    Node::element(tag.to_string(), m, children)
}

fn simple(tag: Option<&str>, id: Option<&str>, classes: &[&str]) -> Selector {
    Selector::Simple(SimpleSelector {
        tag_name: tag.map(|s| s.to_string()),
        id: id.map(|s| s.to_string()),
        classes: classes.iter().map(|s| s.to_string()).collect(),
    })
}

fn decl(name: &str, value: Value) -> Declaration {
    Declaration { name: name.to_string(), value }
}

fn keyword(s: &str) -> Value {
    Value::Keyword(s.to_string())
}

fn px(n: i64) -> Value {
    Value::Length(n, Unit::Px)
}

#[test]
fn specificity_ordering() {
    // `#x { color: red }` then `.y.z { color: blue }`: the id selector
    // has the strictly higher triple, so red wins although it is
    // declared first.
    let sheet = Stylesheet::new(vec![
        Rule { selectors: vec![simple(None, Some("x"), &[])], declarations: vec![decl(
            "color",
            keyword("red"),
        )] },
        Rule { selectors: vec![simple(None, None, &["y", "z"])], declarations: vec![decl(
            "color",
            keyword("blue"),
        )] },
    ]);
    let node = elem("div", &[("id", "x"), ("class", "y z")], vec![]);
    let styled = style_tree(&node, &sheet);
    match styled.value("color") {
        Some(Value::Keyword(k)) => assert_eq!(k.as_str(), "red"),
        other => panic!("unexpected color value: {:?}", other),
    }
}

#[test]
fn equal_specificity_later_wins() {
    let sheet = Stylesheet::new(vec![
        Rule { selectors: vec![simple(Some("div"), None, &[])], declarations: vec![decl(
            "color",
            keyword("red"),
        )] },
        Rule { selectors: vec![simple(Some("div"), None, &[])], declarations: vec![decl(
            "color",
            keyword("blue"),
        )] },
    ]);
    let node = elem("div", &[], vec![]);
    let styled = style_tree(&node, &sheet);
    match styled.value("color") {
        Some(Value::Keyword(k)) => assert_eq!(k.as_str(), "blue"),
        other => panic!("unexpected color value: {:?}", other),
    }
}

fn block_props() -> PropertyMap {
    let mut p = PropertyMap::new();
    p.insert("display".to_string(), keyword("block"));
    p
}

#[test]
fn anonymous_block_invariant() {
    // A block parent with children [inline, inline, block, inline]
    // builds exactly three block-level children: one anonymous block
    // wrapping the first two inlines, the block, and a second
    // anonymous block wrapping the trailing inline.
    let sheet = Stylesheet::new(vec![
        Rule { selectors: vec![simple(Some("div"), None, &[])], declarations: vec![decl(
            "display",
            keyword("block"),
        )] },
        Rule { selectors: vec![simple(Some("p"), None, &[])], declarations: vec![decl(
            "display",
            keyword("block"),
        )] },
    ]);
    let node = elem(
        "div",
        &[],
        vec![
            elem("span", &[], vec![]),
            elem("span", &[], vec![]),
            elem("p", &[], vec![]),
            elem("span", &[], vec![]),
        ],
    );
    let styled = style_tree(&node, &sheet);
    let root = build_layout_tree(&styled).expect("block root builds a box");
    assert!(matches!(root.box_type, BoxType::BlockNode(_)));
    assert_eq!(root.children.len(), 3);
    assert!(matches!(root.children[0].box_type, BoxType::AnonymousBlock));
    assert_eq!(root.children[0].children.len(), 2);
    assert!(matches!(root.children[0].children[0].box_type, BoxType::InlineNode(_)));
    assert!(matches!(root.children[1].box_type, BoxType::BlockNode(_)));
    assert!(matches!(root.children[2].box_type, BoxType::AnonymousBlock));
    assert_eq!(root.children[2].children.len(), 1);
}

#[test]
fn suppressed_display_none() {
    // An element with display: none vanishes with its whole subtree,
    // even though the child declares display: block.
    let node = elem("div", &[], vec![elem("p", &[], vec![])]);
    let mut props = PropertyMap::new();
    props.insert("display".to_string(), keyword("none"));
    let mut child_props = PropertyMap::new();
    child_props.insert("display".to_string(), keyword("block"));
    let child = StyledNode::new(&node.children[0], child_props, vec![]);
    let styled = StyledNode::new(&node, props, vec![child]);
    assert!(build_layout_tree(&styled).is_none());
    let mut viewport = Dimensions::default();
    viewport.content.width = 800;
    assert!(layout_tree(&styled, viewport).is_none());
}

fn viewport(width: i64, height: i64) -> Dimensions {
    let mut v = Dimensions::default();
    v.content.width = width;
    v.content.height = height;
    v
}

#[test]
fn width_auto_absorbs() {
    // Containing width 800; width auto with both margins auto: the
    // width absorbs all 800 pixels and the margins get nothing.
    let node = elem("div", &[], vec![]);
    let mut props = block_props();
    props.insert("width".to_string(), keyword("auto"));
    props.insert("margin-left".to_string(), keyword("auto"));
    props.insert("margin-right".to_string(), keyword("auto"));
    let styled = StyledNode::new(&node, props, vec![]);
    let root = layout_tree(&styled, viewport(800, 600)).expect("box");
    assert_eq!(root.dimensions.content.width, 800);
    assert_eq!(root.dimensions.margin.left, 0);
    assert_eq!(root.dimensions.margin.right, 0);
}

#[test]
fn width_fixed_margins_center() {
    // Width 600 in a containing width of 800 with both margins auto:
    // each margin takes 100 pixels (centering).
    let node = elem("div", &[], vec![]);
    let mut props = block_props();
    props.insert("width".to_string(), px(600));
    props.insert("margin-left".to_string(), keyword("auto"));
    props.insert("margin-right".to_string(), keyword("auto"));
    let styled = StyledNode::new(&node, props, vec![]);
    let root = layout_tree(&styled, viewport(800, 600)).expect("box");
    assert_eq!(root.dimensions.content.width, 600);
    assert_eq!(root.dimensions.margin.left, 100);
    assert_eq!(root.dimensions.margin.right, 100);
}

#[test]
fn vertical_stacking() {
    // Three blocks of content height 50 with 10-pixel vertical margins
    // stack at y = 10, 80, 150; each margin box is 70 high.
    let node = elem(
        "div",
        &[],
        vec![elem("p", &[], vec![]), elem("p", &[], vec![]), elem("p", &[], vec![])],
    );
    let mut children = Vec::new();
    for i in 0..3 {
        let mut p = block_props();
        p.insert("height".to_string(), px(50));
        p.insert("margin".to_string(), px(10));
        children.push(StyledNode::new(&node.children[i], p, vec![]));
    }
    let styled = StyledNode::new(&node, block_props(), children);
    let root = layout_tree(&styled, viewport(800, 600)).expect("box");
    assert_eq!(root.children.len(), 3);
    assert_eq!(root.children[0].dimensions.content.y, 10);
    assert_eq!(root.children[1].dimensions.content.y, 80);
    assert_eq!(root.children[2].dimensions.content.y, 150);
    assert_eq!(root.dimensions.content.height, 210);
}

#[test]
fn over_constrained_zeroes_auto_margin() {
    // Fixed width larger than the containing block: the lone auto
    // margin is treated as zero and the right margin absorbs the
    // negative remainder.
    let node = elem("div", &[], vec![]);
    let mut props = block_props();
    props.insert("width".to_string(), px(900));
    props.insert("margin-left".to_string(), keyword("auto"));
    let styled = StyledNode::new(&node, props, vec![]);
    let root = layout_tree(&styled, viewport(800, 600)).expect("box");
    assert_eq!(root.dimensions.content.width, 900);
    assert_eq!(root.dimensions.margin.left, 0);
    assert_eq!(root.dimensions.margin.right, -100);
}

#[test]
fn percent_resolves_against_containing_width() {
    let node = elem("div", &[], vec![]);
    let mut props = block_props();
    props.insert("width".to_string(), Value::Length(50, Unit::Percent));
    let styled = StyledNode::new(&node, props, vec![]);
    let root = layout_tree(&styled, viewport(800, 600)).expect("box");
    assert_eq!(root.dimensions.content.width, 400);
    assert_eq!(root.dimensions.margin.right, 400);
}

#[test]
fn display_list_background_and_border() {
    let node = elem("div", &[], vec![]);
    let mut props = block_props();
    props.insert("width".to_string(), px(100));
    props.insert("height".to_string(), px(40));
    props.insert("background".to_string(), keyword("red"));
    props.insert("border-color".to_string(), keyword("blue"));
    props.insert("border-width".to_string(), px(2));
    let styled = StyledNode::new(&node, props, vec![]);
    let root = layout_tree(&styled, viewport(100, 100)).expect("box");
    let cmds = build_display_list(&root);
    assert_eq!(cmds.len(), 3);
    // The border box is the 100-by-40 content grown by the 2-pixel
    // border on each side; the two border strokes nest inward.
    match &cmds[0] {
        DrawCmd::FillRect { x, y, width, height, color } => {
            assert_eq!((*x, *y, *width, *height), (0, 0, 104, 44));
            assert_eq!(*color, Color::new(255, 0, 0, 255));
        },
        other => panic!("expected fill, got {:?}", cmd_kind(other)),
    }
    match &cmds[1] {
        DrawCmd::StrokeRect { x, y, width, height, color } => {
            assert_eq!((*x, *y, *width, *height), (0, 0, 104, 44));
            assert_eq!(*color, Color::new(0, 0, 255, 255));
        },
        other => panic!("expected stroke, got {:?}", cmd_kind(other)),
    }
    match &cmds[2] {
        DrawCmd::StrokeRect { x, y, width, height, .. } => {
            assert_eq!((*x, *y, *width, *height), (1, 1, 102, 42));
        },
        other => panic!("expected stroke, got {:?}", cmd_kind(other)),
    }
}

fn cmd_kind(c: &DrawCmd) -> &'static str {
    match c {
        DrawCmd::FillRect { .. } => "fill",
        DrawCmd::StrokeRect { .. } => "stroke",
        DrawCmd::Text { .. } => "text",
    }
}

#[test]
fn display_list_text_run() {
    let node = elem("div", &[], vec![Node::text("  hello world  ".to_string())]);
    let mut props = block_props();
    props.insert("width".to_string(), px(200));
    props.insert("font-size".to_string(), px(20));
    props.insert("color".to_string(), keyword("green"));
    let text_styled = StyledNode::new(&node.children[0], PropertyMap::new(), vec![]);
    let styled = StyledNode::new(&node, props, vec![text_styled]);
    let root = layout_tree(&styled, viewport(200, 100)).expect("box");
    let cmds = build_display_list(&root);
    let text_cmds: Vec<&DrawCmd> = cmds
        .iter()
        .filter(|c| matches!(c, DrawCmd::Text { .. }))
        .collect();
    assert_eq!(text_cmds.len(), 1);
    match text_cmds[0] {
        DrawCmd::Text { x, y, font_size, max_width, color, content } => {
            assert_eq!((*x, *y), (10, 10));
            assert_eq!(*font_size, 20);
            assert_eq!(*max_width, 180);
            assert_eq!(*color, Color::new(0, 255, 0, 255));
            assert_eq!(content.as_str(), "hello world");
        },
        _ => unreachable!(),
    }
}

#[test]
fn value_to_color_keywords() {
    assert_eq!(value_to_color(&keyword("black")), Color::new(0, 0, 0, 255));
    assert_eq!(value_to_color(&keyword("lightgray")), Color::new(211, 211, 211, 255));
    // Unrecognized keywords fall back to white rather than failing.
    assert_eq!(value_to_color(&keyword("chartreuse")), Color::new(255, 255, 255, 255));
    assert_eq!(
        value_to_color(&Value::Color(Color::new(1, 2, 3, 4))),
        Color::new(1, 2, 3, 4),
    );
}

#[test]
fn image_renderer_draws_background() {
    let node = elem("div", &[], vec![]);
    let mut props = block_props();
    props.insert("width".to_string(), px(10));
    props.insert("height".to_string(), px(10));
    props.insert("background".to_string(), keyword("red"));
    props.insert("border-width".to_string(), px(0));
    let styled = StyledNode::new(&node, props, vec![]);
    let root = layout_tree(&styled, viewport(10, 10)).expect("box");
    let mut renderer = ImageRenderer::new(20, 20);
    renderer.render(&root);
    assert_eq!(renderer.image.img.width(), 20);
    assert_eq!(renderer.image.img.height(), 20);
    assert_eq!(*renderer.image.img.get_pixel(5, 5), image::Rgba([255, 0, 0, 255]));
    assert_eq!(*renderer.image.img.get_pixel(15, 15), image::Rgba([255, 255, 255, 255]));
    assert!(renderer.text_cmds.is_empty());
}

#[test]
fn text_renderer_draws_box() {
    let node = elem("div", &[], vec![]);
    let mut props = block_props();
    props.insert("width".to_string(), px(6));
    props.insert("height".to_string(), px(3));
    let styled = StyledNode::new(&node, props, vec![]);
    let root = layout_tree(&styled, viewport(6, 3)).expect("box");
    let mut tr = TextRenderer::new(10, 5);
    tr.render(&root);
    assert_eq!(tr.canvas[0][0], '┌');
    assert_eq!(tr.canvas[0][5], '┐');
    assert_eq!(tr.canvas[2][0], '└');
    assert_eq!(tr.canvas[2][5], '┘');
    assert_eq!(tr.canvas[0][2], '─');
    assert_eq!(tr.canvas[1][0], '│');
    // The tag name lands one cell inside the content corner.
    assert_eq!(tr.canvas[1][1], 'd');
    assert_eq!(tr.canvas[1][2], 'i');
    assert_eq!(tr.canvas[1][3], 'v');
}

#[test]
fn text_renderer_display_lines_trim() {
    let mut tr = TextRenderer::new(8, 6);
    let node = elem("b", &[], vec![]);
    let mut props = block_props();
    props.insert("width".to_string(), px(4));
    props.insert("height".to_string(), px(2));
    let styled = StyledNode::new(&node, props, vec![]);
    let root = layout_tree(&styled, viewport(4, 2)).expect("box");
    tr.render(&root);
    let lines = tr.display_lines();
    // Rows up to one past the last marked row are kept.
    assert_eq!(lines.len(), 3);
    assert_eq!(lines[0].as_str(), "┌──┐");
    // The box is two rows high, so the tag lands on the bottom edge.
    assert_eq!(lines[1].as_str(), "└b─┘");
    assert_eq!(lines[2].as_str(), "");
}

#[test]
fn dom_tree_lines() {
    let node = elem("div", &[], vec![Node::text("  hi  ".to_string()), Node::comment(
        "note".to_string(),
    )]);
    let mut tree = DOMTree::new();
    assert!(tree.root.is_none());
    tree.build(node);
    let lines = tree.tree_lines();
    let got: Vec<&str> = lines.iter().map(|s| s.as_str()).collect();
    assert_eq!(got, vec!["  <div>", "    \"hi\"", "    <!-- note -->", "  </div>"]);
}

#[test]
fn styled_display_and_lookup() {
    let node = elem("div", &[], vec![]);
    let mut props = PropertyMap::new();
    props.insert("display".to_string(), keyword("none"));
    props.insert("margin".to_string(), px(7));
    let styled = StyledNode::new(&node, props, vec![]);
    assert_eq!(styled.display(), Display::Hidden);
    assert_eq!(styled.lookup("margin-left", "margin", &px(0)).to_px(), 7);
    assert_eq!(styled.lookup("padding-left", "padding", &px(3)).to_px(), 3);
    let text = Node::text("t".to_string());
    let text_styled = StyledNode::new(&text, PropertyMap::new(), vec![]);
    assert_eq!(text_styled.display(), Display::Inline);
}

#[test]
fn node_type_constructors() {
    let t = Node::text("abc".to_string());
    assert!(matches!(t.node_type, NodeType::Text(_)));
    assert!(t.children.is_empty());
    let c = Node::comment("x".to_string());
    assert!(matches!(c.node_type, NodeType::Comment(_)));
    let e = elem("p", &[("id", "i")], vec![t]);
    match &e.node_type {
        NodeType::Element(data) => {
            assert_eq!(data.tag_name.as_str(), "p");
            assert_eq!(data.id().unwrap().as_str(), "i");
            assert!(data.get_attribute("class").is_none());
        },
        _ => panic!("expected element"),
    }
    assert_eq!(e.children.len(), 1);
}

#[test]
fn element_classes_split() {
    let e = elem("p", &[("class", "  a  b\tc ")], vec![]);
    match &e.node_type {
        NodeType::Element(data) => {
            let classes = data.classes();
            let got: Vec<&str> = classes.iter().map(|s| s.as_str()).collect();
            assert_eq!(got, vec!["a", "b", "c"]);
        },
        _ => panic!("expected element"),
    }
}

#[test]
fn selector_matching_constraints() {
    let node = elem("p", &[("id", "x"), ("class", "a b")], vec![]);
    let data = match &node.node_type {
        NodeType::Element(e) => e,
        _ => unreachable!(),
    };
    let Selector::Simple(wrong_tag) = simple(Some("div"), None, &[]);
    assert!(!ukechug::style::matches_simple_selector(data, &wrong_tag));
    let Selector::Simple(wrong_id) = simple(None, Some("y"), &[]);
    assert!(!ukechug::style::matches_simple_selector(data, &wrong_id));
    let Selector::Simple(missing_class) = simple(None, None, &["a", "c"]);
    assert!(!ukechug::style::matches_simple_selector(data, &missing_class));
    let Selector::Simple(all_good) = simple(Some("p"), Some("x"), &["b"]);
    assert!(ukechug::style::matches_simple_selector(data, &all_good));
    // Absent constraints are trivially satisfied.
    let Selector::Simple(bare) = simple(None, None, &[]);
    assert!(ukechug::style::matches(data, &Selector::Simple(bare)));
}

#[test]
fn engines_delegate() {
    let sheet = Stylesheet::new(vec![Rule {
        selectors: vec![simple(Some("div"), None, &[])],
        declarations: vec![decl("display", keyword("block")), decl("width", px(300))],
    }]);
    let node = elem("div", &[], vec![]);
    let styled = ukechug::style::StyleEngine::new().apply_styles(&node, &sheet);
    let root = ukechug::layout::LayoutEngine::new()
        .calculate_layout(&styled, viewport(800, 600))
        .expect("box");
    assert_eq!(root.dimensions.content.width, 300);
    let _render_engine = ukechug::render::RenderEngine::new();
}

#[test]
fn inline_box_uses_block_width_machinery() {
    // Inline and anonymous boxes run through the same width and height
    // machinery; an inline root with width auto fills its containing
    // block.
    let node = elem("span", &[], vec![]);
    let styled = StyledNode::new(&node, PropertyMap::new(), vec![]);
    let root = layout_tree(&styled, viewport(640, 480)).expect("box");
    assert!(matches!(root.box_type, BoxType::InlineNode(_)));
    assert_eq!(root.dimensions.content.width, 640);
}

#[test]
fn percent_height_resolves_against_width() {
    // Percentage lengths resolve against the containing block's
    // content width, height included.
    let node = elem("div", &[], vec![]);
    let mut props = block_props();
    props.insert("height".to_string(), Value::Length(50, Unit::Percent));
    let styled = StyledNode::new(&node, props, vec![]);
    let root = layout_tree(&styled, viewport(800, 600)).expect("box");
    assert_eq!(root.dimensions.content.height, 400);
}

#[test]
fn dom_tree_empty() {
    let tree = DOMTree::new();
    assert!(tree.tree_lines().is_empty());
}

#[test]
fn negative_geometry_not_clamped() {
    // A declared negative width is propagated as-is; the painter draws
    // nothing for it.
    let node = elem("div", &[], vec![]);
    let mut props = block_props();
    props.insert("width".to_string(), px(-50));
    props.insert("border-width".to_string(), px(0));
    let styled = StyledNode::new(&node, props, vec![]);
    let root = layout_tree(&styled, viewport(800, 600)).expect("box");
    assert_eq!(root.dimensions.content.width, -50);
    let cmds = build_display_list(&root);
    assert!(cmds.is_empty());
}

#[test]
fn geometry_saturates_at_limit() {
    // Device-pixel arithmetic saturates instead of overflowing: an
    // absurd declared width clamps at the pixel limit.
    let node = elem("div", &[], vec![]);
    let mut props = block_props();
    props.insert("width".to_string(), px(i64::MAX));
    let styled = StyledNode::new(&node, props, vec![]);
    let root = layout_tree(&styled, viewport(800, 600)).expect("box");
    assert_eq!(root.dimensions.content.width, ukechug::layout::PX_LIMIT);
}

#[test]
fn empty_stylesheet_defaults() {
    let sheet = Stylesheet::new(vec![]);
    let node = elem("div", &[], vec![]);
    let styled = style_tree(&node, &sheet);
    assert!(styled.value("display").is_none());
    assert_eq!(styled.display(), Display::Inline);
}

#[test]
fn render_survives_huge_geometry() {
    // A preposterous declared width saturates in layout; the raster
    // stage clips it to the drawable band instead of handing the
    // drawing crate a rectangle it would refuse.
    let node = elem("div", &[], vec![]);
    let mut props = block_props();
    props.insert("width".to_string(), px(2147483648));
    props.insert("height".to_string(), px(50));
    props.insert("background".to_string(), keyword("red"));
    props.insert("border-width".to_string(), px(0));
    let styled = StyledNode::new(&node, props, vec![]);
    let root = layout_tree(&styled, viewport(800, 600)).expect("box");
    let mut renderer = ImageRenderer::new(50, 50);
    renderer.render(&root);
    // The fill covers the whole (clipped) canvas.
    assert_eq!(*renderer.image.img.get_pixel(25, 10), image::Rgba([255, 0, 0, 255]));
    // A border merely wider than the canvas still strokes its visible
    // top edge.
    let node2 = elem("div", &[], vec![]);
    let mut props2 = block_props();
    props2.insert("width".to_string(), px(100000));
    props2.insert("height".to_string(), px(20));
    props2.insert("border-color".to_string(), keyword("blue"));
    props2.insert("border-width".to_string(), px(1));
    let styled2 = StyledNode::new(&node2, props2, vec![]);
    let root2 = layout_tree(&styled2, viewport(800, 600)).expect("box");
    let mut renderer2 = ImageRenderer::new(50, 50);
    renderer2.render(&root2);
    assert_eq!(*renderer2.image.img.get_pixel(25, 0), image::Rgba([0, 0, 255, 255]));
}

#[test]
fn centering_keeps_horizontal_sum() {
    // An odd remainder under centering goes to the right margin, so
    // the horizontal parts still sum to the containing width.
    let node = elem("div", &[], vec![]);
    let mut props = block_props();
    props.insert("width".to_string(), px(599));
    props.insert("margin-left".to_string(), keyword("auto"));
    props.insert("margin-right".to_string(), keyword("auto"));
    let styled = StyledNode::new(&node, props, vec![]);
    let root = layout_tree(&styled, viewport(800, 600)).expect("box");
    let d = &root.dimensions;
    assert_eq!(d.content.width, 599);
    assert_eq!(d.margin.left, 100);
    assert_eq!(d.margin.right, 101);
    assert_eq!(d.margin.left + d.content.width + d.margin.right, 800);
}
