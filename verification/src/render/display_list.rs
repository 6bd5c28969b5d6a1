//! The painter's decisions as data: walking a solved box tree in
//! pre-order and emitting, per box, a background fill, the nested
//! hollow rectangles of its border, and one text run per text leaf of
//! its styled node.

use vstd::prelude::*;
use crate::css::{Value, Color};
use crate::dom::{Node, NodeType};
use crate::layout::{LayoutBox, BoxType, BoxModel, BoxKindModel, box_model, spec_border_box,
    all_dims_in_range, in_px_range, box_props, spec_px_add, spec_px_sub};
use crate::strutil::{str_eq, trim, spec_trim};

verus! {

broadcast use vstd::std_specs::vec::group_vec_axioms;

/// One drawing command against a raster or textual surface.
pub enum DrawCmd {
    /// Fill the rectangle with the color.
    FillRect { x: i64, y: i64, width: i64, height: i64, color: Color },
    /// Stroke the one-pixel outline of the rectangle with the color.
    StrokeRect { x: i64, y: i64, width: i64, height: i64, color: Color },
    /// Draw the text word-wrapped at `max_width`, at the given font
    /// size and color.
    Text { x: i64, y: i64, font_size: i64, max_width: i64, color: Color, content: String },
}

/// Model of a drawing command.
pub enum DrawCmdModel {
    FillRect { x: int, y: int, width: int, height: int, color: Color },
    StrokeRect { x: int, y: int, width: int, height: int, color: Color },
    Text { x: int, y: int, font_size: int, max_width: int, color: Color, content: Seq<char> },
}

pub open spec fn cmd_model(c: DrawCmd) -> DrawCmdModel {
    match c {
        DrawCmd::FillRect { x, y, width, height, color } => DrawCmdModel::FillRect {
            x: x as int,
            y: y as int,
            width: width as int,
            height: height as int,
            color,
        },
        DrawCmd::StrokeRect { x, y, width, height, color } => DrawCmdModel::StrokeRect {
            x: x as int,
            y: y as int,
            width: width as int,
            height: height as int,
            color,
        },
        DrawCmd::Text { x, y, font_size, max_width, color, content } => DrawCmdModel::Text {
            x: x as int,
            y: y as int,
            font_size: font_size as int,
            max_width: max_width as int,
            color,
            content: content@,
        },
    }
}

pub open spec fn cmds_model(v: Seq<DrawCmd>) -> Seq<DrawCmdModel> {
    v.map_values(|c: DrawCmd| cmd_model(c))
}

// ---------------------------------------------------------------------------
// Color and property resolution
// ---------------------------------------------------------------------------

/// The fixed color table for keyword-named colors; unrecognized
/// keywords fall back to white.
pub open spec fn spec_keyword_color(s: Seq<char>) -> Color {
    if s == "white"@ {
        Color { r: 255, g: 255, b: 255, a: 255 }
    } else if s == "black"@ {
        Color { r: 0, g: 0, b: 0, a: 255 }
    } else if s == "red"@ {
        Color { r: 255, g: 0, b: 0, a: 255 }
    } else if s == "green"@ {
        Color { r: 0, g: 255, b: 0, a: 255 }
    } else if s == "blue"@ {
        Color { r: 0, g: 0, b: 255, a: 255 }
    } else if s == "yellow"@ {
        Color { r: 255, g: 255, b: 0, a: 255 }
    } else if s == "gray"@ {
        Color { r: 128, g: 128, b: 128, a: 255 }
    } else if s == "lightgray"@ {
        Color { r: 211, g: 211, b: 211, a: 255 }
    } else if s == "darkgray"@ {
        Color { r: 169, g: 169, b: 169, a: 255 }
    } else {
        Color { r: 255, g: 255, b: 255, a: 255 }
    }
}

/// The color a property value denotes: color values directly, keywords
/// through the fixed table, anything else white.
pub open spec fn spec_value_to_color(v: Value) -> Color {
    match v {
        Value::Color(c) => c,
        Value::Keyword(k) => spec_keyword_color(k@),
        _ => Color { r: 255, g: 255, b: 255, a: 255 },
    }
}

/// Resolves a property value to a color.
pub fn value_to_color(value: &Value) -> (c: Color)
    ensures
        c == spec_value_to_color(*value),
{
    match value {
        Value::Color(c) => *c,
        Value::Keyword(k) => {
            let s = k.as_str();
            if str_eq(s, "white") {
                Color::new(255, 255, 255, 255)
            } else if str_eq(s, "black") {
                Color::new(0, 0, 0, 255)
            } else if str_eq(s, "red") {
                Color::new(255, 0, 0, 255)
            } else if str_eq(s, "green") {
                Color::new(0, 255, 0, 255)
            } else if str_eq(s, "blue") {
                Color::new(0, 0, 255, 255)
            } else if str_eq(s, "yellow") {
                Color::new(255, 255, 0, 255)
            } else if str_eq(s, "gray") {
                Color::new(128, 128, 128, 255)
            } else if str_eq(s, "lightgray") {
                Color::new(211, 211, 211, 255)
            } else if str_eq(s, "darkgray") {
                Color::new(169, 169, 169, 255)
            } else {
                Color::new(255, 255, 255, 255)
            }
        },
        _ => Color::new(255, 255, 255, 255),
    }
}

/// Background color: `background-color`, then the `background`
/// shorthand, else white.
pub open spec fn spec_background_color(m: Map<Seq<char>, Value>) -> Color {
    if m.contains_key("background-color"@) {
        spec_value_to_color(m["background-color"@])
    } else if m.contains_key("background"@) {
        spec_value_to_color(m["background"@])
    } else {
        Color { r: 255, g: 255, b: 255, a: 255 }
    }
}

/// Border color: `border-color`, else black.
pub open spec fn spec_border_color(m: Map<Seq<char>, Value>) -> Color {
    if m.contains_key("border-color"@) {
        spec_value_to_color(m["border-color"@])
    } else {
        Color { r: 0, g: 0, b: 0, a: 255 }
    }
}

/// Border width in whole pixels: a declared length clipped below at
/// zero, else one.
pub open spec fn spec_border_width(m: Map<Seq<char>, Value>) -> int {
    if m.contains_key("border-width"@) {
        match m["border-width"@] {
            Value::Length(n, _) => if n < 0 {
                0
            } else if n > 0xffff_ffff {
                0xffff_ffff as int
            } else {
                n as int
            },
            _ => 1,
        }
    } else {
        1
    }
}

/// Text color: `color`, else black.
pub open spec fn spec_text_color(m: Map<Seq<char>, Value>) -> Color {
    if m.contains_key("color"@) {
        spec_value_to_color(m["color"@])
    } else {
        Color { r: 0, g: 0, b: 0, a: 255 }
    }
}

/// Font size: a declared length, else sixteen pixels.
pub open spec fn spec_font_size(m: Map<Seq<char>, Value>) -> int {
    if m.contains_key("font-size"@) {
        match m["font-size"@] {
            Value::Length(n, _) => n as int,
            _ => 16,
        }
    } else {
        16
    }
}

fn props_of<'b, 'a>(layout_box: &'b LayoutBox<'a>) -> (r: Option<&'b crate::style::PropertyMap>)
    ensures
        match r {
            Some(m) => m@ == box_props(box_model(*layout_box).kind),
            None => box_props(box_model(*layout_box).kind) == Map::<Seq<char>, Value>::empty(),
        },
{
    match &layout_box.box_type {
        BoxType::BlockNode(sn) => Some(&sn.specified_values),
        BoxType::InlineNode(sn) => Some(&sn.specified_values),
        BoxType::AnonymousBlock => None,
    }
}

/// The background color of a box.
pub fn get_background_color(layout_box: &LayoutBox) -> (c: Color)
    ensures
        c == spec_background_color(box_props(box_model(*layout_box).kind)),
{
    match props_of(layout_box) {
        Some(m) => match m.get("background-color") {
            Some(v) => value_to_color(v),
            None => match m.get("background") {
                Some(v) => value_to_color(v),
                None => Color::new(255, 255, 255, 255),
            },
        },
        None => Color::new(255, 255, 255, 255),
    }
}

/// The border color of a box.
pub fn get_border_color(layout_box: &LayoutBox) -> (c: Color)
    ensures
        c == spec_border_color(box_props(box_model(*layout_box).kind)),
{
    match props_of(layout_box) {
        Some(m) => match m.get("border-color") {
            Some(v) => value_to_color(v),
            None => Color::new(0, 0, 0, 255),
        },
        None => Color::new(0, 0, 0, 255),
    }
}

/// The border width of a box.
pub fn get_border_width(layout_box: &LayoutBox) -> (w: u32)
    ensures
        w as int == spec_border_width(box_props(box_model(*layout_box).kind)),
{
    match props_of(layout_box) {
        Some(m) => match m.get("border-width") {
            Some(Value::Length(n, _)) => {
                if *n < 0 {
                    0
                } else if *n > 0xffff_ffff {
                    0xffff_ffffu32
                } else {
                    *n as u32
                }
            },
            _ => 1,
        },
        None => 1,
    }
}

/// The text color of a styled node.
pub fn get_text_color(m: &crate::style::PropertyMap) -> (c: Color)
    ensures
        c == spec_text_color(m@),
{
    match m.get("color") {
        Some(v) => value_to_color(v),
        None => Color::new(0, 0, 0, 255),
    }
}

/// The font size of a styled node.
pub fn get_font_size(m: &crate::style::PropertyMap) -> (s: i64)
    ensures
        s as int == spec_font_size(m@),
{
    match m.get("font-size") {
        Some(Value::Length(n, _)) => *n,
        _ => 16,
    }
}

// ---------------------------------------------------------------------------
// Command construction
// ---------------------------------------------------------------------------

/// The background fill of a box: its border box in its background
/// color, skipped when either dimension is not positive.
pub open spec fn spec_background_cmds(b: BoxModel) -> Seq<DrawCmdModel> {
    let r = spec_border_box(b.dims);
    let c = spec_background_color(box_props(b.kind));
    if r.width > 0 && r.height > 0 {
        seq![DrawCmdModel::FillRect { x: r.x, y: r.y, width: r.width, height: r.height, color: c }]
    } else {
        Seq::empty()
    }
}

/// The `i`-th through last of `bw` nested hollow rectangles, each inset
/// one pixel from the previous, with the inner dimensions never going
/// below one.
pub open spec fn spec_nested_rects(
    x: int,
    y: int,
    w: int,
    h: int,
    color: Color,
    i: int,
    bw: int,
) -> Seq<DrawCmdModel>
    decreases bw - i,
{
    if i < 0 || i >= bw {
        Seq::empty()
    } else {
        let aw = if w - 2 * i < 1 {
            1
        } else {
            w - 2 * i
        };
        let ah = if h - 2 * i < 1 {
            1
        } else {
            h - 2 * i
        };
        seq![
            DrawCmdModel::StrokeRect { x: x + i, y: y + i, width: aw, height: ah, color },
        ] + spec_nested_rects(x, y, w, h, color, i + 1, bw)
    }
}

/// The border of a box: `border-width` nested hollow rectangles of the
/// border box in the border color; nothing when the width is zero or
/// the border box is not positive.
pub open spec fn spec_border_cmds(b: BoxModel) -> Seq<DrawCmdModel> {
    let m = box_props(b.kind);
    let bw = spec_border_width(m);
    let r = spec_border_box(b.dims);
    let c = spec_border_color(m);
    if bw != 0 && r.width > 0 && r.height > 0 {
        spec_nested_rects(r.x, r.y, r.width, r.height, c, 0, bw)
    } else {
        Seq::empty()
    }
}

/// One text command per direct text leaf of the node, all at the box's
/// text origin (content corner inset by padding plus ten pixels), with
/// the text trimmed and wrapped against the content width (at least a
/// hundred pixels) minus twenty.
pub open spec fn spec_text_cmds_from(
    cs: Seq<Node>,
    i: int,
    x: int,
    y: int,
    fs: int,
    mw: int,
    color: Color,
    done: Seq<DrawCmdModel>,
) -> Seq<DrawCmdModel>
    decreases cs.len() - i,
{
    if i < 0 || i >= cs.len() {
        done
    } else {
        match cs[i].node_type {
            NodeType::Text(t) => spec_text_cmds_from(
                cs,
                i + 1,
                x,
                y,
                fs,
                mw,
                color,
                done.push(
                    DrawCmdModel::Text {
                        x,
                        y,
                        font_size: fs,
                        max_width: mw,
                        color,
                        content: spec_trim(t@),
                    },
                ),
            ),
            _ => spec_text_cmds_from(cs, i + 1, x, y, fs, mw, color, done),
        }
    }
}

/// The text commands of a box; anonymous boxes have none.
pub open spec fn spec_text_cmds(b: BoxModel) -> Seq<DrawCmdModel> {
    match b.kind {
        BoxKindModel::Anonymous => Seq::empty(),
        BoxKindModel::Block(sn) | BoxKindModel::Inline(sn) => {
            let m = sn.specified_values@;
            let d = b.dims;
            let x = spec_px_add(spec_px_add(d.content.x, d.padding.left), 10);
            let y = spec_px_add(spec_px_add(d.content.y, d.padding.top), 10);
            let mw = spec_px_sub(
                if d.content.width < 100 {
                    100
                } else {
                    d.content.width
                },
                20,
            );
            spec_text_cmds_from(
                sn.node.children@,
                0,
                x,
                y,
                spec_font_size(m),
                mw,
                spec_text_color(m),
                Seq::empty(),
            )
        },
    }
}

/// The commands of one box and its subtree, parent first.
pub open spec fn spec_paint(b: BoxModel) -> Seq<DrawCmdModel>
    decreases b, 0int, 0int,
{
    spec_background_cmds(b) + spec_border_cmds(b) + spec_text_cmds(b) + spec_paint_children(
        b.children,
        0,
        Seq::empty(),
    )
}

/// The commands of the children `cs[i..]`, in order.
pub open spec fn spec_paint_children(cs: Seq<BoxModel>, i: int, done: Seq<DrawCmdModel>) -> Seq<
    DrawCmdModel,
>
    decreases cs, 1int, cs.len() - i,
{
    if i < 0 || i >= cs.len() {
        done
    } else {
        spec_paint_children(cs, i + 1, done + spec_paint(cs[i]))
    }
}

/// The accumulator of `spec_paint_children` only collects a prefix.
proof fn lemma_paint_children_prefix(cs: Seq<BoxModel>, i: int, done: Seq<DrawCmdModel>)
    ensures
        spec_paint_children(cs, i, done) =~= done + spec_paint_children(cs, i, Seq::empty()),
    decreases cs, 1int, cs.len() - i,
{
    if i < 0 || i >= cs.len() {
    } else {
        lemma_paint_children_prefix(cs, i + 1, done + spec_paint(cs[i]));
        lemma_paint_children_prefix(cs, i + 1, Seq::empty() + spec_paint(cs[i]));
        assert(Seq::<DrawCmdModel>::empty() + spec_paint(cs[i]) =~= spec_paint(cs[i]));
        assert(done + spec_paint(cs[i]) + spec_paint_children(cs, i + 1, Seq::empty()) =~= done + (
        spec_paint(cs[i]) + spec_paint_children(cs, i + 1, Seq::empty())));
    }
}

// ---------------------------------------------------------------------------
// Execution
// ---------------------------------------------------------------------------

/// Emits `bw` nested one-pixel hollow rectangles, each inset by one.
fn push_nested_rects(
    out: &mut Vec<DrawCmd>,
    x: i64,
    y: i64,
    w: i64,
    h: i64,
    color: Color,
    bw: u32,
)
    requires
        in_px_range(x as int),
        in_px_range(y as int),
        in_px_range(w as int),
        in_px_range(h as int),
    ensures
        cmds_model(final(out)@) == cmds_model(old(out)@) + spec_nested_rects(
            x as int,
            y as int,
            w as int,
            h as int,
            color,
            0,
            bw as int,
        ),
{
    let ghost base = cmds_model(old(out)@);
    let mut i: u32 = 0;
    while i < bw
        invariant
            in_px_range(x as int),
            in_px_range(y as int),
            in_px_range(w as int),
            in_px_range(h as int),
            0 <= i <= bw,
            base + spec_nested_rects(x as int, y as int, w as int, h as int, color, 0, bw as int)
                =~= cmds_model(out@) + spec_nested_rects(
                x as int,
                y as int,
                w as int,
                h as int,
                color,
                i as int,
                bw as int,
            ),
        decreases bw - i,
    {
        let off = i as i64;
        let ax = x + off;
        let ay = y + off;
        let aw0 = w - 2 * off;
        let aw = if aw0 < 1 {
            1
        } else {
            aw0
        };
        let ah0 = h - 2 * off;
        let ah = if ah0 < 1 {
            1
        } else {
            ah0
        };
        let ghost prev = cmds_model(out@);
        let cmd = DrawCmd::StrokeRect { x: ax, y: ay, width: aw, height: ah, color };
        out.push(cmd);
        proof {
            assert(cmds_model(out@) =~= prev.push(cmd_model(cmd)));
            assert(spec_nested_rects(
                x as int,
                y as int,
                w as int,
                h as int,
                color,
                i as int,
                bw as int,
            ) =~= seq![cmd_model(cmd)] + spec_nested_rects(
                x as int,
                y as int,
                w as int,
                h as int,
                color,
                i + 1,
                bw as int,
            ));
            assert(prev.push(cmd_model(cmd)) + spec_nested_rects(
                x as int,
                y as int,
                w as int,
                h as int,
                color,
                i + 1,
                bw as int,
            ) =~= prev + (seq![cmd_model(cmd)] + spec_nested_rects(
                x as int,
                y as int,
                w as int,
                h as int,
                color,
                i + 1,
                bw as int,
            )));
        }
        i = i + 1;
    }
    proof {
        assert(spec_nested_rects(x as int, y as int, w as int, h as int, color, bw as int, bw as int)
            =~= Seq::<DrawCmdModel>::empty());
        assert(cmds_model(out@) + Seq::<DrawCmdModel>::empty() =~= cmds_model(out@));
        assert(cmds_model(out@) =~= base + spec_nested_rects(
            x as int,
            y as int,
            w as int,
            h as int,
            color,
            0,
            bw as int,
        ));
    }
}

/// Paints one box and its subtree into `out`, parent first.
fn paint_box(layout_box: &LayoutBox, out: &mut Vec<DrawCmd>)
    requires
        all_dims_in_range(box_model(*layout_box)),
    ensures
        cmds_model(final(out)@) == cmds_model(old(out)@) + spec_paint(box_model(*layout_box)),
    decreases *layout_box,
{
    let ghost b = box_model(*layout_box);
    let ghost base = cmds_model(old(out)@);
    let bg = get_background_color(layout_box);
    let rect = layout_box.dimensions.border_box();
    if rect.width > 0 && rect.height > 0 {
        let ghost prev = cmds_model(out@);
        let cmd = DrawCmd::FillRect {
            x: rect.x,
            y: rect.y,
            width: rect.width,
            height: rect.height,
            color: bg,
        };
        out.push(cmd);
        proof {
            assert(cmds_model(out@) =~= prev.push(cmd_model(cmd)));
            assert(cmds_model(out@) =~= base + spec_background_cmds(b));
        }
    } else {
        proof {
            assert(cmds_model(out@) =~= base + spec_background_cmds(b));
        }
    }
    let ghost base_border = cmds_model(out@);
    let bw = get_border_width(layout_box);
    let bc = get_border_color(layout_box);
    if bw != 0 && rect.width > 0 && rect.height > 0 {
        push_nested_rects(out, rect.x, rect.y, rect.width, rect.height, bc, bw);
    }
    proof {
        assert(cmds_model(out@) =~= base_border + spec_border_cmds(b));
        assert(cmds_model(out@) =~= base + spec_background_cmds(b) + spec_border_cmds(b));
    }
    let ghost base_text = cmds_model(out@);
    match &layout_box.box_type {
        BoxType::AnonymousBlock => {
            proof {
                assert(cmds_model(out@) =~= base_text + spec_text_cmds(b));
            }
        },
        BoxType::BlockNode(sn) | BoxType::InlineNode(sn) => {
            let m = &sn.specified_values;
            let fs = get_font_size(m);
            let tc = get_text_color(m);
            let d = &layout_box.dimensions;
            let x = crate::layout::px_add(crate::layout::px_add(d.content.x, d.padding.left), 10);
            let y = crate::layout::px_add(crate::layout::px_add(d.content.y, d.padding.top), 10);
            let w0 = if d.content.width < 100 {
                100
            } else {
                d.content.width
            };
            let mw = crate::layout::px_sub(w0, 20);
            let n = sn.node.children.len();
            let ghost cs = sn.node.children@;
            let mut i: usize = 0;
            while i < n
                invariant
                    n == sn.node.children@.len(),
                    cs == sn.node.children@,
                    0 <= i <= n,
                    spec_text_cmds_from(
                        cs,
                        i as int,
                        x as int,
                        y as int,
                        fs as int,
                        mw as int,
                        tc,
                        cmds_model(out@),
                    ) == spec_text_cmds_from(
                        cs,
                        0,
                        x as int,
                        y as int,
                        fs as int,
                        mw as int,
                        tc,
                        base_text,
                    ),
                decreases n - i,
            {
                let ghost prev = cmds_model(out@);
                match &sn.node.children[i].node_type {
                    NodeType::Text(t) => {
                        let content = trim(t.as_str());
                        let cmd = DrawCmd::Text {
                            x,
                            y,
                            font_size: fs,
                            max_width: mw,
                            color: tc,
                            content,
                        };
                        out.push(cmd);
                        proof {
                            assert(cmds_model(out@) =~= prev.push(cmd_model(cmd)));
                        }
                    },
                    _ => {},
                }
                i = i + 1;
            }
            proof {
                assert(spec_text_cmds_from(
                    cs,
                    n as int,
                    x as int,
                    y as int,
                    fs as int,
                    mw as int,
                    tc,
                    cmds_model(out@),
                ) == cmds_model(out@));
                assert(spec_text_cmds(b) == spec_text_cmds_from(
                    cs,
                    0,
                    x as int,
                    y as int,
                    fs as int,
                    mw as int,
                    tc,
                    Seq::empty(),
                ));
                lemma_text_cmds_prefix(
                    cs,
                    0,
                    x as int,
                    y as int,
                    fs as int,
                    mw as int,
                    tc,
                    base_text,
                );
                assert(cmds_model(out@) =~= base_text + spec_text_cmds(b));
            }
        },
    }
    proof {
        assert(cmds_model(out@) =~= base + spec_background_cmds(b) + spec_border_cmds(b)
            + spec_text_cmds(b));
    }
    let ghost base_children = cmds_model(out@);
    let n = layout_box.children.len();
    let mut i: usize = 0;
    while i < n
        invariant
            n == layout_box.children@.len(),
            b == box_model(*layout_box),
            all_dims_in_range(b),
            0 <= i <= n,
            spec_paint_children(b.children, i as int, cmds_model(out@)) == spec_paint_children(
                b.children,
                0,
                base_children,
            ),
        decreases n - i,
    {
        let child = &layout_box.children[i];
        proof {
            assert(b.children[i as int] == box_model(*child));
            assert(all_dims_in_range(b.children[i as int]));
        }
        let ghost prev = cmds_model(out@);
        paint_box(child, out);
        proof {
            assert(spec_paint_children(b.children, i as int, prev) == spec_paint_children(
                b.children,
                i + 1,
                prev + spec_paint(b.children[i as int]),
            ));
            assert(cmds_model(out@) =~= prev + spec_paint(b.children[i as int]));
        }
        i = i + 1;
    }
    proof {
        assert(spec_paint_children(b.children, n as int, cmds_model(out@)) == cmds_model(out@));
        lemma_paint_children_prefix(b.children, 0, base_children);
        assert(cmds_model(out@) =~= base_children + spec_paint_children(
            b.children,
            0,
            Seq::empty(),
        ));
        assert(cmds_model(out@) =~= base + spec_paint(b));
    }
}

/// Like `lemma_paint_children_prefix`, for the text-command walk.
proof fn lemma_text_cmds_prefix(
    cs: Seq<Node>,
    i: int,
    x: int,
    y: int,
    fs: int,
    mw: int,
    color: Color,
    done: Seq<DrawCmdModel>,
)
    ensures
        spec_text_cmds_from(cs, i, x, y, fs, mw, color, done) =~= done + spec_text_cmds_from(
            cs,
            i,
            x,
            y,
            fs,
            mw,
            color,
            Seq::empty(),
        ),
    decreases cs.len() - i,
{
    if i < 0 || i >= cs.len() {
    } else {
        match cs[i].node_type {
            NodeType::Text(t) => {
                let c = DrawCmdModel::Text {
                    x,
                    y,
                    font_size: fs,
                    max_width: mw,
                    color,
                    content: spec_trim(t@),
                };
                lemma_text_cmds_prefix(cs, i + 1, x, y, fs, mw, color, done.push(c));
                lemma_text_cmds_prefix(cs, i + 1, x, y, fs, mw, color, Seq::empty().push(c));
                assert(Seq::<DrawCmdModel>::empty().push(c) =~= seq![c]);
                assert(done.push(c) + spec_text_cmds_from(cs, i + 1, x, y, fs, mw, color, Seq::empty())
                    =~= done + (seq![c] + spec_text_cmds_from(
                    cs,
                    i + 1,
                    x,
                    y,
                    fs,
                    mw,
                    color,
                    Seq::empty(),
                )));
            },
            _ => {
                lemma_text_cmds_prefix(cs, i + 1, x, y, fs, mw, color, done);
            },
        }
    }
}

/// Walks the solved box tree in pre-order and returns the drawing
/// commands that render it: per box a background fill, its border as
/// nested hollow rectangles, and one wrapped text run per text leaf.
pub fn build_display_list(layout_root: &LayoutBox) -> (cmds: Vec<DrawCmd>)
    requires
        all_dims_in_range(box_model(*layout_root)),
    ensures
        cmds_model(cmds@) == spec_paint(box_model(*layout_root)),
{
    let mut out: Vec<DrawCmd> = Vec::new();
    proof {
        assert(cmds_model(out@) =~= Seq::<DrawCmdModel>::empty());
    }
    paint_box(layout_root, &mut out);
    proof {
        assert(cmds_model(out@) =~= Seq::<DrawCmdModel>::empty() + spec_paint(
            box_model(*layout_root),
        ));
    }
    out
}

} // verus!
