//! Raster rendering: applies the display list to an RGBA image.
//! Rectangle drawing goes through the `image` and `imageproc` crates;
//! text runs are collected for the caller, which owns the font metrics
//! needed to draw them.

use vstd::prelude::*;
use crate::css::Color;
use crate::layout::{LayoutBox, box_model, all_dims_in_range};
use crate::render::display_list::{DrawCmd, DrawCmdModel, cmd_model, cmds_model, spec_paint,
    build_display_list};

verus! {

broadcast use vstd::std_specs::vec::group_vec_axioms;

/// An RGBA raster surface. The buffer inside is opaque to the
/// verifier (its type's declaration is refused over the bounds of its
/// type parameters), so nothing is claimed of the pixels; the `img`
/// field stays reachable for callers that save or inspect the image.
/// The drawing wrappers below assume the buffer's sides stay within
/// the bound `blank_canvas` establishes; this module never grows it.
#[verifier::external_body]
pub struct Canvas {
    pub img: image::RgbaImage,
}

/// The width-by-height all-white surface. `ImageBuffer::from_pixel` is
/// a pure function of its arguments, so its result carries this name.
pub uninterp spec fn spec_blank_surface(width: u32, height: u32) -> Canvas;

/// Relies on `image::ImageBuffer::from_pixel`: creates a buffer of the
/// given dimensions with every pixel set to the given color, here
/// white. It panics when the buffer would exceed the maximum size of a
/// vector, which the size bound rules out; its result depends on its
/// arguments alone.
#[verifier::external_body]
fn blank_canvas(width: u32, height: u32) -> (surface: Canvas)
    requires
        width <= 0xffff,
        height <= 0xffff,
    ensures
        surface == spec_blank_surface(width, height),
{
    Canvas { img: image::RgbaImage::from_pixel(width, height, image::Rgba([255, 255, 255, 255])) }
}

/// Relies on `imageproc::drawing::draw_filled_rect_mut`: fills the
/// rectangle, clipped to the canvas. `Rect::of_size` demands strictly
/// positive dimensions, and `Rect::right`/`Rect::bottom` compute
/// `left + width - 1` in `i32` (the width converted with `try_from`),
/// so the whole rectangle must fit the `i32` coordinate space.
#[verifier::external_body]
fn fill_rect_on(canvas: &mut Canvas, x: i32, y: i32, w: u32, h: u32, color: Color)
    requires
        w > 0,
        h > 0,
        w <= 0x7fff_ffff,
        h <= 0x7fff_ffff,
        x as int + w as int <= 0x7fff_ffff,
        y as int + h as int <= 0x7fff_ffff,
{
    let rect = imageproc::rect::Rect::at(x, y).of_size(w, h);
    imageproc::drawing::draw_filled_rect_mut(
        &mut canvas.img,
        rect,
        image::Rgba([color.r, color.g, color.b, color.a]),
    );
}

/// Relies on `imageproc::drawing::draw_hollow_rect_mut`: strokes the
/// rectangle's one-pixel outline, clipped to the canvas. `Rect::of_size`
/// demands strictly positive dimensions, and `Rect::right`/`Rect::bottom`
/// compute `left + width - 1` in `i32` (the width converted with
/// `try_from`). The edges are then drawn through a line rasterizer
/// that rounds the endpoints through `f32` and steps an `i32` cursor
/// to the rounded end, so every coordinate is kept well inside the
/// `i32` space: within the band the rounding error cannot carry a
/// cursor to the `i32` boundary.
#[verifier::external_body]
fn hollow_rect_on(canvas: &mut Canvas, x: i32, y: i32, w: u32, h: u32, color: Color)
    requires
        w > 0,
        h > 0,
        -0x3fff_ffff <= x as int,
        -0x3fff_ffff <= y as int,
        x as int + w as int <= 0x4000_0000,
        y as int + h as int <= 0x4000_0000,
{
    let rect = imageproc::rect::Rect::at(x, y).of_size(w, h);
    imageproc::drawing::draw_hollow_rect_mut(
        &mut canvas.img,
        rect,
        image::Rgba([color.r, color.g, color.b, color.a]),
    );
}

/// A coordinate clamped into the drawable band. The band reaches a
/// quarter of the `i32` space beyond either side of any buffer this
/// module makes, so for every rectangle that could meet such a buffer
/// nothing visible is cut and no clipped edge lands on it.
pub open spec fn spec_band_clamp(v: int) -> int {
    if v < -0x3fff_ffff {
        -0x3fff_ffff
    } else if v > 0x4000_0000 {
        0x4000_0000
    } else {
        v
    }
}

/// The span `[v, v + len)` clipped to the drawable band: exactly its
/// intersection with the band, as a start and a length.
fn clip_span(v: i64, len: i64) -> (r: (i32, u32))
    ensures
        r.0 as int == spec_band_clamp(v as int),
        r.1 as int == (if spec_band_clamp(v as int + len as int) > spec_band_clamp(v as int) {
            spec_band_clamp(v as int + len as int) - spec_band_clamp(v as int)
        } else {
            0int
        }),
        r.0 as int + r.1 as int <= 0x4000_0000,
{
    let s: i128 = v as i128;
    let e: i128 = (v as i128) + (len as i128);
    let cs: i128 = if s < -0x3fff_ffff {
        -0x3fff_ffff
    } else if s > 0x4000_0000 {
        0x4000_0000
    } else {
        s
    };
    let ce: i128 = if e < -0x3fff_ffff {
        -0x3fff_ffff
    } else if e > 0x4000_0000 {
        0x4000_0000
    } else {
        e
    };
    let n: i128 = if ce > cs {
        ce - cs
    } else {
        0
    };
    ((cs as i32), (n as u32))
}

/// The text commands among `cmds[i..]`, appended to `done` in order.
pub open spec fn spec_deferred_text_from(
    cmds: Seq<DrawCmdModel>,
    i: int,
    done: Seq<DrawCmdModel>,
) -> Seq<DrawCmdModel>
    decreases cmds.len() - i,
{
    if i < 0 || i >= cmds.len() {
        done
    } else {
        match cmds[i] {
            DrawCmdModel::Text { .. } => spec_deferred_text_from(cmds, i + 1, done.push(cmds[i])),
            _ => spec_deferred_text_from(cmds, i + 1, done),
        }
    }
}

/// The text commands of a display list, in order.
pub open spec fn spec_deferred_text(cmds: Seq<DrawCmdModel>) -> Seq<DrawCmdModel> {
    spec_deferred_text_from(cmds, 0, Seq::empty())
}

proof fn lemma_deferred_text_prefix(cmds: Seq<DrawCmdModel>, i: int, done: Seq<DrawCmdModel>)
    ensures
        spec_deferred_text_from(cmds, i, done) =~= done + spec_deferred_text_from(
            cmds,
            i,
            Seq::empty(),
        ),
    decreases cmds.len() - i,
{
    if i < 0 || i >= cmds.len() {
    } else {
        match cmds[i] {
            DrawCmdModel::Text { .. } => {
                lemma_deferred_text_prefix(cmds, i + 1, done.push(cmds[i]));
                lemma_deferred_text_prefix(cmds, i + 1, Seq::empty().push(cmds[i]));
                assert(Seq::<DrawCmdModel>::empty().push(cmds[i]) =~= seq![cmds[i]]);
                assert(done.push(cmds[i]) + spec_deferred_text_from(cmds, i + 1, Seq::empty())
                    =~= done + (seq![cmds[i]] + spec_deferred_text_from(cmds, i + 1, Seq::empty())));
            },
            _ => {
                lemma_deferred_text_prefix(cmds, i + 1, done);
            },
        }
    }
}

/// The rectangle commands among `cmds[i..]`, appended to `done` in
/// order.
pub open spec fn spec_rect_cmds_from(
    cmds: Seq<DrawCmdModel>,
    i: int,
    done: Seq<DrawCmdModel>,
) -> Seq<DrawCmdModel>
    decreases cmds.len() - i,
{
    if i < 0 || i >= cmds.len() {
        done
    } else {
        match cmds[i] {
            DrawCmdModel::Text { .. } => spec_rect_cmds_from(cmds, i + 1, done),
            _ => spec_rect_cmds_from(cmds, i + 1, done.push(cmds[i])),
        }
    }
}

/// The rectangle commands of a display list, in order.
pub open spec fn spec_rect_cmds(cmds: Seq<DrawCmdModel>) -> Seq<DrawCmdModel> {
    spec_rect_cmds_from(cmds, 0, Seq::empty())
}

proof fn lemma_rect_cmds_prefix(cmds: Seq<DrawCmdModel>, i: int, done: Seq<DrawCmdModel>)
    ensures
        spec_rect_cmds_from(cmds, i, done) =~= done + spec_rect_cmds_from(cmds, i, Seq::empty()),
    decreases cmds.len() - i,
{
    if i < 0 || i >= cmds.len() {
    } else {
        match cmds[i] {
            DrawCmdModel::Text { .. } => {
                lemma_rect_cmds_prefix(cmds, i + 1, done);
            },
            _ => {
                lemma_rect_cmds_prefix(cmds, i + 1, done.push(cmds[i]));
                lemma_rect_cmds_prefix(cmds, i + 1, Seq::empty().push(cmds[i]));
                assert(Seq::<DrawCmdModel>::empty().push(cmds[i]) =~= seq![cmds[i]]);
                assert(done.push(cmds[i]) + spec_rect_cmds_from(cmds, i + 1, Seq::empty()) =~= done
                    + (seq![cmds[i]] + spec_rect_cmds_from(cmds, i + 1, Seq::empty())));
            },
        }
    }
}

/// Renders solved box trees onto an RGBA image. Rectangles are drawn
/// immediately, and `drawn` records which; text commands are deferred
/// into `text_cmds` for the caller, which owns the font.
pub struct ImageRenderer {
    pub image: Canvas,
    pub text_cmds: Vec<DrawCmd>,
    /// The rectangle commands submitted to the surface so far, in
    /// order.
    pub drawn: Ghost<Seq<DrawCmdModel>>,
}

impl ImageRenderer {
    /// The width-by-height all-white surface, with nothing drawn and
    /// no pending text.
    pub fn new(width: u32, height: u32) -> (r: ImageRenderer)
        requires
            width <= 0xffff,
            height <= 0xffff,
        ensures
            r.image == spec_blank_surface(width, height),
            r.text_cmds@ =~= Seq::<DrawCmd>::empty(),
            r.drawn@ =~= Seq::<DrawCmdModel>::empty(),
    {
        ImageRenderer {
            image: blank_canvas(width, height),
            text_cmds: Vec::new(),
            drawn: Ghost(Seq::empty()),
        }
    }

    /// Paints the solved box tree: computes its display list, submits
    /// every rectangle command to the surface (recorded in `drawn`,
    /// with spans clipped to the drawable band), and appends every
    /// text run to `text_cmds`, all in paint order.
    pub fn render(&mut self, layout_root: &LayoutBox)
        requires
            all_dims_in_range(box_model(*layout_root)),
        ensures
            cmds_model(final(self).text_cmds@) == cmds_model(old(self).text_cmds@)
                + spec_deferred_text(spec_paint(box_model(*layout_root))),
            final(self).drawn@ == old(self).drawn@ + spec_rect_cmds(
                spec_paint(box_model(*layout_root)),
            ),
    {
        let cmds = build_display_list(layout_root);
        let ghost list = cmds_model(cmds@);
        let ghost base = cmds_model(self.text_cmds@);
        let ghost drawn0 = self.drawn@;
        let n = cmds.len();
        let mut i: usize = 0;
        while i < n
            invariant
                n == cmds@.len(),
                list == cmds_model(cmds@),
                0 <= i <= n,
                spec_deferred_text_from(list, i as int, cmds_model(self.text_cmds@))
                    == spec_deferred_text_from(list, 0, base),
                spec_rect_cmds_from(list, i as int, self.drawn@) == spec_rect_cmds_from(
                    list,
                    0,
                    drawn0,
                ),
            decreases n - i,
        {
            let ghost prev = cmds_model(self.text_cmds@);
            let ghost prev_drawn = self.drawn@;
            match &cmds[i] {
                DrawCmd::FillRect { x, y, width, height, color } => {
                    let (xi, wi) = clip_span(*x, *width);
                    let (yi, hi) = clip_span(*y, *height);
                    if wi > 0 && hi > 0 {
                        fill_rect_on(&mut self.image, xi, yi, wi, hi, *color);
                    }
                    self.drawn = Ghost(prev_drawn.push(list[i as int]));
                },
                DrawCmd::StrokeRect { x, y, width, height, color } => {
                    let (xi, wi) = clip_span(*x, *width);
                    let (yi, hi) = clip_span(*y, *height);
                    if wi > 0 && hi > 0 {
                        hollow_rect_on(&mut self.image, xi, yi, wi, hi, *color);
                    }
                    self.drawn = Ghost(prev_drawn.push(list[i as int]));
                },
                DrawCmd::Text { .. } => {
                    let cmd = cmds[i].clone();
                    proof {
                        assert(cmd_model(cmd) == list[i as int]);
                    }
                    self.text_cmds.push(cmd);
                    proof {
                        assert(cmds_model(self.text_cmds@) =~= prev.push(list[i as int]));
                    }
                },
            }
            i = i + 1;
        }
        proof {
            lemma_deferred_text_prefix(list, 0, base);
            lemma_rect_cmds_prefix(list, 0, drawn0);
        }
    }
}

impl Clone for DrawCmd {
    /// A field-for-field copy.
    fn clone(&self) -> (r: Self)
        ensures
            cmd_model(r) == cmd_model(*self),
    {
        match self {
            DrawCmd::FillRect { x, y, width, height, color } => DrawCmd::FillRect {
                x: *x,
                y: *y,
                width: *width,
                height: *height,
                color: *color,
            },
            DrawCmd::StrokeRect { x, y, width, height, color } => DrawCmd::StrokeRect {
                x: *x,
                y: *y,
                width: *width,
                height: *height,
                color: *color,
            },
            DrawCmd::Text { x, y, font_size, max_width, color, content } => DrawCmd::Text {
                x: *x,
                y: *y,
                font_size: *font_size,
                max_width: *max_width,
                color: *color,
                content: content.clone(),
            },
        }
    }
}

} // verus!
