//! Textual rendering: paints a solved box tree onto a character
//! canvas, shading each box's border box, drawing its outline with
//! box-drawing characters, and writing element tag names inside.

use vstd::prelude::*;
use crate::dom::NodeType;
use crate::layout::{LayoutBox, BoxType, BoxModel, BoxKindModel, box_model, dims_model,
    dims_in_range, all_dims_in_range, spec_border_box, RectModel, spec_px_add, px_add};

verus! {

broadcast use vstd::std_specs::vec::group_vec_axioms;

/// A character canvas renderer.
pub struct TextRenderer {
    pub canvas: Vec<Vec<char>>,
    pub width: usize,
    pub height: usize,
}

/// The canvas as a grid of characters.
pub open spec fn canvas_view(t: TextRenderer) -> Seq<Seq<char>> {
    t.canvas@.map_values(|r: Vec<char>| r@)
}

/// The canvas has `height` rows of `width` cells each.
pub open spec fn spec_wf(t: TextRenderer) -> bool {
    &&& t.canvas@.len() == t.height
    &&& forall|i: int| 0 <= i < t.height ==> (#[trigger] t.canvas@[i])@.len() == t.width
}

/// The grid with one cell replaced; writes outside the grid change
/// nothing.
pub open spec fn spec_set(cv: Seq<Seq<char>>, r: int, c: int, ch: char) -> Seq<Seq<char>> {
    if 0 <= r < cv.len() && 0 <= c < cv[r].len() {
        cv.update(r, cv[r].update(c, ch))
    } else {
        cv
    }
}

/// A device coordinate as a canvas cell index: negative coordinates
/// map to cell zero, and huge ones clip at a bound that is off any
/// canvas this renderer can hold.
pub open spec fn spec_cell(v: int) -> int {
    if v < 0 {
        0
    } else if v > 0x7fff_ffff {
        0x7fff_ffff
    } else {
        v
    }
}

pub open spec fn spec_imin(a: int, b: int) -> int {
    if a < b {
        a
    } else {
        b
    }
}

/// Fills the cells `[c0, c1)` of one row.
pub open spec fn spec_fill_cols(cv: Seq<Seq<char>>, row: int, c0: int, c1: int, ch: char) -> Seq<
    Seq<char>,
>
    decreases c1 - c0,
{
    if c0 >= c1 {
        cv
    } else {
        spec_fill_cols(spec_set(cv, row, c0, ch), row, c0 + 1, c1, ch)
    }
}

/// Fills the rectangle of rows `[r0, r1)` and columns `[c0, c1)`.
pub open spec fn spec_fill_rect(
    cv: Seq<Seq<char>>,
    r0: int,
    r1: int,
    c0: int,
    c1: int,
    ch: char,
) -> Seq<Seq<char>>
    decreases r1 - r0,
{
    if r0 >= r1 {
        cv
    } else {
        spec_fill_rect(spec_fill_cols(cv, r0, c0, c1, ch), r0 + 1, r1, c0, c1, ch)
    }
}

/// Shades a box's border box with `░`, clipped to the canvas.
pub open spec fn spec_render_background(cv: Seq<Seq<char>>, w: int, h: int, r: RectModel) -> Seq<
    Seq<char>,
> {
    let x = spec_cell(r.x);
    let y = spec_cell(r.y);
    let rw = spec_cell(r.width);
    let rh = spec_cell(r.height);
    spec_fill_rect(cv, y, spec_imin(y + rh, h), x, spec_imin(x + rw, w), '░')
}

/// Draws the top and bottom edges with `─` across columns `[c0, c1)`.
pub open spec fn spec_top_bottom(cv: Seq<Seq<char>>, y: int, bot: int, c0: int, c1: int) -> Seq<
    Seq<char>,
>
    decreases c1 - c0,
{
    if c0 >= c1 {
        cv
    } else {
        spec_top_bottom(spec_set(spec_set(cv, y, c0, '─'), bot, c0, '─'), y, bot, c0 + 1, c1)
    }
}

/// Draws the left and right edges with `│` across rows `[r0, r1)`.
pub open spec fn spec_left_right(cv: Seq<Seq<char>>, x: int, right: int, r0: int, r1: int) -> Seq<
    Seq<char>,
>
    decreases r1 - r0,
{
    if r0 >= r1 {
        cv
    } else {
        spec_left_right(spec_set(spec_set(cv, r0, x, '│'), r0, right, '│'), x, right, r0 + 1, r1)
    }
}

/// Draws the four corner characters.
pub open spec fn spec_corners(cv: Seq<Seq<char>>, y: int, bot: int, x: int, right: int) -> Seq<
    Seq<char>,
> {
    spec_set(spec_set(spec_set(spec_set(cv, y, x, '┌'), y, right, '┐'), bot, x, '└'), bot, right, '┘')
}

/// Outlines a box's border box: horizontal edges, vertical edges, then
/// corners, all clipped to the canvas; nothing for an empty box.
pub open spec fn spec_render_borders(cv: Seq<Seq<char>>, w: int, h: int, r: RectModel) -> Seq<
    Seq<char>,
> {
    let x = spec_cell(r.x);
    let y = spec_cell(r.y);
    let rw = spec_cell(r.width);
    let rh = spec_cell(r.height);
    if rw == 0 || rh == 0 {
        cv
    } else {
        let right = x + rw - 1;
        let bot = y + rh - 1;
        let cv1 = spec_top_bottom(cv, y, bot, x, spec_imin(x + rw, w));
        let cv2 = spec_left_right(cv1, x, right, y, spec_imin(y + rh, h));
        spec_corners(cv2, y, bot, x, right)
    }
}

/// Writes the characters of `tag` left to right from `(row, col0)`.
pub open spec fn spec_draw_tag(cv: Seq<Seq<char>>, row: int, col0: int, tag: Seq<char>, i: int) -> Seq<
    Seq<char>,
>
    decreases tag.len() - i,
{
    if i < 0 || i >= tag.len() {
        cv
    } else {
        spec_draw_tag(spec_set(cv, row, col0 + i, tag[i]), row, col0, tag, i + 1)
    }
}

/// Writes an element's tag name one cell inside its content corner;
/// anonymous boxes and non-element nodes write nothing.
pub open spec fn spec_render_text(cv: Seq<Seq<char>>, b: BoxModel) -> Seq<Seq<char>> {
    match b.kind {
        BoxKindModel::Anonymous => cv,
        BoxKindModel::Block(sn) | BoxKindModel::Inline(sn) => match sn.node.node_type {
            NodeType::Element(e) => {
                let d = b.dims;
                let x = spec_cell(spec_px_add(spec_px_add(d.content.x, d.padding.left), 1));
                let y = spec_cell(spec_px_add(spec_px_add(d.content.y, d.padding.top), 1));
                spec_draw_tag(cv, y, x, e.tag_name@, 0)
            },
            _ => cv,
        },
    }
}

/// Paints one box and its subtree: background, borders, tag text, then
/// the children in order.
pub open spec fn spec_render_box(cv: Seq<Seq<char>>, w: int, h: int, b: BoxModel) -> Seq<Seq<char>>
    decreases b, 0int, 0int,
{
    let r = spec_border_box(b.dims);
    let cv1 = spec_render_background(cv, w, h, r);
    let cv2 = spec_render_borders(cv1, w, h, r);
    let cv3 = spec_render_text(cv2, b);
    spec_render_children(cv3, w, h, b.children, 0)
}

pub open spec fn spec_render_children(
    cv: Seq<Seq<char>>,
    w: int,
    h: int,
    cs: Seq<BoxModel>,
    i: int,
) -> Seq<Seq<char>>
    decreases cs, 1int, cs.len() - i,
{
    if i < 0 || i >= cs.len() {
        cv
    } else {
        spec_render_children(spec_render_box(cv, w, h, cs[i]), w, h, cs, i + 1)
    }
}

/// An all-space grid.
pub open spec fn spec_blank_canvas(w: int, h: int) -> Seq<Seq<char>> {
    Seq::new(h as nat, |i: int| Seq::new(w as nat, |j: int| ' '))
}

/// An all-space row.
pub open spec fn spec_row_blank(row: Seq<char>) -> bool {
    forall|j: int| 0 <= j < row.len() ==> row[j] == ' '
}

/// The index of the last row that holds any mark, scanning `cv[..=i]`;
/// negative when all are blank.
pub open spec fn spec_last_marked(cv: Seq<Seq<char>>, i: int) -> int
    decreases i + 1,
{
    if i < 0 || i >= cv.len() {
        -1
    } else if !spec_row_blank(cv[i]) {
        i
    } else {
        spec_last_marked(cv, i - 1)
    }
}

/// The printable lines of a canvas: every row up to one past the last
/// marked row (and always at least the first two rows that exist),
/// each with trailing whitespace removed.
pub open spec fn spec_display_lines(cv: Seq<Seq<char>>) -> Seq<Seq<char>> {
    let lm = spec_last_marked(cv, cv.len() - 1);
    let mr = if lm >= 0 {
        lm
    } else {
        0int
    };
    let cnt = if cv.len() - mr > 2 {
        mr + 2
    } else {
        cv.len() as int
    };
    Seq::new(cnt as nat, |i: int| cv[i].subrange(0, crate::strutil::spec_trim_end_idx(cv[i])))
}

fn row_blank(row: &Vec<char>) -> (r: bool)
    ensures
        r == spec_row_blank(row@),
{
    let mut j: usize = 0;
    let n = row.len();
    while j < n
        invariant
            n == row@.len(),
            0 <= j <= n,
            forall|k: int| 0 <= k < j ==> row@[k] == ' ',
        decreases n - j,
    {
        if row[j] != ' ' {
            return false;
        }
        j = j + 1;
    }
    true
}

fn cell_of(v: i64) -> (r: usize)
    ensures
        r as int == spec_cell(v as int),
        r <= 0x7fff_ffff,
{
    if v < 0 {
        0
    } else if v > 0x7fff_ffff {
        0x7fff_ffffusize
    } else {
        v as usize
    }
}

fn umin(a: usize, b: usize) -> (r: usize)
    ensures
        r as int == spec_imin(a as int, b as int),
{
    if a < b {
        a
    } else {
        b
    }
}

impl TextRenderer {
    /// A blank canvas of the given size.
    pub fn new(width: usize, height: usize) -> (t: TextRenderer)
        ensures
            spec_wf(t),
            t.width == width,
            t.height == height,
            canvas_view(t) =~~= spec_blank_canvas(width as int, height as int),
    {
        let mut canvas: Vec<Vec<char>> = Vec::new();
        let mut i: usize = 0;
        while i < height
            invariant
                0 <= i <= height,
                canvas@.len() == i,
                forall|k: int|
                    0 <= k < i ==> (#[trigger] canvas@[k])@ =~= Seq::new(
                        width as nat,
                        |j: int| ' ',
                    ),
            decreases height - i,
        {
            let mut row: Vec<char> = Vec::new();
            let mut j: usize = 0;
            while j < width
                invariant
                    0 <= j <= width,
                    row@.len() == j,
                    forall|k: int| 0 <= k < j ==> row@[k] == ' ',
                decreases width - j,
            {
                row.push(' ');
                j = j + 1;
            }
            proof {
                assert(row@ =~= Seq::new(width as nat, |jj: int| ' '));
            }
            canvas.push(row);
            i = i + 1;
        }
        let t = TextRenderer { canvas, width, height };
        proof {
            assert(canvas_view(t) =~~= spec_blank_canvas(width as int, height as int));
        }
        t
    }

    /// Writes one cell; writes outside the canvas change nothing.
    fn set_cell(&mut self, row: usize, col: usize, ch: char)
        requires
            spec_wf(*old(self)),
        ensures
            spec_wf(*final(self)),
            final(self).width == old(self).width,
            final(self).height == old(self).height,
            canvas_view(*final(self)) == spec_set(
                canvas_view(*old(self)),
                row as int,
                col as int,
                ch,
            ),
    {
        if row < self.canvas.len() {
            let len = self.canvas[row].len();
            if col < len {
                let mut r: Vec<char> = self.canvas[row].clone();
                proof {
                    let orig = self.canvas@[row as int]@;
                    assert forall|k: int| 0 <= k < r@.len() implies r@[k] == orig[k] by {
                        assert(cloned::<char>(self.canvas@[row as int]@[k], r@[k]));
                    }
                    assert(r@ =~= self.canvas@[row as int]@);
                }
                r.set(col, ch);
                self.canvas.set(row, r);
                proof {
                    assert(canvas_view(*self) =~= spec_set(
                        canvas_view(*old(self)),
                        row as int,
                        col as int,
                        ch,
                    ));
                }
            } else {
                proof {
                    assert(canvas_view(*self) =~= canvas_view(*old(self)));
                }
            }
        } else {
            proof {
                assert(canvas_view(*self) =~= canvas_view(*old(self)));
            }
        }
    }

    /// Shades the box's border box.
    fn render_background(&mut self, layout_box: &LayoutBox)
        requires
            spec_wf(*old(self)),
            dims_in_range(dims_model(layout_box.dimensions)),
        ensures
            spec_wf(*final(self)),
            final(self).width == old(self).width,
            final(self).height == old(self).height,
            canvas_view(*final(self)) == spec_render_background(
                canvas_view(*old(self)),
                old(self).width as int,
                old(self).height as int,
                spec_border_box(dims_model(layout_box.dimensions)),
            ),
    {
        let rect = layout_box.dimensions.border_box();
        let x = cell_of(rect.x);
        let y = cell_of(rect.y);
        let w = cell_of(rect.width);
        let h = cell_of(rect.height);
        let r1 = umin(y + h, self.height);
        let c1 = umin(x + w, self.width);
        let ghost cv0 = canvas_view(*self);
        let mut row = y;
        while row < r1
            invariant
                spec_wf(*self),
                self.width == old(self).width,
                self.height == old(self).height,
                y <= row <= r1 || row == y,
                spec_fill_rect(canvas_view(*self), row as int, r1 as int, x as int, c1 as int, '░')
                    == spec_fill_rect(cv0, y as int, r1 as int, x as int, c1 as int, '░'),
            decreases r1 - row,
        {
            let ghost cv_row = canvas_view(*self);
            let mut col = x;
            while col < c1
                invariant
                    spec_wf(*self),
                    self.width == old(self).width,
                    self.height == old(self).height,
                    x <= col <= c1 || col == x,
                    spec_fill_cols(canvas_view(*self), row as int, col as int, c1 as int, '░')
                        == spec_fill_cols(cv_row, row as int, x as int, c1 as int, '░'),
                decreases c1 - col,
            {
                self.set_cell(row, col, '░');
                col = col + 1;
            }
            row = row + 1;
        }
    }

    /// Outlines the box's border box with box-drawing characters.
    fn render_borders(&mut self, layout_box: &LayoutBox)
        requires
            spec_wf(*old(self)),
            dims_in_range(dims_model(layout_box.dimensions)),
        ensures
            spec_wf(*final(self)),
            final(self).width == old(self).width,
            final(self).height == old(self).height,
            canvas_view(*final(self)) == spec_render_borders(
                canvas_view(*old(self)),
                old(self).width as int,
                old(self).height as int,
                spec_border_box(dims_model(layout_box.dimensions)),
            ),
    {
        let rect = layout_box.dimensions.border_box();
        let x = cell_of(rect.x);
        let y = cell_of(rect.y);
        let w = cell_of(rect.width);
        let h = cell_of(rect.height);
        if w == 0 || h == 0 {
            return;
        }
        let right = x + w - 1;
        let bot = y + h - 1;
        let c1 = umin(x + w, self.width);
        let r1 = umin(y + h, self.height);
        let ghost cv0 = canvas_view(*self);
        let mut col = x;
        while col < c1
            invariant
                spec_wf(*self),
                self.width == old(self).width,
                self.height == old(self).height,
                x <= col <= c1 || col == x,
                spec_top_bottom(canvas_view(*self), y as int, bot as int, col as int, c1 as int)
                    == spec_top_bottom(cv0, y as int, bot as int, x as int, c1 as int),
            decreases c1 - col,
        {
            self.set_cell(y, col, '─');
            self.set_cell(bot, col, '─');
            col = col + 1;
        }
        let ghost cv1 = canvas_view(*self);
        let mut row = y;
        while row < r1
            invariant
                spec_wf(*self),
                self.width == old(self).width,
                self.height == old(self).height,
                y <= row <= r1 || row == y,
                spec_left_right(canvas_view(*self), x as int, right as int, row as int, r1 as int)
                    == spec_left_right(cv1, x as int, right as int, y as int, r1 as int),
            decreases r1 - row,
        {
            self.set_cell(row, x, '│');
            self.set_cell(row, right, '│');
            row = row + 1;
        }
        self.set_cell(y, x, '┌');
        self.set_cell(y, right, '┐');
        self.set_cell(bot, x, '└');
        self.set_cell(bot, right, '┘');
    }

    /// Writes the element's tag name inside the box.
    fn render_text(&mut self, layout_box: &LayoutBox)
        requires
            spec_wf(*old(self)),
            dims_in_range(dims_model(layout_box.dimensions)),
        ensures
            spec_wf(*final(self)),
            final(self).width == old(self).width,
            final(self).height == old(self).height,
            canvas_view(*final(self)) == spec_render_text(
                canvas_view(*old(self)),
                box_model(*layout_box),
            ),
    {
        match &layout_box.box_type {
            BoxType::AnonymousBlock => {},
            BoxType::BlockNode(sn) | BoxType::InlineNode(sn) => {
                match &sn.node.node_type {
                    NodeType::Element(elem) => {
                        let d = &layout_box.dimensions;
                        let x = cell_of(px_add(px_add(d.content.x, d.padding.left), 1));
                        let y = cell_of(px_add(px_add(d.content.y, d.padding.top), 1));
                        let tag: String = elem.tag_name.clone();
                        let n = tag.as_str().unicode_len();
                        let ghost tg = elem.tag_name@;
                        let ghost cv0 = canvas_view(*self);
                        let mut i: usize = 0;
                        while i < n
                            invariant
                                spec_wf(*self),
                                self.width == old(self).width,
                                self.height == old(self).height,
                                n == tg.len(),
                                tg == elem.tag_name@,
                                tag@ == tg,
                                x <= 0x7fff_ffff,
                                0 <= i <= n,
                                spec_draw_tag(canvas_view(*self), y as int, x as int, tg, i as int)
                                    == spec_draw_tag(cv0, y as int, x as int, tg, 0),
                            decreases n - i,
                        {
                            let ch = tag.as_str().get_char(i);
                            if x < self.width && i < self.width - x {
                                self.set_cell(y, x + i, ch);
                            } else {
                                proof {
                                    let cv = canvas_view(*self);
                                    if 0 <= (y as int) && (y as int) < cv.len() {
                                        assert(cv[y as int] == self.canvas@[y as int]@);
                                        assert(cv[y as int].len() == self.width);
                                    }
                                    assert(spec_set(
                                        cv,
                                        y as int,
                                        x as int + i as int,
                                        tg[i as int],
                                    ) == cv);
                                }
                            }
                            i = i + 1;
                        }
                    },
                    _ => {},
                }
            },
        }
    }

    /// Paints one box and its subtree, parent first.
    fn render_layout_box(&mut self, layout_box: &LayoutBox)
        requires
            spec_wf(*old(self)),
            all_dims_in_range(box_model(*layout_box)),
        ensures
            spec_wf(*final(self)),
            final(self).width == old(self).width,
            final(self).height == old(self).height,
            canvas_view(*final(self)) == spec_render_box(
                canvas_view(*old(self)),
                old(self).width as int,
                old(self).height as int,
                box_model(*layout_box),
            ),
        decreases *layout_box,
    {
        let ghost b = box_model(*layout_box);
        self.render_background(layout_box);
        self.render_borders(layout_box);
        self.render_text(layout_box);
        let ghost cv3 = canvas_view(*self);
        let n = layout_box.children.len();
        let mut i: usize = 0;
        while i < n
            invariant
                spec_wf(*self),
                self.width == old(self).width,
                self.height == old(self).height,
                n == layout_box.children@.len(),
                b == box_model(*layout_box),
                all_dims_in_range(b),
                0 <= i <= n,
                spec_render_children(
                    canvas_view(*self),
                    old(self).width as int,
                    old(self).height as int,
                    b.children,
                    i as int,
                ) == spec_render_children(
                    cv3,
                    old(self).width as int,
                    old(self).height as int,
                    b.children,
                    0,
                ),
            decreases n - i,
        {
            let child = &layout_box.children[i];
            proof {
                assert(b.children[i as int] == box_model(*child));
                assert(all_dims_in_range(b.children[i as int]));
            }
            self.render_layout_box(child);
            i = i + 1;
        }
    }

    /// The canvas as printable lines: every row up to one past the
    /// last marked row, each with its trailing whitespace removed.
    pub fn display_lines(&self) -> (r: Vec<String>)
        requires
            spec_wf(*self),
        ensures
            r@.map_values(|s: String| s@) == spec_display_lines(canvas_view(*self)),
    {
        let ghost cv = canvas_view(*self);
        let mut max_row: usize = 0;
        let mut i: usize = 0;
        while i < self.height
            invariant
                spec_wf(*self),
                cv == canvas_view(*self),
                0 <= i <= self.height,
                max_row < self.height || max_row == 0,
                max_row as int == (if spec_last_marked(cv, i as int - 1) >= 0 {
                    spec_last_marked(cv, i as int - 1)
                } else {
                    0int
                }),
            decreases self.height - i,
        {
            proof {
                assert(cv[i as int] == self.canvas@[i as int]@);
            }
            if !row_blank(&self.canvas[i]) {
                max_row = i;
            }
            i = i + 1;
        }
        let limit: usize = if self.height - max_row > 2 {
            max_row + 2
        } else {
            self.height
        };
        let mut out: Vec<String> = Vec::new();
        let mut k: usize = 0;
        while k < limit
            invariant
                spec_wf(*self),
                cv == canvas_view(*self),
                limit <= self.height,
                0 <= k <= limit,
                out@.map_values(|s: String| s@).len() == k,
                forall|idx: int|
                    0 <= idx < k ==> out@.map_values(|s: String| s@)[idx] == cv[idx].subrange(
                        0,
                        crate::strutil::spec_trim_end_idx(cv[idx]),
                    ),
            decreases limit - k,
        {
            proof {
                assert(cv[k as int] == self.canvas@[k as int]@);
            }
            let row = &self.canvas[k];
            let mut e: usize = row.len();
            while e > 0 && crate::strutil::is_space(row[e - 1])
                invariant
                    row@ == cv[k as int],
                    0 <= e <= row@.len(),
                    forall|j: int|
                        e <= j < row@.len() ==> crate::strutil::spec_is_space(#[trigger] row@[j]),
                decreases e,
            {
                e = e - 1;
            }
            proof {
                crate::strutil::lemma_trim_end_idx_eq(row@, e as int);
            }
            let mut s = String::new();
            let mut j: usize = 0;
            while j < e
                invariant
                    row@ == cv[k as int],
                    e <= row@.len(),
                    0 <= j <= e,
                    s@ == row@.subrange(0, j as int),
                decreases e - j,
            {
                s.push(row[j]);
                proof {
                    assert(row@.subrange(0, j as int).push(row@[j as int]) =~= row@.subrange(
                        0,
                        j + 1,
                    ));
                }
                j = j + 1;
            }
            let ghost prev = out@.map_values(|s2: String| s2@);
            out.push(s);
            proof {
                assert(out@.map_values(|s2: String| s2@) =~= prev.push(s@));
            }
            k = k + 1;
        }
        proof {
            assert(out@.map_values(|s2: String| s2@) =~= spec_display_lines(cv));
        }
        out
    }

    /// Paints the solved box tree onto the canvas.
    pub fn render(&mut self, layout_root: &LayoutBox)
        requires
            spec_wf(*old(self)),
            all_dims_in_range(box_model(*layout_root)),
        ensures
            spec_wf(*final(self)),
            final(self).width == old(self).width,
            final(self).height == old(self).height,
            canvas_view(*final(self)) == spec_render_box(
                canvas_view(*old(self)),
                old(self).width as int,
                old(self).height as int,
                box_model(*layout_root),
            ),
    {
        self.render_layout_box(layout_root);
    }
}

} // verus!
