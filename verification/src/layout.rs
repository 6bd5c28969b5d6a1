//! Box-tree construction and box-model layout: widths top-down,
//! heights bottom-up, block children stacked vertically.
//!
//! Geometry is measured in whole device-independent pixels. All
//! geometric arithmetic saturates at `PX_LIMIT`, so the box model is
//! total: no input tree can overflow it.

use vstd::prelude::*;
use vstd::hash_map::StringHashMap;
use crate::css::{Value, Unit};
use crate::style::{StyledNode, PropertyMap, Display, spec_display_of};
use crate::dom::NodeType;

verus! {

broadcast use vstd::std_specs::vec::group_vec_axioms;

/// Saturation bound of device-pixel arithmetic.
pub const PX_LIMIT: i64 = 0x20_0000_0000_0000;

/// Clamp into the device-pixel range.
pub open spec fn spec_clamp(x: int) -> int {
    if x > PX_LIMIT {
        PX_LIMIT as int
    } else if x < -PX_LIMIT {
        -PX_LIMIT as int
    } else {
        x
    }
}

pub open spec fn in_px_range(x: int) -> bool {
    -PX_LIMIT <= x <= PX_LIMIT
}

/// Saturating pixel addition.
pub open spec fn spec_px_add(a: int, b: int) -> int {
    spec_clamp(a + b)
}

/// Saturating pixel subtraction.
pub open spec fn spec_px_sub(a: int, b: int) -> int {
    spec_clamp(a - b)
}

/// Halving toward zero, as the centering rule uses.
pub open spec fn spec_half(a: int) -> int {
    if a >= 0 {
        a / 2
    } else {
        -((-a) / 2)
    }
}

/// Division by 100 toward zero, as percentage resolution uses.
pub open spec fn spec_div100(p: int) -> int {
    if p >= 0 {
        p / 100
    } else {
        -((-p) / 100)
    }
}

/// A percentage length resolved against a containing width.
pub open spec fn spec_percent_of(n: int, cb_w: int) -> int {
    spec_clamp(spec_div100(spec_clamp(n) * cb_w))
}

pub(crate) fn px_clamp(x: i64) -> (r: i64)
    ensures
        r as int == spec_clamp(x as int),
{
    if x > PX_LIMIT {
        PX_LIMIT
    } else if x < -PX_LIMIT {
        -PX_LIMIT
    } else {
        x
    }
}

pub(crate) fn px_add(a: i64, b: i64) -> (r: i64)
    requires
        in_px_range(a as int),
        in_px_range(b as int),
    ensures
        r as int == spec_px_add(a as int, b as int),
        in_px_range(r as int),
{
    px_clamp(a + b)
}

pub(crate) fn px_sub(a: i64, b: i64) -> (r: i64)
    requires
        in_px_range(a as int),
        in_px_range(b as int),
    ensures
        r as int == spec_px_sub(a as int, b as int),
        in_px_range(r as int),
{
    px_clamp(a - b)
}

fn px_half(a: i64) -> (r: i64)
    requires
        in_px_range(a as int),
    ensures
        r as int == spec_half(a as int),
        in_px_range(r as int),
{
    if a >= 0 {
        a / 2
    } else {
        -((-a) / 2)
    }
}

fn px_percent_of(n: i64, cb_w: i64) -> (r: i64)
    requires
        in_px_range(cb_w as int),
    ensures
        r as int == spec_percent_of(n as int, cb_w as int),
        in_px_range(r as int),
{
    let a: i128 = px_clamp(n) as i128;
    let b: i128 = cb_w as i128;
    assert((-0x20_0000_0000_0000i128) <= a <= 0x20_0000_0000_0000i128);
    assert((-0x20_0000_0000_0000i128) <= b <= 0x20_0000_0000_0000i128);
    proof {
        assert(a * b <= 0x400_0000_0000_0000_0000_0000_0000i128 && a * b
            >= -0x400_0000_0000_0000_0000_0000_0000i128) by (nonlinear_arith)
            requires
                (-0x20_0000_0000_0000i128) <= a <= 0x20_0000_0000_0000i128,
                (-0x20_0000_0000_0000i128) <= b <= 0x20_0000_0000_0000i128,
        ;
    }
    let p: i128 = a * b;
    let q: i128 = if p >= 0 {
        p / 100
    } else {
        -((-p) / 100)
    };
    if q > PX_LIMIT as i128 {
        PX_LIMIT
    } else if q < -(PX_LIMIT as i128) {
        -PX_LIMIT
    } else {
        q as i64
    }
}

// ---------------------------------------------------------------------------
// Geometry
// ---------------------------------------------------------------------------

/// An axis-aligned rectangle in device pixels.
#[derive(Debug, Clone, Copy, PartialEq, Eq, Structural)]
pub struct Rect {
    pub x: i64,
    pub y: i64,
    pub width: i64,
    pub height: i64,
}

/// Edge sizes around a rectangle.
#[derive(Debug, Clone, Copy, PartialEq, Eq, Structural)]
pub struct EdgeSizes {
    pub left: i64,
    pub right: i64,
    pub top: i64,
    pub bottom: i64,
}

/// The geometry of one box: its content rectangle and the edge sizes
/// of padding, border, and margin.
#[derive(Debug, Clone, Copy, PartialEq, Eq, Structural)]
pub struct Dimensions {
    pub content: Rect,
    pub padding: EdgeSizes,
    pub border: EdgeSizes,
    pub margin: EdgeSizes,
}

/// Mathematical model of a rectangle.
pub struct RectModel {
    pub x: int,
    pub y: int,
    pub width: int,
    pub height: int,
}

/// Mathematical model of edge sizes.
pub struct EdgeModel {
    pub left: int,
    pub right: int,
    pub top: int,
    pub bottom: int,
}

/// Mathematical model of a box's geometry.
pub struct DimsModel {
    pub content: RectModel,
    pub padding: EdgeModel,
    pub border: EdgeModel,
    pub margin: EdgeModel,
}

pub open spec fn rect_model(r: Rect) -> RectModel {
    RectModel { x: r.x as int, y: r.y as int, width: r.width as int, height: r.height as int }
}

pub open spec fn edge_model(e: EdgeSizes) -> EdgeModel {
    EdgeModel {
        left: e.left as int,
        right: e.right as int,
        top: e.top as int,
        bottom: e.bottom as int,
    }
}

pub open spec fn dims_model(d: Dimensions) -> DimsModel {
    DimsModel {
        content: rect_model(d.content),
        padding: edge_model(d.padding),
        border: edge_model(d.border),
        margin: edge_model(d.margin),
    }
}

pub open spec fn rect_in_range(r: RectModel) -> bool {
    in_px_range(r.x) && in_px_range(r.y) && in_px_range(r.width) && in_px_range(r.height)
}

pub open spec fn edge_in_range(e: EdgeModel) -> bool {
    in_px_range(e.left) && in_px_range(e.right) && in_px_range(e.top) && in_px_range(e.bottom)
}

pub open spec fn dims_in_range(d: DimsModel) -> bool {
    rect_in_range(d.content) && edge_in_range(d.padding) && edge_in_range(d.border) && edge_in_range(
        d.margin,
    )
}

pub open spec fn spec_zero_rect() -> RectModel {
    RectModel { x: 0, y: 0, width: 0, height: 0 }
}

pub open spec fn spec_zero_edges() -> EdgeModel {
    EdgeModel { left: 0, right: 0, top: 0, bottom: 0 }
}

pub open spec fn spec_zero_dims() -> DimsModel {
    DimsModel {
        content: spec_zero_rect(),
        padding: spec_zero_edges(),
        border: spec_zero_edges(),
        margin: spec_zero_edges(),
    }
}

/// A rectangle expanded on each side by the given edges.
pub open spec fn spec_expanded_by(r: RectModel, e: EdgeModel) -> RectModel {
    RectModel {
        x: spec_px_sub(r.x, e.left),
        y: spec_px_sub(r.y, e.top),
        width: spec_px_add(spec_px_add(r.width, e.left), e.right),
        height: spec_px_add(spec_px_add(r.height, e.top), e.bottom),
    }
}

/// Content expanded by the padding.
pub open spec fn spec_padding_box(d: DimsModel) -> RectModel {
    spec_expanded_by(d.content, d.padding)
}

/// Padding box expanded by the border.
pub open spec fn spec_border_box(d: DimsModel) -> RectModel {
    spec_expanded_by(spec_padding_box(d), d.border)
}

/// Border box expanded by the margin.
pub open spec fn spec_margin_box(d: DimsModel) -> RectModel {
    spec_expanded_by(spec_border_box(d), d.margin)
}

impl Rect {
    /// This rectangle grown by the given edge sizes.
    pub fn expanded_by(&self, edge: &EdgeSizes) -> (r: Rect)
        requires
            rect_in_range(rect_model(*self)),
            edge_in_range(edge_model(*edge)),
        ensures
            rect_model(r) == spec_expanded_by(rect_model(*self), edge_model(*edge)),
            rect_in_range(rect_model(r)),
    {
        Rect {
            x: px_sub(self.x, edge.left),
            y: px_sub(self.y, edge.top),
            width: px_add(px_add(self.width, edge.left), edge.right),
            height: px_add(px_add(self.height, edge.top), edge.bottom),
        }
    }
}

impl Dimensions {
    /// The area covered by the content plus its padding.
    pub fn padding_box(&self) -> (r: Rect)
        requires
            dims_in_range(dims_model(*self)),
        ensures
            rect_model(r) == spec_padding_box(dims_model(*self)),
            rect_in_range(rect_model(r)),
    {
        self.content.expanded_by(&self.padding)
    }

    /// The area covered by the content, padding, and border.
    pub fn border_box(&self) -> (r: Rect)
        requires
            dims_in_range(dims_model(*self)),
        ensures
            rect_model(r) == spec_border_box(dims_model(*self)),
            rect_in_range(rect_model(r)),
    {
        self.padding_box().expanded_by(&self.border)
    }

    /// The area covered by the content, padding, border, and margin.
    pub fn margin_box(&self) -> (r: Rect)
        requires
            dims_in_range(dims_model(*self)),
        ensures
            rect_model(r) == spec_margin_box(dims_model(*self)),
            rect_in_range(rect_model(r)),
    {
        self.border_box().expanded_by(&self.margin)
    }
}

// ---------------------------------------------------------------------------
// Box tree
// ---------------------------------------------------------------------------

/// The kind of a layout box: a block-level or inline-level box wrapping
/// a styled node, or a synthetic anonymous block.
#[derive(Clone, Copy)]
pub enum BoxType<'a> {
    BlockNode(&'a StyledNode<'a>),
    InlineNode(&'a StyledNode<'a>),
    AnonymousBlock,
}

/// A box in the layout tree, with its geometry and its children.
pub struct LayoutBox<'a> {
    pub dimensions: Dimensions,
    pub box_type: BoxType<'a>,
    pub children: Vec<LayoutBox<'a>>,
}

/// Model of a box kind.
pub enum BoxKindModel<'a> {
    Block(StyledNode<'a>),
    Inline(StyledNode<'a>),
    Anonymous,
}

/// Mathematical model of a layout box.
pub struct BoxModel<'a> {
    pub kind: BoxKindModel<'a>,
    pub dims: DimsModel,
    pub children: Seq<BoxModel<'a>>,
}

pub open spec fn kind_model<'a>(bt: BoxType<'a>) -> BoxKindModel<'a> {
    match bt {
        BoxType::BlockNode(s) => BoxKindModel::Block(*s),
        BoxType::InlineNode(s) => BoxKindModel::Inline(*s),
        BoxType::AnonymousBlock => BoxKindModel::Anonymous,
    }
}

/// The model of a layout box: kinds and geometry, children by value.
pub open spec fn box_model<'a>(lb: LayoutBox<'a>) -> BoxModel<'a>
    decreases lb,
{
    BoxModel {
        kind: kind_model(lb.box_type),
        dims: dims_model(lb.dimensions),
        children: Seq::new(
            lb.children@.len(),
            |i: int|
                if 0 <= i < lb.children@.len() {
                    box_model(lb.children@[i])
                } else {
                    arbitrary()
                },
        ),
    }
}

/// The models of a sequence of boxes.
pub open spec fn boxes_model<'a>(v: Seq<LayoutBox<'a>>) -> Seq<BoxModel<'a>> {
    v.map_values(|lb: LayoutBox<'a>| box_model(lb))
}

/// Which box, if any, a styled node produces: none for text and comment
/// leaves and for `display: none` elements; otherwise a box of the
/// element's display kind.
pub open spec fn spec_makes_box(sn: StyledNode) -> Option<Display> {
    match sn.node.node_type {
        NodeType::Element(_) => match spec_display_of(sn.specified_values@) {
            Display::Block => Some(Display::Block),
            Display::Inline => Some(Display::Inline),
            Display::Hidden => None,
        },
        _ => None,
    }
}

/// Appends the pending inline run as one anonymous block, if the run is
/// non-empty.
pub open spec fn spec_flush<'a>(done: Seq<BoxModel<'a>>, acc: Seq<BoxModel<'a>>) -> Seq<
    BoxModel<'a>,
> {
    if acc.len() == 0 {
        done
    } else {
        done.push(BoxModel { kind: BoxKindModel::Anonymous, dims: spec_zero_dims(), children: acc })
    }
}

/// The box tree a styled node builds, if any.
pub open spec fn spec_build<'a>(sn: StyledNode<'a>) -> Option<BoxModel<'a>>
    decreases sn, 0int, 0int,
{
    match spec_makes_box(sn) {
        Option::None => Option::None,
        Option::Some(Display::Block) => Option::Some(
            BoxModel {
                kind: BoxKindModel::Block(sn),
                dims: spec_zero_dims(),
                children: spec_build_block_children(sn.children@, 0, Seq::empty(), Seq::empty()),
            },
        ),
        Option::Some(_) => Option::Some(
            BoxModel {
                kind: BoxKindModel::Inline(sn),
                dims: spec_zero_dims(),
                children: spec_build_inline_children(sn.children@, 0, Seq::empty()),
            },
        ),
    }
}

/// Children of an inline box: each child's box, attached directly.
pub open spec fn spec_build_inline_children<'a>(
    cs: Seq<StyledNode<'a>>,
    i: int,
    done: Seq<BoxModel<'a>>,
) -> Seq<BoxModel<'a>>
    decreases cs, 1int, cs.len() - i,
{
    if i < 0 || i >= cs.len() {
        done
    } else {
        match spec_build(cs[i]) {
            Option::Some(b) => spec_build_inline_children(cs, i + 1, done.push(b)),
            Option::None => spec_build_inline_children(cs, i + 1, done),
        }
    }
}

/// Children of a block box: block children attach directly; each
/// contiguous run of inline children is wrapped in one anonymous block;
/// an empty trailing run is never retained.
pub open spec fn spec_build_block_children<'a>(
    cs: Seq<StyledNode<'a>>,
    i: int,
    done: Seq<BoxModel<'a>>,
    acc: Seq<BoxModel<'a>>,
) -> Seq<BoxModel<'a>>
    decreases cs, 1int, cs.len() - i,
{
    if i < 0 || i >= cs.len() {
        spec_flush(done, acc)
    } else {
        match spec_build(cs[i]) {
            Option::None => spec_build_block_children(cs, i + 1, done, acc),
            Option::Some(b) => match b.kind {
                BoxKindModel::Block(_) => spec_build_block_children(
                    cs,
                    i + 1,
                    spec_flush(done, acc).push(b),
                    Seq::empty(),
                ),
                _ => spec_build_block_children(cs, i + 1, done, acc.push(b)),
            },
        }
    }
}

/// Appends the pending inline run to `done` as one anonymous block.
fn flush_run<'a>(done: &mut Vec<LayoutBox<'a>>, run: Vec<LayoutBox<'a>>)
    ensures
        boxes_model(final(done)@) == spec_flush(boxes_model(old(done)@), boxes_model(run@)),
{
    if run.len() > 0 {
        let anon = LayoutBox {
            dimensions: Dimensions::default(),
            box_type: BoxType::AnonymousBlock,
            children: run,
        };
        proof {
            assert(box_model(anon).children =~= boxes_model(anon.children@));
        }
        done.push(anon);
        proof {
            assert(boxes_model(final(done)@) =~= boxes_model(old(done)@).push(box_model(anon)));
        }
    } else {
        proof {
            assert(boxes_model(final(done)@) =~= boxes_model(old(done)@));
        }
    }
}

/// Builds the box tree for a styled node. Returns nothing for text and
/// comment leaves and for `display: none` elements: such a node and its
/// entire subtree are absent from the box tree.
pub fn build_layout_tree<'a>(style_node: &'a StyledNode<'a>) -> (r: Option<LayoutBox<'a>>)
    ensures
        match r {
            Some(lb) => spec_build(*style_node) == Some(box_model(lb)),
            None => spec_build(*style_node) is None,
        },
    decreases *style_node,
{
    let is_element = match &style_node.node.node_type {
        NodeType::Element(_) => true,
        _ => false,
    };
    if !is_element {
        return None;
    }
    match style_node.display() {
        Display::Hidden => None,
        Display::Block => {
            let n = style_node.children.len();
            let mut done: Vec<LayoutBox<'a>> = Vec::new();
            let mut acc: Vec<LayoutBox<'a>> = Vec::new();
            let mut i: usize = 0;
            proof {
                assert(boxes_model(done@) =~= Seq::<BoxModel<'a>>::empty());
                assert(boxes_model(acc@) =~= Seq::<BoxModel<'a>>::empty());
            }
            while i < n
                invariant
                    n == style_node.children@.len(),
                    0 <= i <= n,
                    spec_build_block_children(
                        style_node.children@,
                        i as int,
                        boxes_model(done@),
                        boxes_model(acc@),
                    ) == spec_build_block_children(
                        style_node.children@,
                        0,
                        Seq::empty(),
                        Seq::empty(),
                    ),
                decreases n - i,
            {
                let ghost done0 = boxes_model(done@);
                let ghost acc0 = boxes_model(acc@);
                match build_layout_tree(&style_node.children[i]) {
                    None => {},
                    Some(child_box) => {
                        let is_block = match &child_box.box_type {
                            BoxType::BlockNode(_) => true,
                            _ => false,
                        };
                        if is_block {
                            let run = acc;
                            acc = Vec::new();
                            flush_run(&mut done, run);
                            done.push(child_box);
                            proof {
                                assert(boxes_model(done@) =~= spec_flush(done0, acc0).push(
                                    box_model(child_box),
                                ));
                                assert(boxes_model(acc@) =~= Seq::<BoxModel<'a>>::empty());
                            }
                        } else {
                            acc.push(child_box);
                            proof {
                                assert(boxes_model(acc@) =~= acc0.push(box_model(child_box)));
                            }
                        }
                    },
                }
                i = i + 1;
            }
            let run = acc;
            flush_run(&mut done, run);
            let lb = LayoutBox {
                dimensions: Dimensions::default(),
                box_type: BoxType::BlockNode(style_node),
                children: done,
            };
            proof {
                assert(box_model(lb).children =~= boxes_model(lb.children@));
            }
            Some(lb)
        },
        Display::Inline => {
            let n = style_node.children.len();
            let mut done: Vec<LayoutBox<'a>> = Vec::new();
            let mut i: usize = 0;
            proof {
                assert(boxes_model(done@) =~= Seq::<BoxModel<'a>>::empty());
            }
            while i < n
                invariant
                    n == style_node.children@.len(),
                    0 <= i <= n,
                    spec_build_inline_children(style_node.children@, i as int, boxes_model(done@))
                        == spec_build_inline_children(style_node.children@, 0, Seq::empty()),
                decreases n - i,
            {
                let ghost done0 = boxes_model(done@);
                match build_layout_tree(&style_node.children[i]) {
                    None => {},
                    Some(child_box) => {
                        done.push(child_box);
                        proof {
                            assert(boxes_model(done@) =~= done0.push(box_model(child_box)));
                        }
                    },
                }
                i = i + 1;
            }
            let lb = LayoutBox {
                dimensions: Dimensions::default(),
                box_type: BoxType::InlineNode(style_node),
                children: done,
            };
            proof {
                assert(box_model(lb).children =~= boxes_model(lb.children@));
            }
            Some(lb)
        },
    }
}

/// A box that may stand directly under a block box.
pub open spec fn spec_block_level(b: BoxModel) -> bool {
    b.kind is Block || b.kind is Anonymous
}

/// The block/inline structural invariant: a block box's children are
/// all block-level; an anonymous block is non-empty and wraps only
/// inline boxes.
pub open spec fn spec_wf_box(b: BoxModel) -> bool
    decreases b,
{
    &&& (b.kind is Anonymous ==> b.children.len() > 0 && (forall|i: int|
        0 <= i < b.children.len() ==> (#[trigger] b.children[i]).kind is Inline))
    &&& (b.kind is Block ==> (forall|i: int|
        0 <= i < b.children.len() ==> spec_block_level(#[trigger] b.children[i])))
    &&& (forall|i: int| 0 <= i < b.children.len() ==> spec_wf_box(#[trigger] b.children[i]))
}

proof fn lemma_flush_wf<'a>(done: Seq<BoxModel<'a>>, acc: Seq<BoxModel<'a>>)
    requires
        forall|k: int|
            0 <= k < done.len() ==> spec_block_level(#[trigger] done[k]) && spec_wf_box(done[k]),
        forall|k: int|
            0 <= k < acc.len() ==> (#[trigger] acc[k]).kind is Inline && spec_wf_box(acc[k]),
    ensures
        forall|k: int|
            0 <= k < spec_flush(done, acc).len() ==> spec_block_level(
                #[trigger] spec_flush(done, acc)[k],
            ) && spec_wf_box(spec_flush(done, acc)[k]),
{
    if acc.len() == 0 {
    } else {
        let anon = BoxModel { kind: BoxKindModel::Anonymous, dims: spec_zero_dims(), children: acc };
        assert(spec_wf_box(anon));
        assert forall|k: int| 0 <= k < spec_flush(done, acc).len() implies spec_block_level(
            #[trigger] spec_flush(done, acc)[k],
        ) && spec_wf_box(spec_flush(done, acc)[k]) by {
            if k < done.len() {
                assert(spec_flush(done, acc)[k] == done[k]);
            } else {
                assert(spec_flush(done, acc)[k] == anon);
            }
        }
    }
}

proof fn lemma_build_block_children_wf<'a>(
    cs: Seq<StyledNode<'a>>,
    i: int,
    done: Seq<BoxModel<'a>>,
    acc: Seq<BoxModel<'a>>,
)
    requires
        forall|k: int|
            0 <= k < done.len() ==> spec_block_level(#[trigger] done[k]) && spec_wf_box(done[k]),
        forall|k: int|
            0 <= k < acc.len() ==> (#[trigger] acc[k]).kind is Inline && spec_wf_box(acc[k]),
    ensures
        forall|k: int|
            0 <= k < spec_build_block_children(cs, i, done, acc).len() ==> spec_block_level(
                #[trigger] spec_build_block_children(cs, i, done, acc)[k],
            ) && spec_wf_box(spec_build_block_children(cs, i, done, acc)[k]),
    decreases cs, 1int, cs.len() - i,
{
    if i < 0 || i >= cs.len() {
        lemma_flush_wf(done, acc);
        assert(spec_build_block_children(cs, i, done, acc) == spec_flush(done, acc));
    } else {
        lemma_anonymous_block_invariant(cs[i]);
        match spec_build(cs[i]) {
            Option::None => {
                lemma_build_block_children_wf(cs, i + 1, done, acc);
                assert(spec_build_block_children(cs, i, done, acc) == spec_build_block_children(
                    cs,
                    i + 1,
                    done,
                    acc,
                ));
            },
            Option::Some(b) => match b.kind {
                BoxKindModel::Block(_) => {
                    lemma_flush_wf(done, acc);
                    let done2 = spec_flush(done, acc).push(b);
                    assert forall|k: int| 0 <= k < done2.len() implies spec_block_level(
                        #[trigger] done2[k],
                    ) && spec_wf_box(done2[k]) by {
                        if k < spec_flush(done, acc).len() {
                            assert(done2[k] == spec_flush(done, acc)[k]);
                        } else {
                            assert(done2[k] == b);
                        }
                    }
                    lemma_build_block_children_wf(cs, i + 1, done2, Seq::empty());
                    assert(spec_build_block_children(cs, i, done, acc)
                        == spec_build_block_children(cs, i + 1, done2, Seq::empty()));
                },
                _ => {
                    let acc2 = acc.push(b);
                    assert(b.kind is Inline);
                    assert forall|k: int| 0 <= k < acc2.len() implies (#[trigger] acc2[k]).kind
                        is Inline && spec_wf_box(acc2[k]) by {
                        if k < acc.len() {
                            assert(acc2[k] == acc[k]);
                        } else {
                            assert(acc2[k] == b);
                        }
                    }
                    lemma_build_block_children_wf(cs, i + 1, done, acc2);
                    assert(spec_build_block_children(cs, i, done, acc)
                        == spec_build_block_children(cs, i + 1, done, acc2));
                },
            },
        }
    }
}

proof fn lemma_build_inline_children_wf<'a>(cs: Seq<StyledNode<'a>>, i: int, done: Seq<BoxModel<'a>>)
    requires
        forall|k: int| 0 <= k < done.len() ==> spec_wf_box(#[trigger] done[k]),
    ensures
        forall|k: int|
            0 <= k < spec_build_inline_children(cs, i, done).len() ==> spec_wf_box(
                #[trigger] spec_build_inline_children(cs, i, done)[k],
            ),
    decreases cs, 1int, cs.len() - i,
{
    if i < 0 || i >= cs.len() {
    } else {
        lemma_anonymous_block_invariant(cs[i]);
        match spec_build(cs[i]) {
            Option::Some(b) => {
                let done2 = done.push(b);
                assert forall|k: int| 0 <= k < done2.len() implies spec_wf_box(
                    #[trigger] done2[k],
                ) by {
                    if k < done.len() {
                        assert(done2[k] == done[k]);
                    } else {
                        assert(done2[k] == b);
                    }
                }
                lemma_build_inline_children_wf(cs, i + 1, done2);
                assert(spec_build_inline_children(cs, i, done) == spec_build_inline_children(
                    cs,
                    i + 1,
                    done2,
                ));
            },
            Option::None => {
                lemma_build_inline_children_wf(cs, i + 1, done);
                assert(spec_build_inline_children(cs, i, done) == spec_build_inline_children(
                    cs,
                    i + 1,
                    done,
                ));
            },
        }
    }
}

/// Law (anonymous block invariant): every box tree the builder makes
/// satisfies the block/inline structural invariant — no block box ever
/// holds a bare inline child; every inline run under a block parent is
/// wrapped in exactly one non-empty anonymous block.
pub proof fn lemma_anonymous_block_invariant(sn: StyledNode)
    ensures
        spec_build(sn) matches Some(b) ==> spec_wf_box(b),
    decreases sn, 0int, 0int,
{
    match spec_makes_box(sn) {
        Option::None => {},
        Option::Some(Display::Block) => {
            lemma_build_block_children_wf(
                sn.children@,
                0,
                Seq::<BoxModel>::empty(),
                Seq::<BoxModel>::empty(),
            );
            let ch = spec_build_block_children(sn.children@, 0, Seq::empty(), Seq::empty());
            let b = spec_build(sn)->Some_0;
            assert(b.children == ch);
            assert forall|k: int| 0 <= k < b.children.len() implies spec_block_level(
                #[trigger] b.children[k],
            ) && spec_wf_box(b.children[k]) by {
                assert(b.children[k] == ch[k]);
            }
            assert(spec_wf_box(b));
        },
        Option::Some(_) => {
            lemma_build_inline_children_wf(sn.children@, 0, Seq::<BoxModel>::empty());
            let ch = spec_build_inline_children(sn.children@, 0, Seq::empty());
            let b = spec_build(sn)->Some_0;
            assert(b.children == ch);
            assert forall|k: int| 0 <= k < b.children.len() implies spec_wf_box(
                #[trigger] b.children[k],
            ) by {
                assert(b.children[k] == ch[k]);
            }
            assert(spec_wf_box(b));
        },
    }
}

/// Law (anonymous block grouping): a block parent whose four children
/// make boxes of kinds [inline, inline, block, inline] builds exactly
/// three block-level children — one anonymous block wrapping the
/// first two inline boxes, the block box, and a second anonymous
/// block wrapping the trailing inline. (A child makes an inline or
/// block box exactly when it is an element of that display; text and
/// comment leaves make none, which is why the premise speaks of
/// `spec_makes_box`.)
pub proof fn lemma_anonymous_block_grouping(sn: StyledNode)
    requires
        spec_makes_box(sn) == Some(Display::Block),
        sn.children@.len() == 4,
        spec_makes_box(sn.children@[0]) == Some(Display::Inline),
        spec_makes_box(sn.children@[1]) == Some(Display::Inline),
        spec_makes_box(sn.children@[2]) == Some(Display::Block),
        spec_makes_box(sn.children@[3]) == Some(Display::Inline),
    ensures
        spec_build(sn) is Some,
        ({
            let b = spec_build(sn)->Some_0;
            &&& b.kind == BoxKindModel::Block(sn)
            &&& b.children.len() == 3
            &&& b.children[0].kind is Anonymous
            &&& b.children[0].children =~= seq![
                spec_build(sn.children@[0])->Some_0,
                spec_build(sn.children@[1])->Some_0,
            ]
            &&& b.children[1] == spec_build(sn.children@[2])->Some_0
            &&& b.children[2].kind is Anonymous
            &&& b.children[2].children =~= seq![spec_build(sn.children@[3])->Some_0]
        }),
{
    let cs = sn.children@;
    let b0 = spec_build(cs[0])->Some_0;
    let b1 = spec_build(cs[1])->Some_0;
    let b2 = spec_build(cs[2])->Some_0;
    let b3 = spec_build(cs[3])->Some_0;
    assert(b0.kind is Inline && b1.kind is Inline && b2.kind is Block && b3.kind is Inline);
    let e = Seq::<BoxModel>::empty();
    assert(spec_build_block_children(cs, 0, e, e) == spec_build_block_children(cs, 1, e, e.push(b0)));
    assert(spec_build_block_children(cs, 1, e, e.push(b0)) == spec_build_block_children(
        cs,
        2,
        e,
        e.push(b0).push(b1),
    ));
    let run1 = e.push(b0).push(b1);
    let anon1 = BoxModel { kind: BoxKindModel::Anonymous, dims: spec_zero_dims(), children: run1 };
    let done2 = spec_flush(e, run1).push(b2);
    assert(done2 =~= seq![anon1, b2]);
    assert(spec_build_block_children(cs, 2, e, run1) == spec_build_block_children(cs, 3, done2, e));
    assert(spec_build_block_children(cs, 3, done2, e) == spec_build_block_children(
        cs,
        4,
        done2,
        e.push(b3),
    ));
    let anon2 = BoxModel {
        kind: BoxKindModel::Anonymous,
        dims: spec_zero_dims(),
        children: e.push(b3),
    };
    assert(spec_build_block_children(cs, 4, done2, e.push(b3)) == spec_flush(done2, e.push(b3)));
    assert(spec_flush(done2, e.push(b3)) =~= seq![anon1, b2, anon2]);
    assert(run1 =~= seq![b0, b1]);
    assert(e.push(b3) =~= seq![b3]);
}

/// Law (suppressed display): an element whose computed display is the
/// suppressed-box signal builds no box at all, so its entire subtree is
/// absent from the box tree, whatever its children declare.
pub proof fn lemma_display_none_suppressed(sn: StyledNode)
    requires
        spec_display_of(sn.specified_values@) == Display::Hidden,
    ensures
        spec_build(sn) is None,
{
}

// ---------------------------------------------------------------------------
// Dimension solving: model
// ---------------------------------------------------------------------------

/// True for the `auto` keyword.
pub open spec fn spec_is_auto(v: Value) -> bool {
    v matches Value::Keyword(s) && s@ == "auto"@
}

/// Pixels a value resolves to: `Px` lengths directly, percentages
/// against the containing block's content width, everything else zero.
pub open spec fn spec_resolve(v: Value, cb_w: int) -> int {
    match v {
        Value::Length(n, Unit::Px) => spec_clamp(n as int),
        Value::Length(n, Unit::Percent) => spec_percent_of(n as int, cb_w),
        _ => 0,
    }
}

/// Resolved pixels of the first present property among `name` and
/// `fb`, defaulting to zero.
pub open spec fn spec_lookup_px(m: Map<Seq<char>, Value>, name: Seq<char>, fb: Seq<char>, cb_w: int) -> int {
    if m.contains_key(name) {
        spec_resolve(m[name], cb_w)
    } else if m.contains_key(fb) {
        spec_resolve(m[fb], cb_w)
    } else {
        0
    }
}

/// Whether the first present property among `name` and `fb` is `auto`.
pub open spec fn spec_lookup_auto(m: Map<Seq<char>, Value>, name: Seq<char>, fb: Seq<char>) -> bool {
    if m.contains_key(name) {
        spec_is_auto(m[name])
    } else if m.contains_key(fb) {
        spec_is_auto(m[fb])
    } else {
        false
    }
}

/// A missing width counts as `auto`.
pub open spec fn spec_width_auto(m: Map<Seq<char>, Value>) -> bool {
    !m.contains_key("width"@) || spec_is_auto(m["width"@])
}

/// The declared width's fixed pixel contribution.
pub open spec fn spec_width_px(m: Map<Seq<char>, Value>, cb_w: int) -> int {
    if m.contains_key("width"@) {
        spec_resolve(m["width"@], cb_w)
    } else {
        0
    }
}

/// The horizontal solution of one box.
pub struct WidthSolution {
    pub width: int,
    pub margin_left: int,
    pub margin_right: int,
    pub border_left: int,
    pub border_right: int,
    pub padding_left: int,
    pub padding_right: int,
}

/// Resolves a box's width and horizontal edges against the containing
/// block's content width `cb_w`. An `auto` width absorbs the remaining
/// space (never below zero); with the width fixed, a lone `auto` margin
/// absorbs the remainder, two `auto` margins split it evenly (an odd
/// pixel going to the right one, so the horizontal parts still sum to
/// the containing width), and with nothing `auto` the right margin
/// takes the remainder. In the over-constrained case the `auto`
/// margins are treated as zero and the right margin absorbs the
/// (negative) remainder.
pub open spec fn spec_calc_width(m: Map<Seq<char>, Value>, cb_w: int) -> WidthSolution {
    let w_auto = spec_width_auto(m);
    let w0 = spec_width_px(m, cb_w);
    let ml_auto0 = spec_lookup_auto(m, "margin-left"@, "margin"@);
    let mr_auto0 = spec_lookup_auto(m, "margin-right"@, "margin"@);
    let ml0 = spec_lookup_px(m, "margin-left"@, "margin"@, cb_w);
    let mr0 = spec_lookup_px(m, "margin-right"@, "margin"@, cb_w);
    let bl = spec_lookup_px(m, "border-left-width"@, "border-width"@, cb_w);
    let br = spec_lookup_px(m, "border-right-width"@, "border-width"@, cb_w);
    let pl = spec_lookup_px(m, "padding-left"@, "padding"@, cb_w);
    let pr = spec_lookup_px(m, "padding-right"@, "padding"@, cb_w);
    let total = spec_px_add(
        spec_px_add(
            spec_px_add(spec_px_add(spec_px_add(spec_px_add(w0, ml0), mr0), bl), br),
            pl,
        ),
        pr,
    );
    let oc = !w_auto && total > cb_w;
    let ml_auto = ml_auto0 && !oc;
    let mr_auto = mr_auto0 && !oc;
    let underflow = spec_px_sub(cb_w, total);
    if w_auto {
        if underflow >= 0 {
            WidthSolution {
                width: underflow,
                margin_left: ml0,
                margin_right: mr0,
                border_left: bl,
                border_right: br,
                padding_left: pl,
                padding_right: pr,
            }
        } else {
            WidthSolution {
                width: 0,
                margin_left: ml0,
                margin_right: spec_px_add(mr0, underflow),
                border_left: bl,
                border_right: br,
                padding_left: pl,
                padding_right: pr,
            }
        }
    } else if ml_auto && mr_auto {
        WidthSolution {
            width: w0,
            margin_left: spec_half(underflow),
            margin_right: spec_px_sub(underflow, spec_half(underflow)),
            border_left: bl,
            border_right: br,
            padding_left: pl,
            padding_right: pr,
        }
    } else if ml_auto {
        WidthSolution {
            width: w0,
            margin_left: underflow,
            margin_right: mr0,
            border_left: bl,
            border_right: br,
            padding_left: pl,
            padding_right: pr,
        }
    } else if mr_auto {
        WidthSolution {
            width: w0,
            margin_left: ml0,
            margin_right: underflow,
            border_left: bl,
            border_right: br,
            padding_left: pl,
            padding_right: pr,
        }
    } else {
        WidthSolution {
            width: w0,
            margin_left: ml0,
            margin_right: spec_px_add(mr0, underflow),
            border_left: bl,
            border_right: br,
            padding_left: pl,
            padding_right: pr,
        }
    }
}

/// The vertical edges (margin, border, padding; top then bottom).
pub open spec fn spec_vertical_edges(m: Map<Seq<char>, Value>, cb_w: int) -> (
    int,
    int,
    int,
    int,
    int,
    int,
) {
    (
        spec_lookup_px(m, "margin-top"@, "margin"@, cb_w),
        spec_lookup_px(m, "margin-bottom"@, "margin"@, cb_w),
        spec_lookup_px(m, "border-top-width"@, "border-width"@, cb_w),
        spec_lookup_px(m, "border-bottom-width"@, "border-width"@, cb_w),
        spec_lookup_px(m, "padding-top"@, "padding"@, cb_w),
        spec_lookup_px(m, "padding-bottom"@, "padding"@, cb_w),
    )
}

/// A box's geometry before its children are laid out: width and edges
/// solved, content position derived from the containing block and its
/// running height cursor, content height still zero.
pub open spec fn spec_dims_before_children(m: Map<Seq<char>, Value>, cb: DimsModel) -> DimsModel {
    let ws = spec_calc_width(m, cb.content.width);
    let e = spec_vertical_edges(m, cb.content.width);
    let x = spec_px_add(
        spec_px_add(spec_px_add(cb.content.x, ws.margin_left), ws.border_left),
        ws.padding_left,
    );
    let y = spec_px_add(
        spec_px_add(spec_px_add(spec_px_add(cb.content.y, cb.content.height), e.0), e.2),
        e.4,
    );
    DimsModel {
        content: RectModel { x, y, width: ws.width, height: 0 },
        padding: EdgeModel { left: ws.padding_left, right: ws.padding_right, top: e.4, bottom: e.5 },
        border: EdgeModel { left: ws.border_left, right: ws.border_right, top: e.2, bottom: e.3 },
        margin: EdgeModel { left: ws.margin_left, right: ws.margin_right, top: e.0, bottom: e.1 },
    }
}

/// An explicit height: a declared `Px` or percentage length overrides
/// the children's accumulated height; anything else leaves it.
pub open spec fn spec_height_override(m: Map<Seq<char>, Value>, cb_w: int) -> Option<int> {
    if m.contains_key("height"@) {
        match m["height"@] {
            Value::Length(n, Unit::Px) => Some(spec_clamp(n as int)),
            Value::Length(n, Unit::Percent) => Some(spec_percent_of(n as int, cb_w)),
            _ => None,
        }
    } else {
        None
    }
}

/// The property map a box draws its style from; anonymous blocks have
/// none.
pub open spec fn box_props<'a>(k: BoxKindModel<'a>) -> Map<Seq<char>, Value> {
    match k {
        BoxKindModel::Block(s) => s.specified_values@,
        BoxKindModel::Inline(s) => s.specified_values@,
        BoxKindModel::Anonymous => Map::empty(),
    }
}

/// Lays out the children `cs[i..]` in order against the parent's
/// geometry `d`, accumulating each child's margin-box height into the
/// parent's running content height, so siblings stack vertically.
pub open spec fn spec_layout_children<'a>(
    cs: Seq<BoxModel<'a>>,
    i: int,
    done: Seq<BoxModel<'a>>,
    d: DimsModel,
) -> (Seq<BoxModel<'a>>, DimsModel)
    decreases cs, 1int, cs.len() - i,
{
    if i < 0 || i >= cs.len() {
        (done, d)
    } else {
        let c = spec_layout(cs[i], d);
        let d2 = DimsModel {
            content: RectModel {
                x: d.content.x,
                y: d.content.y,
                width: d.content.width,
                height: spec_px_add(d.content.height, spec_margin_box(c.dims).height),
            },
            padding: d.padding,
            border: d.border,
            margin: d.margin,
        };
        spec_layout_children(cs, i + 1, done.push(c), d2)
    }
}

/// The solved geometry of a box tree under a containing block: width
/// top-down, position against the running cursor, children recursively,
/// then height bottom-up (children's sum unless declared).
pub open spec fn spec_layout<'a>(b: BoxModel<'a>, cb: DimsModel) -> BoxModel<'a>
    decreases b, 0int, 0int,
{
    let m = box_props(b.kind);
    let d0 = spec_dims_before_children(m, cb);
    let r = spec_layout_children(b.children, 0, Seq::empty(), d0);
    let d1 = r.1;
    let h = match spec_height_override(m, cb.content.width) {
        Some(h) => h,
        None => d1.content.height,
    };
    BoxModel {
        kind: b.kind,
        dims: DimsModel {
            content: RectModel {
                x: d1.content.x,
                y: d1.content.y,
                width: d1.content.width,
                height: h,
            },
            padding: d1.padding,
            border: d1.border,
            margin: d1.margin,
        },
        children: r.0,
    }
}

// ---------------------------------------------------------------------------
// Dimension solving: execution
// ---------------------------------------------------------------------------

fn resolve_value(v: &Value, cb_w: i64) -> (r: i64)
    requires
        in_px_range(cb_w as int),
    ensures
        r as int == spec_resolve(*v, cb_w as int),
        in_px_range(r as int),
{
    match v {
        Value::Length(n, Unit::Px) => px_clamp(*n),
        Value::Length(n, Unit::Percent) => px_percent_of(*n, cb_w),
        _ => 0,
    }
}

fn is_auto_value(v: &Value) -> (r: bool)
    ensures
        r == spec_is_auto(*v),
{
    match v {
        Value::Keyword(s) => crate::strutil::str_eq(s.as_str(), "auto"),
        _ => false,
    }
}

fn lookup_px(props: &PropertyMap, name: &str, fb: &str, cb_w: i64) -> (r: i64)
    requires
        in_px_range(cb_w as int),
    ensures
        r as int == spec_lookup_px(props@, name@, fb@, cb_w as int),
        in_px_range(r as int),
{
    match props.get(name) {
        Some(v) => resolve_value(v, cb_w),
        None => match props.get(fb) {
            Some(v) => resolve_value(v, cb_w),
            None => 0,
        },
    }
}

fn lookup_auto(props: &PropertyMap, name: &str, fb: &str) -> (r: bool)
    ensures
        r == spec_lookup_auto(props@, name@, fb@),
{
    match props.get(name) {
        Some(v) => is_auto_value(v),
        None => match props.get(fb) {
            Some(v) => is_auto_value(v),
            None => false,
        },
    }
}

/// Horizontal solution with machine integers.
struct WidthParts {
    width: i64,
    margin_left: i64,
    margin_right: i64,
    border_left: i64,
    border_right: i64,
    padding_left: i64,
    padding_right: i64,
}

spec fn width_parts_ok(w: WidthParts, s: WidthSolution) -> bool {
    &&& w.width as int == s.width
    &&& w.margin_left as int == s.margin_left
    &&& w.margin_right as int == s.margin_right
    &&& w.border_left as int == s.border_left
    &&& w.border_right as int == s.border_right
    &&& w.padding_left as int == s.padding_left
    &&& w.padding_right as int == s.padding_right
    &&& in_px_range(w.width as int)
    &&& in_px_range(w.margin_left as int)
    &&& in_px_range(w.margin_right as int)
    &&& in_px_range(w.border_left as int)
    &&& in_px_range(w.border_right as int)
    &&& in_px_range(w.padding_left as int)
    &&& in_px_range(w.padding_right as int)
}

/// Solves a box's width and horizontal edges (the top-down pass).
fn calculate_block_width(props: &PropertyMap, cb: &Dimensions) -> (w: WidthParts)
    requires
        dims_in_range(dims_model(*cb)),
    ensures
        width_parts_ok(w, spec_calc_width(props@, dims_model(*cb).content.width)),
{
    let cb_w = cb.content.width;
    let w_auto = match props.get("width") {
        Some(v) => is_auto_value(v),
        None => true,
    };
    let w0 = match props.get("width") {
        Some(v) => resolve_value(v, cb_w),
        None => 0,
    };
    let ml_auto0 = lookup_auto(props, "margin-left", "margin");
    let mr_auto0 = lookup_auto(props, "margin-right", "margin");
    let ml0 = lookup_px(props, "margin-left", "margin", cb_w);
    let mr0 = lookup_px(props, "margin-right", "margin", cb_w);
    let bl = lookup_px(props, "border-left-width", "border-width", cb_w);
    let br = lookup_px(props, "border-right-width", "border-width", cb_w);
    let pl = lookup_px(props, "padding-left", "padding", cb_w);
    let pr = lookup_px(props, "padding-right", "padding", cb_w);
    let total = px_add(px_add(px_add(px_add(px_add(px_add(w0, ml0), mr0), bl), br), pl), pr);
    let oc = !w_auto && total > cb_w;
    let ml_auto = ml_auto0 && !oc;
    let mr_auto = mr_auto0 && !oc;
    let underflow = px_sub(cb_w, total);
    if w_auto {
        if underflow >= 0 {
            WidthParts {
                width: underflow,
                margin_left: ml0,
                margin_right: mr0,
                border_left: bl,
                border_right: br,
                padding_left: pl,
                padding_right: pr,
            }
        } else {
            WidthParts {
                width: 0,
                margin_left: ml0,
                margin_right: px_add(mr0, underflow),
                border_left: bl,
                border_right: br,
                padding_left: pl,
                padding_right: pr,
            }
        }
    } else if ml_auto && mr_auto {
        WidthParts {
            width: w0,
            margin_left: px_half(underflow),
            margin_right: px_sub(underflow, px_half(underflow)),
            border_left: bl,
            border_right: br,
            padding_left: pl,
            padding_right: pr,
        }
    } else if ml_auto {
        WidthParts {
            width: w0,
            margin_left: underflow,
            margin_right: mr0,
            border_left: bl,
            border_right: br,
            padding_left: pl,
            padding_right: pr,
        }
    } else if mr_auto {
        WidthParts {
            width: w0,
            margin_left: ml0,
            margin_right: underflow,
            border_left: bl,
            border_right: br,
            padding_left: pl,
            padding_right: pr,
        }
    } else {
        WidthParts {
            width: w0,
            margin_left: ml0,
            margin_right: px_add(mr0, underflow),
            border_left: bl,
            border_right: br,
            padding_left: pl,
            padding_right: pr,
        }
    }
}

/// The declared height override, if any.
fn height_value(props: &PropertyMap, cb: &Dimensions) -> (r: Option<i64>)
    requires
        dims_in_range(dims_model(*cb)),
    ensures
        match r {
            Some(h) => spec_height_override(props@, dims_model(*cb).content.width) == Some(
                h as int,
            ) && in_px_range(h as int),
            None => spec_height_override(props@, dims_model(*cb).content.width) is None,
        },
{
    match props.get("height") {
        Some(Value::Length(n, Unit::Px)) => Some(px_clamp(*n)),
        Some(Value::Length(n, Unit::Percent)) => Some(px_percent_of(*n, cb.content.width)),
        _ => None,
    }
}

/// Laying out children only accumulates the parent's content height;
/// every other geometry field of the parent is untouched, and the
/// height stays in the pixel range.
proof fn lemma_layout_children_dims<'a>(
    cs: Seq<BoxModel<'a>>,
    i: int,
    done: Seq<BoxModel<'a>>,
    d: DimsModel,
)
    requires
        dims_in_range(d),
    ensures
        ({
            let r = spec_layout_children(cs, i, done, d);
            &&& r.1.content.x == d.content.x
            &&& r.1.content.y == d.content.y
            &&& r.1.content.width == d.content.width
            &&& r.1.padding == d.padding
            &&& r.1.border == d.border
            &&& r.1.margin == d.margin
            &&& dims_in_range(r.1)
        }),
    decreases cs, 1int, cs.len() - i,
{
    if i < 0 || i >= cs.len() {
    } else {
        let c = spec_layout(cs[i], d);
        let d2 = DimsModel {
            content: RectModel {
                x: d.content.x,
                y: d.content.y,
                width: d.content.width,
                height: spec_px_add(d.content.height, spec_margin_box(c.dims).height),
            },
            padding: d.padding,
            border: d.border,
            margin: d.margin,
        };
        lemma_layout_children_dims(cs, i + 1, done.push(c), d2);
    }
}

/// The geometry a layout produces is in the pixel range.
proof fn lemma_layout_dims_in_range<'a>(b: BoxModel<'a>, cb: DimsModel)
    requires
        dims_in_range(cb),
    ensures
        dims_in_range(spec_layout(b, cb).dims),
{
    let m = box_props(b.kind);
    let d0 = spec_dims_before_children(m, cb);
    assert(dims_in_range(d0));
    lemma_layout_children_dims(b.children, 0, Seq::empty(), d0);
}

/// Every box in the tree has geometry in the pixel range.
pub open spec fn all_dims_in_range(b: BoxModel) -> bool
    decreases b,
{
    &&& dims_in_range(b.dims)
    &&& forall|i: int|
        0 <= i < b.children.len() ==> all_dims_in_range(#[trigger] b.children[i])
}

proof fn lemma_layout_children_all_in_range<'a>(
    cs: Seq<BoxModel<'a>>,
    i: int,
    done: Seq<BoxModel<'a>>,
    d: DimsModel,
)
    requires
        dims_in_range(d),
        forall|k: int| 0 <= k < done.len() ==> all_dims_in_range(#[trigger] done[k]),
    ensures
        forall|k: int|
            0 <= k < spec_layout_children(cs, i, done, d).0.len() ==> all_dims_in_range(
                #[trigger] spec_layout_children(cs, i, done, d).0[k],
            ),
    decreases cs, 1int, cs.len() - i,
{
    if i < 0 || i >= cs.len() {
    } else {
        let c = spec_layout(cs[i], d);
        lemma_layout_all_in_range(cs[i], d);
        let d2 = DimsModel {
            content: RectModel {
                x: d.content.x,
                y: d.content.y,
                width: d.content.width,
                height: spec_px_add(d.content.height, spec_margin_box(c.dims).height),
            },
            padding: d.padding,
            border: d.border,
            margin: d.margin,
        };
        let done2 = done.push(c);
        assert forall|k: int| 0 <= k < done2.len() implies all_dims_in_range(
            #[trigger] done2[k],
        ) by {
            if k < done.len() {
                assert(done2[k] == done[k]);
            } else {
                assert(done2[k] == c);
            }
        }
        lemma_layout_children_all_in_range(cs, i + 1, done2, d2);
        assert(spec_layout_children(cs, i, done, d) == spec_layout_children(cs, i + 1, done2, d2));
    }
}

/// The whole solved tree a layout produces has in-range geometry.
pub proof fn lemma_layout_all_in_range<'a>(b: BoxModel<'a>, cb: DimsModel)
    requires
        dims_in_range(cb),
    ensures
        all_dims_in_range(spec_layout(b, cb)),
    decreases b, 0int, 0int,
{
    let m = box_props(b.kind);
    let d0 = spec_dims_before_children(m, cb);
    assert(dims_in_range(d0));
    lemma_layout_children_dims(b.children, 0, Seq::empty(), d0);
    lemma_layout_children_all_in_range(b.children, 0, Seq::empty(), d0);
    let r = spec_layout(b, cb);
    let kids = spec_layout_children(b.children, 0, Seq::empty(), d0).0;
    assert(r.children == kids);
    assert forall|i: int| 0 <= i < r.children.len() implies all_dims_in_range(
        #[trigger] r.children[i],
    ) by {
        assert(r.children[i] == kids[i]);
    }
    lemma_layout_dims_in_range(b, cb);
}

impl<'a> LayoutBox<'a> {
    /// Solves this box's geometry against its containing block, then
    /// its children against this box, stacking them vertically, and
    /// finally its height bottom-up.
    pub fn layout(&self, containing_block: &Dimensions) -> (r: LayoutBox<'a>)
        requires
            dims_in_range(dims_model(*containing_block)),
        ensures
            box_model(r) == spec_layout(box_model(*self), dims_model(*containing_block)),
            dims_in_range(dims_model(r.dimensions)),
            all_dims_in_range(box_model(r)),
        decreases *self,
    {
        let ghost cbm = dims_model(*containing_block);
        let ghost cs = box_model(*self).children;
        let box_type: BoxType<'a> = self.box_type;
        let empty_props: PropertyMap = StringHashMap::new();
        let props: &PropertyMap = match &box_type {
            BoxType::BlockNode(sn) => &sn.specified_values,
            BoxType::InlineNode(sn) => &sn.specified_values,
            BoxType::AnonymousBlock => &empty_props,
        };
        proof {
            assert(props@ =~= box_props(kind_model(box_type)));
        }
        let ghost m = box_props(kind_model(box_type));
        let w = calculate_block_width(props, containing_block);
        let cb_w = containing_block.content.width;
        let mt = lookup_px(props, "margin-top", "margin", cb_w);
        let mb = lookup_px(props, "margin-bottom", "margin", cb_w);
        let bt = lookup_px(props, "border-top-width", "border-width", cb_w);
        let bb = lookup_px(props, "border-bottom-width", "border-width", cb_w);
        let pt = lookup_px(props, "padding-top", "padding", cb_w);
        let pb = lookup_px(props, "padding-bottom", "padding", cb_w);
        let x = px_add(
            px_add(px_add(containing_block.content.x, w.margin_left), w.border_left),
            w.padding_left,
        );
        let y = px_add(
            px_add(px_add(px_add(containing_block.content.y, containing_block.content.height), mt), bt),
            pt,
        );
        let mut d = Dimensions {
            content: Rect { x, y, width: w.width, height: 0 },
            padding: EdgeSizes { left: w.padding_left, right: w.padding_right, top: pt, bottom: pb },
            border: EdgeSizes { left: w.border_left, right: w.border_right, top: bt, bottom: bb },
            margin: EdgeSizes { left: w.margin_left, right: w.margin_right, top: mt, bottom: mb },
        };
        let ghost d0m = spec_dims_before_children(m, cbm);
        proof {
            assert(dims_model(d) == d0m);
        }
        let n = self.children.len();
        let mut new_children: Vec<LayoutBox<'a>> = Vec::new();
        let mut i: usize = 0;
        proof {
            assert(boxes_model(new_children@) =~= Seq::<BoxModel<'a>>::empty());
            assert(cs.len() == n);
        }
        while i < n
            invariant
                dims_in_range(cbm),
                n == self.children@.len(),
                cs == box_model(*self).children,
                cs.len() == n,
                0 <= i <= n,
                dims_in_range(dims_model(d)),
                spec_layout_children(cs, i as int, boxes_model(new_children@), dims_model(d))
                    == spec_layout_children(cs, 0, Seq::empty(), d0m),
            decreases n - i,
        {
            let ghost done0 = boxes_model(new_children@);
            let ghost dm0 = dims_model(d);
            let child = &self.children[i];
            proof {
                assert(cs[i as int] == box_model(self.children@[i as int]));
            }
            let laid = child.layout(&d);
            proof {
                lemma_layout_dims_in_range(box_model(*child), dims_model(d));
            }
            let mbox = laid.dimensions.margin_box();
            d.content.height = px_add(d.content.height, mbox.height);
            new_children.push(laid);
            proof {
                assert(boxes_model(new_children@) =~= done0.push(box_model(laid)));
                assert(spec_layout_children(cs, i as int, done0, dm0) == spec_layout_children(
                    cs,
                    i + 1,
                    boxes_model(new_children@),
                    dims_model(d),
                ));
            }
            i = i + 1;
        }
        proof {
            assert(i == n);
            assert(spec_layout_children(cs, n as int, boxes_model(new_children@), dims_model(d))
                == (boxes_model(new_children@), dims_model(d)));
        }
        match height_value(props, containing_block) {
            Some(h) => {
                d.content.height = h;
            },
            None => {},
        }
        let result = LayoutBox { dimensions: d, box_type, children: new_children };
        proof {
            assert(box_model(result).children =~= boxes_model(new_children@));
            assert(box_model(result) == spec_layout(box_model(*self), cbm));
            lemma_layout_all_in_range(box_model(*self), cbm);
        }
        result
    }
}

/// Entry point of the layout stage: builds the box tree for the styled
/// root (none when the root is suppressed) and solves its geometry
/// against the viewport, whose content height starts at zero.
pub fn layout_tree<'a>(node: &'a StyledNode<'a>, containing_block: Dimensions) -> (r: Option<
    LayoutBox<'a>>)
    requires
        dims_in_range(dims_model(containing_block)),
    ensures
        (r is Some) == (spec_build(*node) is Some),
        r matches Some(lb) ==> box_model(lb) == spec_layout(
            spec_build(*node)->Some_0,
            spec_viewport(dims_model(containing_block)),
        ),
        r matches Some(lb) ==> all_dims_in_range(box_model(lb)),
{
    let mut cb = containing_block;
    cb.content.height = 0;
    proof {
        assert(dims_model(cb) == spec_viewport(dims_model(containing_block)));
    }
    match build_layout_tree(node) {
        Some(root_box) => Some(root_box.layout(&cb)),
        None => None,
    }
}

/// A viewport's containing block: the given geometry with the content
/// height cursor reset to zero.
pub open spec fn spec_viewport(d: DimsModel) -> DimsModel {
    DimsModel {
        content: RectModel { x: d.content.x, y: d.content.y, width: d.content.width, height: 0 },
        padding: d.padding,
        border: d.border,
        margin: d.margin,
    }
}

/// Entry point of the layout stage.
pub struct LayoutEngine;

impl LayoutEngine {
    pub fn new() -> (e: LayoutEngine) {
        LayoutEngine
    }

    /// Builds and solves the layout tree for a styled root.
    pub fn calculate_layout<'a>(&self, node: &'a StyledNode<'a>, viewport: Dimensions) -> (r:
        Option<LayoutBox<'a>>)
        requires
            dims_in_range(dims_model(viewport)),
        ensures
            (r is Some) == (spec_build(*node) is Some),
            r matches Some(lb) ==> box_model(lb) == spec_layout(
                spec_build(*node)->Some_0,
                spec_viewport(dims_model(viewport)),
            ),
            r matches Some(lb) ==> all_dims_in_range(box_model(lb)),
    {
        layout_tree(node, viewport)
    }
}

impl Default for Dimensions {
    /// All-zero geometry.
    fn default() -> (d: Dimensions)
        ensures
            dims_model(d) == spec_zero_dims(),
    {
        let zero_rect = Rect { x: 0, y: 0, width: 0, height: 0 };
        let zero_edges = EdgeSizes { left: 0, right: 0, top: 0, bottom: 0 };
        Dimensions {
            content: zero_rect,
            padding: zero_edges,
            border: zero_edges,
            margin: zero_edges,
        }
    }
}

} // verus!
