//! The layout engine: building a box tree from the styled tree and solving
//! block-model geometry against a containing block.
//!
//! Widths are solved top-down before a box's children are laid out; heights
//! are summed bottom-up from the children's margin boxes afterwards. All
//! pixel arithmetic saturates at the `i64` range (see [`crate::geometry`]).

use vstd::prelude::*;

use crate::assoc::assoc;
use crate::css::{to_px_spec, Unit, Value, ValueV};
use crate::geometry::{clip, half_toward_zero, px_add, px_half, px_sub, Dimensions};
use crate::style::{display_of, lookup_spec, PropertyMap, StyledNode, StyledNodeV};
use crate::text::eq_str;

verus! {

/// How an element is displayed: the computed value of its `display` property.
#[derive(PartialEq, Eq, Structural, Clone, Copy, Debug)]
pub enum Display {
    Inline,
    Block,
    /// `display: none`: the node and its subtree are omitted from layout.
    Omitted,
}

/// What kind of box a layout box is; block and inline boxes carry the
/// property map of the styled node they were built from.
#[derive(PartialEq, Eq, Debug)]
pub enum BoxType {
    BlockNode(PropertyMap),
    InlineNode(PropertyMap),
    AnonymousBlock,
}

/// The mathematical model of a `BoxType`.
pub enum BoxTypeV {
    BlockNode(Seq<(Seq<char>, ValueV)>),
    InlineNode(Seq<(Seq<char>, ValueV)>),
    AnonymousBlock,
}

impl View for BoxType {
    type V = BoxTypeV;

    open spec fn view(&self) -> BoxTypeV {
        match self {
            BoxType::BlockNode(m) => BoxTypeV::BlockNode(m@),
            BoxType::InlineNode(m) => BoxTypeV::InlineNode(m@),
            BoxType::AnonymousBlock => BoxTypeV::AnonymousBlock,
        }
    }
}

/// A box of the layout tree: its kind, its solved dimensions and its child
/// boxes.
#[derive(PartialEq, Eq, Debug)]
pub struct LayoutBox {
    pub dimensions: Dimensions,
    pub box_type: BoxType,
    pub children: Vec<LayoutBox>,
}

/// The mathematical model of a `LayoutBox`.
pub struct LayoutBoxV {
    pub dimensions: Dimensions,
    pub box_type: BoxTypeV,
    pub children: Seq<LayoutBoxV>,
}

/// The mathematical model of a layout box: the same tree over sequences.
pub open spec fn layout_box_view(b: LayoutBox) -> LayoutBoxV
    decreases b,
    via layout_box_view_decreases
{
    LayoutBoxV {
        dimensions: b.dimensions,
        box_type: b.box_type@,
        children: Seq::new(
            b.children@.len(),
            |i: int|
                if 0 <= i < b.children@.len() {
                    layout_box_view(b.children@[i])
                } else {
                    arbitrary()
                },
        ),
    }
}

#[via_fn]
proof fn layout_box_view_decreases(b: LayoutBox) {
    assert forall|i: int| 0 <= i < b.children@.len() implies decreases_to!(
        b => b.children@[i]
    ) by {
        assert(decreases_to!(b => b.children));
        assert(decreases_to!(b.children => b.children@));
        assert(decreases_to!(b.children@ => b.children@[i]));
    }
}

impl View for LayoutBox {
    type V = LayoutBoxV;

    open spec fn view(&self) -> LayoutBoxV {
        layout_box_view(*self)
    }
}

/// The property map a box draws its style from; anonymous boxes have none,
/// so every lookup falls back to its default.
pub open spec fn box_style(b: BoxTypeV) -> Seq<(Seq<char>, ValueV)> {
    match b {
        BoxTypeV::BlockNode(m) => m,
        BoxTypeV::InlineNode(m) => m,
        BoxTypeV::AnonymousBlock => Seq::empty(),
    }
}

/// The error of the one fatal condition: a document root that resolves to
/// `display: none` leaves nothing to lay out.
#[derive(PartialEq, Eq, Structural, Clone, Copy, Debug)]
pub enum LayoutError {
    UnsupportedRootDisplay,
}

// ------------------------------------------------------------------
// Box-tree construction
// ------------------------------------------------------------------

/// The box a styled node becomes, by its display value. Only called on nodes
/// whose display is block or inline.
pub open spec fn build_spec(s: StyledNodeV) -> LayoutBoxV
    decreases s, 1int, 0int,
    via build_spec_decreases
{
    let bt = match display_of(s.specified_values) {
        Display::Block => BoxTypeV::BlockNode(s.specified_values),
        Display::Inline => BoxTypeV::InlineNode(s.specified_values),
        Display::Omitted => arbitrary(),
    };
    LayoutBoxV {
        dimensions: Dimensions::zero(),
        box_type: bt,
        children: build_children_spec(
            s.children,
            0,
            display_of(s.specified_values) is Inline,
            Seq::empty(),
        ),
    }
}

/// The child boxes a sequence of styled children produces, from index `i` on,
/// starting from the boxes `acc` built so far. A block child becomes a child
/// box of its own; an inline child goes into the parent itself when the
/// parent is inline, and otherwise into an anonymous block that is reused
/// while it is the last child; a none-display child is omitted with its whole
/// subtree.
pub open spec fn build_children_spec(
    children: Seq<StyledNodeV>,
    i: int,
    parent_inline: bool,
    acc: Seq<LayoutBoxV>,
) -> Seq<LayoutBoxV>
    decreases children, 0int, children.len() - i,
    via build_children_spec_decreases
{
    if i < 0 || i >= children.len() {
        acc
    } else {
        let c = children[i];
        let acc2 = match display_of(c.specified_values) {
            Display::Block => acc.push(build_spec(c)),
            Display::Inline => if parent_inline {
                acc.push(build_spec(c))
            } else if acc.len() > 0 && acc.last().box_type is AnonymousBlock {
                acc.update(
                    acc.len() - 1,
                    LayoutBoxV {
                        dimensions: acc.last().dimensions,
                        box_type: BoxTypeV::AnonymousBlock,
                        children: acc.last().children.push(build_spec(c)),
                    },
                )
            } else {
                acc.push(
                    LayoutBoxV {
                        dimensions: Dimensions::zero(),
                        box_type: BoxTypeV::AnonymousBlock,
                        children: seq![build_spec(c)],
                    },
                )
            },
            Display::Omitted => acc,
        };
        build_children_spec(children, i + 1, parent_inline, acc2)
    }
}

#[via_fn]
proof fn build_spec_decreases(s: StyledNodeV) {
    assert(decreases_to!(s => s.children));
}

#[via_fn]
proof fn build_children_spec_decreases(
    children: Seq<StyledNodeV>,
    i: int,
    parent_inline: bool,
    acc: Seq<LayoutBoxV>,
) {
    if 0 <= i < children.len() {
        assert(decreases_to!(children => children[i]));
    }
}

// ------------------------------------------------------------------
// Width resolution
// ------------------------------------------------------------------

/// The resolved horizontal sizes of a block box.
#[derive(PartialEq, Eq, Structural, Clone, Copy, Debug)]
pub struct BlockWidths {
    pub width: i64,
    pub margin_left: i64,
    pub margin_right: i64,
    pub border_left: i64,
    pub border_right: i64,
    pub padding_left: i64,
    pub padding_right: i64,
}

/// The `auto` keyword.
pub open spec fn auto_value() -> ValueV {
    ValueV::Keyword("auto"@)
}

/// A zero-pixel length.
pub open spec fn zero_length() -> ValueV {
    ValueV::Length(0, Unit::Px)
}

/// Block width resolution against the containing block's content width
/// `cb_width`: an auto width absorbs the remaining space, clamped at zero;
/// with an explicit width, auto margins share the leftover space, and when
/// nothing is auto the right margin absorbs the difference.
pub open spec fn solve_width(style: Seq<(Seq<char>, ValueV)>, cb_width: int) -> BlockWidths {
    let width = match assoc(style, "width"@) {
        Some(v) => v,
        None => auto_value(),
    };
    let margin_left = lookup_spec(style, "margin-left"@, "margin"@, zero_length());
    let margin_right = lookup_spec(style, "margin-right"@, "margin"@, zero_length());
    let border_left = lookup_spec(style, "border-left-width"@, "border-width"@, zero_length());
    let border_right = lookup_spec(style, "border-right-width"@, "border-width"@, zero_length());
    let padding_left = lookup_spec(style, "padding-left"@, "padding"@, zero_length());
    let padding_right = lookup_spec(style, "padding-right"@, "padding"@, zero_length());
    let total = clip(clip(clip(clip(clip(clip(to_px_spec(margin_left) + to_px_spec(margin_right))
        + to_px_spec(border_left)) + to_px_spec(border_right)) + to_px_spec(padding_left))
        + to_px_spec(padding_right)) + to_px_spec(width));
    let width_auto = width == auto_value();
    let margin_left = if width_auto || total <= cb_width || margin_left != auto_value() {
        margin_left
    } else {
        zero_length()
    };
    let margin_right = if width_auto || total <= cb_width || margin_right != auto_value() {
        margin_right
    } else {
        zero_length()
    };
    let underflow = clip(cb_width - total);
    let ml_auto = margin_left == auto_value();
    let mr_auto = margin_right == auto_value();
    let widths = if !width_auto && !ml_auto && !mr_auto {
        (width, margin_left, ValueV::Length(clip(to_px_spec(margin_right) + underflow), Unit::Px))
    } else if !width_auto && !ml_auto && mr_auto {
        (width, margin_left, ValueV::Length(underflow, Unit::Px))
    } else if !width_auto && ml_auto && !mr_auto {
        (width, ValueV::Length(underflow, Unit::Px), margin_right)
    } else if width_auto {
        let margin_left = if ml_auto {
            zero_length()
        } else {
            margin_left
        };
        let margin_right = if mr_auto {
            zero_length()
        } else {
            margin_right
        };
        if underflow >= 0 {
            (ValueV::Length(underflow, Unit::Px), margin_left, margin_right)
        } else {
            (
                ValueV::Length(0, Unit::Px),
                margin_left,
                ValueV::Length(clip(to_px_spec(margin_right) + underflow), Unit::Px),
            )
        }
    } else {
        (
            width,
            ValueV::Length(half_toward_zero(underflow), Unit::Px),
            ValueV::Length(half_toward_zero(underflow), Unit::Px),
        )
    };
    BlockWidths {
        width: to_px_spec(widths.0) as i64,
        margin_left: to_px_spec(widths.1) as i64,
        margin_right: to_px_spec(widths.2) as i64,
        border_left: to_px_spec(border_left) as i64,
        border_right: to_px_spec(border_right) as i64,
        padding_left: to_px_spec(padding_left) as i64,
        padding_right: to_px_spec(padding_right) as i64,
    }
}

/// Whether a value is the `auto` keyword.
fn is_auto(v: &Value) -> (r: bool)
    ensures
        r == (v@ == auto_value()),
{
    match v {
        Value::Keyword(s) => eq_str(s.as_str(), "auto"),
        _ => false,
    }
}

/// Calculate the width of a block-level box: resolve `width` and the
/// horizontal margins, borders and paddings against the containing block.
pub fn calculate_block_width(style: &PropertyMap, containing_block: Dimensions) -> (r: BlockWidths)
    ensures
        r == solve_width(style@, containing_block.content.width as int),
{
    let zero = Value::Length(0, Unit::Px);
    // `width` has initial value `auto`.
    let mut width = match style.get("width") {
        Some(v) => v.dup(),
        None => Value::Keyword("auto".to_owned()),
    };
    let mut margin_left = style.lookup("margin-left", "margin", &zero);
    let mut margin_right = style.lookup("margin-right", "margin", &zero);
    let border_left = style.lookup("border-left-width", "border-width", &zero);
    let border_right = style.lookup("border-right-width", "border-width", &zero);
    let padding_left = style.lookup("padding-left", "padding", &zero);
    let padding_right = style.lookup("padding-right", "padding", &zero);
    let total = px_add(
        px_add(
            px_add(
                px_add(
                    px_add(px_add(margin_left.to_px(), margin_right.to_px()), border_left.to_px()),
                    border_right.to_px(),
                ),
                padding_left.to_px(),
            ),
            padding_right.to_px(),
        ),
        width.to_px(),
    );
    let width_auto = is_auto(&width);
    // If width is not auto and the total is wider than the containing block,
    // treat auto margins as 0.
    if !width_auto && total > containing_block.content.width {
        if is_auto(&margin_left) {
            margin_left = Value::Length(0, Unit::Px);
        }
        if is_auto(&margin_right) {
            margin_right = Value::Length(0, Unit::Px);
        }
    }
    // Adjust the used values so that the sizes add up to the containing width.
    let underflow = px_sub(containing_block.content.width, total);
    let ml_auto = is_auto(&margin_left);
    let mr_auto = is_auto(&margin_right);
    if !width_auto && !ml_auto && !mr_auto {
        // Overconstrained: the right margin absorbs the difference.
        margin_right = Value::Length(px_add(margin_right.to_px(), underflow), Unit::Px);
    } else if !width_auto && !ml_auto && mr_auto {
        margin_right = Value::Length(underflow, Unit::Px);
    } else if !width_auto && ml_auto && !mr_auto {
        margin_left = Value::Length(underflow, Unit::Px);
    } else if width_auto {
        // An auto width absorbs all the remaining space, clamped at zero.
        if ml_auto {
            margin_left = Value::Length(0, Unit::Px);
        }
        if mr_auto {
            margin_right = Value::Length(0, Unit::Px);
        }
        if underflow >= 0 {
            width = Value::Length(underflow, Unit::Px);
        } else {
            width = Value::Length(0, Unit::Px);
            margin_right = Value::Length(px_add(margin_right.to_px(), underflow), Unit::Px);
        }
    } else {
        // Both margins auto: split the leftover space equally.
        let half = px_half(underflow);
        margin_left = Value::Length(half, Unit::Px);
        margin_right = Value::Length(half, Unit::Px);
    }
    BlockWidths {
        width: width.to_px(),
        margin_left: margin_left.to_px(),
        margin_right: margin_right.to_px(),
        border_left: border_left.to_px(),
        border_right: border_right.to_px(),
        padding_left: padding_left.to_px(),
        padding_right: padding_right.to_px(),
    }
}

/// The dimensions after storing the resolved horizontal sizes.
pub open spec fn width_dims(d: Dimensions, w: BlockWidths) -> Dimensions {
    Dimensions {
        content: crate::geometry::Rect { width: w.width, ..d.content },
        padding: crate::geometry::EdgeSizes {
            left: w.padding_left,
            right: w.padding_right,
            ..d.padding
        },
        border: crate::geometry::EdgeSizes {
            left: w.border_left,
            right: w.border_right,
            ..d.border
        },
        margin: crate::geometry::EdgeSizes {
            left: w.margin_left,
            right: w.margin_right,
            ..d.margin
        },
    }
}

// ------------------------------------------------------------------
// Position, children and height
// ------------------------------------------------------------------

/// The dimensions after resolving the vertical edges and the box's position:
/// the box starts below the content laid out so far in the containing block,
/// offset by its own top/left margin, border and padding.
pub open spec fn position_dims(
    style: Seq<(Seq<char>, ValueV)>,
    d: Dimensions,
    cb: Dimensions,
) -> Dimensions {
    let margin_top = to_px_spec(lookup_spec(style, "margin-top"@, "margin"@, zero_length()));
    let margin_bottom = to_px_spec(lookup_spec(style, "margin-bottom"@, "margin"@, zero_length()));
    let border_top = to_px_spec(
        lookup_spec(style, "border-top-width"@, "border-width"@, zero_length()),
    );
    let border_bottom = to_px_spec(
        lookup_spec(style, "border-bottom-width"@, "border-width"@, zero_length()),
    );
    let padding_top = to_px_spec(lookup_spec(style, "padding-top"@, "padding"@, zero_length()));
    let padding_bottom = to_px_spec(
        lookup_spec(style, "padding-bottom"@, "padding"@, zero_length()),
    );
    let x = clip(clip(clip(cb.content.x + d.margin.left) + d.border.left) + d.padding.left);
    let y = clip(clip(clip(clip(cb.content.height + cb.content.y) + margin_top) + border_top)
        + padding_top);
    Dimensions {
        content: crate::geometry::Rect { x: x as i64, y: y as i64, ..d.content },
        padding: crate::geometry::EdgeSizes {
            top: padding_top as i64,
            bottom: padding_bottom as i64,
            ..d.padding
        },
        border: crate::geometry::EdgeSizes {
            top: border_top as i64,
            bottom: border_bottom as i64,
            ..d.border
        },
        margin: crate::geometry::EdgeSizes {
            top: margin_top as i64,
            bottom: margin_bottom as i64,
            ..d.margin
        },
    }
}

/// Position a block-level box below the previous content of its containing
/// block, and resolve its vertical margins, borders and paddings.
pub fn calculate_block_position(style: &PropertyMap, d: Dimensions, containing_block: Dimensions)
    -> (r: Dimensions)
    ensures
        r == position_dims(style@, d, containing_block),
{
    let zero = Value::Length(0, Unit::Px);
    let mut d = d;
    d.margin.top = style.lookup("margin-top", "margin", &zero).to_px();
    d.margin.bottom = style.lookup("margin-bottom", "margin", &zero).to_px();
    d.border.top = style.lookup("border-top-width", "border-width", &zero).to_px();
    d.border.bottom = style.lookup("border-bottom-width", "border-width", &zero).to_px();
    d.padding.top = style.lookup("padding-top", "padding", &zero).to_px();
    d.padding.bottom = style.lookup("padding-bottom", "padding", &zero).to_px();
    d.content.x = px_add(
        px_add(px_add(containing_block.content.x, d.margin.left), d.border.left),
        d.padding.left,
    );
    // Position the box below all the previous boxes in the container.
    d.content.y = px_add(
        px_add(
            px_add(
                px_add(containing_block.content.height, containing_block.content.y),
                d.margin.top,
            ),
            d.border.top,
        ),
        d.padding.top,
    );
    d
}

/// The dimensions after resolving the box's height: an explicit pixel
/// `height` overrides the content-driven height summed from the children.
pub open spec fn height_dims(style: Seq<(Seq<char>, ValueV)>, d: Dimensions) -> Dimensions {
    match assoc(style, "height"@) {
        Some(v) => match v {
            ValueV::Length(h, Unit::Px) => Dimensions {
                content: crate::geometry::Rect { height: clip(h) as i64, ..d.content },
                ..d
            },
            _ => d,
        },
        None => d,
    }
}

// ------------------------------------------------------------------
// The geometry pass
// ------------------------------------------------------------------

/// A box after geometry solving: every box runs the block algorithm against
/// its containing block; anonymous boxes have no style, so all their edges
/// resolve to zero and their width to auto.
pub open spec fn layout_spec(b: LayoutBoxV, cb: Dimensions) -> LayoutBoxV
    decreases b, 2int, 0int,
    via layout_spec_decreases
{
    layout_block_spec(b, cb)
}

/// The block layout algorithm: width first (top-down), then position, then
/// the children against this box's content box, then the height (bottom-up).
pub open spec fn layout_block_spec(b: LayoutBoxV, cb: Dimensions) -> LayoutBoxV
    decreases b, 1int, 0int,
    via layout_block_spec_decreases
{
    let style = box_style(b.box_type);
    let d1 = width_dims(b.dimensions, solve_width(style, cb.content.width as int));
    let d2 = position_dims(style, d1, cb);
    let done = layout_children_spec(b.children, 0, d2);
    let d3 = height_dims(style, done.1);
    LayoutBoxV { dimensions: d3, box_type: b.box_type, children: done.0 }
}

/// Lay out the children from index `i` on, each against the dimensions built
/// up so far; after each child the content height grows by the child's
/// margin-box height, which is where the next sibling starts.
pub open spec fn layout_children_spec(children: Seq<LayoutBoxV>, i: int, d: Dimensions) -> (
    Seq<LayoutBoxV>,
    Dimensions,
)
    decreases children, 0int, children.len() - i,
    via layout_children_spec_decreases
{
    if i < 0 || i >= children.len() {
        (Seq::empty(), d)
    } else {
        let c = layout_spec(children[i], d);
        let d2 = Dimensions {
            content: crate::geometry::Rect {
                height: clip(d.content.height + c.dimensions.spec_margin_box().height) as i64,
                ..d.content
            },
            ..d
        };
        let rest = layout_children_spec(children, i + 1, d2);
        (seq![c] + rest.0, rest.1)
    }
}

#[via_fn]
proof fn layout_spec_decreases(b: LayoutBoxV, cb: Dimensions) {
}

#[via_fn]
proof fn layout_block_spec_decreases(b: LayoutBoxV, cb: Dimensions) {
    assert(decreases_to!(b => b.children));
}

#[via_fn]
proof fn layout_children_spec_decreases(children: Seq<LayoutBoxV>, i: int, d: Dimensions) {
    if 0 <= i < children.len() {
        assert(decreases_to!(children => children[i]));
    }
}

impl LayoutBox {
    /// A fresh box of the given kind with zero dimensions and no children.
    pub fn new(box_type: BoxType) -> (r: Self)
        ensures
            r@ == (LayoutBoxV {
                dimensions: Dimensions::zero(),
                box_type: box_type@,
                children: Seq::<LayoutBoxV>::empty(),
            }),
    {
        let r = LayoutBox { dimensions: Dimensions::default(), box_type, children: Vec::new() };
        proof {
            assert(r@.children =~= Seq::<LayoutBoxV>::empty());
        }
        r
    }

    /// Lay this box and its subtree out against the given containing block:
    /// width first, then position, then the children, then the height.
    #[verifier::loop_isolation(false)]
    pub fn layout(self, containing_block: Dimensions) -> (r: LayoutBox)
        ensures
            r@ == layout_spec(self@, containing_block),
        decreases self,
    {
        let ghost self0 = self;
        let ghost selfv = self@;
        let LayoutBox { dimensions, box_type, children } = self;
        let style = match &box_type {
            BoxType::BlockNode(m) => m.dup(),
            BoxType::InlineNode(m) => m.dup(),
            BoxType::AnonymousBlock => PropertyMap::new(),
        };
        proof {
            assert(style@ =~= box_style(selfv.box_type));
        }
        // Child width can depend on parent width, so widths come
        // before laying out the children.
        let w = calculate_block_width(&style, containing_block);
        let mut d = dimensions;
        d.content.width = w.width;
        d.padding.left = w.padding_left;
        d.padding.right = w.padding_right;
        d.border.left = w.border_left;
        d.border.right = w.border_right;
        d.margin.left = w.margin_left;
        d.margin.right = w.margin_right;
        proof {
            assert(d == width_dims(
                selfv.dimensions,
                solve_width(
                    box_style(selfv.box_type),
                    containing_block.content.width as int,
                ),
            ));
        }
        // Determine where the box is located within its container.
        let mut d = calculate_block_position(&style, d, containing_block);
        // Recursively lay out the children of this box.
        let ghost d_start = d;
        let mut rest = children;
        let mut done: Vec<LayoutBox> = Vec::new();
        let ghost cs = rest@;
        let ghost allv = selfv.children;
        proof {
            assert(allv =~= cs.map_values(|c: LayoutBox| c@));
        }
        let ghost goal = layout_children_spec(allv, 0, d_start);
        while rest.len() > 0
            invariant
                cs.len() == done@.len() + rest@.len(),
                rest@ == cs.subrange(done@.len() as int, cs.len() as int),
                goal.0 == done@.map_values(|c: LayoutBox| c@) + layout_children_spec(
                    allv,
                    done@.len() as int,
                    d,
                ).0,
                goal.1 == layout_children_spec(allv, done@.len() as int, d).1,
            decreases rest@.len(),
        {
            let ghost i = done@.len() as int;
            let ghost done_before = done@;
            let child = rest.remove(0);
            proof {
                assert(child == cs[i]);
                assert(decreases_to!(self0 => self0.children));
                assert(decreases_to!(self0.children => self0.children@));
                assert(decreases_to!(self0.children@ => self0.children@[i]));
                assert(child@ == allv[i]);
                assert(rest@ =~= cs.subrange(i + 1, cs.len() as int));
            }
            let laid = child.layout(d);
            // The next sibling starts below this child's margin box.
            d.content.height = px_add(d.content.height, laid.dimensions.margin_box().height);
            done.push(laid);
            proof {
                assert(done@.map_values(|c: LayoutBox| c@) =~= done_before.map_values(
                    |c: LayoutBox| c@,
                ).push(laid@));
                assert(done_before.map_values(|c: LayoutBox| c@) + (seq![laid@]
                    + layout_children_spec(allv, i + 1, d).0) =~= done@.map_values(
                    |c: LayoutBox| c@,
                ) + layout_children_spec(allv, i + 1, d).0);
            }
        }
        proof {
            assert(goal.0 =~= done@.map_values(|c: LayoutBox| c@));
            assert(goal.1 == d);
        }
        // An explicit `height` overrides the content-driven height.
        let mut d = d;
        match style.get("height") {
            Some(v) => match v {
                Value::Length(h, Unit::Px) => {
                    d.content.height = *h;
                },
                _ => {},
            },
            None => {},
        }
        proof {
            assert(d == height_dims(box_style(selfv.box_type), goal.1));
        }
        let r = LayoutBox { dimensions: d, box_type, children: done };
        proof {
            assert(r@.children =~= layout_block_spec(selfv, containing_block).children);
            assert(r@ == layout_block_spec(selfv, containing_block));
        }
        r
    }
}

// ------------------------------------------------------------------
// Entry points
// ------------------------------------------------------------------

/// The containing block as the geometry pass sees it: the caller-supplied
/// viewport with its content height forced to zero, since height is an
/// output of layout, never an input.
pub open spec fn layout_viewport(cb: Dimensions) -> Dimensions {
    Dimensions { content: crate::geometry::Rect { height: 0, ..cb.content }, ..cb }
}

/// Build the tree of layout boxes for a styled node, without any geometry
/// calculations yet.
#[verifier::loop_isolation(false)]
pub fn build_layout_tree(style_node: &StyledNode) -> (r: LayoutBox)
    requires
        display_of(style_node@.specified_values) != Display::Omitted,
    ensures
        r@ == build_spec(style_node@),
    decreases *style_node,
{
    // Create the root box.
    let box_type = match style_node.display() {
        Display::Block => BoxType::BlockNode(style_node.specified_values.dup()),
        Display::Inline => BoxType::InlineNode(style_node.specified_values.dup()),
        Display::Omitted => {
            proof {
                assert(false);
            }
            BoxType::AnonymousBlock
        },
    };
    let ghost pi = display_of(style_node@.specified_values) is Inline;
    let mut root = LayoutBox { dimensions: Dimensions::default(), box_type, children: Vec::new() };
    let ghost childrenv = style_node@.children;
    let ghost goal = build_children_spec(childrenv, 0, pi, Seq::empty());
    proof {
        assert(root@.children =~= Seq::<LayoutBoxV>::empty());
        assert(root@.box_type == build_spec(style_node@).box_type);
    }
    // Create the descendant boxes.
    let mut i: usize = 0;
    while i < style_node.children.len()
        invariant
            i <= style_node.children@.len(),
            root.dimensions == (Dimensions {
                content: crate::geometry::Rect { x: 0, y: 0, width: 0, height: 0 },
                padding: crate::geometry::EdgeSizes { left: 0, right: 0, top: 0, bottom: 0 },
                border: crate::geometry::EdgeSizes { left: 0, right: 0, top: 0, bottom: 0 },
                margin: crate::geometry::EdgeSizes { left: 0, right: 0, top: 0, bottom: 0 },
            }),
            root@.box_type == build_spec(style_node@).box_type,
            (root@.box_type is InlineNode) == pi,
            build_children_spec(childrenv, i as int, pi, root@.children) == goal,
        decreases style_node.children@.len() - i,
    {
        proof {
            assert(decreases_to!(*style_node => style_node.children));
            assert(decreases_to!(style_node.children => style_node.children@));
            assert(decreases_to!(style_node.children@ => style_node.children@[i as int]));
            assert(childrenv[i as int] == style_node.children@[i as int]@);
        }
        let child = &style_node.children[i];
        let ghost acc0 = root@.children;
        match child.display() {
            Display::Block => {
                let built = build_layout_tree(child);
                root.children.push(built);
                proof {
                    assert(display_of(childrenv[i as int].specified_values) == Display::Block);
                    assert(root@.children =~= acc0.push(build_spec(childrenv[i as int])));
                    assert(root@.children == acc0.push(build_spec(childrenv[i as int])));
                }
            },
            Display::Inline => {
                let built = build_layout_tree(child);
                let is_inline_parent = match &root.box_type {
                    BoxType::InlineNode(_) => true,
                    _ => false,
                };
                if is_inline_parent {
                    root.children.push(built);
                    proof {
                        assert(root@.children =~= acc0.push(build_spec(childrenv[i as int])));
                        assert(pi);
                        assert(root@.children == acc0.push(build_spec(childrenv[i as int])));
                    }
                } else {
                    // Inline children of a block container go into an
                    // anonymous block, reused while it is the last child.
                    let n = root.children.len();
                    let mut reuse = false;
                    if n > 0 {
                        match &root.children[n - 1].box_type {
                            BoxType::AnonymousBlock => {
                                reuse = true;
                            },
                            _ => {},
                        }
                    }
                    if reuse {
                        match root.children.pop() {
                            Some(anon) => {
                                let ghost anonv = anon@;
                                let mut anon = anon;
                                anon.children.push(built);
                                proof {
                                    assert(anon@.children =~= anonv.children.push(
                                        build_spec(childrenv[i as int]),
                                    ));
                                }
                                root.children.push(anon);
                                proof {
                                    assert(root@.children =~= acc0.update(
                                        acc0.len() - 1,
                                        LayoutBoxV {
                                            dimensions: acc0.last().dimensions,
                                            box_type: BoxTypeV::AnonymousBlock,
                                            children: acc0.last().children.push(
                                                build_spec(childrenv[i as int]),
                                            ),
                                        },
                                    ));
                                    assert(!pi && acc0.len() > 0 && acc0.last().box_type
                                        is AnonymousBlock);
                                }
                            },
                            None => {
                                proof {
                                    assert(false);
                                }
                            },
                        }
                    } else {
                        let mut anon = LayoutBox::new(BoxType::AnonymousBlock);
                        anon.children.push(built);
                        proof {
                            assert(anon@.children =~= seq![build_spec(childrenv[i as int])]);
                        }
                        root.children.push(anon);
                        proof {
                            assert(root@.children =~= acc0.push(
                                LayoutBoxV {
                                    dimensions: Dimensions::zero(),
                                    box_type: BoxTypeV::AnonymousBlock,
                                    children: seq![build_spec(childrenv[i as int])],
                                },
                            ));
                            assert(!pi && !(acc0.len() > 0 && acc0.last().box_type
                                is AnonymousBlock));
                        }
                    }
                }
            },
            Display::Omitted => {},
        }
        proof {
            let ghost c = childrenv[i as int];
            let ghost acc2 = match display_of(c.specified_values) {
                Display::Block => acc0.push(build_spec(c)),
                Display::Inline => if pi {
                    acc0.push(build_spec(c))
                } else if acc0.len() > 0 && acc0.last().box_type is AnonymousBlock {
                    acc0.update(
                        acc0.len() - 1,
                        LayoutBoxV {
                            dimensions: acc0.last().dimensions,
                            box_type: BoxTypeV::AnonymousBlock,
                            children: acc0.last().children.push(build_spec(c)),
                        },
                    )
                } else {
                    acc0.push(
                        LayoutBoxV {
                            dimensions: Dimensions::zero(),
                            box_type: BoxTypeV::AnonymousBlock,
                            children: seq![build_spec(c)],
                        },
                    )
                },
                Display::Omitted => acc0,
            };
            assert(root@.children == acc2);
            assert(build_children_spec(childrenv, i as int, pi, acc0) == build_children_spec(
                childrenv,
                i as int + 1,
                pi,
                acc2,
            ));
        }
        i = i + 1;
    }
    proof {
        assert(root@ == build_spec(style_node@));
    }
    root
}

/// Transform a style tree into a layout tree, solving all geometry against
/// the given containing block. A root whose display resolves to none is the
/// one fatal condition; everything else yields a laid-out box tree.
pub fn layout_tree(node: &StyledNode, containing_block: Dimensions) -> (r: Result<
    LayoutBox,
    LayoutError,
>)
    ensures
        match r {
            Ok(b) => display_of(node@.specified_values) != Display::Omitted && b@ == layout_spec(
                build_spec(node@),
                layout_viewport(containing_block),
            ),
            Err(e) => display_of(node@.specified_values) == Display::Omitted && e
                == LayoutError::UnsupportedRootDisplay,
        },
{
    // The layout algorithm expects the container height to start at 0.
    let mut containing_block = containing_block;
    containing_block.content.height = 0;
    match node.display() {
        Display::Omitted => Err(LayoutError::UnsupportedRootDisplay),
        _ => {
            let root_box = build_layout_tree(node);
            Ok(root_box.layout(containing_block))
        },
    }
}

// ------------------------------------------------------------------
// Laws of the box tree
// ------------------------------------------------------------------

/// Auto-width resolution: a box whose `width` is auto and whose horizontal
/// margins, borders and paddings all resolve to zero takes exactly its
/// containing block's content width.
pub proof fn lemma_auto_width_fills_containing_block(
    style: Seq<(Seq<char>, ValueV)>,
    cb_width: int,
)
    requires
        0 <= cb_width <= i64::MAX,
        match assoc(style, "width"@) {
            Some(v) => v == auto_value(),
            None => true,
        },
        lookup_spec(style, "margin-left"@, "margin"@, zero_length()) == zero_length(),
        lookup_spec(style, "margin-right"@, "margin"@, zero_length()) == zero_length(),
        lookup_spec(style, "border-left-width"@, "border-width"@, zero_length()) == zero_length(),
        lookup_spec(style, "border-right-width"@, "border-width"@, zero_length()) == zero_length(),
        lookup_spec(style, "padding-left"@, "padding"@, zero_length()) == zero_length(),
        lookup_spec(style, "padding-right"@, "padding"@, zero_length()) == zero_length(),
    ensures
        solve_width(style, cb_width).width == cb_width,
        solve_width(style, cb_width).margin_left == 0,
        solve_width(style, cb_width).margin_right == 0,
{
}

/// Children from `k` on read the same when a child before `k` is removed,
/// with the positions after it shifted down by one.
proof fn lemma_build_children_shift(
    c1: Seq<StyledNodeV>,
    c2: Seq<StyledNodeV>,
    i: int,
    k: int,
    parent_inline: bool,
    acc: Seq<LayoutBoxV>,
)
    requires
        0 <= i < c1.len(),
        c2 == c1.subrange(0, i) + c1.subrange(i + 1, c1.len() as int),
        i + 1 <= k <= c1.len(),
    ensures
        build_children_spec(c1, k, parent_inline, acc) == build_children_spec(
            c2,
            k - 1,
            parent_inline,
            acc,
        ),
    decreases c1.len() - k,
{
    if k < c1.len() {
        assert(c1[k] == c2[k - 1]);
        let c = c1[k];
        let acc2 = match display_of(c.specified_values) {
            Display::Block => acc.push(build_spec(c)),
            Display::Inline => if parent_inline {
                acc.push(build_spec(c))
            } else if acc.len() > 0 && acc.last().box_type is AnonymousBlock {
                acc.update(
                    acc.len() - 1,
                    LayoutBoxV {
                        dimensions: acc.last().dimensions,
                        box_type: BoxTypeV::AnonymousBlock,
                        children: acc.last().children.push(build_spec(c)),
                    },
                )
            } else {
                acc.push(
                    LayoutBoxV {
                        dimensions: Dimensions::zero(),
                        box_type: BoxTypeV::AnonymousBlock,
                        children: seq![build_spec(c)],
                    },
                )
            },
            Display::Omitted => acc,
        };
        lemma_build_children_shift(c1, c2, i, k + 1, parent_inline, acc2);
    }
}

/// Children before an omitted child read the same whether or not it is
/// removed from the list.
proof fn lemma_build_children_skip(
    c1: Seq<StyledNodeV>,
    c2: Seq<StyledNodeV>,
    i: int,
    k: int,
    parent_inline: bool,
    acc: Seq<LayoutBoxV>,
)
    requires
        0 <= i < c1.len(),
        display_of(c1[i].specified_values) == Display::Omitted,
        c2 == c1.subrange(0, i) + c1.subrange(i + 1, c1.len() as int),
        0 <= k <= i,
    ensures
        build_children_spec(c1, k, parent_inline, acc) == build_children_spec(
            c2,
            k,
            parent_inline,
            acc,
        ),
    decreases i - k,
{
    if k < i {
        assert(c1[k] == c2[k]);
        let c = c1[k];
        let acc2 = match display_of(c.specified_values) {
            Display::Block => acc.push(build_spec(c)),
            Display::Inline => if parent_inline {
                acc.push(build_spec(c))
            } else if acc.len() > 0 && acc.last().box_type is AnonymousBlock {
                acc.update(
                    acc.len() - 1,
                    LayoutBoxV {
                        dimensions: acc.last().dimensions,
                        box_type: BoxTypeV::AnonymousBlock,
                        children: acc.last().children.push(build_spec(c)),
                    },
                )
            } else {
                acc.push(
                    LayoutBoxV {
                        dimensions: Dimensions::zero(),
                        box_type: BoxTypeV::AnonymousBlock,
                        children: seq![build_spec(c)],
                    },
                )
            },
            Display::Omitted => acc,
        };
        lemma_build_children_skip(c1, c2, i, k + 1, parent_inline, acc2);
    } else {
        lemma_build_children_shift(c1, c2, i, i + 1, parent_inline, acc);
    }
}

/// Display filtering: a child whose display is none contributes nothing to
/// the box tree; the tree built with it present equals the tree built with
/// it and its whole subtree removed. Since this holds of every styled node,
/// it applies at any depth of the tree.
pub proof fn lemma_display_none_child_omitted(s: StyledNodeV, i: int)
    requires
        0 <= i < s.children.len(),
        display_of(s.children[i].specified_values) == Display::Omitted,
    ensures
        build_spec(s) == build_spec(
            StyledNodeV {
                specified_values: s.specified_values,
                children: s.children.subrange(0, i) + s.children.subrange(
                    i + 1,
                    s.children.len() as int,
                ),
            },
        ),
{
    let s2 = StyledNodeV {
        specified_values: s.specified_values,
        children: s.children.subrange(0, i) + s.children.subrange(i + 1, s.children.len() as int),
    };
    lemma_build_children_skip(
        s.children,
        s2.children,
        i,
        0,
        display_of(s.specified_values) is Inline,
        Seq::empty(),
    );
}

} // verus!
