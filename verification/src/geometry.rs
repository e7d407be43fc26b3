//! Geometry primitives: rectangles and edge sizes with pure pixel arithmetic.
//!
//! Pixel lengths are signed 64-bit integers. All arithmetic on them saturates
//! at the `i64` range, so every operation is total; on ordinary documents no
//! value ever comes near the boundary and the operations behave like exact
//! integer arithmetic.

use vstd::prelude::*;

verus! {

/// Clamp a mathematical integer into the `i64` range.
pub open spec fn clip(x: int) -> int {
    if x > i64::MAX as int {
        i64::MAX as int
    } else if x < i64::MIN as int {
        i64::MIN as int
    } else {
        x
    }
}

/// Saturating addition of two pixel lengths.
pub fn px_add(a: i64, b: i64) -> (r: i64)
    ensures
        r as int == clip(a + b),
{
    let s: i128 = a as i128 + b as i128;
    if s > i64::MAX as i128 {
        i64::MAX
    } else if s < i64::MIN as i128 {
        i64::MIN
    } else {
        s as i64
    }
}

/// Saturating subtraction of two pixel lengths.
pub fn px_sub(a: i64, b: i64) -> (r: i64)
    ensures
        r as int == clip(a - b),
{
    let s: i128 = a as i128 - b as i128;
    if s > i64::MAX as i128 {
        i64::MAX
    } else if s < i64::MIN as i128 {
        i64::MIN
    } else {
        s as i64
    }
}

/// Truncating division by two (rounds toward zero, as `/` does on machine
/// integers), used to split leftover space across two auto margins.
pub open spec fn half_toward_zero(x: int) -> int {
    if x >= 0 {
        x / 2
    } else {
        0 - ((0 - x) / 2)
    }
}

/// Half of a pixel length, rounded toward zero.
pub fn px_half(a: i64) -> (r: i64)
    ensures
        r as int == half_toward_zero(a as int),
{
    let s: i128 = a as i128;
    if s >= 0 {
        (s / 2) as i64
    } else {
        (-((-s) / 2)) as i64
    }
}

/// A rectangle given by the position of its top-left corner and its size.
#[derive(Clone, Copy, PartialEq, Eq, Structural, Debug)]
pub struct Rect {
    pub x: i64,
    pub y: i64,
    pub width: i64,
    pub height: i64,
}

/// Widths of the four edges of one box layer (padding, border or margin).
#[derive(Clone, Copy, PartialEq, Eq, Structural, Debug)]
pub struct EdgeSizes {
    pub left: i64,
    pub right: i64,
    pub top: i64,
    pub bottom: i64,
}

/// The box model: a content rectangle surrounded by padding, border and
/// margin edges.
#[derive(Clone, Copy, PartialEq, Eq, Structural, Debug)]
pub struct Dimensions {
    /// Position of the content area relative to the document origin.
    pub content: Rect,
    pub padding: EdgeSizes,
    pub border: EdgeSizes,
    pub margin: EdgeSizes,
}

impl Default for Rect {
    fn default() -> (r: Self)
        ensures
            r == (Rect { x: 0, y: 0, width: 0, height: 0 }),
    {
        Rect { x: 0, y: 0, width: 0, height: 0 }
    }
}

impl Default for EdgeSizes {
    fn default() -> (r: Self)
        ensures
            r == (EdgeSizes { left: 0, right: 0, top: 0, bottom: 0 }),
    {
        EdgeSizes { left: 0, right: 0, top: 0, bottom: 0 }
    }
}

impl Default for Dimensions {
    fn default() -> (r: Self)
        ensures
            r == Dimensions::zero(),
    {
        Dimensions {
            content: Rect { x: 0, y: 0, width: 0, height: 0 },
            padding: EdgeSizes { left: 0, right: 0, top: 0, bottom: 0 },
            border: EdgeSizes { left: 0, right: 0, top: 0, bottom: 0 },
            margin: EdgeSizes { left: 0, right: 0, top: 0, bottom: 0 },
        }
    }
}

/// The rectangle `r` grown by the edge sizes `e`: the origin moves up and to
/// the left by the top/left edges, the size grows by the sum of the opposite
/// edges.
pub open spec fn expand(r: Rect, e: EdgeSizes) -> Rect {
    Rect {
        x: clip(r.x - e.left) as i64,
        y: clip(r.y - e.top) as i64,
        width: clip(r.width + clip(e.left + e.right)) as i64,
        height: clip(r.height + clip(e.top + e.bottom)) as i64,
    }
}

impl Rect {
    /// Grow this rectangle by the given edge sizes.
    pub fn expanded_by(self, edge: EdgeSizes) -> (r: Rect)
        ensures
            r == expand(self, edge),
    {
        Rect {
            x: px_sub(self.x, edge.left),
            y: px_sub(self.y, edge.top),
            width: px_add(self.width, px_add(edge.left, edge.right)),
            height: px_add(self.height, px_add(edge.top, edge.bottom)),
        }
    }
}

impl Dimensions {
    /// The all-zero dimensions.
    pub open spec fn zero() -> Dimensions {
        Dimensions {
            content: Rect { x: 0, y: 0, width: 0, height: 0 },
            padding: EdgeSizes { left: 0, right: 0, top: 0, bottom: 0 },
            border: EdgeSizes { left: 0, right: 0, top: 0, bottom: 0 },
            margin: EdgeSizes { left: 0, right: 0, top: 0, bottom: 0 },
        }
    }

    /// The content area plus its padding.
    pub open spec fn spec_padding_box(self) -> Rect {
        expand(self.content, self.padding)
    }

    /// The padding box plus the borders.
    pub open spec fn spec_border_box(self) -> Rect {
        expand(self.spec_padding_box(), self.border)
    }

    /// The border box plus the margins.
    pub open spec fn spec_margin_box(self) -> Rect {
        expand(self.spec_border_box(), self.margin)
    }

    /// The area covered by the content area plus its padding.
    pub fn padding_box(self) -> (r: Rect)
        ensures
            r == self.spec_padding_box(),
    {
        self.content.expanded_by(self.padding)
    }

    /// The area covered by the content area plus padding and borders.
    pub fn border_box(self) -> (r: Rect)
        ensures
            r == self.spec_border_box(),
    {
        self.padding_box().expanded_by(self.border)
    }

    /// The area covered by the content area plus padding, borders, and margin.
    pub fn margin_box(self) -> (r: Rect)
        ensures
            r == self.spec_margin_box(),
    {
        self.border_box().expanded_by(self.margin)
    }
}

/// The least multiple of `m` that is no less than `n`, for positive `m`;
/// a zero `m` leaves `n` unchanged.
pub open spec fn round_up_spec(n: int, m: int) -> int {
    if m == 0 {
        n
    } else if n % m == 0 {
        n
    } else {
        n + (m - n % m)
    }
}

/// Round up a number to the nearest multiple, as output buffers aligned to
/// a row pitch need.
pub fn round_up_to_multiple(number: u32, multiple: u32) -> (r: u32)
    requires
        round_up_spec(number as int, multiple as int) <= u32::MAX,
    ensures
        r as int == round_up_spec(number as int, multiple as int),
{
    if multiple == 0 {
        return number;
    }
    let remainder = number % multiple;
    if remainder == 0 {
        return number;
    }
    proof {
        assert(number as int % multiple as int <= number as int) by (nonlinear_arith)
            requires
                multiple > 0,
                number >= 0,
        {
        }
    }
    number - remainder + multiple
}

/// All four edge sizes are zero or positive.
pub open spec fn edges_nonneg(e: EdgeSizes) -> bool {
    e.left >= 0 && e.right >= 0 && e.top >= 0 && e.bottom >= 0
}

/// Box-model identity: as long as the edge sizes are zero or positive and the
/// literal edge sums stay inside the pixel range, the margin box equals the
/// content rectangle grown in one step by the componentwise sum of padding,
/// border and margin, with no intermediate rounding or saturation.
pub proof fn lemma_margin_box_identity(d: Dimensions)
    requires
        edges_nonneg(d.padding),
        edges_nonneg(d.border),
        edges_nonneg(d.margin),
        d.padding.left + d.padding.right <= i64::MAX,
        d.padding.top + d.padding.bottom <= i64::MAX,
        d.border.left + d.border.right <= i64::MAX,
        d.border.top + d.border.bottom <= i64::MAX,
        d.margin.left + d.margin.right <= i64::MAX,
        d.margin.top + d.margin.bottom <= i64::MAX,
        d.content.x - (d.padding.left + d.border.left + d.margin.left) >= i64::MIN,
        d.content.y - (d.padding.top + d.border.top + d.margin.top) >= i64::MIN,
        d.content.width + (d.padding.left + d.padding.right + d.border.left + d.border.right
            + d.margin.left + d.margin.right) <= i64::MAX,
        d.content.height + (d.padding.top + d.padding.bottom + d.border.top + d.border.bottom
            + d.margin.top + d.margin.bottom) <= i64::MAX,
    ensures
        d.spec_margin_box() == (Rect {
            x: (d.content.x - (d.padding.left + d.border.left + d.margin.left)) as i64,
            y: (d.content.y - (d.padding.top + d.border.top + d.margin.top)) as i64,
            width: (d.content.width + (d.padding.left + d.padding.right + d.border.left
                + d.border.right + d.margin.left + d.margin.right)) as i64,
            height: (d.content.height + (d.padding.top + d.padding.bottom + d.border.top
                + d.border.bottom + d.margin.top + d.margin.bottom)) as i64,
        }),
{
    let p = d.spec_padding_box();
    let b = d.spec_border_box();
    let m = d.spec_margin_box();
    assert(p.x == d.content.x - d.padding.left);
    assert(p.y == d.content.y - d.padding.top);
    assert(p.width == d.content.width + d.padding.left + d.padding.right);
    assert(p.height == d.content.height + d.padding.top + d.padding.bottom);
    assert(b.x == p.x - d.border.left);
    assert(b.y == p.y - d.border.top);
    assert(b.width == p.width + d.border.left + d.border.right);
    assert(b.height == p.height + d.border.top + d.border.bottom);
    assert(m.x == b.x - d.margin.left);
    assert(m.y == b.y - d.margin.top);
    assert(m.width == b.width + d.margin.left + d.margin.right);
    assert(m.height == b.height + d.margin.top + d.margin.bottom);
}

} // verus!
