//! Rectangles, padding and size proposals shared by the layout engines.
use vstd::prelude::*;

verus! {

/// Saturating addition of two integers in the `u16` range.
pub open spec fn sat_add16(a: int, b: int) -> int {
    if a + b > u16::MAX as int { u16::MAX as int } else { a + b }
}

/// Saturating addition of two integers in the `u32` range.
pub open spec fn sat_add32(a: int, b: int) -> int {
    if a + b > u32::MAX as int { u32::MAX as int } else { a + b }
}

/// Saturating multiplication in the `u16` range.
pub open spec fn sat_mul16(a: int, b: int) -> int {
    if a * b > u16::MAX as int { u16::MAX as int } else { a * b }
}

/// Saturating multiplication in the `u32` range.
pub open spec fn sat_mul32(a: int, b: int) -> int {
    if a * b > u32::MAX as int { u32::MAX as int } else { a * b }
}

/// Subtraction that stops at zero.
pub open spec fn sat_sub(a: int, b: int) -> int {
    if a >= b { a - b } else { 0 }
}

pub open spec fn min_int(a: int, b: int) -> int {
    if a <= b { a } else { b }
}

pub open spec fn max_int(a: int, b: int) -> int {
    if a >= b { a } else { b }
}

/// `u16` saturating multiplication.
pub fn mul_sat_u16(a: u16, b: u16) -> (r: u16)
    ensures
        r == sat_mul16(a as int, b as int),
{
    assert(0 <= a as int * b as int <= 65535 * 65535) by (nonlinear_arith)
        requires
            a <= 65535,
            b <= 65535,
    ;
    let wide: u32 = (a as u32) * (b as u32);
    if wide > u16::MAX as u32 {
        u16::MAX
    } else {
        wide as u16
    }
}

/// `u32` saturating multiplication.
pub fn mul_sat_u32(a: u32, b: u32) -> (r: u32)
    ensures
        r == sat_mul32(a as int, b as int),
{
    assert(0 <= a as int * b as int <= 4294967295 * 4294967295) by (nonlinear_arith)
        requires
            a <= 4294967295,
            b <= 4294967295,
    ;
    let wide: u64 = (a as u64) * (b as u64);
    if wide > u32::MAX as u64 {
        u32::MAX
    } else {
        wide as u32
    }
}

/// Clamps a `u32` to the `u16` range.
pub fn clamp_u32_to_u16(value: u32) -> (r: u16)
    ensures
        r == min_int(value as int, u16::MAX as int),
{
    if value > u16::MAX as u32 {
        u16::MAX
    } else {
        value as u16
    }
}

/// A rectangular area of terminal cells.
#[derive(Debug, Clone, Copy, PartialEq, Eq, Structural)]
pub struct Rect {
    pub x: u16,
    pub y: u16,
    pub width: u16,
    pub height: u16,
}

impl Rect {
    /// The rectangle that `Rect::new` builds: width and height are shortened so that the right
    /// and bottom edges stay within `u16`.
    pub open spec fn spec_new(x: u16, y: u16, width: u16, height: u16) -> Rect {
        Rect {
            x,
            y,
            width: (sat_add16(x as int, width as int) - x) as u16,
            height: (sat_add16(y as int, height as int) - y) as u16,
        }
    }

    pub fn new(x: u16, y: u16, width: u16, height: u16) -> (r: Rect)
        ensures
            r == Rect::spec_new(x, y, width, height),
            r.spec_fits(),
    {
        Rect { x, y, width: x.saturating_add(width) - x, height: y.saturating_add(height) - y }
    }

    /// The empty rectangle at the origin.
    pub fn zero() -> (r: Rect)
        ensures
            r == (Rect { x: 0, y: 0, width: 0, height: 0 }),
    {
        Rect { x: 0, y: 0, width: 0, height: 0 }
    }

    /// Whether the far edges lie within `u16`, as for every rectangle `Rect::new` builds.
    pub open spec fn spec_fits(self) -> bool {
        self.x + self.width <= u16::MAX && self.y + self.height <= u16::MAX
    }

    pub open spec fn spec_is_empty(self) -> bool {
        self.width == 0 || self.height == 0
    }

    pub fn is_empty(&self) -> (r: bool)
        ensures
            r == self.spec_is_empty(),
    {
        self.width == 0 || self.height == 0
    }

    pub open spec fn spec_right(self) -> int {
        sat_add16(self.x as int, self.width as int)
    }

    pub open spec fn spec_bottom(self) -> int {
        sat_add16(self.y as int, self.height as int)
    }

    /// First column outside the rectangle, clamped to `u16::MAX`.
    pub fn right(&self) -> (r: u16)
        ensures
            r == self.spec_right(),
    {
        self.x.saturating_add(self.width)
    }

    /// First row outside the rectangle, clamped to `u16::MAX`.
    pub fn bottom(&self) -> (r: u16)
        ensures
            r == self.spec_bottom(),
    {
        self.y.saturating_add(self.height)
    }

    /// Whether the cell `(x, y)` lies inside the rectangle.
    pub open spec fn spec_contains(self, x: int, y: int) -> bool {
        self.x <= x < self.x + self.width && self.y <= y < self.y + self.height
    }

    pub fn contains(&self, x: u16, y: u16) -> (r: bool)
        ensures
            r == self.spec_contains(x as int, y as int),
    {
        x >= self.x && (x as u32) < self.x as u32 + self.width as u32 && y >= self.y && (y as u32)
            < self.y as u32 + self.height as u32
    }
}

/// The rectangle shared by `area` and `bounds`: `area` clipped to `bounds`.
pub open spec fn spec_clip_rect(area: Rect, bounds: Rect) -> Rect {
    let x = max_int(area.x as int, bounds.x as int);
    let y = max_int(area.y as int, bounds.y as int);
    let right = min_int(area.spec_right(), bounds.spec_right());
    let bottom = min_int(area.spec_bottom(), bounds.spec_bottom());
    Rect::spec_new(x as u16, y as u16, sat_sub(right, x) as u16, sat_sub(bottom, y) as u16)
}

/// Clips `area` to `bounds`.
pub fn clip_rect(area: Rect, bounds: Rect) -> (r: Rect)
    ensures
        r == spec_clip_rect(area, bounds),
        !r.spec_is_empty() ==> bounds.spec_contains(r.x as int, r.y as int),
        !r.spec_is_empty() ==> r.x + r.width <= bounds.spec_right(),
        !r.spec_is_empty() ==> r.y + r.height <= bounds.spec_bottom(),
{
    let x = if area.x >= bounds.x { area.x } else { bounds.x };
    let y = if area.y >= bounds.y { area.y } else { bounds.y };
    let ar = area.right();
    let br = bounds.right();
    let right = if ar <= br { ar } else { br };
    let ab = area.bottom();
    let bb = bounds.bottom();
    let bottom = if ab <= bb { ab } else { bb };
    Rect::new(x, y, right.saturating_sub(x), bottom.saturating_sub(y))
}

/// Space kept free on each side of an area.
#[derive(Debug, Clone, Copy, PartialEq, Eq, Structural)]
pub struct Padding {
    pub left: u16,
    pub right: u16,
    pub top: u16,
    pub bottom: u16,
}

impl Padding {
    pub fn zero() -> (r: Padding)
        ensures
            r == (Padding { left: 0, right: 0, top: 0, bottom: 0 }),
    {
        Padding { left: 0, right: 0, top: 0, bottom: 0 }
    }

    /// The same padding on every side.
    pub fn all(value: u16) -> (r: Padding)
        ensures
            r == (Padding { left: value, right: value, top: value, bottom: value }),
    {
        Padding { left: value, right: value, top: value, bottom: value }
    }

    /// `horizontal` on the left and right, `vertical` on the top and bottom.
    pub fn horizontal_vertical(horizontal: u16, vertical: u16) -> (r: Padding)
        ensures
            r == (Padding { left: horizontal, right: horizontal, top: vertical, bottom: vertical }),
    {
        Padding { left: horizontal, right: horizontal, top: vertical, bottom: vertical }
    }
}

/// The space between columns and between rows.
#[derive(Debug, Clone, Copy, PartialEq, Eq, Structural)]
pub struct Gap {
    pub column: u16,
    pub row: u16,
}

impl Gap {
    /// `row` cells between rows and `column` cells between columns, in that order as in CSS.
    pub fn new(row: u16, column: u16) -> (r: Gap)
        ensures
            r == (Gap { column, row }),
    {
        Gap { column, row }
    }
}

/// The area left inside `area` once `padding` is taken off.
pub open spec fn spec_inner_area(area: Rect, padding: Padding) -> Rect {
    Rect::spec_new(
        sat_add16(area.x as int, padding.left as int) as u16,
        sat_add16(area.y as int, padding.top as int) as u16,
        sat_sub(area.width as int, sat_add16(padding.left as int, padding.right as int)) as u16,
        sat_sub(area.height as int, sat_add16(padding.top as int, padding.bottom as int)) as u16,
    )
}

pub fn inner_area(area: Rect, padding: Padding) -> (r: Rect)
    ensures
        r == spec_inner_area(area, padding),
{
    Rect::new(
        area.x.saturating_add(padding.left),
        area.y.saturating_add(padding.top),
        area.width.saturating_sub(padding.left.saturating_add(padding.right)),
        area.height.saturating_sub(padding.top.saturating_add(padding.bottom)),
    )
}

/// The main axis of a layout.
#[derive(Debug, Clone, Copy, PartialEq, Eq, Structural)]
pub enum Direction {
    Horizontal,
    Vertical,
}

/// How much space a parent offers a child along one axis.
#[derive(Debug, Clone, Copy, PartialEq, Eq, Structural)]
pub enum AxisProposal {
    AtMost(u16),
    Exact(u16),
    Unbounded,
}

/// The space a parent offers a child on both axes.
#[derive(Debug, Clone, Copy, PartialEq, Eq, Structural)]
pub struct LayoutProposal {
    pub width: AxisProposal,
    pub height: AxisProposal,
}

impl LayoutProposal {
    pub fn unbounded() -> (r: LayoutProposal)
        ensures
            r == (LayoutProposal { width: AxisProposal::Unbounded, height: AxisProposal::Unbounded }),
    {
        LayoutProposal { width: AxisProposal::Unbounded, height: AxisProposal::Unbounded }
    }

    pub fn at_most(width: u16, height: u16) -> (r: LayoutProposal)
        ensures
            r == (LayoutProposal {
                width: AxisProposal::AtMost(width),
                height: AxisProposal::AtMost(height),
            }),
    {
        LayoutProposal { width: AxisProposal::AtMost(width), height: AxisProposal::AtMost(height) }
    }
}

/// A width and a height in cells.
#[derive(Debug, Clone, Copy, PartialEq, Eq, Structural)]
pub struct LayoutSize {
    pub width: u16,
    pub height: u16,
}

impl LayoutSize {
    pub fn new(width: u16, height: u16) -> (r: LayoutSize)
        ensures
            r == (LayoutSize { width, height }),
    {
        LayoutSize { width, height }
    }
}

/// Whether a size hint was measured by the child or stands in for a child that does not measure.
#[derive(Debug, Clone, Copy, PartialEq, Eq, Structural)]
pub enum HintSource {
    Measured,
    LegacyUnmeasured,
}

/// Whether a child wants to grow along each axis.
#[derive(Debug, Clone, Copy, PartialEq, Eq, Structural)]
pub struct AxisExpand {
    pub width: bool,
    pub height: bool,
}

/// What a child reports of the space it needs.
#[derive(Debug, Clone, Copy, PartialEq, Eq, Structural)]
pub struct LayoutSizeHint {
    pub source: HintSource,
    pub min: LayoutSize,
    pub preferred: LayoutSize,
    pub expand: AxisExpand,
}

impl LayoutSizeHint {
    /// A measured hint whose minimum and preferred sizes are both `width` x `height`.
    pub fn content(width: u16, height: u16) -> (r: LayoutSizeHint)
        ensures
            r == (LayoutSizeHint {
                source: HintSource::Measured,
                min: LayoutSize { width, height },
                preferred: LayoutSize { width, height },
                expand: AxisExpand { width: false, height: false },
            }),
    {
        LayoutSizeHint {
            source: HintSource::Measured,
            min: LayoutSize { width, height },
            preferred: LayoutSize { width, height },
            expand: AxisExpand { width: false, height: false },
        }
    }

    /// The hint of a child that does not measure itself.
    pub fn legacy() -> (r: LayoutSizeHint)
        ensures
            r.source == HintSource::LegacyUnmeasured,
            r.min == (LayoutSize { width: 0, height: 0 }),
            r.preferred == (LayoutSize { width: 0, height: 0 }),
    {
        LayoutSizeHint {
            source: HintSource::LegacyUnmeasured,
            min: LayoutSize { width: 0, height: 0 },
            preferred: LayoutSize { width: 0, height: 0 },
            expand: AxisExpand { width: false, height: false },
        }
    }

    /// A measured hint with the given minimum and preferred sizes.
    pub fn measured(min: LayoutSize, preferred: LayoutSize) -> (r: LayoutSizeHint)
        ensures
            r == (LayoutSizeHint {
                source: HintSource::Measured,
                min,
                preferred,
                expand: AxisExpand { width: false, height: false },
            }),
    {
        LayoutSizeHint {
            source: HintSource::Measured,
            min,
            preferred,
            expand: AxisExpand { width: false, height: false },
        }
    }
}

/// Reduces a proposal by `amount` cells, keeping unbounded proposals unbounded.
pub open spec fn spec_subtract_proposal(proposal: AxisProposal, amount: u16) -> AxisProposal {
    match proposal {
        AxisProposal::Unbounded => AxisProposal::Unbounded,
        AxisProposal::AtMost(v) => AxisProposal::AtMost(sat_sub(v as int, amount as int) as u16),
        AxisProposal::Exact(v) => AxisProposal::Exact(sat_sub(v as int, amount as int) as u16),
    }
}

pub fn subtract_proposal(proposal: AxisProposal, amount: u16) -> (r: AxisProposal)
    ensures
        r == spec_subtract_proposal(proposal, amount),
{
    match proposal {
        AxisProposal::Unbounded => AxisProposal::Unbounded,
        AxisProposal::AtMost(v) => AxisProposal::AtMost(v.saturating_sub(amount)),
        AxisProposal::Exact(v) => AxisProposal::Exact(v.saturating_sub(amount)),
    }
}

/// The space left along an axis once `padding` is taken off, or `None` when unbounded.
pub open spec fn spec_inner_axis_bound(proposal: AxisProposal, padding: u16) -> Option<u16> {
    match proposal {
        AxisProposal::AtMost(v) => Some(sat_sub(v as int, padding as int) as u16),
        AxisProposal::Exact(v) => Some(sat_sub(v as int, padding as int) as u16),
        AxisProposal::Unbounded => None,
    }
}

pub fn inner_axis_bound(proposal: AxisProposal, padding: u16) -> (r: Option<u16>)
    ensures
        r == spec_inner_axis_bound(proposal, padding),
{
    match proposal {
        AxisProposal::AtMost(v) => Some(v.saturating_sub(padding)),
        AxisProposal::Exact(v) => Some(v.saturating_sub(padding)),
        AxisProposal::Unbounded => None,
    }
}

/// A line drawn in the space between neighbouring children. Layout only needs to know that one
/// is configured: it takes one cell between each pair of neighbours; its look is chosen when it is
/// drawn.
#[derive(Debug, Clone, Copy, PartialEq, Eq, Structural)]
pub struct Separator {}

impl Separator {
    pub fn new() -> (r: Separator)
        ensures
            r == (Separator {}),
    {
        Separator {}
    }
}

} // verus!
