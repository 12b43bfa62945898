//! Layout engine: derives the column grid of the dashboard from the current
//! terminal dimensions. Pure arithmetic; recomputed wholesale on every resize.
use vstd::prelude::*;

verus! {

/// Terminal dimensions as reported by the terminal library.
#[derive(Copy, Clone, PartialEq, Eq, Structural)]
pub struct Size {
    pub width: i32,
    pub height: i32,
}

impl Size {
    pub fn new(width: i32, height: i32) -> (r: Size)
        ensures
            r.width == width,
            r.height == height,
    {
        Size { width, height }
    }

    /// True when the dimensions differ from `rhs` in either axis.
    pub fn changed(&self, rhs: &Size) -> (r: bool)
        ensures
            r == (self.width != rhs.width || self.height != rhs.height),
    {
        self.width != rhs.width || self.height != rhs.height
    }
}

/// Width left for columns once the one-cell border on each side is reserved.
/// Degenerate terminals (width at most 2) leave nothing.
pub open spec fn spec_usable_width(width: int) -> int {
    if width >= 2 {
        width - 2
    } else {
        0
    }
}

/// A percentage share of `max`, truncated to a whole number of cells.
pub open spec fn spec_scale(percent: int, max: int) -> int {
    (percent * max) / 100
}

/// The number of cells a column of `percent` percent gets out of `max` usable
/// cells, with integer truncation; leftover cells stay unused at the right edge.
pub fn scale_percent(percent: i32, max: i32) -> (r: i32)
    requires
        0 <= percent <= 100,
        0 <= max <= 21_000_000,
    ensures
        r == spec_scale(percent as int, max as int),
{
    proof {
        assert(0 <= percent * max <= 100 * 21_000_000) by (nonlinear_arith)
            requires
                0 <= percent <= 100,
                0 <= max <= 21_000_000,
        ;
    }
    (percent * max) / 100
}

/// The grid a layout must hold for dimensions `size`: each column's width is
/// its percentage of the usable width, each column's start is the cumulative
/// sum of the earlier widths offset by the left border, and the row capacity
/// is the height minus the top border.
pub open spec fn layout_ok(r: Layout, size: Size) -> bool {
    &&& r.size == size
    &&& r.topic_start == 1
    &&& r.topic_width == spec_scale(40, spec_usable_width(size.width as int))
    &&& r.value_start == r.topic_start + r.topic_width
    &&& r.value_width == spec_scale(40, spec_usable_width(size.width as int))
    &&& r.time_start == r.value_start + r.value_width
    &&& r.time_width == spec_scale(12, spec_usable_width(size.width as int))
    &&& r.count_start == r.time_start + r.time_width
    &&& r.count_width == spec_scale(8, spec_usable_width(size.width as int))
    &&& r.rows == size.height - 1
}

/// Column grid of the dashboard, derived from the terminal dimensions alone.
pub struct Layout {
    pub size: Size,
    pub topic_start: i32,
    pub topic_width: i32,
    pub value_start: i32,
    pub value_width: i32,
    pub time_start: i32,
    pub time_width: i32,
    pub count_start: i32,
    pub count_width: i32,
    pub rows: i32,
}

/// Shares of the usable width given to the four columns, in display order.
pub const TOPIC_PERCENT: i32 = 40;
pub const VALUE_PERCENT: i32 = 40;
pub const TIME_PERCENT: i32 = 12;
pub const COUNT_PERCENT: i32 = 8;

impl Layout {
    /// Derives the whole grid from the dimensions; the bounds are what the
    /// machine words of the arithmetic force.
    pub fn new(size: Size) -> (r: Layout)
        requires
            size.width <= 21_000_002,
            size.height > i32::MIN,
        ensures
            layout_ok(r, size),
    {
        let max: i32 = if size.width >= 2 {
            size.width - 2
        } else {
            0
        };
        let topic_start: i32 = 1;
        let topic_width = scale_percent(TOPIC_PERCENT, max);
        let value_start = topic_start + topic_width;
        let value_width = scale_percent(VALUE_PERCENT, max);
        let time_start = value_start + value_width;
        let time_width = scale_percent(TIME_PERCENT, max);
        let count_start = time_start + time_width;
        let count_width = scale_percent(COUNT_PERCENT, max);
        let rows = size.height - 1;
        Layout {
            size,
            topic_start,
            topic_width,
            value_start,
            value_width,
            time_start,
            time_width,
            count_start,
            count_width,
            rows,
        }
    }
}

} // verus!
