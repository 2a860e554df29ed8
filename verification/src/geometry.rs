//! Rectangles of terminal cells, and how far a list is scrolled.
use vstd::prelude::*;

verus! {

/// A rectangle of terminal cells.
#[derive(Debug, Clone, Copy, PartialEq, Eq, Structural)]
pub struct Rect {
    pub x: u16,
    pub y: u16,
    pub width: u16,
    pub height: u16,
}

/// The rectangle without cells.
pub open spec fn no_rect() -> Rect {
    Rect { x: 0, y: 0, width: 0, height: 0 }
}

/// The rectangle with the given coordinates, which are meant to fit.
pub open spec fn rect(x: int, y: int, width: int, height: int) -> Rect {
    Rect { x: x as u16, y: y as u16, width: width as u16, height: height as u16 }
}

/// The rectangle with the given corner and size, cut off where the coordinates past
/// its edges could not be expressed.
pub open spec fn cut_rect(x: int, y: int, width: int, height: int) -> Rect {
    rect(
        x,
        y,
        if x + width > u16::MAX {
            u16::MAX - x
        } else {
            width
        },
        if y + height > u16::MAX {
            u16::MAX - y
        } else {
            height
        },
    )
}

impl Rect {
    /// The last column can be expressed.
    pub open spec fn has_last_column(self) -> bool {
        self.x + self.width <= u16::MAX + 1
    }

    /// The coordinates past the right and the bottom edge can be expressed.
    pub open spec fn fits(self) -> bool {
        &&& self.x + self.width <= u16::MAX
        &&& self.y + self.height <= u16::MAX
    }

    /// `self` lies within `outer`.
    pub open spec fn is_within(self, outer: Rect) -> bool {
        &&& outer.x <= self.x
        &&& outer.y <= self.y
        &&& self.x + self.width <= outer.x + outer.width
        &&& self.y + self.height <= outer.y + outer.height
    }

    /// The cell at the column and row is one of the rectangle's.
    pub open spec fn has_cell(self, col: int, row: int) -> bool {
        &&& self.x <= col < self.x + self.width
        &&& self.y <= row < self.y + self.height
    }

    /// The rectangle with the given corner and size, cut off where the coordinates
    /// past its edges could not be expressed.
    pub fn new(x: u16, y: u16, width: u16, height: u16) -> (r: Rect)
        ensures
            r == cut_rect(x as int, y as int, width as int, height as int),
            r.fits(),
    {
        let max_width: u16 = u16::MAX - x;
        let max_height: u16 = u16::MAX - y;
        Rect {
            x,
            y,
            width: if width > max_width {
                max_width
            } else {
                width
            },
            height: if height > max_height {
                max_height
            } else {
                height
            },
        }
    }

    /// The rectangle without cells.
    pub fn none() -> (r: Rect)
        ensures
            r == no_rect(),
    {
        Rect { x: 0, y: 0, width: 0, height: 0 }
    }

    /// Whether the cell at the column and row is one of the rectangle's.
    pub fn contains(&self, col: u16, row: u16) -> (r: bool)
        ensures
            r == self.has_cell(col as int, row as int),
    {
        col >= self.x && row >= self.y && col - self.x < self.width && row - self.y < self.height
    }
}

impl Default for Rect {
    fn default() -> (r: Self)
        ensures
            r == no_rect(),
    {
        Rect::none()
    }
}

/// `n` less `m`, but not below zero.
pub open spec fn less(n: int, m: int) -> int {
    if n >= m {
        n - m
    } else {
        0
    }
}

/// The smaller of two numbers.
pub open spec fn lesser(n: int, m: int) -> int {
    if n <= m {
        n
    } else {
        m
    }
}

/// How far a list of rows is scrolled, counted from its end.
#[derive(Debug, Clone, Copy, PartialEq, Eq, Structural)]
pub struct ScrollMetrics {
    pub offset_from_bottom: usize,
    pub max_offset_from_bottom: usize,
    pub viewport_rows: usize,
}

/// The metrics of `total` rows that are scrolled by `scroll` rows past the top of a
/// viewport.
pub open spec fn metrics_of(total: nat, scroll: nat, viewport: nat) -> ScrollMetrics {
    ScrollMetrics {
        offset_from_bottom: less(less(total as int, scroll as int), viewport as int) as usize,
        max_offset_from_bottom: less(total as int, viewport as int) as usize,
        viewport_rows: viewport as usize,
    }
}

impl ScrollMetrics {
    /// The metrics of `total` rows that are scrolled by `scroll` rows past the top of
    /// a viewport.
    pub fn of(total: usize, scroll: usize, viewport: usize) -> (metrics: ScrollMetrics)
        ensures
            metrics == metrics_of(total as nat, scroll as nat, viewport as nat),
    {
        let below: usize = if total >= scroll {
            total - scroll
        } else {
            0
        };
        ScrollMetrics {
            offset_from_bottom: if below >= viewport {
                below - viewport
            } else {
                0
            },
            max_offset_from_bottom: if total >= viewport {
                total - viewport
            } else {
                0
            },
            viewport_rows: viewport,
        }
    }
}

/// A list overflows its viewport, so that a scrollbar is due.
pub open spec fn overflows(metrics: ScrollMetrics) -> bool {
    metrics.viewport_rows > 0 && metrics.max_offset_from_bottom > 0
}

/// Whether a list overflows its viewport, so that a scrollbar is due.
pub fn should_show_scrollbar(metrics: ScrollMetrics) -> (r: bool)
    ensures
        r == overflows(metrics),
{
    metrics.viewport_rows > 0 && metrics.max_offset_from_bottom > 0
}

/// Taking away and adding up again leads back, unless zero was in the way; the
/// smaller of two numbers is one of them and not above the other.
pub proof fn law_bounded_arithmetic(n: int, m: int)
    requires
        0 <= n,
        0 <= m,
    ensures
        m <= n ==> less(n, m) + m == n,
        n <= m ==> less(n, m) == 0,
        lesser(n, m) == n || lesser(n, m) == m,
        lesser(n, m) <= n && lesser(n, m) <= m,
{
}

/// A rectangle holds as many columns as it is wide and as many rows as it is high,
/// the first of them at its corner.
pub proof fn law_cells_of_a_rectangle(r: Rect, col: int, row: int)
    ensures
        r.width > 0 && r.height > 0 ==> r.has_cell(r.x as int, r.y as int) && r.has_cell(
            r.x + r.width - 1,
            r.y + r.height - 1,
        ),
        r.has_cell(col, row) <==> 0 <= col - r.x < r.width && 0 <= row - r.y < r.height,
        r.width == 0 || r.height == 0 ==> !r.has_cell(col, row),
{
}

/// A rectangle that fits is made as asked for; of another one the corner and what
/// can be expressed are kept.
pub proof fn law_made_rectangle(x: u16, y: u16, width: u16, height: u16)
    ensures
        ({
            let r = cut_rect(x as int, y as int, width as int, height as int);
            &&& r.x == x && r.y == y
            &&& r.width <= width && r.height <= height
            &&& x + width <= u16::MAX ==> r.width == width
            &&& y + height <= u16::MAX ==> r.height == height
            &&& x + width > u16::MAX ==> r.x + r.width == u16::MAX
            &&& y + height > u16::MAX ==> r.y + r.height == u16::MAX
        }),
{
}

/// What lies above the viewport, in it and below it makes up the whole list, as long
/// as the list is not scrolled past its last full viewport. A scrollbar is due exactly
/// where a viewport with rows cannot show the whole list.
pub proof fn law_scroll_metrics(total: usize, scroll: usize, viewport: usize)
    ensures
        ({
            let m = metrics_of(total as nat, scroll as nat, viewport as nat);
            &&& m.viewport_rows == viewport
            &&& scroll + viewport <= total ==> scroll + viewport + m.offset_from_bottom == total
            &&& scroll + viewport >= total ==> m.offset_from_bottom == 0
            &&& viewport <= total ==> m.max_offset_from_bottom + viewport == total
            &&& viewport >= total ==> m.max_offset_from_bottom == 0
            &&& overflows(m) <==> 0 < viewport < total
        }),
{
}

} // verus!
