//! Where popups go on the screen.

use vstd::prelude::*;

verus! {

/// A rectangle of cells.
#[derive(Clone, Copy, Debug, PartialEq, Eq, Structural)]
pub struct Rect {
    pub x: u16,
    pub y: u16,
    pub width: u16,
    pub height: u16,
}

impl Rect {
    /// The rectangle ends on the screen.
    pub open spec fn wf(self) -> bool {
        self.x + self.width <= u16::MAX && self.y + self.height <= u16::MAX
    }
}

/// How much is left on one side of a popup in the middle, nothing where it does not fit.
pub open spec fn margin(outer: u16, inner: u16) -> u16 {
    if outer > inner {
        ((outer - inner) / 2) as u16
    } else {
        0
    }
}

/// A popup in the middle of an area, so many hundredths of it wide and so many rows high.
pub fn centered_rect(percent_x: u16, height: u16, area: Rect) -> (r: Rect)
    requires
        area.wf(),
        area.width * percent_x <= u16::MAX,
    ensures
        r.width == (area.width * percent_x) / 100,
        r.height == height,
        r.x == area.x + margin(area.width, r.width),
        r.y == area.y + margin(area.height, height),
{
    let width: u16 = (area.width * percent_x) / 100;
    let left: u16 = area.width.saturating_sub(width) / 2;
    let top: u16 = area.height.saturating_sub(height) / 2;
    Rect { x: area.x + left, y: area.y + top, width, height }
}

/// A popup of up to a hundred hundredths lies within its area, where that is high enough.
pub proof fn law_centered_popup_lies_within(percent_x: u16, height: u16, area: Rect)
    requires
        area.wf(),
        percent_x <= 100,
        height <= area.height,
    ensures
        ({
            let width = (area.width * percent_x) / 100;
            &&& width <= area.width
            &&& area.x + margin(area.width, width as u16) + width <= area.x + area.width
            &&& area.y + margin(area.height, height) + height <= area.y + area.height
        }),
{
    assert(area.width * percent_x <= area.width * 100) by (nonlinear_arith)
        requires
            percent_x <= 100,
    ;
    let width = (area.width * percent_x) / 100;
    assert(width <= area.width) by (nonlinear_arith)
        requires
            area.width * percent_x <= area.width * 100,
            width == (area.width * percent_x) / 100,
    ;
}

/// The popup of a help text: eight columns less than the screen but at least `least`, and
/// up to `rows` rows, four less than the screen at most.
pub fn help_rect(width: u16, height: u16, least: u16, rows: u16) -> (r: Rect)
    ensures
        r.width == (if width - 8 > least {
            width - 8
        } else {
            least as int
        }),
        r.height == (if height < 4 {
            0
        } else if rows < height - 4 {
            rows as int
        } else {
            height - 4
        }),
        r.x == margin(width, r.width),
        r.y == margin(height, r.height),
{
    let narrow: u16 = width.saturating_sub(8);
    let w: u16 = if narrow > least {
        narrow
    } else {
        least
    };
    let low: u16 = height.saturating_sub(4);
    let h: u16 = if rows < low {
        rows
    } else {
        low
    };
    Rect {
        x: width.saturating_sub(w) / 2,
        y: height.saturating_sub(h) / 2,
        width: w,
        height: h,
    }
}

/// A popup that fits stands in the middle: what is left on its two sides differs by one at most.
pub proof fn law_popup_stands_in_the_middle(outer: u16, inner: u16)
    requires
        inner <= outer,
    ensures
        ({
            let left = margin(outer, inner) as int;
            let right = outer - inner - left;
            0 <= right - left <= 1
        }),
{
}

} // verus!
