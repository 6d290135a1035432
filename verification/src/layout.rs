//! Gapless 2x2 grids over a signed monitor work area.

use vstd::prelude::*;
use crate::text::{int_digits, push_i64_digits, push_str};

verus! {

/// Signed physical-pixel rectangle.
/// `left`/`top` are inclusive and `right`/`bottom` are exclusive.
#[derive(Debug, Clone, Copy, PartialEq, Eq, Structural)]
pub struct SignedRect {
    pub left: i32,
    pub top: i32,
    pub right: i32,
    pub bottom: i32,
}

/// Width of a rectangle as a mathematical integer.
pub open spec fn rect_width(r: SignedRect) -> int {
    r.right - r.left
}

/// Height of a rectangle as a mathematical integer.
pub open spec fn rect_height(r: SignedRect) -> int {
    r.bottom - r.top
}

impl SignedRect {
    pub fn width(self) -> (w: i64)
        ensures
            w == rect_width(self),
    {
        self.right as i64 - self.left as i64
    }

    pub fn height(self) -> (h: i64)
        ensures
            h == rect_height(self),
    {
        self.bottom as i64 - self.top as i64
    }
}

#[derive(Debug, Clone, Copy, PartialEq, Eq)]
pub struct GridCell {
    pub slot: &'static str,
    pub rect: SignedRect,
}

#[derive(Debug, Clone, Copy, PartialEq, Eq)]
pub enum LayoutError {
    NonPositiveWidth { left: i32, right: i32 },
    NonPositiveHeight { top: i32, bottom: i32 },
    CoordinateOutOfRange,
}

/// The text of a layout error, as the launcher shows it.
pub open spec fn layout_error_text(e: LayoutError) -> Seq<char> {
    match e {
        LayoutError::NonPositiveWidth { left, right } => "RECT width must be positive: left="@
            + int_digits(left as int) + ", right="@ + int_digits(right as int),
        LayoutError::NonPositiveHeight { top, bottom } => "RECT height must be positive: top="@
            + int_digits(top as int) + ", bottom="@ + int_digits(bottom as int),
        LayoutError::CoordinateOutOfRange => "calculated coordinate is outside i32"@,
    }
}

impl LayoutError {
    /// Human readable message of the error.
    pub fn message(&self) -> (s: String)
        ensures
            s@ == layout_error_text(*self),
    {
        let mut s = String::new();
        match *self {
            LayoutError::NonPositiveWidth { left, right } => {
                push_str(&mut s, "RECT width must be positive: left=");
                push_i64_digits(&mut s, left as i64);
                push_str(&mut s, ", right=");
                push_i64_digits(&mut s, right as i64);
            },
            LayoutError::NonPositiveHeight { top, bottom } => {
                push_str(&mut s, "RECT height must be positive: top=");
                push_i64_digits(&mut s, top as i64);
                push_str(&mut s, ", bottom=");
                push_i64_digits(&mut s, bottom as i64);
            },
            LayoutError::CoordinateOutOfRange => {
                push_str(&mut s, "calculated coordinate is outside i32");
            },
        }
        assert(s@ =~= layout_error_text(*self));
        s
    }
}

/// Vertical split line of the grid: the left column gets half the width,
/// rounded down, so an odd remainder goes to the right column.
pub open spec fn middle_x(r: SignedRect) -> int {
    r.left + rect_width(r) / 2
}

/// Horizontal split line: the odd remainder goes to the bottom row.
pub open spec fn middle_y(r: SignedRect) -> int {
    r.top + rect_height(r) / 2
}

/// The four cells r0c0, r0c1, r1c0, r1c1 of the grid over `r`.
pub open spec fn grid_rects(r: SignedRect) -> Seq<SignedRect> {
    let mx = middle_x(r) as i32;
    let my = middle_y(r) as i32;
    seq![
        SignedRect { left: r.left, top: r.top, right: mx, bottom: my },
        SignedRect { left: mx, top: r.top, right: r.right, bottom: my },
        SignedRect { left: r.left, top: my, right: mx, bottom: r.bottom },
        SignedRect { left: mx, top: my, right: r.right, bottom: r.bottom },
    ]
}

/// Names of the four grid slots, in grid order.
pub open spec fn grid_slot(i: int) -> Seq<char> {
    if i == 0 {
        "r0c0"@
    } else if i == 1 {
        "r0c1"@
    } else if i == 2 {
        "r1c0"@
    } else if i == 3 {
        "r1c1"@
    } else {
        "center"@
    }
}

/// The centred fifth cell: half the width and half the height of the area,
/// placed in the middle (an odd leftover goes after the cell).
pub open spec fn center_rect(r: SignedRect) -> SignedRect {
    let cw = rect_width(r) / 2;
    let ch = rect_height(r) / 2;
    let cl = r.left + (rect_width(r) - cw) / 2;
    let ct = r.top + (rect_height(r) - ch) / 2;
    SignedRect { left: cl as i32, top: ct as i32, right: (cl + cw) as i32, bottom: (ct + ch) as i32 }
}

/// Whether a cell list is the grid over `r` (slots and rectangles).
pub open spec fn is_grid_of(cells: Seq<GridCell>, r: SignedRect) -> bool {
    &&& cells.len() >= 4
    &&& forall|i: int| 0 <= i < 4 ==> (#[trigger] cells[i]).rect == grid_rects(r)[i] && cells[i].slot@
        == grid_slot(i)
}

/// What splitting gives for `r`: an error for an empty or inverted area,
/// otherwise the grid.
pub open spec fn split_outcome_ok(r: SignedRect) -> bool {
    rect_width(r) > 0 && rect_height(r) > 0
}

proof fn lemma_middle_in_range(r: SignedRect)
    requires
        split_outcome_ok(r),
    ensures
        r.left <= middle_x(r) < r.right,
        r.top <= middle_y(r) < r.bottom,
{
}

/// Split a signed work-area RECT into a gapless 2x2 grid.
///
/// Intermediate arithmetic uses i64. For odd dimensions, the remainder is
/// assigned to the right column and bottom row.
pub fn split_2x2(rect: SignedRect) -> (res: Result<[GridCell; 4], LayoutError>)
    ensures
        rect_width(rect) <= 0 ==> res == Err::<[GridCell; 4], LayoutError>(
            LayoutError::NonPositiveWidth { left: rect.left, right: rect.right },
        ),
        rect_width(rect) > 0 && rect_height(rect) <= 0 ==> res == Err::<[GridCell; 4], LayoutError>(
            LayoutError::NonPositiveHeight { top: rect.top, bottom: rect.bottom },
        ),
        split_outcome_ok(rect) ==> res is Ok && is_grid_of(res->Ok_0@, rect),
{
    let width = rect.width();
    if width <= 0 {
        return Err(LayoutError::NonPositiveWidth { left: rect.left, right: rect.right });
    }
    let height = rect.height();
    if height <= 0 {
        return Err(LayoutError::NonPositiveHeight { top: rect.top, bottom: rect.bottom });
    }
    proof {
        lemma_middle_in_range(rect);
    }
    let middle_x = (rect.left as i64 + width / 2) as i32;
    let middle_y = (rect.top as i64 + height / 2) as i32;
    let cells = [
        GridCell {
            slot: "r0c0",
            rect: SignedRect { left: rect.left, top: rect.top, right: middle_x, bottom: middle_y },
        },
        GridCell {
            slot: "r0c1",
            rect: SignedRect { left: middle_x, top: rect.top, right: rect.right, bottom: middle_y },
        },
        GridCell {
            slot: "r1c0",
            rect: SignedRect { left: rect.left, top: middle_y, right: middle_x, bottom: rect.bottom },
        },
        GridCell {
            slot: "r1c1",
            rect: SignedRect {
                left: middle_x,
                top: middle_y,
                right: rect.right,
                bottom: rect.bottom,
            },
        },
    ];
    proof {
        reveal_strlit("r0c0");
        reveal_strlit("r0c1");
        reveal_strlit("r1c0");
        reveal_strlit("r1c1");
        assert(is_grid_of(cells@, rect));
    }
    Ok(cells)
}

proof fn lemma_center_in_range(r: SignedRect)
    requires
        split_outcome_ok(r),
    ensures
        ({
            let w = rect_width(r);
            let h = rect_height(r);
            let cl = r.left + (w - w / 2) / 2;
            let ct = r.top + (h - h / 2) / 2;
            &&& r.left <= cl && cl + w / 2 <= r.right
            &&& r.top <= ct && ct + h / 2 <= r.bottom
        }),
{
}

/// Return the gapless 2x2 base grid plus a fifth cell centered over it.
/// The center cell uses the same half-width/half-height footprint as a base cell.
pub fn split_2x2_with_center(rect: SignedRect) -> (res: Result<[GridCell; 5], LayoutError>)
    ensures
        rect_width(rect) <= 0 ==> res == Err::<[GridCell; 5], LayoutError>(
            LayoutError::NonPositiveWidth { left: rect.left, right: rect.right },
        ),
        rect_width(rect) > 0 && rect_height(rect) <= 0 ==> res == Err::<[GridCell; 5], LayoutError>(
            LayoutError::NonPositiveHeight { top: rect.top, bottom: rect.bottom },
        ),
        split_outcome_ok(rect) ==> res is Ok && is_grid_of(res->Ok_0@, rect) && res->Ok_0@[4].rect
            == center_rect(rect) && res->Ok_0@[4].slot@ == grid_slot(4),
{
    let base = split_2x2(rect);
    let grid = match base {
        Ok(cells) => cells,
        Err(e) => {
            return Err(e);
        },
    };
    let top_left = grid[0];
    let top_right = grid[1];
    let bottom_left = grid[2];
    let bottom_right = grid[3];
    proof {
        lemma_center_in_range(rect);
    }
    let width = rect.width();
    let height = rect.height();
    let center_width = width / 2;
    let center_height = height / 2;
    let center_left = rect.left as i64 + (width - center_width) / 2;
    let center_top = rect.top as i64 + (height - center_height) / 2;
    let center_right = center_left + center_width;
    let center_bottom = center_top + center_height;
    let center = GridCell {
        slot: "center",
        rect: SignedRect {
            left: center_left as i32,
            top: center_top as i32,
            right: center_right as i32,
            bottom: center_bottom as i32,
        },
    };
    let cells = [top_left, top_right, bottom_left, bottom_right, center];
    proof {
        reveal_strlit("center");
        assert(cells@[0] == grid@[0]);
        assert(cells@[1] == grid@[1]);
        assert(cells@[2] == grid@[2]);
        assert(cells@[3] == grid@[3]);
        assert(is_grid_of(cells@, rect));
    }
    Ok(cells)
}

/// Area of a rectangle.
pub open spec fn rect_area(r: SignedRect) -> int {
    rect_width(r) * rect_height(r)
}

/// The 2x2 grid is an exact partition of the work area: its outer corners are
/// the area's corners, neighbouring cells share their edges, no cell is
/// inverted, every cell has a positive size once the area is at least two
/// pixels wide and high, and the cell areas add up to the area of the work area.
pub proof fn lemma_grid_is_exact_partition(r: SignedRect)
    requires
        split_outcome_ok(r),
    ensures
        ({
            let g = grid_rects(r);
            &&& g[0].left == r.left && g[0].top == r.top
            &&& g[1].right == r.right && g[1].top == r.top
            &&& g[2].left == r.left && g[2].bottom == r.bottom
            &&& g[3].right == r.right && g[3].bottom == r.bottom
            &&& g[0].right == g[1].left && g[2].right == g[3].left
            &&& g[0].right == g[2].right
            &&& g[0].bottom == g[2].top && g[1].bottom == g[3].top
            &&& g[0].bottom == g[1].bottom
            &&& forall|i: int| 0 <= i < 4 ==> rect_width(#[trigger] g[i]) >= 0 && rect_height(g[i]) >= 0
            &&& (rect_width(r) >= 2 && rect_height(r) >= 2) ==> forall|i: int|
                0 <= i < 4 ==> rect_width(#[trigger] g[i]) > 0 && rect_height(g[i]) > 0
            &&& rect_area(g[0]) + rect_area(g[1]) + rect_area(g[2]) + rect_area(g[3]) == rect_area(r)
        }),
{
    lemma_middle_in_range(r);
    let g = grid_rects(r);
    let a = middle_x(r) - r.left;
    let b = r.right - middle_x(r);
    let c = middle_y(r) - r.top;
    let d = r.bottom - middle_y(r);
    assert(rect_area(g[0]) == a * c);
    assert(rect_area(g[1]) == b * c);
    assert(rect_area(g[2]) == a * d);
    assert(rect_area(g[3]) == b * d);
    assert(rect_area(r) == (a + b) * (c + d));
    assert(a * c + b * c + a * d + b * d == (a + b) * (c + d)) by (nonlinear_arith);
    assert(rect_width(g[0]) == a && rect_width(g[1]) == b && rect_width(g[2]) == a && rect_width(g[3]) == b);
    assert(rect_height(g[0]) == c && rect_height(g[1]) == c && rect_height(g[2]) == d && rect_height(g[3]) == d);
    assert forall|i: int| 0 <= i < 4 implies rect_width(#[trigger] g[i]) >= 0 && rect_height(g[i]) >= 0 by {
        if i == 0 {} else if i == 1 {} else if i == 2 {} else {}
    }
    if rect_width(r) >= 2 && rect_height(r) >= 2 {
        assert forall|i: int| 0 <= i < 4 implies rect_width(#[trigger] g[i]) > 0 && rect_height(g[i]) > 0 by {
            if i == 0 {} else if i == 1 {} else if i == 2 {} else {}
        }
    }
}

/// For odd dimensions the left column and top row get the smaller half:
/// the remainder goes to the right column and the bottom row.
pub proof fn lemma_grid_remainder_goes_right_and_down(r: SignedRect)
    requires
        split_outcome_ok(r),
    ensures
        ({
            let g = grid_rects(r);
            &&& rect_width(g[0]) == rect_width(r) / 2 && rect_width(g[2]) == rect_width(r) / 2
            &&& rect_width(g[1]) == rect_width(r) - rect_width(r) / 2
            &&& rect_width(g[3]) == rect_width(r) - rect_width(r) / 2
            &&& rect_height(g[0]) == rect_height(r) / 2 && rect_height(g[1]) == rect_height(r) / 2
            &&& rect_height(g[2]) == rect_height(r) - rect_height(r) / 2
            &&& rect_height(g[3]) == rect_height(r) - rect_height(r) / 2
            &&& rect_width(g[0]) <= rect_width(g[1]) <= rect_width(g[0]) + 1
            &&& rect_height(g[0]) <= rect_height(g[2]) <= rect_height(g[0]) + 1
        }),
{
    lemma_middle_in_range(r);
}

/// The centred cell lies inside the work area, has the footprint of a base
/// cell (half the width and half the height, rounded down) and is centred:
/// the space left over on its right and bottom sides is at least the space on
/// its left and top sides and exceeds it by at most one pixel.
pub proof fn lemma_center_cell_is_centred_inside(r: SignedRect)
    requires
        split_outcome_ok(r),
    ensures
        ({
            let c = center_rect(r);
            &&& r.left <= c.left && c.right <= r.right
            &&& r.top <= c.top && c.bottom <= r.bottom
            &&& rect_width(c) == rect_width(r) / 2
            &&& rect_height(c) == rect_height(r) / 2
            &&& c.left - r.left <= r.right - c.right <= c.left - r.left + 1
            &&& c.top - r.top <= r.bottom - c.bottom <= c.top - r.top + 1
        }),
{
    lemma_center_in_range(r);
}

} // verus!
