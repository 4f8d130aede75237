//! The letterboxing projection from board space to the screen's normalized
//! device coordinates, kept exact as fractions.
use vstd::prelude::*;

verus! {

/// One axis of an affine map, over a common denominator: a board
/// coordinate `v` goes to `(scale * v + offset) / denominator`.
#[derive(Clone, Copy, Debug, PartialEq, Eq, Structural)]
pub struct Axis {
    pub scale: i128,
    pub offset: i128,
    pub denominator: u128,
}

/// The map from board space (`[0, cols] x [0, rows]`, origin bottom left)
/// to `[-1, 1]^2` that fits the board in the viewport without stretching.
#[derive(Clone, Copy, Debug, PartialEq, Eq, Structural)]
pub struct Projection {
    pub x: Axis,
    pub y: Axis,
}

/// The viewport's width-to-height ratio as a fraction `(p, q)`, `q > 0`;
/// 0 when the viewport has no height.
pub open spec fn screen_ratio(width: u32, height: u32) -> (int, int) {
    if height == 0 {
        (0, 1)
    } else {
        (width as int, height as int)
    }
}

/// Whether the viewport is wider than the board, which is then fitted to
/// the viewport's height; the board's ratio is `cols / rows`, 0 when it has
/// no rows.
pub open spec fn fits_height(rows: u32, cols: u32, width: u32, height: u32) -> bool {
    let (p, q) = screen_ratio(width, height);
    if rows == 0 {
        p > 0
    } else {
        p * rows > cols * q
    }
}

/// The projection, or `None` where it divides by zero: a board without rows,
/// or without columns in a viewport that is not wider than it.
///
/// Fitted to the height: `scale_x = 2 / (rows * ratio)`, `scale_y = 2 / rows`,
/// `offset_x = -board_ratio / ratio`, `offset_y = -1`. Fitted to the width:
/// `scale_x = 2 / cols`, `scale_y = 2 * ratio / cols`, `offset_x = -1`,
/// `offset_y = -ratio / board_ratio`.
pub open spec fn projection_spec(rows: u32, cols: u32, width: u32, height: u32) -> Option<
    Projection,
> {
    let (p, q) = screen_ratio(width, height);
    if rows == 0 || (!fits_height(rows, cols, width, height) && cols == 0) {
        None
    } else if fits_height(rows, cols, width, height) {
        Some(
            Projection {
                x: Axis {
                    scale: (2 * q) as i128,
                    offset: (-(cols * q)) as i128,
                    denominator: (rows * p) as u128,
                },
                y: Axis { scale: 2, offset: -(rows as int) as i128, denominator: rows as u128 },
            },
        )
    } else {
        Some(
            Projection {
                x: Axis { scale: 2, offset: -(cols as int) as i128, denominator: cols as u128 },
                y: Axis {
                    scale: (2 * p) as i128,
                    offset: (-(p * rows)) as i128,
                    denominator: (cols * q) as u128,
                },
            },
        )
    }
}

proof fn lemma_product_bound(a: int, b: int)
    requires
        0 <= a <= u32::MAX,
        0 <= b <= u32::MAX,
    ensures
        0 <= a * b <= u32::MAX as int * u32::MAX as int,
{
    assert(0 <= a * b <= u32::MAX as int * u32::MAX as int) by (nonlinear_arith)
        requires
            0 <= a <= u32::MAX,
            0 <= b <= u32::MAX,
    ;
}

/// Computes the letterboxing projection of a board of `rows x cols` cells
/// into a viewport of `width x height` pixels.
pub fn compute_projection(rows: u32, cols: u32, width: u32, height: u32) -> (r: Option<
    Projection,
>)
    ensures
        r == projection_spec(rows, cols, width, height),
{
    let (p, q): (u32, u32) = if height == 0 {
        (0, 1)
    } else {
        (width, height)
    };
    proof {
        lemma_product_bound(p as int, rows as int);
        lemma_product_bound(cols as int, q as int);
        lemma_product_bound(rows as int, p as int);
        lemma_product_bound(cols as int, q as int);
    }
    let wide = if rows == 0 {
        p > 0
    } else {
        p as u64 * rows as u64 > cols as u64 * q as u64
    };
    if rows == 0 || (!wide && cols == 0) {
        return None;
    }
    if wide {
        Some(
            Projection {
                x: Axis {
                    scale: 2 * q as i128,
                    offset: -(cols as i128 * q as i128),
                    denominator: rows as u128 * p as u128,
                },
                y: Axis { scale: 2, offset: -(rows as i128), denominator: rows as u128 },
            },
        )
    } else {
        Some(
            Projection {
                x: Axis { scale: 2, offset: -(cols as i128), denominator: cols as u128 },
                y: Axis {
                    scale: 2 * p as i128,
                    offset: -(p as i128 * rows as i128),
                    denominator: cols as u128 * q as u128,
                },
            },
        )
    }
}

/// Where the lower left corner of the cell at `row`, `col` lies in board
/// space: rows are counted from the top, board space from the bottom.
pub open spec fn cell_corner(rows: u32, row: u32, col: u32) -> (u32, u32) {
    (col, (rows - row - 1) as u32)
}

pub fn cell_position(rows: u32, row: u32, col: u32) -> (r: (u32, u32))
    requires
        row < rows,
    ensures
        r == cell_corner(rows, row, col),
{
    (col, rows - row - 1)
}

} // verus!
