//! The grid that the streams are laid out in.
//!
//! Streams are shown side by side in cells of 16:9. Among the grids that
//! hold all of them, the one is chosen whose shape is closest to the shape
//! of the window.

use vstd::prelude::*;

verus! {

/// The rows that `num_streams` streams need in `columns` columns.
pub open spec fn rows_for(num_streams: int, columns: int) -> int {
    (num_streams + columns - 1) / columns
}

/// The distance between the shape of the window and the shape of the grid
/// with `columns` columns, as a fraction: this is its numerator over the
/// denominator `9 * rows * height`. The grid of `columns` by `rows` cells
/// of 16:9 has the shape `16 * columns : 9 * rows`.
pub open spec fn shape_distance(width: int, height: int, num_streams: int, columns: int) -> int {
    let d = 9 * rows_for(num_streams, columns) * width - 16 * columns * height;
    if d < 0 {
        -d
    } else {
        d
    }
}

/// The grid with `a` columns is closer to the shape of the window than the
/// grid with `b` columns.
pub open spec fn is_closer(width: int, height: int, num_streams: int, a: int, b: int) -> bool {
    shape_distance(width, height, num_streams, a) * rows_for(num_streams, b) < shape_distance(
        width,
        height,
        num_streams,
        b,
    ) * rows_for(num_streams, a)
}

/// `columns` is the choice for the window: no number of columns is closer
/// to its shape, and every smaller number is farther from it.
pub open spec fn is_best_columns(width: int, height: int, num_streams: int, columns: int) -> bool {
    &&& 1 <= columns <= num_streams
    &&& forall|c: int|
        1 <= c <= num_streams ==> !#[trigger] is_closer(width, height, num_streams, c, columns)
    &&& forall|c: int|
        1 <= c < columns ==> #[trigger] is_closer(width, height, num_streams, columns, c)
}

/// The rows for a number of columns hold all streams, and one row less
/// would not.
pub proof fn lemma_rows_hold_all(num_streams: int, columns: int)
    requires
        num_streams >= 0,
        columns >= 1,
    ensures
        columns * rows_for(num_streams, columns) >= num_streams,
        columns * (rows_for(num_streams, columns) - 1) < num_streams,
        rows_for(num_streams, columns) >= 0,
        num_streams >= 1 ==> rows_for(num_streams, columns) >= 1,
        rows_for(num_streams, columns) <= num_streams,
{
    let x = num_streams + columns - 1;
    let q = x / columns;
    assert(x == columns * q + x % columns && 0 <= x % columns < columns) by (nonlinear_arith)
        requires
            columns >= 1,
            q == x / columns,
    ;
    assert(columns * (q - 1) == columns * q - columns) by (nonlinear_arith);
    assert(q >= 0) by (nonlinear_arith)
        requires
            columns >= 1,
            columns * q + columns > 0,
    ;
    if num_streams >= 1 {
        assert(q >= 1) by (nonlinear_arith)
            requires
                columns >= 1,
                columns * q >= 1,
        ;
    }
    assert(q <= num_streams) by (nonlinear_arith)
        requires
            columns >= 1,
            q >= 0,
            num_streams >= 0,
            columns * q <= num_streams + columns - 1,
    ;
}

/// Being closer to the shape of the window carries over: what is closer
/// than something that is not farther than a third, is closer than the
/// third.
pub proof fn lemma_closer_carries_over(
    width: int,
    height: int,
    num_streams: int,
    a: int,
    b: int,
    c: int,
)
    requires
        num_streams >= 1,
        a >= 1,
        b >= 1,
        c >= 1,
        is_closer(width, height, num_streams, a, b),
        !is_closer(width, height, num_streams, c, b),
    ensures
        is_closer(width, height, num_streams, a, c),
{
    lemma_rows_hold_all(num_streams, a);
    lemma_rows_hold_all(num_streams, b);
    lemma_rows_hold_all(num_streams, c);
    let da = shape_distance(width, height, num_streams, a);
    let db = shape_distance(width, height, num_streams, b);
    let dc = shape_distance(width, height, num_streams, c);
    let ra = rows_for(num_streams, a);
    let rb = rows_for(num_streams, b);
    let rc = rows_for(num_streams, c);
    assert(da * rc < dc * ra) by (nonlinear_arith)
        requires
            da >= 0,
            db >= 0,
            dc >= 0,
            ra >= 1,
            rb >= 1,
            rc >= 1,
            da * rb < db * ra,
            dc * rb >= db * rc,
    ;
}

/// The layout for `num_streams` streams in a window of the given size:
/// the columns and the rows of the grid. Among the grids with one to
/// `num_streams` columns, each with just the rows that it needs, it is the
/// first whose shape is closest to the shape of the window. A window
/// without height gets a single column, and no streams get a single column
/// without rows.
pub fn calculate_grid_dimensions(window_width: u32, window_height: u32, num_streams: u32) -> (layout:
    (u32, u32))
    ensures
        layout.0 * layout.1 >= num_streams,
        layout.0 * (layout.1 - 1) < num_streams,
        layout.0 >= 1,
        layout.1 == rows_for(num_streams as int, layout.0 as int),
        num_streams == 1 ==> layout == (1u32, 1u32),
        num_streams == 0 || window_height == 0 ==> layout == (1u32, num_streams),
        num_streams >= 1 && window_height > 0 ==> is_best_columns(
            window_width as int,
            window_height as int,
            num_streams as int,
            layout.0 as int,
        ),
{
    let ghost w = window_width as int;
    let ghost h = window_height as int;
    let ghost n = num_streams as int;
    proof {
        lemma_rows_hold_all(n, 1);
    }
    if num_streams == 0 || window_height == 0 {
        return (1, num_streams);
    }
    let mut best: u32 = 1;
    let mut best_rows: u32 = num_streams;
    let mut best_distance: u128 = distance(window_width, window_height, num_streams, 1).1;
    let mut columns: u32 = 1;
    while columns < num_streams
        invariant
            w == window_width as int,
            h == window_height as int,
            n == num_streams as int,
            n >= 1,
            h > 0,
            1 <= best <= columns <= num_streams,
            best_rows == rows_for(n, best as int),
            best_distance == shape_distance(w, h, n, best as int),
            best_distance <= 0x10_0000_0000_0000_0000,
            forall|c: int| 1 <= c <= columns ==> !#[trigger] is_closer(w, h, n, c, best as int),
            forall|c: int| 1 <= c < best ==> #[trigger] is_closer(w, h, n, best as int, c),
        decreases num_streams - columns,
    {
        columns = columns + 1;
        let (rows, candidate) = distance(window_width, window_height, num_streams, columns);
        proof {
            lemma_rows_hold_all(n, columns as int);
            lemma_rows_hold_all(n, best as int);
            assert(candidate * best_rows <= 0x10_0000_0000_0000_0000 * 0x1_0000_0000)
                by (nonlinear_arith)
                requires
                    0 <= candidate <= 0x10_0000_0000_0000_0000,
                    0 <= best_rows <= 0x1_0000_0000,
            ;
            assert(best_distance * rows <= 0x10_0000_0000_0000_0000 * 0x1_0000_0000)
                by (nonlinear_arith)
                requires
                    0 <= best_distance <= 0x10_0000_0000_0000_0000,
                    0 <= rows <= 0x1_0000_0000,
            ;
        }
        if candidate * (best_rows as u128) < best_distance * (rows as u128) {
            proof {
                assert(is_closer(w, h, n, columns as int, best as int));
                assert forall|c: int| 1 <= c < columns implies #[trigger] is_closer(
                    w,
                    h,
                    n,
                    columns as int,
                    c,
                ) by {
                    assert(!is_closer(w, h, n, c, best as int));
                    lemma_closer_carries_over(w, h, n, columns as int, best as int, c);
                }
                assert forall|c: int| 1 <= c <= columns implies !#[trigger] is_closer(
                    w,
                    h,
                    n,
                    c,
                    columns as int,
                ) by {
                    if c < columns {
                        assert(is_closer(w, h, n, columns as int, c));
                        lemma_rows_hold_all(n, c);
                        let dc = shape_distance(w, h, n, c);
                        let dn = shape_distance(w, h, n, columns as int);
                        let rc = rows_for(n, c);
                        let rn = rows_for(n, columns as int);
                        assert(!(dc * rn < dn * rc && dn * rc < dc * rn));
                    }
                }
            }
            best = columns;
            best_rows = rows;
            best_distance = candidate;
        }
    }
    proof {
        lemma_rows_hold_all(n, best as int);
        if num_streams == 1 {
            assert(best == 1);
        }
    }
    (best, best_rows)
}

/// The rows for `columns` columns and the distance of that grid from the
/// shape of the window.
fn distance(window_width: u32, window_height: u32, num_streams: u32, columns: u32) -> (result: (
    u32,
    u128,
))
    requires
        1 <= columns <= num_streams,
    ensures
        result.0 == rows_for(num_streams as int, columns as int),
        result.1 == shape_distance(
            window_width as int,
            window_height as int,
            num_streams as int,
            columns as int,
        ),
        result.1 <= 0x10_0000_0000_0000_0000,
{
    proof {
        lemma_rows_hold_all(num_streams as int, columns as int);
    }
    let rows: u64 = (num_streams as u64 + columns as u64 - 1) / (columns as u64);
    assert(9 * rows * window_width <= 9 * 0xFFFF_FFFF * 0xFFFF_FFFF) by (nonlinear_arith)
        requires
            0 <= rows <= 0xFFFF_FFFF,
            0 <= window_width <= 0xFFFF_FFFF,
    ;
    assert(16 * columns * window_height <= 16 * 0xFFFF_FFFF * 0xFFFF_FFFF) by (nonlinear_arith)
        requires
            0 <= columns <= 0xFFFF_FFFF,
            0 <= window_height <= 0xFFFF_FFFF,
    ;
    let grid: u128 = 9 * (rows as u128) * (window_width as u128);
    let window: u128 = 16 * (columns as u128) * (window_height as u128);
    let d = if grid < window {
        window - grid
    } else {
        grid - window
    };
    (rows as u32, d)
}

} // verus!
