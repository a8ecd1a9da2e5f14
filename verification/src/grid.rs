//! The block grid over a row-major image and sums of per-pixel values over
//! its blocks.
//!
//! An image of `width` by `height` pixels is cut into square blocks of
//! `block_size` pixels a side. Only whole blocks count, so the grid has
//! `width / block_size` columns and `height / block_size` rows. A buffer may
//! hold fewer pixels than the declared dimensions promise: a pixel that the
//! buffer does not hold contributes nothing to any sum.
//!
//! Per-pixel values are modelled as a *plane*: a sequence with one integer
//! for each pixel that the buffer holds, in row-major order.

use vstd::arithmetic::div_mod::lemma_fundamental_div_mod_converse;
use vstd::prelude::*;

verus! {

/// Number of whole blocks that fit along an axis of `extent` pixels.
pub open spec fn grid_extent(extent: int, block_size: int) -> int {
    extent / block_size
}

/// Position of pixel `(x, y)` in a row-major image of the given width.
pub open spec fn linear_index(width: int, x: int, y: int) -> int {
    y * width + x
}

/// The value of pixel `p` in `plane`, or zero where the plane has no such
/// pixel.
pub open spec fn sample(plane: Seq<int>, p: int) -> int {
    if 0 <= p < plane.len() {
        plane[p]
    } else {
        0
    }
}

/// The plane that holds one for each of `pixels` pixels; summing it counts
/// the pixels that are present.
pub open spec fn presence(pixels: int) -> Seq<int> {
    Seq::new(pixels as nat, |p: int| 1int)
}

/// Sum of `plane` over the `cols` pixels of row `y` that start at column `x0`.
pub open spec fn row_sum(plane: Seq<int>, width: int, x0: int, y: int, cols: int) -> int
    decreases cols,
{
    if cols <= 0 {
        0
    } else {
        row_sum(plane, width, x0, y, cols - 1) + sample(
            plane,
            linear_index(width, x0 + cols - 1, y),
        )
    }
}

/// Sum of `plane` over the rectangle of `cols` by `rows` pixels whose top
/// left corner is `(x0, y0)`.
pub open spec fn rect_sum(
    plane: Seq<int>,
    width: int,
    x0: int,
    y0: int,
    cols: int,
    rows: int,
) -> int
    decreases rows,
{
    if rows <= 0 {
        0
    } else {
        rect_sum(plane, width, x0, y0, cols, rows - 1) + row_sum(
            plane,
            width,
            x0,
            y0 + rows - 1,
            cols,
        )
    }
}

/// Sum of `plane` over the block in column `grid_x` and row `grid_y` of the
/// grid.
pub open spec fn block_sum(
    plane: Seq<int>,
    width: int,
    block_size: int,
    grid_x: int,
    grid_y: int,
) -> int {
    rect_sum(plane, width, grid_x * block_size, grid_y * block_size, block_size, block_size)
}

/// Number of pixels of the block that a buffer of `pixels` pixels holds.
pub open spec fn block_count(
    pixels: int,
    width: int,
    block_size: int,
    grid_x: int,
    grid_y: int,
) -> int {
    block_sum(presence(pixels), width, block_size, grid_x, grid_y)
}

/// Truncated mean of `plane` over the pixels of the block that the buffer
/// holds, and zero for a block of which it holds none.
pub open spec fn block_mean(
    plane: Seq<int>,
    width: int,
    block_size: int,
    grid_x: int,
    grid_y: int,
) -> int {
    let count = block_count(plane.len() as int, width, block_size, grid_x, grid_y);
    if count == 0 {
        0
    } else {
        block_sum(plane, width, block_size, grid_x, grid_y) / count
    }
}

/// Every value of `plane` lies in `0..=255`.
pub open spec fn is_byte_plane(plane: Seq<int>) -> bool {
    forall|p: int| 0 <= p < plane.len() ==> 0 <= #[trigger] plane[p] <= 255
}

/// A block of the grid lies inside the declared width: its last column is
/// a column of the image.
pub proof fn lemma_block_inside(extent: int, block_size: int, grid_index: int)
    requires
        block_size >= 1,
        0 <= grid_index < grid_extent(extent, block_size),
    ensures
        0 <= grid_index * block_size,
        grid_index * block_size + block_size <= extent,
{
    let cells = extent / block_size;
    assert(cells * block_size <= extent) by (nonlinear_arith)
        requires
            cells == extent / block_size,
            block_size >= 1,
    ;
    assert(0 <= grid_index * block_size && (grid_index + 1) * block_size <= cells * block_size
        && (grid_index + 1) * block_size == grid_index * block_size + block_size)
        by (nonlinear_arith)
        requires
            0 <= grid_index < cells,
            block_size >= 1,
    ;
}

/// Position of grid cell `(grid_x, grid_y)` in a row-major sequence of cells,
/// and back: the quotient and remainder by the number of columns.
pub proof fn lemma_cell_position(columns: int, grid_x: int, grid_y: int)
    requires
        0 <= grid_x < columns,
        0 <= grid_y,
    ensures
        (grid_y * columns + grid_x) % columns == grid_x,
        (grid_y * columns + grid_x) / columns == grid_y,
        0 <= grid_y * columns + grid_x,
{
    lemma_fundamental_div_mod_converse(grid_y * columns + grid_x, columns, grid_y, grid_x);
    assert(0 <= grid_y * columns) by (nonlinear_arith)
        requires
            0 <= grid_y,
            0 <= columns,
    ;
}

/// A row that starts at or after the end of the plane sums to zero.
pub proof fn lemma_row_sum_beyond(plane: Seq<int>, width: int, x0: int, y: int, cols: int)
    requires
        linear_index(width, x0, y) >= plane.len(),
    ensures
        row_sum(plane, width, x0, y, cols) == 0,
    decreases cols,
{
    if cols > 0 {
        lemma_row_sum_beyond(plane, width, x0, y, cols - 1);
    }
}

/// A rectangle whose first pixel lies at or after the end of the plane sums
/// to zero: every later pixel of it lies further on.
pub proof fn lemma_rect_sum_beyond(
    plane: Seq<int>,
    width: int,
    x0: int,
    y0: int,
    cols: int,
    rows: int,
)
    requires
        width >= 0,
        linear_index(width, x0, y0) >= plane.len(),
    ensures
        rect_sum(plane, width, x0, y0, cols, rows) == 0,
    decreases rows,
{
    if rows > 0 {
        lemma_rect_sum_beyond(plane, width, x0, y0, cols, rows - 1);
        let y = y0 + rows - 1;
        assert(y * width >= y0 * width) by (nonlinear_arith)
            requires
                y >= y0,
                width >= 0,
        ;
        lemma_row_sum_beyond(plane, width, x0, y, cols);
    }
}

/// The block lies entirely beyond the end of a buffer of `pixels` pixels:
/// the buffer holds none of its pixels.
pub open spec fn block_beyond(
    pixels: int,
    width: int,
    block_size: int,
    grid_x: int,
    grid_y: int,
) -> bool {
    forall|dx: int, dy: int|
        0 <= dx < block_size && 0 <= dy < block_size ==> #[trigger] linear_index(
            width,
            grid_x * block_size + dx,
            grid_y * block_size + dy,
        ) >= pixels
}

/// Over a block that lies entirely beyond the end of the buffer every sum is
/// zero, and so are the count and the mean.
pub proof fn lemma_block_beyond_is_empty(
    plane: Seq<int>,
    width: int,
    block_size: int,
    grid_x: int,
    grid_y: int,
)
    requires
        width >= 0,
        block_beyond(plane.len() as int, width, block_size, grid_x, grid_y),
    ensures
        block_sum(plane, width, block_size, grid_x, grid_y) == 0,
        block_count(plane.len() as int, width, block_size, grid_x, grid_y) == 0,
        block_mean(plane, width, block_size, grid_x, grid_y) == 0,
{
    let x0 = grid_x * block_size;
    let y0 = grid_y * block_size;
    if block_size >= 1 {
        assert(linear_index(width, x0 + 0, y0 + 0) >= plane.len());
        lemma_rect_sum_beyond(plane, width, x0, y0, block_size, block_size);
        lemma_rect_sum_beyond(
            presence(plane.len() as int),
            width,
            x0,
            y0,
            block_size,
            block_size,
        );
    }
}

/// The cell in column `grid_x` and row `grid_y` has a place in the row-major
/// sequence of `columns` by `rows` cells.
pub proof fn lemma_cell_in_grid(columns: int, rows: int, grid_x: int, grid_y: int)
    requires
        0 <= grid_x < columns,
        0 <= grid_y < rows,
    ensures
        0 <= grid_y * columns + grid_x < columns * rows,
{
    assert(0 <= grid_y * columns && grid_y * columns + columns <= columns * rows)
        by (nonlinear_arith)
        requires
            0 <= grid_y < rows,
            0 <= columns,
    ;
}

/// Sums over a byte plane are bounded by the number of pixels present: a
/// row adds at most 255 for each pixel that the plane holds.
pub proof fn lemma_row_sum_bounds(plane: Seq<int>, width: int, x0: int, y: int, cols: int)
    requires
        is_byte_plane(plane),
    ensures
        0 <= row_sum(plane, width, x0, y, cols) <= 255 * row_sum(
            presence(plane.len() as int),
            width,
            x0,
            y,
            cols,
        ),
    decreases cols,
{
    if cols > 0 {
        lemma_row_sum_bounds(plane, width, x0, y, cols - 1);
    }
}

/// Sums over a byte plane are bounded by 255 times the count, for a whole
/// rectangle.
pub proof fn lemma_rect_sum_bounds(
    plane: Seq<int>,
    width: int,
    x0: int,
    y0: int,
    cols: int,
    rows: int,
)
    requires
        is_byte_plane(plane),
    ensures
        0 <= rect_sum(plane, width, x0, y0, cols, rows) <= 255 * rect_sum(
            presence(plane.len() as int),
            width,
            x0,
            y0,
            cols,
            rows,
        ),
    decreases rows,
{
    if rows > 0 {
        lemma_rect_sum_bounds(plane, width, x0, y0, cols, rows - 1);
        lemma_row_sum_bounds(plane, width, x0, y0 + rows - 1, cols);
    }
}

/// The mean of a byte plane over a block is itself a byte value.
pub proof fn lemma_block_mean_is_byte(
    plane: Seq<int>,
    width: int,
    block_size: int,
    grid_x: int,
    grid_y: int,
)
    requires
        is_byte_plane(plane),
    ensures
        0 <= block_mean(plane, width, block_size, grid_x, grid_y) <= 255,
{
    let count = block_count(plane.len() as int, width, block_size, grid_x, grid_y);
    let sum = block_sum(plane, width, block_size, grid_x, grid_y);
    lemma_rect_sum_bounds(
        plane,
        width,
        grid_x * block_size,
        grid_y * block_size,
        block_size,
        block_size,
    );
    if count != 0 {
        lemma_mean_is_byte(sum, count);
    }
}

/// A sum of at most 255 a piece divides down to at most 255.
pub proof fn lemma_mean_is_byte(sum: int, count: int)
    requires
        count > 0,
        0 <= sum <= 255 * count,
    ensures
        0 <= sum / count <= 255,
{
    assert(0 <= sum / count <= 255) by (nonlinear_arith)
        requires
            count > 0,
            0 <= sum <= 255 * count,
    ;
}

/// The linear index of pixel `(x, y)`, if the buffer holds that pixel.
///
/// The index is computed without overflow for every image size: a pixel
/// whose index does not fit the machine word lies beyond any buffer.
pub fn pixel_index(x: usize, y: usize, width: usize, pixels: usize) -> (index: Option<usize>)
    ensures
        index.is_some() <==> linear_index(width as int, x as int, y as int) < pixels,
        index.is_some() ==> index.unwrap() == linear_index(width as int, x as int, y as int),
{
    assert(0 <= y * width) by (nonlinear_arith)
        requires
            0 <= y,
            0 <= width,
    ;
    match y.checked_mul(width) {
        Some(row_start) => match row_start.checked_add(x) {
            Some(p) => if p < pixels {
                Some(p)
            } else {
                None
            },
            None => None,
        },
        None => None,
    }
}

} // verus!
