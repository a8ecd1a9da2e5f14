//! Reduction of a single-channel frame to a grid of glyphs.
//!
//! The buffer holds one intensity byte a pixel in row-major order, so a
//! buffer of `n` bytes holds `n` pixels, whatever dimensions are declared for
//! it.

use crate::grid::{
    block_beyond, block_mean, grid_extent, lemma_block_beyond_is_empty, lemma_block_inside,
    lemma_cell_in_grid, lemma_cell_position, lemma_mean_is_byte, linear_index, pixel_index,
    presence, rect_sum, row_sum, sample,
};
use crate::palette::{glyph_for, glyph_of, lemma_quantize_range, SPACE};
use vstd::prelude::*;

verus! {

/// The intensity of every pixel that the buffer holds.
pub open spec fn gray_plane(gray: Seq<u8>) -> Seq<int> {
    Seq::new(gray.len(), |p: int| gray[p] as int)
}

/// The glyph of one grid cell: the coarse glyph for the truncated mean
/// intensity of the block's pixels that the buffer holds, which is the first
/// glyph where it holds none.
pub open spec fn gray_glyph(
    gray: Seq<u8>,
    width: int,
    block_size: int,
    grid_x: int,
    grid_y: int,
) -> u8 {
    glyph_of(block_mean(gray_plane(gray), width, block_size, grid_x, grid_y), false)
}

/// The glyphs of a grayscale frame, one for each grid cell, row by row.
pub open spec fn gray_glyphs(gray: Seq<u8>, width: int, height: int, block_size: int) -> Seq<u8> {
    let columns = grid_extent(width, block_size);
    let rows = grid_extent(height, block_size);
    Seq::new(
        (columns * rows) as nat,
        |i: int| gray_glyph(gray, width, block_size, i % columns, i / columns),
    )
}

/// Sums of one block of a grayscale buffer: the number of its pixels that
/// the buffer holds, and the sum of their intensities.
fn gray_block_totals(gray: &[u8], width: usize, block_size: usize, x0: usize, y0: usize) -> (totals:
    (usize, u128))
    requires
        block_size >= 1,
        x0 + block_size <= width,
        y0 + block_size <= usize::MAX,
    ensures
        totals.0 == rect_sum(
            presence(gray@.len() as int),
            width as int,
            x0 as int,
            y0 as int,
            block_size as int,
            block_size as int,
        ),
        totals.1 == rect_sum(
            gray_plane(gray@),
            width as int,
            x0 as int,
            y0 as int,
            block_size as int,
            block_size as int,
        ),
        totals.1 <= 255 * totals.0,
{
    let pixels: usize = gray.len();
    let ghost w = width as int;
    let ghost bs = block_size as int;
    let ghost there = presence(pixels as int);
    let ghost grays = gray_plane(gray@);
    let mut count: usize = 0;
    let mut sum: u128 = 0;
    let mut row: usize = 0;
    assert(0 <= y0 * width) by (nonlinear_arith)
        requires
            0 <= y0,
            0 <= width,
    ;
    while row < block_size
        invariant
            row <= block_size,
            block_size >= 1,
            x0 + block_size <= width,
            y0 + block_size <= usize::MAX,
            pixels == gray@.len(),
            w == width,
            bs == block_size,
            there == presence(pixels as int),
            grays == gray_plane(gray@),
            count == rect_sum(there, w, x0 as int, y0 as int, bs, row as int),
            sum == rect_sum(grays, w, x0 as int, y0 as int, bs, row as int),
            count <= pixels,
            count <= linear_index(w, x0 as int, y0 + row),
            sum <= 255 * count,
        decreases block_size - row,
    {
        let y: usize = y0 + row;
        let ghost count_above = count as int;
        let ghost sum_above = sum as int;
        let mut col: usize = 0;
        while col < block_size
            invariant
                col <= block_size,
                x0 + block_size <= width,
                y == y0 + row,
                pixels == gray@.len(),
                w == width,
                bs == block_size,
                there == presence(pixels as int),
                grays == gray_plane(gray@),
                count == count_above + row_sum(there, w, x0 as int, y as int, col as int),
                sum == sum_above + row_sum(grays, w, x0 as int, y as int, col as int),
                count <= pixels,
                count <= linear_index(w, x0 + col, y as int),
                sum <= 255 * count,
            decreases block_size - col,
        {
            let x: usize = x0 + col;
            match pixel_index(x, y, width, pixels) {
                Some(p) => {
                    let value: u128 = gray[p] as u128;
                    assert(sample(there, p as int) == 1);
                    assert(sample(grays, p as int) == value);
                    count = count + 1;
                    sum = sum + value;
                },
                None => {
                    let ghost p = linear_index(w, x as int, y as int);
                    assert(sample(there, p) == 0);
                    assert(sample(grays, p) == 0);
                },
            }
            col = col + 1;
        }
        assert(linear_index(w, x0 + block_size, y as int) <= linear_index(w, x0 as int, y + 1))
            by (nonlinear_arith)
            requires
                x0 + block_size <= width,
                w == width,
        ;
        row = row + 1;
    }
    (count, sum)
}

/// Reduces a grayscale frame to one coarse glyph for each block of
/// `block_size` by `block_size` pixels.
///
/// The cells come row by row. A cell's glyph stands for the truncated mean
/// intensity of the pixels of its block that the buffer holds; a block of
/// which the buffer holds no pixel gives the first glyph of the palette. The
/// dimensions are not held against the length of the buffer: a short buffer
/// simply holds fewer pixels.
pub fn process_frame(grayscale_buffer: &[u8], width: usize, height: usize, block_size: usize) -> (glyphs:
    Vec<u8>)
    requires
        block_size >= 1,
    ensures
        glyphs@ == gray_glyphs(
            grayscale_buffer@,
            width as int,
            height as int,
            block_size as int,
        ),
        glyphs@.len() == grid_extent(width as int, block_size as int) * grid_extent(
            height as int,
            block_size as int,
        ),
{
    let grid_width: usize = width / block_size;
    let grid_height: usize = height / block_size;
    let ghost w = width as int;
    let ghost bs = block_size as int;
    let ghost columns = grid_width as int;
    let ghost gray = grayscale_buffer@;
    let mut glyphs: Vec<u8> = Vec::new();
    let mut grid_y: usize = 0;
    while grid_y < grid_height
        invariant
            grid_y <= grid_height,
            block_size >= 1,
            grid_width == grid_extent(width as int, block_size as int),
            grid_height == grid_extent(height as int, block_size as int),
            w == width,
            bs == block_size,
            columns == grid_width,
            gray == grayscale_buffer@,
            glyphs@.len() == grid_y * columns,
            forall|i: int|
                0 <= i < glyphs@.len() ==> glyphs@[i] == gray_glyph(
                    gray,
                    w,
                    bs,
                    i % columns,
                    i / columns,
                ),
        decreases grid_height - grid_y,
    {
        let mut grid_x: usize = 0;
        while grid_x < grid_width
            invariant
                grid_x <= grid_width,
                grid_y < grid_height,
                block_size >= 1,
                grid_width == grid_extent(width as int, block_size as int),
                grid_height == grid_extent(height as int, block_size as int),
                w == width,
                bs == block_size,
                columns == grid_width,
                gray == grayscale_buffer@,
                glyphs@.len() == grid_y * columns + grid_x,
                forall|i: int|
                    0 <= i < glyphs@.len() ==> glyphs@[i] == gray_glyph(
                        gray,
                        w,
                        bs,
                        i % columns,
                        i / columns,
                    ),
            decreases grid_width - grid_x,
        {
            proof {
                lemma_block_inside(width as int, bs, grid_x as int);
                lemma_block_inside(height as int, bs, grid_y as int);
                lemma_cell_position(columns, grid_x as int, grid_y as int);
            }
            let (count, sum) = gray_block_totals(
                grayscale_buffer,
                width,
                block_size,
                grid_x * block_size,
                grid_y * block_size,
            );
            let ghost cell = glyphs@.len() as int;
            let mean: u8 = if count > 0 {
                proof {
                    lemma_mean_is_byte(sum as int, count as int);
                }
                (sum / (count as u128)) as u8
            } else {
                0
            };
            glyphs.push(glyph_for(mean, false));
            assert(glyphs@[cell] == gray_glyph(gray, w, bs, grid_x as int, grid_y as int));
            grid_x = grid_x + 1;
        }
        assert((grid_y + 1) * columns == grid_y * columns + columns) by (nonlinear_arith);
        grid_y = grid_y + 1;
    }
    proof {
        assert(grid_height * columns == columns * grid_height) by (nonlinear_arith);
        assert(glyphs@ =~= gray_glyphs(gray, w, height as int, bs));
    }
    glyphs
}

/// A block that lies entirely beyond the end of the buffer gives the first
/// glyph of the palette, a space: so does every such cell of a frame whose
/// buffer is shorter than its dimensions promise.
pub proof fn lemma_block_beyond_buffer_is_blank(
    gray: Seq<u8>,
    width: int,
    height: int,
    block_size: int,
    grid_x: int,
    grid_y: int,
)
    requires
        block_size >= 1,
        width >= 0,
        0 <= grid_x < grid_extent(width, block_size),
        0 <= grid_y < grid_extent(height, block_size),
        block_beyond(gray.len() as int, width, block_size, grid_x, grid_y),
    ensures
        ({
            let cell = grid_y * grid_extent(width, block_size) + grid_x;
            &&& 0 <= cell < gray_glyphs(gray, width, height, block_size).len()
            &&& gray_glyphs(gray, width, height, block_size)[cell] == SPACE
        }),
{
    let columns = grid_extent(width, block_size);
    let rows = grid_extent(height, block_size);
    lemma_cell_in_grid(columns, rows, grid_x, grid_y);
    lemma_cell_position(columns, grid_x, grid_y);
    lemma_block_beyond_is_empty(gray_plane(gray), width, block_size, grid_x, grid_y);
    lemma_quantize_range(0, 10);
    assert(gray_glyph(gray, width, block_size, grid_x, grid_y) == SPACE);
}

} // verus!
