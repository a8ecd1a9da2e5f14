//! Edge detection: the strength of the brightness gradient at the centre of
//! each block, shown as a coarse glyph.
//!
//! The gradient is taken with the two Sobel kernels over the three by three
//! pixels around the centre. A neighbour outside the image is replaced by
//! the nearest pixel inside it. A pixel counts if its red, green and blue
//! bytes lie in the buffer (its alpha byte is never read), so a buffer of `n`
//! bytes holds `(n + 1) / 4` such pixels; a pixel that the buffer does not
//! hold counts as black.

use crate::grid::{
    grid_extent, lemma_block_inside, lemma_cell_position, linear_index, pixel_index, sample,
};
use crate::palette::{glyph_for, glyph_of, lemma_quantize_range, SPACE};
use vstd::prelude::*;

verus! {

/// The perceptual brightness `(299 R + 587 G + 114 B) / 1000` of every pixel
/// whose three colour bytes the buffer holds.
pub open spec fn perceptual_plane(rgba: Seq<u8>) -> Seq<int> {
    Seq::new(
        ((rgba.len() + 1) / 4) as nat,
        |p: int| (299 * rgba[4 * p] + 587 * rgba[4 * p + 1] + 114 * rgba[4 * p + 2]) / 1000,
    )
}

/// The coordinate nearest to `c` among `0..=extent - 1`.
pub open spec fn clamp_coord(c: int, extent: int) -> int {
    let raised = if c < 0 {
        0
    } else {
        c
    };
    if raised > extent - 1 {
        extent - 1
    } else {
        raised
    }
}

/// The coordinate of the centre pixel of a block along one axis.
pub open spec fn block_center(block_size: int, grid_index: int) -> int {
    grid_index * block_size + block_size / 2
}

/// The value that the kernels see `dx` columns and `dy` rows away from
/// `(cx, cy)`: that of the nearest pixel inside the image.
pub open spec fn neighbor(
    plane: Seq<int>,
    width: int,
    height: int,
    cx: int,
    cy: int,
    dx: int,
    dy: int,
) -> int {
    sample(plane, linear_index(width, clamp_coord(cx + dx, width), clamp_coord(cy + dy, height)))
}

/// Response of the Sobel kernel for change from left to right: the column to
/// the right of the centre less the column to its left, the middle row
/// counting twice.
pub open spec fn gradient_across(plane: Seq<int>, width: int, height: int, cx: int, cy: int) -> int {
    (neighbor(plane, width, height, cx, cy, 1, -1) + 2 * neighbor(plane, width, height, cx, cy, 1, 0)
        + neighbor(plane, width, height, cx, cy, 1, 1)) - (neighbor(
        plane,
        width,
        height,
        cx,
        cy,
        -1,
        -1,
    ) + 2 * neighbor(plane, width, height, cx, cy, -1, 0) + neighbor(
        plane,
        width,
        height,
        cx,
        cy,
        -1,
        1,
    ))
}

/// Response of the Sobel kernel for change from top to bottom: the row below
/// the centre less the row above it, the middle column counting twice.
pub open spec fn gradient_down(plane: Seq<int>, width: int, height: int, cx: int, cy: int) -> int {
    (neighbor(plane, width, height, cx, cy, -1, 1) + 2 * neighbor(plane, width, height, cx, cy, 0, 1)
        + neighbor(plane, width, height, cx, cy, 1, 1)) - (neighbor(
        plane,
        width,
        height,
        cx,
        cy,
        -1,
        -1,
    ) + 2 * neighbor(plane, width, height, cx, cy, 0, -1) + neighbor(
        plane,
        width,
        height,
        cx,
        cy,
        1,
        -1,
    ))
}

/// `root` is the square root of `n`, rounded down.
pub open spec fn is_floor_sqrt(n: int, root: int) -> bool {
    0 <= root && root * root <= n < (root + 1) * (root + 1)
}

/// The square root of `n`, rounded down.
pub open spec fn floor_sqrt(n: int) -> int {
    choose|root: int| is_floor_sqrt(n, root)
}

/// The rounded-down square root is unique, so any number that passes for it
/// is it.
pub proof fn lemma_floor_sqrt_unique(n: int, root: int)
    requires
        is_floor_sqrt(n, root),
    ensures
        floor_sqrt(n) == root,
{
    let other = floor_sqrt(n);
    assert(is_floor_sqrt(n, other));
    assert(other == root) by (nonlinear_arith)
        requires
            0 <= root,
            root * root <= n < (root + 1) * (root + 1),
            0 <= other,
            other * other <= n < (other + 1) * (other + 1),
    ;
}

/// The gradient strength as it is shown: the length of the gradient vector,
/// rounded down and then reduced to eight bits by dropping the higher bits.
/// A length of 256 or more therefore wraps around (256 counts as 0) rather
/// than staying at 255.
pub open spec fn edge_magnitude(across: int, down: int) -> int {
    floor_sqrt(across * across + down * down) % 256
}

/// The glyph of one grid cell: the coarse glyph for the gradient strength at
/// the centre of the block.
pub open spec fn edge_glyph(
    rgba: Seq<u8>,
    width: int,
    height: int,
    block_size: int,
    grid_x: int,
    grid_y: int,
) -> u8 {
    let plane = perceptual_plane(rgba);
    let cx = block_center(block_size, grid_x);
    let cy = block_center(block_size, grid_y);
    glyph_of(
        edge_magnitude(
            gradient_across(plane, width, height, cx, cy),
            gradient_down(plane, width, height, cx, cy),
        ),
        false,
    )
}

/// The edge glyphs of a frame, one for each grid cell, row by row.
pub open spec fn edge_glyphs(rgba: Seq<u8>, width: int, height: int, block_size: int) -> Seq<u8> {
    let columns = grid_extent(width, block_size);
    let rows = grid_extent(height, block_size);
    Seq::new(
        (columns * rows) as nat,
        |i: int| edge_glyph(rgba, width, height, block_size, i % columns, i / columns),
    )
}

/// The square root of `n`, rounded down.
pub fn integer_sqrt(n: u32) -> (root: u32)
    ensures
        is_floor_sqrt(n as int, root as int),
        root == floor_sqrt(n as int),
        root < 65536,
{
    let value: u64 = n as u64;
    let mut low: u64 = 0;
    let mut high: u64 = 65536;
    while high - low > 1
        invariant
            low < high <= 65536,
            low * low <= value,
            value < high * high,
            value == n,
        decreases high - low,
    {
        let middle: u64 = low + (high - low) / 2;
        assert(middle * middle <= 65536 * 65536) by (nonlinear_arith)
            requires
                0 <= middle <= 65536,
        ;
        if middle * middle <= value {
            low = middle;
        } else {
            high = middle;
        }
    }
    proof {
        lemma_floor_sqrt_unique(n as int, low as int);
    }
    low as u32
}

/// The centre of every block of the grid is a pixel of the image, so the
/// kernels of every cell read only coordinates inside
/// `0..=width - 1` by `0..=height - 1`.
pub proof fn lemma_samples_inside(
    width: int,
    height: int,
    block_size: int,
    grid_x: int,
    grid_y: int,
    dx: int,
    dy: int,
)
    requires
        block_size >= 1,
        0 <= grid_x < grid_extent(width, block_size),
        0 <= grid_y < grid_extent(height, block_size),
    ensures
        0 <= block_center(block_size, grid_x) <= width - 1,
        0 <= block_center(block_size, grid_y) <= height - 1,
        0 <= clamp_coord(block_center(block_size, grid_x) + dx, width) <= width - 1,
        0 <= clamp_coord(block_center(block_size, grid_y) + dy, height) <= height - 1,
{
    lemma_block_inside(width, block_size, grid_x);
    lemma_block_inside(height, block_size, grid_y);
}

/// Where the nine values around the centre are all the same there is no
/// gradient, and the cell shows the first glyph of the palette, a space.
pub proof fn lemma_flat_neighborhood_is_blank(
    rgba: Seq<u8>,
    width: int,
    height: int,
    block_size: int,
    grid_x: int,
    grid_y: int,
)
    requires
        forall|dx: int, dy: int|
            -1 <= dx <= 1 && -1 <= dy <= 1 ==> #[trigger] neighbor(
                perceptual_plane(rgba),
                width,
                height,
                block_center(block_size, grid_x),
                block_center(block_size, grid_y),
                dx,
                dy,
            ) == neighbor(
                perceptual_plane(rgba),
                width,
                height,
                block_center(block_size, grid_x),
                block_center(block_size, grid_y),
                0,
                0,
            ),
    ensures
        edge_glyph(rgba, width, height, block_size, grid_x, grid_y) == SPACE,
{
    let plane = perceptual_plane(rgba);
    let cx = block_center(block_size, grid_x);
    let cy = block_center(block_size, grid_y);
    let flat = neighbor(plane, width, height, cx, cy, 0, 0);
    assert(neighbor(plane, width, height, cx, cy, -1, -1) == flat);
    assert(neighbor(plane, width, height, cx, cy, 0, -1) == flat);
    assert(neighbor(plane, width, height, cx, cy, 1, -1) == flat);
    assert(neighbor(plane, width, height, cx, cy, -1, 0) == flat);
    assert(neighbor(plane, width, height, cx, cy, 1, 0) == flat);
    assert(neighbor(plane, width, height, cx, cy, -1, 1) == flat);
    assert(neighbor(plane, width, height, cx, cy, 0, 1) == flat);
    assert(neighbor(plane, width, height, cx, cy, 1, 1) == flat);
    assert(gradient_across(plane, width, height, cx, cy) == 0);
    assert(gradient_down(plane, width, height, cx, cy) == 0);
    lemma_floor_sqrt_unique(0, 0);
    lemma_quantize_range(0, 10);
}

/// The brightness of pixel `(x, y)` as the kernels see it: zero where the
/// buffer does not hold the pixel's three colour bytes.
fn perceptual_luma(rgba: &[u8], width: usize, pixels: usize, x: usize, y: usize) -> (value: i32)
    requires
        pixels == (rgba.len() + 1) / 4,
    ensures
        value == sample(perceptual_plane(rgba@), linear_index(width as int, x as int, y as int)),
        0 <= value <= 255,
{
    match pixel_index(x, y, width, pixels) {
        Some(p) => {
            let r: i32 = rgba[4 * p] as i32;
            let g: i32 = rgba[4 * p + 1] as i32;
            let b: i32 = rgba[4 * p + 2] as i32;
            (299 * r + 587 * g + 114 * b) / 1000
        },
        None => {
            assert(0 <= y * width) by (nonlinear_arith)
                requires
                    0 <= y,
                    0 <= width,
            ;
            0
        },
    }
}

/// The coordinate one step before (`step` -1), at (0) or after (1) `c`, held
/// inside `0..=extent - 1`.
fn step_inside(c: usize, step: i8, extent: usize) -> (moved: usize)
    requires
        c < extent,
        -1 <= step <= 1,
    ensures
        moved == clamp_coord(c + step, extent as int),
        moved < extent,
{
    if step < 0 {
        if c >= 1 {
            c - 1
        } else {
            0
        }
    } else if step > 0 {
        if c + 1 < extent {
            c + 1
        } else {
            extent - 1
        }
    } else {
        c
    }
}

/// The brightness that the kernels see `dx` columns and `dy` rows away from
/// `(cx, cy)`.
fn neighbor_luma(
    rgba: &[u8],
    width: usize,
    height: usize,
    cx: usize,
    cy: usize,
    dx: i8,
    dy: i8,
) -> (value: i32)
    requires
        cx < width,
        cy < height,
        -1 <= dx <= 1,
        -1 <= dy <= 1,
    ensures
        value == neighbor(
            perceptual_plane(rgba@),
            width as int,
            height as int,
            cx as int,
            cy as int,
            dx as int,
            dy as int,
        ),
        0 <= value <= 255,
{
    let len: usize = rgba.len();
    let pixels: usize = if len < 3 {
        0
    } else {
        (len - 3) / 4 + 1
    };
    let x: usize = step_inside(cx, dx, width);
    let y: usize = step_inside(cy, dy, height);
    perceptual_luma(rgba, width, pixels, x, y)
}

/// The two Sobel responses at pixel `(cx, cy)`: across, then down.
fn gradient_at(rgba: &[u8], width: usize, height: usize, cx: usize, cy: usize) -> (gradient: (
    i32,
    i32,
))
    requires
        cx < width,
        cy < height,
    ensures
        gradient.0 == gradient_across(
            perceptual_plane(rgba@),
            width as int,
            height as int,
            cx as int,
            cy as int,
        ),
        gradient.1 == gradient_down(
            perceptual_plane(rgba@),
            width as int,
            height as int,
            cx as int,
            cy as int,
        ),
        -1020 <= gradient.0 <= 1020,
        -1020 <= gradient.1 <= 1020,
{
    let top_left: i32 = neighbor_luma(rgba, width, height, cx, cy, -1, -1);
    let top: i32 = neighbor_luma(rgba, width, height, cx, cy, 0, -1);
    let top_right: i32 = neighbor_luma(rgba, width, height, cx, cy, 1, -1);
    let mid_left: i32 = neighbor_luma(rgba, width, height, cx, cy, -1, 0);
    let mid_right: i32 = neighbor_luma(rgba, width, height, cx, cy, 1, 0);
    let bottom_left: i32 = neighbor_luma(rgba, width, height, cx, cy, -1, 1);
    let bottom: i32 = neighbor_luma(rgba, width, height, cx, cy, 0, 1);
    let bottom_right: i32 = neighbor_luma(rgba, width, height, cx, cy, 1, 1);
    let across: i32 = (top_right + 2 * mid_right + bottom_right) - (top_left + 2 * mid_left
        + bottom_left);
    let down: i32 = (bottom_left + 2 * bottom + bottom_right) - (top_left + 2 * top + top_right);
    (across, down)
}

/// The gradient strength as it is shown: the length of the gradient, rounded
/// down, without its bits above the eighth.
fn magnitude_of(across: i32, down: i32) -> (magnitude: u8)
    requires
        -1020 <= across <= 1020,
        -1020 <= down <= 1020,
    ensures
        magnitude == edge_magnitude(across as int, down as int),
{
    assert(0 <= across * across <= 1020 * 1020) by (nonlinear_arith)
        requires
            -1020 <= across <= 1020,
    ;
    assert(0 <= down * down <= 1020 * 1020) by (nonlinear_arith)
        requires
            -1020 <= down <= 1020,
    ;
    let squares: u32 = (across * across + down * down) as u32;
    let length: u32 = integer_sqrt(squares);
    (length % 256) as u8
}

/// The glyph for the gradient strength at pixel `(cx, cy)`.
fn edge_glyph_at(rgba: &[u8], width: usize, height: usize, cx: usize, cy: usize) -> (glyph: u8)
    requires
        cx < width,
        cy < height,
    ensures
        glyph == glyph_of(
            edge_magnitude(
                gradient_across(
                    perceptual_plane(rgba@),
                    width as int,
                    height as int,
                    cx as int,
                    cy as int,
                ),
                gradient_down(
                    perceptual_plane(rgba@),
                    width as int,
                    height as int,
                    cx as int,
                    cy as int,
                ),
            ),
            false,
        ),
{
    let (across, down) = gradient_at(rgba, width, height, cx, cy);
    glyph_for(magnitude_of(across, down), false)
}

/// Shows the edges of an RGBA frame: one coarse glyph for each block of
/// `block_size` by `block_size` pixels, row by row, that stands for the
/// strength of the brightness gradient at the centre pixel of the block.
///
/// The gradient is the pair of Sobel responses over the perceptual
/// brightness `(299 R + 587 G + 114 B) / 1000` of the eight pixels around
/// the centre, neighbours outside the image being replaced by the nearest
/// pixel inside it and pixels that the buffer does not hold counting as
/// black. Its length, rounded down, is reduced to eight bits by dropping the
/// higher bits: a length of 256 or more wraps around rather than staying at
/// 255, so a very strong edge can show a glyph of a weak one.
pub fn apply_edge_detection(
    rgba_buffer: &[u8],
    width: usize,
    height: usize,
    block_size: usize,
) -> (glyphs: Vec<u8>)
    requires
        block_size >= 1,
    ensures
        glyphs@ == edge_glyphs(rgba_buffer@, width as int, height as int, block_size as int),
        glyphs@.len() == grid_extent(width as int, block_size as int) * grid_extent(
            height as int,
            block_size as int,
        ),
{
    let grid_width: usize = width / block_size;
    let grid_height: usize = height / block_size;
    let half: usize = block_size / 2;
    let ghost w = width as int;
    let ghost h = height as int;
    let ghost bs = block_size as int;
    let ghost columns = grid_width as int;
    let ghost rgba = rgba_buffer@;
    let mut glyphs: Vec<u8> = Vec::new();
    let mut grid_y: usize = 0;
    while grid_y < grid_height
        invariant
            grid_y <= grid_height,
            block_size >= 1,
            half == block_size / 2,
            grid_width == grid_extent(width as int, block_size as int),
            grid_height == grid_extent(height as int, block_size as int),
            w == width,
            h == height,
            bs == block_size,
            columns == grid_width,
            rgba == rgba_buffer@,
            glyphs@.len() == grid_y * columns,
            forall|i: int|
                0 <= i < glyphs@.len() ==> glyphs@[i] == edge_glyph(
                    rgba,
                    w,
                    h,
                    bs,
                    i % columns,
                    i / columns,
                ),
        decreases grid_height - grid_y,
    {
        let mut grid_x: usize = 0;
        while grid_x < grid_width
            invariant
                grid_x <= grid_width,
                grid_y < grid_height,
                block_size >= 1,
                half == block_size / 2,
                grid_width == grid_extent(width as int, block_size as int),
                grid_height == grid_extent(height as int, block_size as int),
                w == width,
                h == height,
                bs == block_size,
                columns == grid_width,
                rgba == rgba_buffer@,
                glyphs@.len() == grid_y * columns + grid_x,
                forall|i: int|
                    0 <= i < glyphs@.len() ==> glyphs@[i] == edge_glyph(
                        rgba,
                        w,
                        h,
                        bs,
                        i % columns,
                        i / columns,
                    ),
            decreases grid_width - grid_x,
        {
            proof {
                lemma_block_inside(w, bs, grid_x as int);
                lemma_block_inside(h, bs, grid_y as int);
                lemma_cell_position(columns, grid_x as int, grid_y as int);
            }
            let center_x: usize = grid_x * block_size + half;
            let center_y: usize = grid_y * block_size + half;
            let ghost cell = glyphs@.len() as int;
            let glyph = edge_glyph_at(rgba_buffer, width, height, center_x, center_y);
            glyphs.push(glyph);
            assert(glyphs@[cell] == edge_glyph(rgba, w, h, bs, grid_x as int, grid_y as int));
            grid_x = grid_x + 1;
        }
        assert((grid_y + 1) * columns == grid_y * columns + columns) by (nonlinear_arith);
        grid_y = grid_y + 1;
    }
    proof {
        assert(grid_height * columns == columns * grid_height) by (nonlinear_arith);
        assert(glyphs@ =~= edge_glyphs(rgba, w, h, bs));
    }
    glyphs
}

} // verus!
