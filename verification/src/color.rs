//! Reduction of an RGBA frame to a grid of glyphs with the mean colour of
//! each block.
//!
//! The buffer holds four bytes a pixel (red, green, blue, alpha) in row-major
//! order. A pixel counts only if all four of its bytes lie in the buffer, so
//! a buffer of `n` bytes holds `n / 4` pixels, whatever dimensions are
//! declared for it.

use crate::grid::{
    block_beyond, block_count, block_mean, grid_extent, is_byte_plane, lemma_block_beyond_is_empty,
    lemma_block_inside, lemma_block_mean_is_byte, lemma_cell_in_grid, lemma_cell_position,
    lemma_mean_is_byte, linear_index, pixel_index, presence, rect_sum, row_sum, sample,
};
use crate::palette::{glyph_for, glyph_of, SPACE};
use vstd::prelude::*;

verus! {

/// One colour channel of every pixel that the buffer holds: channel 0 is
/// red, 1 is green and 2 is blue.
pub open spec fn channel_plane(rgba: Seq<u8>, channel: int) -> Seq<int> {
    Seq::new((rgba.len() / 4) as nat, |p: int| rgba[4 * p + channel] as int)
}

/// The fast brightness approximation `(3 R + 6 G + B) / 10` of every pixel
/// that the buffer holds.
pub open spec fn luma_plane(rgba: Seq<u8>) -> Seq<int> {
    Seq::new(
        (rgba.len() / 4) as nat,
        |p: int| (3 * rgba[4 * p] + 6 * rgba[4 * p + 1] + rgba[4 * p + 2]) / 10,
    )
}

/// The glyph of one grid cell: a space where the buffer holds no pixel of the
/// block, else the palette glyph for the block's mean brightness.
pub open spec fn color_glyph(
    rgba: Seq<u8>,
    width: int,
    block_size: int,
    grid_x: int,
    grid_y: int,
    detailed: bool,
) -> u8 {
    if block_count(rgba.len() as int / 4, width, block_size, grid_x, grid_y) == 0 {
        SPACE
    } else {
        glyph_of(block_mean(luma_plane(rgba), width, block_size, grid_x, grid_y), detailed)
    }
}

/// One colour channel of one grid cell: the block's truncated mean of that
/// channel, which is zero (black) where the buffer holds no pixel of the
/// block.
pub open spec fn color_level(
    rgba: Seq<u8>,
    width: int,
    block_size: int,
    grid_x: int,
    grid_y: int,
    channel: int,
) -> int {
    block_mean(channel_plane(rgba, channel), width, block_size, grid_x, grid_y)
}

/// The glyphs of a frame, one for each grid cell, row by row.
pub open spec fn frame_glyphs(
    rgba: Seq<u8>,
    width: int,
    height: int,
    block_size: int,
    detailed: bool,
) -> Seq<u8> {
    let columns = grid_extent(width, block_size);
    let rows = grid_extent(height, block_size);
    Seq::new(
        (columns * rows) as nat,
        |i: int| color_glyph(rgba, width, block_size, i % columns, i / columns, detailed),
    )
}

/// The colours of a frame: red, green and blue of each grid cell, cell after
/// cell in the order of the glyphs.
pub open spec fn frame_colors(rgba: Seq<u8>, width: int, height: int, block_size: int) -> Seq<u8> {
    let columns = grid_extent(width, block_size);
    let rows = grid_extent(height, block_size);
    Seq::new(
        (3 * (columns * rows)) as nat,
        |j: int|
            color_level(rgba, width, block_size, (j / 3) % columns, (j / 3) / columns, j % 3) as u8,
    )
}

/// What a `ProcessedFrame` holds.
pub struct FrameView {
    /// One glyph for each grid cell, row by row.
    pub chars: Seq<u8>,
    /// Three bytes (red, green, blue) for each grid cell, in the same order.
    pub colors: Seq<u8>,
}

/// The glyphs of a frame together with the colour of each of them.
pub struct ProcessedFrame {
    chars: Vec<u8>,
    colors: Vec<u8>,
}

impl View for ProcessedFrame {
    type V = FrameView;

    closed spec fn view(&self) -> FrameView {
        FrameView { chars: self.chars@, colors: self.colors@ }
    }
}

impl ProcessedFrame {
    #[verifier::type_invariant]
    spec fn well_formed(self) -> bool {
        self.colors@.len() == 3 * self.chars@.len()
    }

    /// Builds a frame from its two sequences, if there are exactly three
    /// colour bytes for each glyph.
    pub fn from_parts(chars: Vec<u8>, colors: Vec<u8>) -> (frame: Option<ProcessedFrame>)
        ensures
            frame.is_some() <==> colors@.len() == 3 * chars@.len(),
            frame.is_some() ==> frame.unwrap()@ == (FrameView { chars: chars@, colors: colors@ }),
    {
        let given = colors.len();
        let fits = match chars.len().checked_mul(3) {
            Some(expected) => given == expected,
            None => false,
        };
        if fits {
            Some(ProcessedFrame { chars, colors })
        } else {
            None
        }
    }

    /// A copy of the glyphs, one for each grid cell.
    pub fn chars(&self) -> (out: Vec<u8>)
        ensures
            out@ == self@.chars,
            3 * out@.len() == self@.colors.len(),
    {
        proof {
            use_type_invariant(self);
        }
        let out = self.chars.clone();
        assert(out@ =~= self.chars@);
        out
    }

    /// A copy of the colours, three bytes for each grid cell.
    pub fn colors(&self) -> (out: Vec<u8>)
        ensures
            out@ == self@.colors,
            out@.len() == 3 * self@.chars.len(),
    {
        proof {
            use_type_invariant(self);
        }
        let out = self.colors.clone();
        assert(out@ =~= self.colors@);
        out
    }
}

/// Sums over one block of an RGBA buffer.
struct BlockTotals {
    count: usize,
    luma: u128,
    red: u128,
    green: u128,
    blue: u128,
}

/// The values of the three colour planes and of the brightness plane are
/// bytes.
pub proof fn lemma_rgba_planes_are_bytes(rgba: Seq<u8>)
    ensures
        is_byte_plane(luma_plane(rgba)),
        is_byte_plane(channel_plane(rgba, 0)),
        is_byte_plane(channel_plane(rgba, 1)),
        is_byte_plane(channel_plane(rgba, 2)),
{
}

/// Sums brightness and colour over the square of `block_size` pixels a side
/// whose top left corner is `(x0, y0)`, skipping every pixel that the buffer
/// does not hold.
fn rgba_block_totals(rgba: &[u8], width: usize, block_size: usize, x0: usize, y0: usize) -> (totals:
    BlockTotals)
    requires
        block_size >= 1,
        x0 + block_size <= width,
        y0 + block_size <= usize::MAX,
    ensures
        totals.count == rect_sum(
            presence(rgba@.len() as int / 4),
            width as int,
            x0 as int,
            y0 as int,
            block_size as int,
            block_size as int,
        ),
        totals.luma == rect_sum(
            luma_plane(rgba@),
            width as int,
            x0 as int,
            y0 as int,
            block_size as int,
            block_size as int,
        ),
        totals.red == rect_sum(
            channel_plane(rgba@, 0),
            width as int,
            x0 as int,
            y0 as int,
            block_size as int,
            block_size as int,
        ),
        totals.green == rect_sum(
            channel_plane(rgba@, 1),
            width as int,
            x0 as int,
            y0 as int,
            block_size as int,
            block_size as int,
        ),
        totals.blue == rect_sum(
            channel_plane(rgba@, 2),
            width as int,
            x0 as int,
            y0 as int,
            block_size as int,
            block_size as int,
        ),
        totals.luma <= 255 * totals.count,
        totals.red <= 255 * totals.count,
        totals.green <= 255 * totals.count,
        totals.blue <= 255 * totals.count,
{
    let pixels: usize = rgba.len() / 4;
    let ghost w = width as int;
    let ghost bs = block_size as int;
    let ghost there = presence(pixels as int);
    let ghost lumas = luma_plane(rgba@);
    let ghost reds = channel_plane(rgba@, 0);
    let ghost greens = channel_plane(rgba@, 1);
    let ghost blues = channel_plane(rgba@, 2);
    let mut count: usize = 0;
    let mut luma: u128 = 0;
    let mut red: u128 = 0;
    let mut green: u128 = 0;
    let mut blue: u128 = 0;
    let mut row: usize = 0;
    assert(0 <= y0 * width) by (nonlinear_arith)
        requires
            0 <= y0,
            0 <= width,
    ;
    while row < block_size
        invariant
            row <= block_size,
            block_size >= 1,
            x0 + block_size <= width,
            y0 + block_size <= usize::MAX,
            pixels == rgba@.len() / 4,
            rgba@.len() <= usize::MAX,
            w == width,
            bs == block_size,
            there == presence(pixels as int),
            lumas == luma_plane(rgba@),
            reds == channel_plane(rgba@, 0),
            greens == channel_plane(rgba@, 1),
            blues == channel_plane(rgba@, 2),
            count == rect_sum(there, w, x0 as int, y0 as int, bs, row as int),
            luma == rect_sum(lumas, w, x0 as int, y0 as int, bs, row as int),
            red == rect_sum(reds, w, x0 as int, y0 as int, bs, row as int),
            green == rect_sum(greens, w, x0 as int, y0 as int, bs, row as int),
            blue == rect_sum(blues, w, x0 as int, y0 as int, bs, row as int),
            count <= pixels,
            count <= linear_index(w, x0 as int, y0 + row),
            luma <= 255 * count,
            red <= 255 * count,
            green <= 255 * count,
            blue <= 255 * count,
        decreases block_size - row,
    {
        let y: usize = y0 + row;
        let ghost count_above = count as int;
        let ghost luma_above = luma as int;
        let ghost red_above = red as int;
        let ghost green_above = green as int;
        let ghost blue_above = blue as int;
        let mut col: usize = 0;
        while col < block_size
            invariant
                col <= block_size,
                x0 + block_size <= width,
                y == y0 + row,
                pixels == rgba@.len() / 4,
                rgba@.len() <= usize::MAX,
                w == width,
                bs == block_size,
                there == presence(pixels as int),
                lumas == luma_plane(rgba@),
                reds == channel_plane(rgba@, 0),
                greens == channel_plane(rgba@, 1),
                blues == channel_plane(rgba@, 2),
                count == count_above + row_sum(there, w, x0 as int, y as int, col as int),
                luma == luma_above + row_sum(lumas, w, x0 as int, y as int, col as int),
                red == red_above + row_sum(reds, w, x0 as int, y as int, col as int),
                green == green_above + row_sum(greens, w, x0 as int, y as int, col as int),
                blue == blue_above + row_sum(blues, w, x0 as int, y as int, col as int),
                count <= pixels,
                count <= linear_index(w, x0 + col, y as int),
                luma <= 255 * count,
                red <= 255 * count,
                green <= 255 * count,
                blue <= 255 * count,
            decreases block_size - col,
        {
            let x: usize = x0 + col;
            match pixel_index(x, y, width, pixels) {
                Some(p) => {
                    let r: u128 = rgba[4 * p] as u128;
                    let g: u128 = rgba[4 * p + 1] as u128;
                    let b: u128 = rgba[4 * p + 2] as u128;
                    assert(sample(there, p as int) == 1);
                    assert(sample(lumas, p as int) == (3 * r + 6 * g + b) / 10);
                    assert(sample(reds, p as int) == r);
                    assert(sample(greens, p as int) == g);
                    assert(sample(blues, p as int) == b);
                    count = count + 1;
                    luma = luma + (3 * r + 6 * g + b) / 10;
                    red = red + r;
                    green = green + g;
                    blue = blue + b;
                },
                None => {
                    let ghost p = linear_index(w, x as int, y as int);
                    assert(sample(there, p) == 0);
                    assert(sample(lumas, p) == 0);
                    assert(sample(reds, p) == 0);
                    assert(sample(greens, p) == 0);
                    assert(sample(blues, p) == 0);
                },
            }
            col = col + 1;
        }
        assert(linear_index(w, x0 + block_size, y as int) <= linear_index(w, x0 as int, y + 1))
            by (nonlinear_arith)
            requires
                x0 + block_size <= width,
                w == width,
        ;
        row = row + 1;
    }
    BlockTotals { count, luma, red, green, blue }
}

/// Reduces an RGBA frame to one glyph and one colour for each block of
/// `block_size` by `block_size` pixels.
///
/// The cells come row by row. A cell's colour is the truncated mean of red,
/// green and blue over the pixels of its block that the buffer holds, and its
/// glyph is the palette glyph for the mean of their approximate brightness
/// `(3 R + 6 G + B) / 10`. A block of which the buffer holds no pixel gives a
/// space and black. The dimensions are not held against the length of the
/// buffer: a short buffer simply holds fewer pixels.
pub fn process_frame_with_color(
    rgba_buffer: &[u8],
    width: usize,
    height: usize,
    block_size: usize,
    use_detailed_chars: bool,
) -> (frame: ProcessedFrame)
    requires
        block_size >= 1,
    ensures
        frame@.chars == frame_glyphs(
            rgba_buffer@,
            width as int,
            height as int,
            block_size as int,
            use_detailed_chars,
        ),
        frame@.colors == frame_colors(
            rgba_buffer@,
            width as int,
            height as int,
            block_size as int,
        ),
        frame@.chars.len() == grid_extent(width as int, block_size as int) * grid_extent(
            height as int,
            block_size as int,
        ),
        frame@.colors.len() == 3 * frame@.chars.len(),
{
    let grid_width: usize = width / block_size;
    let grid_height: usize = height / block_size;
    let ghost w = width as int;
    let ghost bs = block_size as int;
    let ghost columns = grid_width as int;
    let ghost rgba = rgba_buffer@;
    let mut chars: Vec<u8> = Vec::new();
    let mut colors: Vec<u8> = Vec::new();
    let mut grid_y: usize = 0;
    while grid_y < grid_height
        invariant
            grid_y <= grid_height,
            block_size >= 1,
            grid_width == grid_extent(width as int, block_size as int),
            grid_height == grid_extent(height as int, block_size as int),
            w == width,
            bs == block_size,
            columns == grid_width,
            rgba == rgba_buffer@,
            chars@.len() == grid_y * columns,
            colors@.len() == 3 * chars@.len(),
            forall|i: int|
                0 <= i < chars@.len() ==> chars@[i] == color_glyph(
                    rgba,
                    w,
                    bs,
                    i % columns,
                    i / columns,
                    use_detailed_chars,
                ),
            forall|j: int|
                0 <= j < colors@.len() ==> colors@[j] == color_level(
                    rgba,
                    w,
                    bs,
                    (j / 3) % columns,
                    (j / 3) / columns,
                    j % 3,
                ),
        decreases grid_height - grid_y,
    {
        let mut grid_x: usize = 0;
        while grid_x < grid_width
            invariant
                grid_x <= grid_width,
                grid_y < grid_height,
                block_size >= 1,
                grid_width == grid_extent(width as int, block_size as int),
                grid_height == grid_extent(height as int, block_size as int),
                w == width,
                bs == block_size,
                columns == grid_width,
                rgba == rgba_buffer@,
                chars@.len() == grid_y * columns + grid_x,
                colors@.len() == 3 * chars@.len(),
                forall|i: int|
                    0 <= i < chars@.len() ==> chars@[i] == color_glyph(
                        rgba,
                        w,
                        bs,
                        i % columns,
                        i / columns,
                        use_detailed_chars,
                    ),
                forall|j: int|
                    0 <= j < colors@.len() ==> colors@[j] == color_level(
                        rgba,
                        w,
                        bs,
                        (j / 3) % columns,
                        (j / 3) / columns,
                        j % 3,
                    ),
            decreases grid_width - grid_x,
        {
            proof {
                lemma_block_inside(width as int, bs, grid_x as int);
                lemma_block_inside(height as int, bs, grid_y as int);
                lemma_cell_position(columns, grid_x as int, grid_y as int);
            }
            let totals = rgba_block_totals(
                rgba_buffer,
                width,
                block_size,
                grid_x * block_size,
                grid_y * block_size,
            );
            let ghost cell = chars@.len() as int;
            if totals.count > 0 {
                proof {
                    lemma_mean_is_byte(totals.luma as int, totals.count as int);
                    lemma_mean_is_byte(totals.red as int, totals.count as int);
                    lemma_mean_is_byte(totals.green as int, totals.count as int);
                    lemma_mean_is_byte(totals.blue as int, totals.count as int);
                }
                let n: u128 = totals.count as u128;
                let mean_luma: u8 = (totals.luma / n) as u8;
                let mean_red: u8 = (totals.red / n) as u8;
                let mean_green: u8 = (totals.green / n) as u8;
                let mean_blue: u8 = (totals.blue / n) as u8;
                chars.push(glyph_for(mean_luma, use_detailed_chars));
                colors.push(mean_red);
                colors.push(mean_green);
                colors.push(mean_blue);
            } else {
                chars.push(SPACE);
                colors.push(0);
                colors.push(0);
                colors.push(0);
            }
            assert(chars@[cell] == color_glyph(
                rgba,
                w,
                bs,
                grid_x as int,
                grid_y as int,
                use_detailed_chars,
            ));
            assert(colors@[3 * cell] == color_level(rgba, w, bs, grid_x as int, grid_y as int, 0));
            assert(colors@[3 * cell + 1] == color_level(
                rgba,
                w,
                bs,
                grid_x as int,
                grid_y as int,
                1,
            ));
            assert(colors@[3 * cell + 2] == color_level(
                rgba,
                w,
                bs,
                grid_x as int,
                grid_y as int,
                2,
            ));
            grid_x = grid_x + 1;
        }
        assert((grid_y + 1) * columns == grid_y * columns + columns) by (nonlinear_arith);
        grid_y = grid_y + 1;
    }
    proof {
        lemma_frame_levels_are_bytes(rgba, w, bs);
        assert(grid_height * columns == columns * grid_height) by (nonlinear_arith);
        assert(chars@ =~= frame_glyphs(rgba, w, height as int, bs, use_detailed_chars));
        assert(colors@ =~= frame_colors(rgba, w, height as int, bs));
    }
    ProcessedFrame { chars, colors }
}

/// Every colour level of a cell is a byte value.
pub proof fn lemma_frame_levels_are_bytes(rgba: Seq<u8>, width: int, block_size: int)
    ensures
        forall|grid_x: int, grid_y: int, channel: int|
            0 <= channel < 3 ==> 0 <= #[trigger] color_level(
                rgba,
                width,
                block_size,
                grid_x,
                grid_y,
                channel,
            ) <= 255,
{
    lemma_rgba_planes_are_bytes(rgba);
    assert forall|grid_x: int, grid_y: int, channel: int| 0 <= channel < 3 implies 0
        <= #[trigger] color_level(rgba, width, block_size, grid_x, grid_y, channel) <= 255 by {
        lemma_block_mean_is_byte(channel_plane(rgba, channel), width, block_size, grid_x, grid_y);
    }
}

/// A block that lies entirely beyond the end of the buffer gives a space on
/// black, in whatever palette: so does every such cell of a frame whose
/// buffer is shorter than its dimensions promise.
pub proof fn lemma_block_beyond_buffer_is_blank(
    rgba: Seq<u8>,
    width: int,
    height: int,
    block_size: int,
    grid_x: int,
    grid_y: int,
    detailed: bool,
)
    requires
        block_size >= 1,
        width >= 0,
        0 <= grid_x < grid_extent(width, block_size),
        0 <= grid_y < grid_extent(height, block_size),
        block_beyond(rgba.len() as int / 4, width, block_size, grid_x, grid_y),
    ensures
        ({
            let cell = grid_y * grid_extent(width, block_size) + grid_x;
            &&& 0 <= cell < frame_glyphs(rgba, width, height, block_size, detailed).len()
            &&& frame_glyphs(rgba, width, height, block_size, detailed)[cell] == SPACE
            &&& frame_colors(rgba, width, height, block_size)[3 * cell] == 0
            &&& frame_colors(rgba, width, height, block_size)[3 * cell + 1] == 0
            &&& frame_colors(rgba, width, height, block_size)[3 * cell + 2] == 0
        }),
{
    let columns = grid_extent(width, block_size);
    let rows = grid_extent(height, block_size);
    let cell = grid_y * columns + grid_x;
    lemma_cell_in_grid(columns, rows, grid_x, grid_y);
    lemma_cell_position(columns, grid_x, grid_y);
    lemma_block_beyond_is_empty(luma_plane(rgba), width, block_size, grid_x, grid_y);
    lemma_block_beyond_is_empty(channel_plane(rgba, 0), width, block_size, grid_x, grid_y);
    lemma_block_beyond_is_empty(channel_plane(rgba, 1), width, block_size, grid_x, grid_y);
    lemma_block_beyond_is_empty(channel_plane(rgba, 2), width, block_size, grid_x, grid_y);
    assert(color_glyph(rgba, width, block_size, grid_x, grid_y, detailed) == SPACE);
    assert(color_level(rgba, width, block_size, grid_x, grid_y, 0) == 0);
    assert(color_level(rgba, width, block_size, grid_x, grid_y, 1) == 0);
    assert(color_level(rgba, width, block_size, grid_x, grid_y, 2) == 0);
}

} // verus!
