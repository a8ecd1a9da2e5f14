use ascii_frame::color::ProcessedFrame;
use ascii_frame::palette::{COARSE, DETAILED, SPACE};
use ascii_frame::{process_frame, process_frame_with_color};

fn rgba_of(pixels: &[(u8, u8, u8)]) -> Vec<u8> {
    let mut buffer = Vec::new();
    for &(r, g, b) in pixels {
        buffer.push(r);
        buffer.push(g);
        buffer.push(b);
        buffer.push(255);
    }
    buffer
}

#[test]
fn gray_block_with_one_bright_pixel() {
    let glyphs = process_frame(&[0, 0, 0, 255], 2, 2, 2);
    assert_eq!(glyphs, vec![COARSE[2]]);
    assert_eq!(glyphs, vec![b':']);
}

#[test]
fn white_rgba_block_is_at_sign_on_white() {
    let buffer = [255u8; 16];
    let frame = process_frame_with_color(&buffer, 2, 2, 2, false);
    assert_eq!(frame.chars(), vec![b'@']);
    assert_eq!(frame.colors(), vec![255, 255, 255]);
}

#[test]
fn white_rgba_block_in_detailed_palette() {
    let buffer = [255u8; 16];
    let frame = process_frame_with_color(&buffer, 2, 2, 2, true);
    assert_eq!(frame.chars(), vec![b'$']);
    assert_eq!(frame.colors(), vec![255, 255, 255]);
}

#[test]
fn palettes_are_the_documented_strings() {
    assert_eq!(&COARSE[..], &b" .:-=+*#%@"[..]);
    assert_eq!(
        &DETAILED[..],
        &b" .'`^\",:;Il!i><~+_-?][}{1)(|\\/tfjrxnuvczXYUJCLQ0OZmwqpdbkhao*#MW&8%B@$"[..]
    );
    assert_eq!(SPACE, b' ');
    assert_eq!(COARSE[0], SPACE);
    assert_eq!(DETAILED[0], SPACE);
}

#[test]
fn gray_output_has_one_glyph_per_whole_block() {
    let buffer = vec![100u8; 7 * 5];
    assert_eq!(process_frame(&buffer, 7, 5, 2).len(), 3 * 2);
    assert_eq!(process_frame(&buffer, 7, 5, 1).len(), 7 * 5);
    assert_eq!(process_frame(&buffer, 7, 5, 5).len(), 1);
    assert_eq!(process_frame(&buffer, 7, 5, 6).len(), 0);
    assert_eq!(process_frame(&buffer, 0, 5, 2).len(), 0);
}

#[test]
fn color_output_has_one_glyph_and_three_bytes_per_whole_block() {
    let buffer = vec![100u8; 7 * 5 * 4];
    for block_size in 1..9usize {
        let frame = process_frame_with_color(&buffer, 7, 5, block_size, false);
        let cells = (7 / block_size) * (5 / block_size);
        assert_eq!(frame.chars().len(), cells);
        assert_eq!(frame.colors().len(), 3 * cells);
    }
}

#[test]
fn gray_cells_come_row_by_row() {
    // 4 x 2 pixels, blocks of one pixel: the glyphs follow the buffer.
    let buffer = [0u8, 255, 0, 255, 255, 255, 0, 0];
    let glyphs = process_frame(&buffer, 4, 2, 1);
    assert_eq!(glyphs, b" @ @@@  ".to_vec());
}

#[test]
fn gray_blocks_are_averaged_separately() {
    // 4 x 2 pixels in two blocks of 2 x 2: left block dark, right block bright.
    let buffer = [10u8, 20, 200, 210, 30, 40, 220, 230];
    let glyphs = process_frame(&buffer, 4, 2, 2);
    // left mean (10+20+30+40)/4 = 25 -> 25*9/255 = 0; right mean 860/4 = 215 -> 7
    assert_eq!(glyphs, vec![COARSE[0], COARSE[7]]);
}

#[test]
fn gray_mean_is_truncated() {
    // mean of 0, 0, 0, 255 is 63.75, which counts as 63; 63 * 9 / 255 = 2
    assert_eq!(process_frame(&[0, 0, 0, 255], 2, 2, 2), vec![COARSE[2]]);
    // mean of 56, 57, 57, 57 is 56.75 -> 56 -> index 1; 57 would give index 2
    assert_eq!(process_frame(&[56, 57, 57, 57], 2, 2, 2), vec![COARSE[1]]);
    assert_eq!(process_frame(&[57, 57, 57, 57], 2, 2, 2), vec![COARSE[2]]);
}

#[test]
fn pixels_outside_whole_blocks_are_ignored() {
    // 3 x 3 pixels, block size 2: one cell over the top left 2 x 2 pixels.
    let buffer = [0u8, 0, 255, 0, 0, 255, 255, 255, 255];
    assert_eq!(process_frame(&buffer, 3, 3, 2), vec![COARSE[0]]);
}

#[test]
fn color_uses_the_fast_brightness_formula() {
    // pure red: (3 * 255) / 10 = 76 -> 76 * 9 / 255 = 2
    let red = rgba_of(&[(255, 0, 0)]);
    let frame = process_frame_with_color(&red, 1, 1, 1, false);
    assert_eq!(frame.chars(), vec![COARSE[2]]);
    assert_eq!(frame.colors(), vec![255, 0, 0]);
    // pure green: (6 * 255) / 10 = 153 -> 153 * 9 / 255 = 5
    let green = rgba_of(&[(0, 255, 0)]);
    let frame = process_frame_with_color(&green, 1, 1, 1, false);
    assert_eq!(frame.chars(), vec![COARSE[5]]);
    assert_eq!(frame.colors(), vec![0, 255, 0]);
    // pure blue: 255 / 10 = 25 -> 25 * 9 / 255 = 0
    let blue = rgba_of(&[(0, 0, 255)]);
    let frame = process_frame_with_color(&blue, 1, 1, 1, false);
    assert_eq!(frame.chars(), vec![COARSE[0]]);
    assert_eq!(frame.colors(), vec![0, 0, 255]);
}

#[test]
fn color_brightness_is_rounded_per_pixel_before_the_mean() {
    // (3*3)/10 = 0 for each of the four pixels: the mean of the rounded values
    // is 0, though the colours add up.
    let buffer = rgba_of(&[(3, 0, 0), (3, 0, 0), (3, 0, 0), (3, 0, 0)]);
    let frame = process_frame_with_color(&buffer, 2, 2, 2, true);
    assert_eq!(frame.chars(), vec![DETAILED[0]]);
    assert_eq!(frame.colors(), vec![3, 0, 0]);
}

#[test]
fn color_means_are_truncated_per_channel() {
    let buffer = rgba_of(&[(10, 0, 255), (11, 1, 255), (11, 1, 254), (11, 1, 255)]);
    let frame = process_frame_with_color(&buffer, 2, 2, 2, false);
    // red 43/4 = 10, green 3/4 = 0, blue 1019/4 = 254
    assert_eq!(frame.colors(), vec![10, 0, 254]);
}

#[test]
fn detailed_palette_has_finer_steps() {
    // gray 128 for (128,128,128): (3*128 + 6*128 + 128)/10 = 128
    let buffer = rgba_of(&[(128, 128, 128)]);
    let coarse = process_frame_with_color(&buffer, 1, 1, 1, false);
    let detailed = process_frame_with_color(&buffer, 1, 1, 1, true);
    assert_eq!(coarse.chars(), vec![COARSE[128 * 9 / 255]]);
    assert_eq!(coarse.chars(), vec![b'=']);
    assert_eq!(detailed.chars(), vec![DETAILED[128 * 69 / 255]]);
    assert_eq!(detailed.chars(), vec![b'x']);
}

#[test]
fn color_cells_come_row_by_row() {
    let buffer = rgba_of(&[(255, 255, 255), (0, 0, 0), (0, 0, 0), (255, 255, 255)]);
    let frame = process_frame_with_color(&buffer, 2, 2, 1, false);
    assert_eq!(frame.chars(), b"@  @".to_vec());
    assert_eq!(
        frame.colors(),
        vec![255, 255, 255, 0, 0, 0, 0, 0, 0, 255, 255, 255]
    );
}

#[test]
fn short_gray_buffer_gives_spaces_beyond_its_end() {
    // 2 x 4 pixels declared, only the first row of blocks is there.
    let buffer = [255u8, 255, 255, 255];
    let glyphs = process_frame(&buffer, 2, 4, 2);
    assert_eq!(glyphs, vec![b'@', b' ']);
    // nothing at all
    assert_eq!(process_frame(&[], 4, 4, 2), vec![b' '; 4]);
}

#[test]
fn short_color_buffer_gives_space_on_black_beyond_its_end() {
    let buffer = [255u8; 16];
    let frame = process_frame_with_color(&buffer, 2, 4, 2, false);
    assert_eq!(frame.chars(), vec![b'@', b' ']);
    assert_eq!(frame.colors(), vec![255, 255, 255, 0, 0, 0]);
    let frame = process_frame_with_color(&buffer, 2, 4, 2, true);
    assert_eq!(frame.chars(), vec![b'$', b' ']);
    let empty = process_frame_with_color(&[], 3, 3, 1, true);
    assert_eq!(empty.chars(), vec![b' '; 9]);
    assert_eq!(empty.colors(), vec![0u8; 27]);
}

#[test]
fn partly_held_block_is_averaged_over_the_pixels_held() {
    // 2 x 2 declared, three gray pixels held: mean (90 + 90 + 93) / 3 = 91
    let glyphs = process_frame(&[90, 90, 93], 2, 2, 2);
    assert_eq!(glyphs, vec![COARSE[91 * 9 / 255]]);
    assert_eq!(glyphs, vec![b'-']);
    // RGBA: the second pixel lacks its alpha byte and does not count.
    let buffer = [200u8, 100, 50, 255, 0, 0, 0];
    let frame = process_frame_with_color(&buffer, 2, 1, 2, false);
    assert_eq!(frame.chars().len(), 0);
    let frame = process_frame_with_color(&buffer, 2, 2, 2, false);
    // luma (600 + 600 + 50) / 10 = 125 -> 125 * 9 / 255 = 4
    assert_eq!(frame.chars(), vec![COARSE[4]]);
    assert_eq!(frame.colors(), vec![200, 100, 50]);
}

#[test]
fn dimensions_without_a_whole_block_give_nothing() {
    let buffer = [255u8; 16];
    assert_eq!(process_frame(&buffer, usize::MAX, 2, 3), Vec::<u8>::new());
    assert_eq!(process_frame(&buffer, 1, 9, 2), Vec::<u8>::new());
    let frame = process_frame_with_color(&buffer, usize::MAX, 0, 1, false);
    assert_eq!(frame.chars(), Vec::<u8>::new());
    assert_eq!(frame.colors(), Vec::<u8>::new());
}

#[test]
fn frame_from_parts_needs_three_bytes_per_glyph() {
    assert!(ProcessedFrame::from_parts(vec![b'@'], vec![1, 2]).is_none());
    assert!(ProcessedFrame::from_parts(vec![b'@'], vec![]).is_none());
    assert!(ProcessedFrame::from_parts(vec![], vec![1, 2, 3]).is_none());
    let frame = ProcessedFrame::from_parts(vec![b'@', b'.'], vec![1, 2, 3, 4, 5, 6]);
    let frame = frame.expect("three bytes for each glyph");
    assert_eq!(frame.chars(), vec![b'@', b'.']);
    assert_eq!(frame.colors(), vec![1, 2, 3, 4, 5, 6]);
    let empty = ProcessedFrame::from_parts(vec![], vec![]).expect("nothing for nothing");
    assert_eq!(empty.chars(), Vec::<u8>::new());
    assert_eq!(empty.colors(), Vec::<u8>::new());
}

#[test]
fn frame_getters_hand_out_copies() {
    let buffer = [255u8; 16];
    let frame = process_frame_with_color(&buffer, 2, 2, 2, false);
    let mut first = frame.chars();
    first.push(b'x');
    assert_eq!(frame.chars(), vec![b'@']);
    let mut colors = frame.colors();
    colors.clear();
    assert_eq!(frame.colors(), vec![255, 255, 255]);
}
