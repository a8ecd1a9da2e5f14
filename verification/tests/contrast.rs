use ascii_frame::{apply_contrast, ContrastCurve};

/// The tone curve of the classic contrast-stretch formula.
fn stretch_curve(contrast: f32) -> ContrastCurve {
    let factor = (259.0 * (contrast + 255.0)) / (255.0 * (259.0 - contrast));
    let mut levels = [0u8; 256];
    for level in 0..256usize {
        levels[level] = (factor * (level as f32 - 128.0) + 128.0).max(0.0).min(255.0) as u8;
    }
    ContrastCurve::from_table(levels)
}

fn inverting_curve() -> ContrastCurve {
    let mut levels = [0u8; 256];
    for level in 0..256usize {
        levels[level] = 255 - level as u8;
    }
    ContrastCurve::from_table(levels)
}

#[test]
fn identity_curve_changes_nothing() {
    let buffer: Vec<u8> = (0..=255u8).chain(0..=255u8).collect();
    let out = apply_contrast(&buffer, 16, 8, &ContrastCurve::identity());
    assert_eq!(out, buffer);
}

#[test]
fn identity_curve_maps_each_level_to_itself() {
    let curve = ContrastCurve::identity();
    for level in 0..=255u8 {
        assert_eq!(curve.level(level), level);
    }
}

#[test]
fn zero_contrast_returns_the_input() {
    let curve = stretch_curve(0.0);
    for level in 0..=255u8 {
        assert_eq!(curve.level(level), level);
    }
    let buffer: Vec<u8> = (0..64u32).map(|i| (i * 37 % 256) as u8).collect();
    assert_eq!(apply_contrast(&buffer, 4, 4, &curve), buffer);
    let empty: Vec<u8> = Vec::new();
    assert_eq!(apply_contrast(&empty, 0, 0, &curve), empty);
}

#[test]
fn alpha_is_kept_and_colours_are_mapped() {
    let buffer = [0u8, 10, 255, 77, 128, 1, 254, 0];
    let out = apply_contrast(&buffer, 2, 1, &inverting_curve());
    assert_eq!(out, vec![255, 245, 0, 77, 127, 254, 1, 0]);
}

#[test]
fn curve_from_table_reads_back() {
    let curve = inverting_curve();
    assert_eq!(curve.level(0), 255);
    assert_eq!(curve.level(255), 0);
    assert_eq!(curve.level(100), 155);
}

#[test]
fn output_is_as_long_as_the_input() {
    let curve = inverting_curve();
    for len in 0..13usize {
        let buffer = vec![9u8; len];
        let out = apply_contrast(&buffer, 1, 1, &curve);
        assert_eq!(out.len(), len);
        for (i, byte) in out.iter().enumerate() {
            if i % 4 == 3 {
                assert_eq!(*byte, 9);
            } else {
                assert_eq!(*byte, 246);
            }
        }
    }
}

#[test]
fn dimensions_do_not_matter_for_contrast() {
    let buffer = [1u8, 2, 3, 4, 5, 6, 7, 8];
    let curve = inverting_curve();
    let expected = vec![254u8, 253, 252, 4, 250, 249, 248, 8];
    assert_eq!(apply_contrast(&buffer, 2, 1, &curve), expected);
    assert_eq!(apply_contrast(&buffer, 0, 0, &curve), expected);
    assert_eq!(apply_contrast(&buffer, usize::MAX, usize::MAX, &curve), expected);
}

#[test]
fn stronger_contrast_spreads_the_levels() {
    // contrast 128: factor = 259 * 383 / (255 * 131) = 2.9695...
    let curve = stretch_curve(128.0);
    assert_eq!(curve.level(128), 128);
    assert_eq!(curve.level(0), 0);
    assert_eq!(curve.level(255), 255);
    assert_eq!(curve.level(138), 157);
    assert_eq!(curve.level(118), 98);
    let out = apply_contrast(&[138, 118, 128, 200], 1, 1, &curve);
    assert_eq!(out, vec![157, 98, 128, 200]);
}
