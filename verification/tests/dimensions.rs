use ascii_rs::dimensions::resolve;
use ascii_rs::error::EngineError;
use ascii_rs::image_proc::ImageEngine;
use ascii_rs::pixel::PixelBuffer;

fn size(width: Option<u32>, height: Option<u32>, source_width: u32, source_height: u32) -> (u32, u32) {
    resolve(width, height, source_width, source_height).unwrap()
}

#[test]
fn height_only_scales_the_width() {
    // ceil(100 * 200 / 100 / 2) = 100
    assert_eq!(size(None, Some(100), 200, 100), (100, 100));
}

#[test]
fn width_only_scales_the_height() {
    // ceil(128 * 100 / 200 / 2) = 32
    assert_eq!(size(Some(128), None, 200, 100), (128, 32));
    // ceil(80 * 480 / 640 / 2) = 30
    assert_eq!(size(Some(80), None, 640, 480), (80, 30));
}

#[test]
fn scaled_dimension_rounds_up() {
    // 3 * 5 / 4 / 2 = 1.875
    assert_eq!(size(Some(3), None, 4, 5), (3, 2));
    // 1 * 1 / 1000 / 2 = 0.0005
    assert_eq!(size(Some(1), None, 1000, 1), (1, 1));
    // 7 * 3 / 2 / 2 = 5.25
    assert_eq!(size(None, Some(7), 3, 2), (6, 7));
    // 10 * 3 / 5 / 2 = 3 exactly
    assert_eq!(size(None, Some(10), 3, 5), (3, 10));
}

#[test]
fn both_given_are_taken_as_they_are() {
    assert_eq!(size(Some(7), Some(400), 200, 100), (7, 400));
    assert_eq!(size(Some(0), Some(5), 200, 100), (0, 5));
    assert_eq!(size(Some(u32::MAX), Some(1), 0, 0), (u32::MAX, 1));
}

#[test]
fn neither_given_is_invalid() {
    assert!(matches!(resolve(None, None, 200, 100), Err(EngineError::InvalidDimensions)));
    assert!(matches!(resolve(None, None, 0, 0), Err(EngineError::InvalidDimensions)));
}

#[test]
fn degenerate_sources_can_give_zero() {
    // the source has no height: the scaled height is zero
    assert_eq!(size(Some(10), None, 5, 0), (10, 0));
    // zero asked for
    assert_eq!(size(Some(0), None, 5, 5), (0, 0));
    // nothing over nothing
    assert_eq!(size(Some(10), None, 0, 0), (10, 0));
    assert_eq!(size(None, Some(0), 9, 0), (0, 0));
}

#[test]
fn division_by_a_zero_source_size_saturates() {
    assert_eq!(size(Some(10), None, 0, 5), (10, u32::MAX));
    assert_eq!(size(None, Some(1), 1, 0), (u32::MAX, 1));
}

#[test]
fn results_beyond_32_bits_are_held_at_the_limit() {
    assert_eq!(size(Some(u32::MAX), None, 1, u32::MAX), (u32::MAX, u32::MAX));
    assert_eq!(size(Some(u32::MAX), None, 1, 2), (u32::MAX, u32::MAX));
    // u32::MAX * 2 / 2 / 2 = 2147483647.5
    assert_eq!(size(Some(u32::MAX), None, 2, 2), (u32::MAX, 2_147_483_648));
    assert_eq!(size(Some(u32::MAX), None, u32::MAX, u32::MAX), (u32::MAX, 2_147_483_648));
}

#[test]
fn engine_resolves_against_its_source() {
    let engine = ImageEngine::new(PixelBuffer::from_raw(4, 2, vec![0; 32]).unwrap());
    assert_eq!(engine.calculate_dimensions(Some(8), None).unwrap(), (8, 2));
    assert_eq!(engine.calculate_dimensions(None, Some(8)).unwrap(), (8, 8));
    assert_eq!(engine.calculate_dimensions(Some(3), Some(9)).unwrap(), (3, 9));
    assert!(matches!(
        engine.calculate_dimensions(None, None),
        Err(EngineError::InvalidDimensions)
    ));
}
