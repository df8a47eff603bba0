use ascii_rs::encoder::{encode, RenderState};
use ascii_rs::error::EngineError;
use ascii_rs::image_proc::{fits_in_memory, ImageEngine};
use ascii_rs::pixel::{Color, Pixel, PixelBuffer};

const RESET: &str = "\x1b[0m";

fn frame(width: u32, height: u32, pixels: &[[u8; 4]]) -> PixelBuffer {
    PixelBuffer::from_raw(width, height, pixels.concat()).unwrap()
}

fn engine(width: u32, height: u32, pixels: &[[u8; 4]]) -> ImageEngine {
    ImageEngine::new(frame(width, height, pixels))
}

fn count(text: &str, part: &str) -> usize {
    text.matches(part).count()
}

#[test]
fn two_equal_pixels_share_one_color_escape() {
    let red = [255, 0, 0, 255];
    let text = engine(2, 1, &[red, red]).get_ascii_as_string(0, Some(2), Some(1)).unwrap();
    assert_eq!(text, "\x1b[38;2;255;0;0m@@\x1b[0m");
    assert_eq!(count(&text, "\x1b[38;2;"), 1);
    assert_eq!(count(&text, RESET), 1);
    assert_eq!(count(&text, "\n"), 0);
    assert!(text.ends_with(RESET));
}

#[test]
fn transparent_pixel_is_a_single_space() {
    let text = engine(1, 1, &[[0, 0, 0, 0]]).get_ascii_as_string(0, Some(1), Some(1)).unwrap();
    assert_eq!(text, "\x1b[38;2;0;0;0m \x1b[0m");
    let glyphs = text.replace("\x1b[38;2;0;0;0m", "").replace(RESET, "");
    assert_eq!(glyphs, " ");
}

#[test]
fn rendering_twice_gives_the_same_text() {
    let pixels = [[10, 20, 30, 255], [10, 20, 30, 255], [200, 100, 0, 255], [0, 0, 0, 0]];
    let one = engine(2, 2, &pixels);
    let first = one.get_ascii_as_string(5, Some(4), None).unwrap();
    let second = one.get_ascii_as_string(5, Some(4), None).unwrap();
    assert_eq!(first.as_bytes(), second.as_bytes());
    let other = engine(2, 2, &pixels);
    assert_eq!(other.get_ascii_as_string(5, Some(4), None).unwrap(), first);
}

#[test]
fn escapes_count_the_runs_of_color() {
    let a = [255, 0, 0, 255];
    let b = [0, 255, 0, 255];
    // rows: a a b | b b b | a b a
    let pixels = [a, a, b, b, b, b, a, b, a];
    let text = encode(&frame(3, 3, &pixels), 0);
    // runs: 2 in the first row, 1 in the second, 3 in the third
    assert_eq!(count(&text, "\x1b[38;2;"), 6);
    assert_eq!(count(&text, "\n"), 2);
    assert_eq!(count(&text, RESET), 3);
    let red = "\x1b[38;2;255;0;0m";
    let green = "\x1b[38;2;0;255;0m";
    // green is the brighter: red is 255 * 0.2989 of 255 * 0.5870, place 4
    let expected = format!(
        "{red}=={green}@{RESET}\n{green}@@@{RESET}\n{red}={green}@{red}={RESET}"
    );
    assert_eq!(text, expected);
}

#[test]
fn a_row_boundary_sets_the_color_again() {
    let a = [9, 9, 9, 255];
    let text = encode(&frame(2, 2, &[a, a, a, a]), 0);
    assert_eq!(text, "\x1b[38;2;9;9;9m@@\x1b[0m\n\x1b[38;2;9;9;9m@@\x1b[0m");
    assert_eq!(count(&text, "\x1b[38;2;"), 2);
}

#[test]
fn a_column_of_cells_has_one_escape_per_row() {
    let a = [1, 2, 3, 255];
    let text = encode(&frame(1, 3, &[a, a, a]), 0);
    let row = "\x1b[38;2;1;2;3m@\x1b[0m";
    assert_eq!(text, format!("{row}\n{row}\n{row}"));
}

#[test]
fn color_channels_are_written_in_decimal() {
    let text = encode(&frame(3, 1, &[[0, 42, 255, 255], [100, 9, 10, 255], [199, 200, 99, 255]]), 0);
    assert!(text.starts_with("\x1b[38;2;0;42;255m"));
    assert!(text.contains("\x1b[38;2;100;9;10m"));
    assert!(text.contains("\x1b[38;2;199;200;99m"));
}

#[test]
fn alpha_does_not_split_a_run() {
    let text = encode(&frame(2, 1, &[[50, 50, 50, 255], [50, 50, 50, 0]]), 0);
    assert_eq!(text, "\x1b[38;2;50;50;50m@ \x1b[0m");
}

#[test]
fn a_black_frame_renders_the_first_glyph() {
    let black = [0, 0, 0, 255];
    let text = encode(&frame(2, 1, &[black, black]), 0);
    assert_eq!(text, "\x1b[38;2;0;0;0m  \x1b[0m");
}

#[test]
fn an_empty_frame_renders_nothing() {
    assert_eq!(encode(&frame(0, 0, &[]), 0), "");
    assert_eq!(encode(&frame(0, 3, &[]), 0), "");
    assert_eq!(encode(&frame(3, 0, &[]), 0), "");
}

#[test]
fn threshold_blanks_the_pixels_at_or_below_it() {
    let pixels = [[200, 200, 200, 10], [200, 200, 200, 11]];
    assert_eq!(encode(&frame(2, 1, &pixels), 10), "\x1b[38;2;200;200;200m @\x1b[0m");
    assert_eq!(encode(&frame(2, 1, &pixels), 9), "\x1b[38;2;200;200;200m@@\x1b[0m");
    assert_eq!(encode(&frame(2, 1, &pixels), 255), "\x1b[38;2;200;200;200m  \x1b[0m");
}

#[test]
fn missing_dimensions_are_invalid() {
    let one = engine(1, 1, &[[1, 1, 1, 255]]);
    assert!(matches!(one.get_ascii_as_string(0, None, None), Err(EngineError::InvalidDimensions)));
}

#[test]
fn a_frame_without_pixels_is_invalid() {
    let one = engine(1, 1, &[[1, 1, 1, 255]]);
    assert!(matches!(
        one.get_ascii_as_string(0, Some(0), Some(4)),
        Err(EngineError::InvalidDimensions)
    ));
    assert!(matches!(
        one.get_ascii_as_string(0, Some(4), Some(0)),
        Err(EngineError::InvalidDimensions)
    ));
    assert!(matches!(one.get_ascii_as_string(0, Some(0), None), Err(EngineError::InvalidDimensions)));
    let flat = engine(3, 0, &[]);
    assert!(matches!(flat.get_ascii_as_string(0, Some(6), None), Err(EngineError::InvalidDimensions)));
}

#[test]
fn resampling_picks_single_source_pixels() {
    let pixels: Vec<[u8; 4]> = (0u8..8).map(|n| [n, 10 + n, 20 + n, 255]).collect();
    let source = engine(4, 2, &pixels);
    let half = source.resample(2, 1);
    assert_eq!(half.width(), 2);
    assert_eq!(half.height(), 1);
    // the cell centres fall on column 1 and column 3 of the second row
    assert_eq!(half.pixel(0), Pixel { r: 5, g: 15, b: 25, a: 255 });
    assert_eq!(half.pixel(1), Pixel { r: 7, g: 17, b: 27, a: 255 });
}

#[test]
fn resampling_to_the_same_size_keeps_the_frame() {
    let pixels: Vec<[u8; 4]> = (0u8..6).map(|n| [n, n, 200, n]).collect();
    let source = engine(3, 2, &pixels);
    let same = source.resample(3, 2);
    assert_eq!(same.as_raw(), source.source().as_raw());
}

#[test]
fn resampling_up_repeats_pixels() {
    let source = engine(2, 1, &[[1, 2, 3, 4], [5, 6, 7, 8]]);
    let wide = source.resample(4, 2);
    assert_eq!(wide.len(), 8);
    let left = Pixel { r: 1, g: 2, b: 3, a: 4 };
    let right = Pixel { r: 5, g: 6, b: 7, a: 8 };
    for row in 0..2 {
        assert_eq!(wide.pixel(4 * row), left);
        assert_eq!(wide.pixel(4 * row + 1), left);
        assert_eq!(wide.pixel(4 * row + 2), right);
        assert_eq!(wide.pixel(4 * row + 3), right);
    }
}

#[test]
fn resampling_a_source_without_pixels_gives_blank_pixels() {
    let source = engine(0, 0, &[]);
    let made = source.resample(2, 1);
    assert_eq!(made.as_raw(), &[0u8; 8]);
}

#[test]
fn rendering_scales_the_source() {
    let a = [255, 255, 255, 255];
    let b = [0, 0, 0, 255];
    // 4 x 4, left half white and right half black; at width 4 the height is 2
    let pixels = [a, a, b, b, a, a, b, b, a, a, b, b, a, a, b, b];
    let text = engine(4, 4, &pixels).get_ascii_as_string(0, Some(4), None).unwrap();
    let row = "\x1b[38;2;255;255;255m@@\x1b[38;2;0;0;0m  \x1b[0m";
    assert_eq!(text, format!("{row}\n{row}"));
}

#[test]
fn rendering_is_the_encoding_of_the_resampled_frame() {
    let pixels: Vec<[u8; 4]> = (0u8..24).map(|n| [n * 10, 255 - n * 10, n, 255]).collect();
    let source = engine(6, 4, &pixels);
    let text = source.get_ascii_as_string(3, None, Some(2)).unwrap();
    let (width, height) = source.calculate_dimensions(None, Some(2)).unwrap();
    assert_eq!((width, height), (2, 2));
    assert_eq!(text, encode(&source.resample(width, height), 3));
}

#[test]
fn state_sets_a_color_once_per_run() {
    let mut state = RenderState::new();
    assert_eq!(state.previous_color, None);
    assert_eq!(state.current_row, 0);
    let mut sink = String::new();
    let red = Color { r: 255, g: 0, b: 0 };
    let blue = Color { r: 0, g: 0, b: 255 };
    state.advance(&mut sink, 0, red, 'a');
    assert_eq!(sink, "\x1b[38;2;255;0;0ma");
    state.advance(&mut sink, 0, red, 'b');
    assert_eq!(sink, "\x1b[38;2;255;0;0mab");
    state.advance(&mut sink, 0, blue, 'c');
    assert_eq!(sink, "\x1b[38;2;255;0;0mab\x1b[38;2;0;0;255mc");
    assert_eq!(state.previous_color, Some(blue));
    state.advance(&mut sink, 1, blue, 'd');
    assert_eq!(sink, "\x1b[38;2;255;0;0mab\x1b[38;2;0;0;255mc\x1b[0m\n\x1b[38;2;0;0;255md");
    assert_eq!(state.current_row, 1);
    state.finish(&mut sink);
    assert!(sink.ends_with("d\x1b[0m"));
    assert_eq!(state.previous_color, None);
    let written = sink.len();
    state.finish(&mut sink);
    assert_eq!(sink.len(), written);
}

#[test]
fn state_without_a_color_breaks_the_line_without_a_reset() {
    let mut state = RenderState { previous_color: None, current_row: 0 };
    let mut sink = String::new();
    state.advance(&mut sink, 2, Color { r: 1, g: 1, b: 1 }, 'x');
    assert_eq!(sink, "\n\x1b[38;2;1;1;1mx");
    assert_eq!(state.current_row, 2);
}

#[test]
fn small_frames_fit_in_memory() {
    assert!(fits_in_memory(4, 2, 1));
    assert!(fits_in_memory(0, 0, 0));
    assert!(fits_in_memory(1920, 128, 36));
    assert!(fits_in_memory(u32::MAX, u32::MAX, 0));
}

#[test]
fn frames_beyond_the_address_space_do_not_fit() {
    assert!(!fits_in_memory(1, u32::MAX, u32::MAX));
    assert!(!fits_in_memory(u32::MAX, 1, u32::MAX));
    // four bytes to a pixel: one pixel more than isize::MAX / 4 bytes hold
    let most = (isize::MAX as u128 / 4) as u64;
    if most < u32::MAX as u64 {
        assert!(fits_in_memory(0, most as u32, 1));
        assert!(!fits_in_memory(0, most as u32 + 1, 1));
    }
}

#[test]
fn rendering_at_the_size_of_the_source_encodes_the_source() {
    let pixels: Vec<[u8; 4]> = (0u8..6).map(|n| [n * 40, n, 255 - n, 250]).collect();
    let source = engine(3, 2, &pixels);
    let text = source.get_ascii_as_string(0, Some(3), Some(2)).unwrap();
    assert_eq!(text, encode(source.source(), 0));
}

#[test]
fn a_uniform_source_renders_the_fullest_glyph_at_any_size() {
    let source = engine(3, 3, &[[90, 10, 200, 255]; 9]);
    let text = source.get_ascii_as_string(0, Some(5), Some(2)).unwrap();
    let row = "\x1b[38;2;90;10;200m@@@@@\x1b[0m";
    assert_eq!(text, format!("{row}\n{row}"));
}
