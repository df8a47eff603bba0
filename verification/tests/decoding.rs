use ascii_rs::error::EngineError;
use ascii_rs::image_proc::ImageEngine;
use ascii_rs::pixel::{Pixel, PixelBuffer};
use std::io::Cursor;

fn png(width: u32, height: u32, data: Vec<u8>) -> Vec<u8> {
    let picture = image::RgbaImage::from_raw(width, height, data).unwrap();
    let mut bytes = Cursor::new(Vec::new());
    picture.write_to(&mut bytes, image::ImageFormat::Png).unwrap();
    bytes.into_inner()
}

#[test]
fn engine_from_encoded_bytes_holds_the_decoded_pixels() {
    let data: Vec<u8> = vec![255, 0, 0, 255, 0, 255, 0, 128, 0, 0, 255, 0, 7, 8, 9, 10, 1, 1, 1, 1, 2, 2, 2, 2];
    let engine = ImageEngine::from_slice(&png(3, 2, data.clone())).unwrap();
    assert_eq!(engine.source().width(), 3);
    assert_eq!(engine.source().height(), 2);
    assert_eq!(engine.source().as_raw(), data.as_slice());
    assert_eq!(engine.source().pixel(3), Pixel { r: 7, g: 8, b: 9, a: 10 });
}

#[test]
fn engine_from_a_grey_image_is_rgba() {
    let picture = image::GrayImage::from_raw(2, 1, vec![0, 200]).unwrap();
    let mut bytes = Cursor::new(Vec::new());
    picture.write_to(&mut bytes, image::ImageFormat::Png).unwrap();
    let engine = ImageEngine::from_slice(&bytes.into_inner()).unwrap();
    assert_eq!(engine.source().as_raw(), &[0, 0, 0, 255, 200, 200, 200, 255]);
}

#[test]
fn bytes_that_are_no_image_are_a_decode_error() {
    assert!(matches!(ImageEngine::from_slice(b"no image"), Err(EngineError::DecodeError(_))));
    assert!(matches!(ImageEngine::from_slice(&[]), Err(EngineError::DecodeError(_))));
    let mut cut = png(2, 2, vec![9; 16]);
    cut.truncate(20);
    assert!(matches!(ImageEngine::from_slice(&cut), Err(EngineError::DecodeError(_))));
}

#[test]
fn decoder_error_is_carried_unchanged() {
    let cause = image::load_from_memory(b"no image").unwrap_err();
    let text = cause.to_string();
    match ImageEngine::from_decoded(Err(cause)) {
        Err(EngineError::DecodeError(carried)) => assert_eq!(carried.to_string(), text),
        _ => panic!("a decode error was expected"),
    }
}

#[test]
fn decoded_frame_becomes_the_source() {
    let frame = PixelBuffer::from_raw(1, 2, vec![1, 2, 3, 4, 5, 6, 7, 8]).unwrap();
    let engine = ImageEngine::from_decoded(Ok(frame)).unwrap();
    assert_eq!(engine.source().as_raw(), &[1, 2, 3, 4, 5, 6, 7, 8]);
    assert_eq!(engine.source().height(), 2);
}

#[test]
fn decoded_image_renders() {
    let red = [255u8, 0, 0, 255];
    let engine = ImageEngine::from_slice(&png(2, 1, red.repeat(2))).unwrap();
    let text = engine.get_ascii_as_string(0, Some(2), Some(1)).unwrap();
    assert_eq!(text, "\x1b[38;2;255;0;0m@@\x1b[0m");
}
