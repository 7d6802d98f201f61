// The pixel buffer itself: decoding through the image codec, raw
// construction and its invariant, and channel access by coordinate.

use pixel_filters::ColorComponent;
use pixel_filters::DecodeError;
use pixel_filters::Image;

#[test]
fn decode_png_round_trips_rgba_bytes() {
    let pixels: Vec<u8> = vec![10, 20, 30, 255, 40, 50, 60, 128];
    let encoded = image::RgbaImage::from_raw(2, 1, pixels.clone()).unwrap();
    let mut bytes: Vec<u8> = Vec::new();
    encoded
        .write_to(&mut std::io::Cursor::new(&mut bytes), image::ImageFormat::Png)
        .unwrap();
    let img = Image::new_with_data(bytes).unwrap();
    assert_eq!(img.width(), 2);
    assert_eq!(img.height(), 1);
    assert_eq!(img.as_bytes().as_slice(), pixels.as_slice());
}

#[test]
fn decode_forces_rgb_source_to_opaque_rgba() {
    let encoded = image::RgbImage::from_raw(1, 2, vec![5, 6, 7, 8, 9, 10]).unwrap();
    let mut bytes: Vec<u8> = Vec::new();
    encoded
        .write_to(&mut std::io::Cursor::new(&mut bytes), image::ImageFormat::Png)
        .unwrap();
    let img = Image::new_with_data(bytes).unwrap();
    assert_eq!(img.width(), 1);
    assert_eq!(img.height(), 2);
    assert_eq!(img.as_bytes().as_slice(), &[5, 6, 7, 255, 8, 9, 10, 255]);
}

#[test]
fn decode_rejects_unrecognizable_bytes() {
    let r = Image::new_with_data(vec![1, 2, 3, 4]);
    assert!(matches!(r, Err(DecodeError::Malformed)));
}

#[test]
fn from_raw_accepts_exactly_matching_buffers() {
    assert!(Image::from_raw(vec![0; 8], 2, 1).is_some());
    assert!(Image::from_raw(vec![0; 8], 1, 2).is_some());
}

#[test]
fn from_raw_rejects_wrong_length_or_zero_dimension() {
    assert!(Image::from_raw(vec![0; 7], 2, 1).is_none());
    assert!(Image::from_raw(vec![0; 9], 2, 1).is_none());
    assert!(Image::from_raw(vec![], 0, 1).is_none());
    assert!(Image::from_raw(vec![], 1, 0).is_none());
}

#[test]
fn get_reads_channels_by_coordinate() {
    let img = Image::from_raw(vec![1, 2, 3, 4, 5, 6, 7, 8, 9, 10, 11, 12, 13, 14, 15, 16], 2, 2)
        .unwrap();
    assert_eq!(img.get(0, 0, ColorComponent::Red), 1);
    assert_eq!(img.get(1, 0, ColorComponent::Green), 6);
    assert_eq!(img.get(0, 1, ColorComponent::Blue), 11);
    assert_eq!(img.get(1, 1, ColorComponent::Alpha), 16);
}

#[test]
fn set_writes_one_channel_and_nothing_else() {
    let mut img = Image::from_raw(vec![1, 2, 3, 4, 5, 6, 7, 8], 2, 1).unwrap();
    img.set(1, 0, ColorComponent::Blue, 99);
    assert_eq!(img.as_bytes().as_slice(), &[1, 2, 3, 4, 5, 6, 99, 8]);
}
