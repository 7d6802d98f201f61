// Grayscale conversions and the five 3x3 convolution filters, on small
// rasters with hand-computed expected bytes, and the flat-field behavior of
// every kernel.

use pixel_filters::Image;

fn uniform(w: u32, h: u32, px: [u8; 4]) -> Image {
    let mut data: Vec<u8> = Vec::new();
    for _ in 0..(w * h) {
        data.extend_from_slice(&px);
    }
    Image::from_raw(data, w, h).unwrap()
}

// A 2x1 raster: pixel A = (9,9,9,250), pixel B = (18,18,18,251).
fn two_pixels() -> Image {
    Image::from_raw(vec![9, 9, 9, 250, 18, 18, 18, 251], 2, 1).unwrap()
}

#[test]
fn grayscale_avg_truncated_mean() {
    let mut img = Image::from_raw(vec![30, 60, 90, 255], 1, 1).unwrap();
    img.to_grayscale_avg();
    assert_eq!(img.as_bytes().as_slice(), &[60, 60, 60, 255]);
}

#[test]
fn grayscale_avg_output_channels_equal_and_alpha_kept() {
    let mut img = Image::from_raw(vec![1, 200, 40, 7, 255, 0, 99, 128], 2, 1).unwrap();
    img.to_grayscale_avg();
    let b = img.as_bytes();
    assert_eq!(b[0], b[1]);
    assert_eq!(b[1], b[2]);
    assert_eq!(b[3], 7);
    assert_eq!(b[4], b[5]);
    assert_eq!(b[5], b[6]);
    assert_eq!(b[7], 128);
    // (1 + 200 + 40) / 3 = 80; (255 + 0 + 99) / 3 = 118
    assert_eq!(b[0], 80);
    assert_eq!(b[4], 118);
}

#[test]
fn grayscale_luma_white_stays_white() {
    let mut img = Image::from_raw(vec![255, 255, 255, 255], 1, 1).unwrap();
    img.to_grayscale_avg_weighted();
    assert_eq!(img.as_bytes().as_slice(), &[255, 255, 255, 255]);
}

#[test]
fn grayscale_luma_weighted_value() {
    let mut img = Image::from_raw(vec![100, 50, 200, 31], 1, 1).unwrap();
    img.to_grayscale_avg_weighted();
    // (2126*100 + 7152*50 + 722*200) / 10000 = (212600+357600+144400)/10000 = 71
    assert_eq!(img.as_bytes().as_slice(), &[71, 71, 71, 31]);
}

#[test]
fn every_filter_preserves_dimensions_and_length() {
    let base = Image::from_raw(
        vec![
            1, 2, 3, 4, 5, 6, 7, 8, 9, 10, 11, 12, 13, 14, 15, 16, 17, 18, 19, 20, 21, 22, 23, 24,
        ],
        3,
        2,
    )
    .unwrap();
    let apply: Vec<fn(&mut Image)> = vec![
        |i: &mut Image| i.filter_smooth(),
        |i: &mut Image| i.filter_median(),
        |i: &mut Image| i.filter_sobel(),
        |i: &mut Image| i.filter_highpass_sharpen(),
        |i: &mut Image| i.filter_gaussian_blur(),
        |i: &mut Image| i.to_grayscale_avg(),
        |i: &mut Image| i.to_grayscale_avg_weighted(),
    ];
    for f in apply {
        let mut img = Image::from_raw(base.as_bytes().clone(), 3, 2).unwrap();
        f(&mut img);
        assert_eq!(img.width(), 3);
        assert_eq!(img.height(), 2);
        assert_eq!(img.as_bytes().len(), 24);
    }
}

#[test]
fn smooth_on_uniform_raster_is_identity() {
    let mut img = uniform(3, 3, [120, 7, 66, 9]);
    img.filter_smooth();
    assert_eq!(img.as_bytes().as_slice(), uniform(3, 3, [120, 7, 66, 9]).as_bytes().as_slice());
}

#[test]
fn gaussian_on_uniform_raster_is_identity() {
    let mut img = uniform(4, 2, [3, 250, 17, 255]);
    img.filter_gaussian_blur();
    assert_eq!(img.as_bytes().as_slice(), uniform(4, 2, [3, 250, 17, 255]).as_bytes().as_slice());
}

#[test]
fn sobel_on_uniform_raster_is_zero_with_alpha_kept() {
    let mut img = uniform(3, 3, [99, 98, 97, 42]);
    img.filter_sobel();
    assert_eq!(img.as_bytes().as_slice(), uniform(3, 3, [0, 0, 0, 42]).as_bytes().as_slice());
}

#[test]
fn median_on_uniform_raster_is_identity_everywhere() {
    let mut img = uniform(3, 2, [55, 66, 77, 88]);
    img.filter_median();
    assert_eq!(img.as_bytes().as_slice(), uniform(3, 2, [55, 66, 77, 88]).as_bytes().as_slice());
}

#[test]
fn sharpen_on_uniform_raster_is_identity() {
    let mut img = uniform(2, 2, [200, 100, 50, 25]);
    img.filter_highpass_sharpen();
    assert_eq!(img.as_bytes().as_slice(), uniform(2, 2, [200, 100, 50, 25]).as_bytes().as_slice());
}

#[test]
fn smooth_two_pixel_means_with_clamped_border() {
    let mut img = two_pixels();
    img.filter_smooth();
    // pixel 0 samples 6xA + 3xB: (6*9 + 3*18)/9 = 12; pixel 1: (3*9 + 6*18)/9 = 15
    assert_eq!(img.as_bytes().as_slice(), &[12, 12, 12, 250, 15, 15, 15, 251]);
}

#[test]
fn gaussian_two_pixel_weighted_means() {
    let mut img = two_pixels();
    img.filter_gaussian_blur();
    // pixel 0: (12*9 + 4*18)/16 = 11; pixel 1: (4*9 + 12*18)/16 = 15
    assert_eq!(img.as_bytes().as_slice(), &[11, 11, 11, 250, 15, 15, 15, 251]);
}

#[test]
fn sobel_two_pixel_gradient_magnitude() {
    let mut img = two_pixels();
    img.filter_sobel();
    // gx = 3*18 - 3*9 = 27 on both pixels, gy = 0: magnitude 27
    assert_eq!(img.as_bytes().as_slice(), &[27, 27, 27, 250, 27, 27, 27, 251]);
}

#[test]
fn median_two_pixel_takes_majority_sample() {
    let mut img = two_pixels();
    img.filter_median();
    // pixel 0 sorted samples [9x6, 18x3], middle is 9; pixel 1 middle is 18
    assert_eq!(img.as_bytes().as_slice(), &[9, 9, 9, 250, 18, 18, 18, 251]);
}

#[test]
fn sharpen_two_pixel_adds_highpass_response() {
    let mut img = two_pixels();
    img.filter_highpass_sharpen();
    // pixel 0: response (9*9 - 108)/9 negative, cut to 0; pixel 1: (9*18 - 135)/9 = 3
    assert_eq!(img.as_bytes().as_slice(), &[9, 9, 9, 250, 21, 21, 21, 251]);
}

#[test]
fn sobel_magnitude_is_floor_of_square_root() {
    // A 1x2 column: gy = 3*20 - 3*10 = 30, gx = 0, magnitude 30.
    let mut img = Image::from_raw(vec![10, 0, 0, 255, 20, 0, 0, 255], 1, 2).unwrap();
    img.filter_sobel();
    assert_eq!(img.as_bytes()[0], 30);
    assert_eq!(img.as_bytes()[4], 30);
}

#[test]
fn filters_compose_by_sequential_application() {
    let mut img = two_pixels();
    img.filter_smooth();
    img.filter_smooth();
    // second pass sees [12,15]: pixel 0: (6*12 + 3*15)/9 = 13; pixel 1: (3*12 + 6*15)/9 = 14
    assert_eq!(img.as_bytes().as_slice(), &[13, 13, 13, 250, 14, 14, 14, 251]);
}
