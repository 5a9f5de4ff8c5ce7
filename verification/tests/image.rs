use fhe_image::image::{ColorType, Image, ImageError, PlaintextImage, Size, BIT_DEPTH, SOURCE_GAMMA};

#[test]
fn minus_one_lowers_both_fields() {
    let size = Size { width: 640, height: 480 };
    assert_eq!(size.minus_one(), Size { width: 639, height: 479 });
}

#[test]
fn minus_one_stops_at_zero() {
    let size = Size { width: 0, height: 1 };
    assert_eq!(size.minus_one(), Size { width: 0, height: 0 });
    let size = Size { width: 1, height: 0 };
    assert_eq!(size.minus_one(), Size { width: 0, height: 0 });
}

#[test]
fn channel_counts_of_all_colour_types() {
    assert_eq!(ColorType::Grayscale.channel_count(), 1);
    assert_eq!(ColorType::Indexed.channel_count(), 1);
    assert_eq!(ColorType::GrayscaleAlpha.channel_count(), 2);
    assert_eq!(ColorType::Rgb.channel_count(), 3);
    assert_eq!(ColorType::Rgba.channel_count(), 4);
    assert_eq!(u16::from(ColorType::Rgba), 4);
    assert_eq!(u16::from(ColorType::Grayscale), 1);
}

#[test]
fn alpha_is_carried_by_two_colour_types() {
    assert!(ColorType::GrayscaleAlpha.carries_alpha());
    assert!(ColorType::Rgba.carries_alpha());
    assert!(!ColorType::Grayscale.carries_alpha());
    assert!(!ColorType::Indexed.carries_alpha());
    assert!(!ColorType::Rgb.carries_alpha());
}

#[test]
fn colour_codes_are_those_of_png() {
    assert_eq!(ColorType::Grayscale.code(), 0);
    assert_eq!(ColorType::Rgb.code(), 2);
    assert_eq!(ColorType::Indexed.code(), 3);
    assert_eq!(ColorType::GrayscaleAlpha.code(), 4);
    assert_eq!(ColorType::Rgba.code(), 6);
    for code in 0..=255u8 {
        match ColorType::from_code(code) {
            Some(color_type) => assert_eq!(color_type.code(), code),
            None => assert!(![0u8, 2, 3, 4, 6].contains(&code)),
        }
    }
}

#[test]
fn new_image_keeps_what_it_is_given() {
    let image = Image::new(vec![1u8, 2, 3, 4, 5, 6], 2, 1, ColorType::Rgb);
    assert_eq!(image.data, vec![1, 2, 3, 4, 5, 6]);
    assert_eq!(image.size, Size { width: 2, height: 1 });
    assert_eq!(image.color_type, ColorType::Rgb);
    assert_eq!(image.channel_count(), 3);
}

#[test]
fn fills_compares_with_the_wanted_samples() {
    assert!(PlaintextImage::fills(6, 2, 1, ColorType::Rgb));
    assert!(!PlaintextImage::fills(5, 2, 1, ColorType::Rgb));
    assert!(!PlaintextImage::fills(7, 2, 1, ColorType::Rgb));
    assert!(PlaintextImage::fills(0, 0, 9, ColorType::Rgba));
    assert_eq!(PlaintextImage::wanted_samples(65535, 65535, ColorType::Rgba), 17179344900);
    assert_eq!(PlaintextImage::wanted_samples(3, 5, ColorType::GrayscaleAlpha), 30);
}

#[test]
fn get_pixel_returns_the_channels_in_order() {
    let data: Vec<u8> = (0..24).collect();
    let image = Image::new(data, 3, 2, ColorType::Rgba);
    assert_eq!(image.get_pixel(0, 0), Some(vec![&0u8, &1, &2, &3]));
    assert_eq!(image.get_pixel(2, 0), Some(vec![&8u8, &9, &10, &11]));
    assert_eq!(image.get_pixel(0, 1), Some(vec![&12u8, &13, &14, &15]));
    assert_eq!(image.get_pixel(2, 1), Some(vec![&20u8, &21, &22, &23]));
}

#[test]
fn get_pixel_is_none_beyond_the_samples() {
    let data: Vec<u8> = (0..24).collect();
    let image = Image::new(data, 3, 2, ColorType::Rgba);
    assert_eq!(image.get_pixel(0, 2), None);
    assert_eq!(image.get_pixel(3, 1), None);
    assert_eq!(image.get_pixel(65535, 65535), None);
    // a column beyond the width reads on into the next row
    assert_eq!(image.get_pixel(3, 0), Some(vec![&12u8, &13, &14, &15]));
    let empty: PlaintextImage = Image::new(Vec::new(), 0, 0, ColorType::Grayscale);
    assert_eq!(empty.get_pixel(0, 0), None);
}

#[test]
fn get_pixel_of_a_large_image_does_not_wrap() {
    let data = vec![7u8; 300 * 300];
    let mut image = Image::new(data, 300, 300, ColorType::Grayscale);
    image.data[299 * 300 + 299] = 9;
    image.data[250 * 300 + 17] = 5;
    assert_eq!(image.get_pixel(299, 299), Some(vec![&9u8]));
    assert_eq!(image.get_pixel(17, 250), Some(vec![&5u8]));
    assert_eq!(image.get_pixel(0, 300), None);
}

#[test]
fn decoded_image_is_taken_when_complete() {
    let image = PlaintextImage::from_decoded(vec![1, 2, 3, 4, 5, 6, 7, 8], 2, 1, 8, 6).unwrap();
    assert_eq!(image.size, Size { width: 2, height: 1 });
    assert_eq!(image.color_type, ColorType::Rgba);
    assert_eq!(image.data, vec![1, 2, 3, 4, 5, 6, 7, 8]);
}

#[test]
fn decoded_image_of_another_bit_depth_is_refused() {
    for depth in [1u8, 2, 4, 16] {
        let refused = PlaintextImage::from_decoded(vec![0; 4], 2, 2, depth, 0);
        assert_eq!(refused.err(), Some(ImageError::UnsupportedBitDepth));
    }
    // the bit depth is looked at first
    let refused = PlaintextImage::from_decoded(vec![0; 4], 70000, 2, 16, 1);
    assert_eq!(refused.err(), Some(ImageError::UnsupportedBitDepth));
}

#[test]
fn decoded_image_of_unknown_colour_type_is_refused() {
    let refused = PlaintextImage::from_decoded(vec![0; 4], 2, 2, 8, 1);
    assert_eq!(refused.err(), Some(ImageError::UnsupportedColorType));
    let refused = PlaintextImage::from_decoded(vec![0; 4], 2, 2, 8, 5);
    assert_eq!(refused.err(), Some(ImageError::UnsupportedColorType));
}

#[test]
fn decoded_image_that_is_too_wide_is_refused() {
    let refused = PlaintextImage::from_decoded(vec![0; 4], 65536, 1, 8, 0);
    assert_eq!(refused.err(), Some(ImageError::DimensionsTooLarge));
    let refused = PlaintextImage::from_decoded(vec![0; 4], 1, 65536, 8, 0);
    assert_eq!(refused.err(), Some(ImageError::DimensionsTooLarge));
    let taken = PlaintextImage::from_decoded(vec![0; 65535], 65535, 1, 8, 0);
    assert!(taken.is_ok());
}

#[test]
fn decoded_image_with_missing_samples_is_refused() {
    let refused = PlaintextImage::from_decoded(vec![0; 11], 2, 2, 8, 2);
    assert_eq!(refused.err(), Some(ImageError::SampleCountMismatch));
    let refused = PlaintextImage::from_decoded(vec![0; 13], 2, 2, 8, 2);
    assert_eq!(refused.err(), Some(ImageError::SampleCountMismatch));
}

#[test]
fn header_mirrors_the_image() {
    let image = Image::new(vec![0u8; 12], 3, 2, ColorType::GrayscaleAlpha);
    let header = image.header();
    assert_eq!(header.width, 3);
    assert_eq!(header.height, 2);
    assert_eq!(header.color_code, 4);
    assert_eq!(header.bit_depth, BIT_DEPTH);
    assert_eq!(header.bit_depth, 8);
    assert_eq!(header.source_gamma, SOURCE_GAMMA);
    assert_eq!(header.source_gamma, 45455);
    assert_eq!(header.white, (31270, 32900));
    assert_eq!(header.red, (64000, 33000));
    assert_eq!(header.green, (30000, 60000));
    assert_eq!(header.blue, (15000, 6000));
}
