use fhe_image::crypt::operations::Weight;
use fhe_image::crypt::{decrypt_image, encrypt_image};
use fhe_image::image::rescaling::{
    bilinear, nearest, rescale, InterpolationType, Place, Ratio, Scale,
};
use fhe_image::image::{ColorType, Image, PlaintextImage, Size};
use tfhe::integer::{RadixClientKey, ServerKey};
use tfhe::shortint::parameters::{
    CarryModulus, CiphertextModulus, DecompositionBaseLog, DecompositionLevelCount, GlweDimension,
    LweDimension, MessageModulus, Parameters, PolynomialSize, StandardDev,
};

// Small keys of the same block layout: two message bits, two carry bits, eight blocks.
fn small_keys() -> (RadixClientKey, ServerKey) {
    let parameters = Parameters {
        lwe_dimension: LweDimension(8),
        glwe_dimension: GlweDimension(1),
        polynomial_size: PolynomialSize(256),
        lwe_modular_std_dev: StandardDev(0.000000000000000001),
        glwe_modular_std_dev: StandardDev(0.000000000000000001),
        pbs_base_log: DecompositionBaseLog(23),
        pbs_level: DecompositionLevelCount(1),
        ks_level: DecompositionLevelCount(5),
        ks_base_log: DecompositionBaseLog(3),
        pfks_level: DecompositionLevelCount(1),
        pfks_base_log: DecompositionBaseLog(23),
        pfks_modular_std_dev: StandardDev(0.000000000000000001),
        cbs_level: DecompositionLevelCount(0),
        cbs_base_log: DecompositionBaseLog(0),
        message_modulus: MessageModulus(4),
        carry_modulus: CarryModulus(4),
        ciphertext_modulus: CiphertextModulus::new_native(),
    };
    let client = RadixClientKey::new(parameters, fhe_image::crypt::NUM_BLOCKS);
    let server = ServerKey::new(&client);
    (client, server)
}

fn size(width: u16, height: u16) -> Size {
    Size { width, height }
}

#[test]
fn place_scales_and_splits_the_position() {
    let ratio = Ratio { from: 3, to: 9 };
    assert_eq!(ratio.place(0), Place { floor: 0, ceil: 0, weight: Weight::new(0, 9) });
    assert_eq!(ratio.place(1), Place { floor: 0, ceil: 1, weight: Weight::new(3, 9) });
    assert_eq!(ratio.place(4), Place { floor: 1, ceil: 2, weight: Weight::new(3, 9) });
    assert_eq!(ratio.place(9), Place { floor: 3, ceil: 3, weight: Weight::new(0, 9) });
    let ratio = Ratio { from: 65535, to: 65535 };
    assert_eq!(ratio.place(65535), Place { floor: 65535, ceil: 65535, weight: Weight::new(0, 65535) });
    let ratio = Ratio { from: 65535, to: 2 };
    assert_eq!(ratio.place(1), Place { floor: 32767, ceil: 32768, weight: Weight::new(1, 2) });
}

#[test]
fn place_on_an_axis_of_one_pixel_is_the_first() {
    let ratio = Ratio { from: 7, to: 0 };
    assert_eq!(ratio.place(0), Place { floor: 0, ceil: 0, weight: Weight::new(0, 1) });
    let ratio = Ratio { from: 0, to: 0 };
    assert_eq!(ratio.place(0), Place { floor: 0, ceil: 0, weight: Weight::new(0, 1) });
}

#[test]
fn place_agrees_with_floating_point_where_that_is_exact() {
    for (from, to) in [(2u16, 4u16), (4, 2), (8, 16), (16, 4), (3, 3), (1, 8)] {
        let ratio = Ratio { from, to };
        let scale = from as f32 / to as f32;
        for position in 0..to {
            let scaled = position as f32 * scale;
            let place = ratio.place(position);
            assert_eq!(place.floor, scaled.floor() as u16);
            assert_eq!(place.ceil, scaled.ceil() as u16);
            let weight = scaled - scaled.floor();
            assert_eq!(place.weight.to_integer(), (weight as f64 * 256.0).round() as u64);
        }
    }
}

#[test]
fn scale_holds_both_ratios() {
    let scale = Scale::from_sizes(&size(4, 6), &size(8, 3));
    assert_eq!(scale.width, Ratio { from: 4, to: 8 });
    assert_eq!(scale.height, Ratio { from: 6, to: 3 });
}

#[test]
fn nearest_upscale_repeats_every_pixel() {
    let (client, server) = small_keys();
    let plain = Image::new(vec![0u8, 0, 0, 255, 0, 0, 0, 255, 0, 0, 0, 255], 2, 2, ColorType::Rgb);
    let encrypted = encrypt_image(&plain, &client);
    let rescaled = rescale(&encrypted, &server, size(4, 4), InterpolationType::Nearest);
    let decrypted = decrypt_image(&rescaled, &client);
    let black = [0u8, 0, 0];
    let red = [255u8, 0, 0];
    let green = [0u8, 255, 0];
    let blue = [0u8, 0, 255];
    let rows = [
        [black, black, red, red],
        [black, black, red, red],
        [green, green, blue, blue],
        [green, green, blue, blue],
    ];
    let expected: Vec<u8> = rows.iter().flatten().flatten().copied().collect();
    assert_eq!(decrypted.data, expected);
    assert_eq!(decrypted.size, size(4, 4));
    assert_eq!(decrypted.color_type, ColorType::Rgb);
}

#[test]
fn nearest_downscale_picks_every_second_pixel() {
    let (client, _server) = small_keys();
    let mut data = Vec::new();
    for y in 0..4u8 {
        for x in 0..4u8 {
            data.push(16 * y + 4 * x);
        }
    }
    let plain = Image::new(data, 4, 4, ColorType::Grayscale);
    let rescaled = nearest(&encrypt_image(&plain, &client), size(2, 2));
    assert_eq!(decrypt_image(&rescaled, &client).data, vec![0, 8, 32, 40]);
}

#[test]
fn nearest_to_the_same_size_is_the_image() {
    let (client, _server) = small_keys();
    let plain = Image::new((0..30).collect(), 5, 3, ColorType::GrayscaleAlpha);
    let encrypted = encrypt_image(&plain, &client);
    let rescaled = nearest(&encrypted, size(5, 3));
    assert_eq!(rescaled.data.len(), encrypted.data.len());
    for (copy, source) in rescaled.data.iter().zip(encrypted.data.iter()) {
        assert_eq!(copy.radix, source.radix);
    }
    assert_eq!(decrypt_image(&rescaled, &client).data, plain.data);
}

#[test]
fn nearest_to_an_uneven_size() {
    let (client, _server) = small_keys();
    let plain = Image::new(vec![10u8, 20, 30], 3, 1, ColorType::Grayscale);
    // columns 0..7 times 3/7, rounded down: 0 0 0 1 1 2 2
    let rescaled = nearest(&encrypt_image(&plain, &client), size(7, 2));
    let row = vec![10u8, 10, 10, 20, 20, 30, 30];
    let mut expected = row.clone();
    expected.extend(row);
    assert_eq!(decrypt_image(&rescaled, &client).data, expected);
}

#[test]
fn nearest_to_nothing_is_empty() {
    let (client, _server) = small_keys();
    let plain = Image::new(vec![10u8, 20, 30], 3, 1, ColorType::Grayscale);
    let rescaled = nearest(&encrypt_image(&plain, &client), size(0, 4));
    assert!(rescaled.data.is_empty());
    assert_eq!(rescaled.size, size(0, 4));
    let nothing: PlaintextImage = Image::new(Vec::new(), 0, 0, ColorType::Rgb);
    let rescaled = nearest(&encrypt_image(&nothing, &client), size(3, 0));
    assert!(rescaled.data.is_empty());
}

#[test]
fn bilinear_midpoint() {
    let (client, server) = small_keys();
    let plain = Image::new(vec![0u8, 128], 2, 1, ColorType::Grayscale);
    let encrypted = encrypt_image(&plain, &client);
    let rescaled = rescale(&encrypted, &server, size(3, 1), InterpolationType::Bilinear);
    let decrypted = decrypt_image(&rescaled, &client);
    assert_eq!(decrypted.data, vec![0, 64, 128]);
    assert_eq!(decrypted.size, size(3, 1));
    assert_eq!(decrypted.color_type, ColorType::Grayscale);
}

#[test]
fn bilinear_to_the_same_size_is_the_image() {
    let (client, server) = small_keys();
    let plain = Image::new(vec![7u8, 200, 33, 255, 0, 91], 3, 2, ColorType::Grayscale);
    let rescaled = bilinear(&encrypt_image(&plain, &client), &server, size(3, 2));
    assert_eq!(decrypt_image(&rescaled, &client).data, plain.data);
}

#[test]
fn bilinear_of_one_pixel_is_the_pixel() {
    let (client, server) = small_keys();
    let plain = Image::new(vec![42u8, 99], 1, 1, ColorType::GrayscaleAlpha);
    let same = bilinear(&encrypt_image(&plain, &client), &server, size(1, 1));
    assert_eq!(decrypt_image(&same, &client).data, vec![42, 99]);
    let wider = bilinear(&encrypt_image(&plain, &client), &server, size(2, 1));
    assert_eq!(decrypt_image(&wider, &client).data, vec![42, 99, 42, 99]);
}

#[test]
fn bilinear_of_a_constant_row_loses_at_most_one() {
    let (client, server) = small_keys();
    let plain = Image::new(vec![255u8; 2], 2, 1, ColorType::Grayscale);
    // positions 0, 1/3, 2/3 and 1 along the row
    let rescaled = bilinear(&encrypt_image(&plain, &client), &server, size(4, 1));
    assert_eq!(decrypt_image(&rescaled, &client).data, vec![255, 254, 254, 255]);
}

#[test]
fn bilinear_interpolates_alpha_like_a_colour() {
    let (client, server) = small_keys();
    let plain = Image::new(vec![0u8, 0, 200, 100], 2, 1, ColorType::GrayscaleAlpha);
    let rescaled = bilinear(&encrypt_image(&plain, &client), &server, size(3, 1));
    assert_eq!(decrypt_image(&rescaled, &client).data, vec![0, 0, 100, 50, 200, 100]);
}

#[test]
fn bilinear_downscale_keeps_the_corners() {
    let (client, server) = small_keys();
    let plain = Image::new(vec![1u8, 2, 3, 4, 5, 6, 7, 8, 9], 3, 3, ColorType::Grayscale);
    let rescaled = bilinear(&encrypt_image(&plain, &client), &server, size(2, 2));
    assert_eq!(decrypt_image(&rescaled, &client).data, vec![1, 3, 7, 9]);
}
