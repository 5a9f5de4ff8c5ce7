use fhe_image::crypt::{decrypt_image, encrypt_image};
use fhe_image::image::pixel_operations::{grayscale, invert};
use fhe_image::image::{ColorType, Image, Size};
use tfhe::integer::{RadixClientKey, ServerKey};
use tfhe::shortint::parameters::{
    CarryModulus, CiphertextModulus, DecompositionBaseLog, DecompositionLevelCount, GlweDimension,
    LweDimension, MessageModulus, Parameters, PolynomialSize, StandardDev,
};

// Small keys of the same block layout: two message bits, two carry bits, eight blocks.
fn small_keys() -> (RadixClientKey, ServerKey) {
    let parameters = Parameters {
        lwe_dimension: LweDimension(8),
        glwe_dimension: GlweDimension(1),
        polynomial_size: PolynomialSize(256),
        lwe_modular_std_dev: StandardDev(0.000000000000000001),
        glwe_modular_std_dev: StandardDev(0.000000000000000001),
        pbs_base_log: DecompositionBaseLog(23),
        pbs_level: DecompositionLevelCount(1),
        ks_level: DecompositionLevelCount(5),
        ks_base_log: DecompositionBaseLog(3),
        pfks_level: DecompositionLevelCount(1),
        pfks_base_log: DecompositionBaseLog(23),
        pfks_modular_std_dev: StandardDev(0.000000000000000001),
        cbs_level: DecompositionLevelCount(0),
        cbs_base_log: DecompositionBaseLog(0),
        message_modulus: MessageModulus(4),
        carry_modulus: CarryModulus(4),
        ciphertext_modulus: CiphertextModulus::new_native(),
    };
    let client = RadixClientKey::new(parameters, fhe_image::crypt::NUM_BLOCKS);
    let server = ServerKey::new(&client);
    (client, server)
}

#[test]
fn invert_rgba_keeps_alpha() {
    let (client, server) = small_keys();
    let plain = Image::new(vec![10u8, 20, 30, 200], 1, 1, ColorType::Rgba);
    let inverted = invert(&encrypt_image(&plain, &client), &server);
    let decrypted = decrypt_image(&inverted, &client);
    assert_eq!(decrypted.data, vec![245, 235, 225, 200]);
    assert_eq!(decrypted.size, Size { width: 1, height: 1 });
    assert_eq!(decrypted.color_type, ColorType::Rgba);
}

#[test]
fn invert_copies_the_alpha_ciphertexts() {
    let (client, server) = small_keys();
    let plain = Image::new(vec![1u8, 2, 3, 4, 5, 6, 7, 8], 2, 1, ColorType::Rgba);
    let encrypted = encrypt_image(&plain, &client);
    let inverted = invert(&encrypted, &server);
    assert_eq!(inverted.data[3].radix, encrypted.data[3].radix);
    assert_eq!(inverted.data[7].radix, encrypted.data[7].radix);
    assert_ne!(inverted.data[0].radix, encrypted.data[0].radix);
}

#[test]
fn invert_grayscale_alpha_keeps_every_second_sample() {
    let (client, server) = small_keys();
    let plain = Image::new(vec![0u8, 9, 255, 8, 100, 7], 3, 1, ColorType::GrayscaleAlpha);
    let inverted = invert(&encrypt_image(&plain, &client), &server);
    assert_eq!(decrypt_image(&inverted, &client).data, vec![255, 9, 0, 8, 155, 7]);
}

#[test]
fn invert_without_alpha_inverts_every_sample() {
    let (client, server) = small_keys();
    for color_type in [ColorType::Grayscale, ColorType::Indexed] {
        let plain = Image::new(vec![0u8, 1, 254, 255], 2, 2, color_type);
        let inverted = invert(&encrypt_image(&plain, &client), &server);
        let decrypted = decrypt_image(&inverted, &client);
        assert_eq!(decrypted.data, vec![255, 254, 1, 0]);
        assert_eq!(decrypted.color_type, color_type);
    }
    let plain = Image::new(vec![10u8, 20, 30], 1, 1, ColorType::Rgb);
    let inverted = invert(&encrypt_image(&plain, &client), &server);
    assert_eq!(decrypt_image(&inverted, &client).data, vec![245, 235, 225]);
}

#[test]
fn invert_twice_is_the_image() {
    let (client, server) = small_keys();
    let plain = Image::new(vec![3u8, 141, 59, 26, 53, 58], 1, 2, ColorType::Rgb);
    let once = invert(&encrypt_image(&plain, &client), &server);
    let twice = invert(&once, &server);
    assert_eq!(decrypt_image(&twice, &client).data, plain.data);
}

#[test]
fn invert_of_an_empty_image_is_empty() {
    let (client, server) = small_keys();
    let plain = Image::new(Vec::new(), 0, 5, ColorType::Rgba);
    let inverted = invert(&encrypt_image(&plain, &client), &server);
    assert!(inverted.data.is_empty());
    assert_eq!(inverted.size, Size { width: 0, height: 5 });
}

#[test]
fn grayscale_rgba_averages_and_keeps_alpha() {
    let (client, server) = small_keys();
    let plain = Image::new(vec![90u8, 150, 210, 77], 1, 1, ColorType::Rgba);
    let gray = grayscale(&encrypt_image(&plain, &client), &server).unwrap();
    let decrypted = decrypt_image(&gray, &client);
    assert_eq!(decrypted.color_type, ColorType::GrayscaleAlpha);
    assert_eq!(decrypted.size, Size { width: 1, height: 1 });
    // 450 * 85 >> 8
    assert_eq!(decrypted.data, vec![149, 77]);
    assert!((decrypted.data[0] as i32 - 150).abs() <= 1);
}

#[test]
fn grayscale_rgb_has_one_sample_to_a_pixel() {
    let (client, server) = small_keys();
    let plain = Image::new(vec![0u8, 0, 0, 255, 255, 255, 30, 60, 90, 255, 255, 254], 2, 2, ColorType::Rgb);
    let gray = grayscale(&encrypt_image(&plain, &client), &server).unwrap();
    let decrypted = decrypt_image(&gray, &client);
    assert_eq!(decrypted.color_type, ColorType::Grayscale);
    assert_eq!(decrypted.size, Size { width: 2, height: 2 });
    // 0, 765 * 85 >> 8, 180 * 85 >> 8, 764 * 85 >> 8
    assert_eq!(decrypted.data, vec![0, 254, 59, 253]);
}

#[test]
fn grayscale_copies_the_alpha_ciphertexts() {
    let (client, server) = small_keys();
    let plain = Image::new(vec![1u8, 2, 3, 4, 5, 6, 7, 8], 1, 2, ColorType::Rgba);
    let encrypted = encrypt_image(&plain, &client);
    let gray = grayscale(&encrypted, &server).unwrap();
    assert_eq!(gray.data.len(), 4);
    assert_eq!(gray.data[1].radix, encrypted.data[3].radix);
    assert_eq!(gray.data[3].radix, encrypted.data[7].radix);
}

#[test]
fn grayscale_is_undefined_without_colours() {
    let (client, server) = small_keys();
    for color_type in [ColorType::Grayscale, ColorType::Indexed] {
        let plain = Image::new(vec![1u8, 2], 2, 1, color_type);
        assert!(grayscale(&encrypt_image(&plain, &client), &server).is_none());
    }
    let plain = Image::new(vec![1u8, 2], 1, 1, ColorType::GrayscaleAlpha);
    assert!(grayscale(&encrypt_image(&plain, &client), &server).is_none());
}
