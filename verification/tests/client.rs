use fhe_image::client::Client;
use fhe_image::crypt::{decrypt_image, encrypt_image, NUM_BLOCKS};
use fhe_image::image::{ColorType, Image, Size};
use tfhe::integer::RadixClientKey;
use tfhe::shortint::parameters::PARAM_MESSAGE_2_CARRY_2;

fn client_key() -> RadixClientKey {
    RadixClientKey::new(PARAM_MESSAGE_2_CARRY_2, NUM_BLOCKS)
}

#[test]
fn round_trip_gives_the_image_back() {
    let key = client_key();
    let data: Vec<u8> = (0..=255).collect();
    let plain = Image::new(data, 16, 16, ColorType::Grayscale);
    let encrypted = encrypt_image(&plain, &key);
    assert_eq!(encrypted.data.len(), 256);
    assert_eq!(encrypted.size, Size { width: 16, height: 16 });
    assert_eq!(encrypted.color_type, ColorType::Grayscale);
    let decrypted = decrypt_image(&encrypted, &key);
    assert_eq!(decrypted.data, plain.data);
    assert_eq!(decrypted.size, plain.size);
    assert_eq!(decrypted.color_type, plain.color_type);
}

#[test]
fn round_trip_of_every_colour_type() {
    let key = client_key();
    for (color_type, channels) in [
        (ColorType::Grayscale, 1u8),
        (ColorType::Indexed, 1),
        (ColorType::GrayscaleAlpha, 2),
        (ColorType::Rgb, 3),
        (ColorType::Rgba, 4),
    ] {
        let data: Vec<u8> = (0..2 * channels).map(|sample| 255 - 9 * sample).collect();
        let plain = Image::new(data, 2, 1, color_type);
        let decrypted = decrypt_image(&encrypt_image(&plain, &key), &key);
        assert_eq!(decrypted.data, plain.data);
        assert_eq!(decrypted.color_type, color_type);
    }
}

#[test]
fn samples_are_encrypted_each_on_its_own() {
    let key = client_key();
    let plain = Image::new(vec![5u8, 5, 5], 3, 1, ColorType::Grayscale);
    let encrypted = encrypt_image(&plain, &key);
    assert_ne!(encrypted.data[0].radix, encrypted.data[1].radix);
    assert_ne!(encrypted.data[1].radix, encrypted.data[2].radix);
    for sample in encrypted.data.iter() {
        let value: u64 = key.decrypt(&sample.radix);
        assert_eq!(value, 5);
    }
}

#[test]
fn decryption_keeps_the_low_eight_bits() {
    let key = client_key();
    let plain = Image::new(vec![1u8], 1, 1, ColorType::Grayscale);
    let mut encrypted = encrypt_image(&plain, &key);
    encrypted.data[0].radix = key.encrypt(0x1234u64);
    assert_eq!(decrypt_image(&encrypted, &key).data, vec![0x34]);
}

#[test]
fn client_encrypts_and_decrypts_with_its_key() {
    let client = Client::new("127.0.0.1:34347", client_key());
    assert_eq!(client.address(), "127.0.0.1:34347");
    let plain = Image::new(vec![10u8, 20, 30, 200], 1, 1, ColorType::Rgba);
    let encrypted = client.encrypt_image(&plain);
    let decrypted = client.decrypt_image(&encrypted);
    assert_eq!(decrypted.data, vec![10, 20, 30, 200]);
    assert_eq!(decrypted.color_type, ColorType::Rgba);
}

#[test]
fn ciphertexts_have_eight_blocks_of_two_bits() {
    let key = client_key();
    assert_eq!(NUM_BLOCKS, 8);
    assert_eq!(key.num_blocks(), NUM_BLOCKS);
    let plain = Image::new(vec![255u8], 1, 1, ColorType::Grayscale);
    let mut encrypted = encrypt_image(&plain, &key);
    assert_eq!(tfhe::integer::IntegerCiphertext::blocks(&encrypted.data[0].radix).len(), 8);
    // sixteen bits are kept, the seventeenth is not
    encrypted.data[0].radix = key.encrypt(0x1_ffffu64);
    let value: u64 = key.decrypt(&encrypted.data[0].radix);
    assert_eq!(value, 0xffff);
}
