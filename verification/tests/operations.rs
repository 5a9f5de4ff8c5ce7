use fhe_image::crypt::operations::{
    add_three, average_three, bicubic_interpolation, invert_u8, linear_interpolation,
    weight_multiplication, Weight, FRACTION_BITS, SAMPLE_MAX,
};
use fhe_image::crypt::scheme::EncryptedImageData;
use tfhe::integer::{RadixClientKey, ServerKey};
use tfhe::shortint::parameters::{
    CarryModulus, CiphertextModulus, DecompositionBaseLog, DecompositionLevelCount, GlweDimension,
    LweDimension, MessageModulus, Parameters, PolynomialSize, StandardDev,
};

// Small keys of the same block layout: two message bits, two carry bits, eight blocks.
fn small_keys() -> (RadixClientKey, ServerKey) {
    let parameters = Parameters {
        lwe_dimension: LweDimension(8),
        glwe_dimension: GlweDimension(1),
        polynomial_size: PolynomialSize(256),
        lwe_modular_std_dev: StandardDev(0.000000000000000001),
        glwe_modular_std_dev: StandardDev(0.000000000000000001),
        pbs_base_log: DecompositionBaseLog(23),
        pbs_level: DecompositionLevelCount(1),
        ks_level: DecompositionLevelCount(5),
        ks_base_log: DecompositionBaseLog(3),
        pfks_level: DecompositionLevelCount(1),
        pfks_base_log: DecompositionBaseLog(23),
        pfks_modular_std_dev: StandardDev(0.000000000000000001),
        cbs_level: DecompositionLevelCount(0),
        cbs_base_log: DecompositionBaseLog(0),
        message_modulus: MessageModulus(4),
        carry_modulus: CarryModulus(4),
        ciphertext_modulus: CiphertextModulus::new_native(),
    };
    let client = RadixClientKey::new(parameters, fhe_image::crypt::NUM_BLOCKS);
    let server = ServerKey::new(&client);
    (client, server)
}

fn sample(client: &RadixClientKey, value: u64) -> EncryptedImageData {
    EncryptedImageData { radix: client.encrypt(value) }
}

fn plain(client: &RadixClientKey, sample: &EncryptedImageData) -> u64 {
    client.decrypt(&sample.radix)
}

#[test]
fn weights_have_their_integer_factor() {
    assert_eq!(Weight::new(1, 2).to_integer(), 128);
    assert_eq!(Weight::new(1, 3).to_integer(), 85);
    assert_eq!(Weight::new(2, 3).to_integer(), 171);
    assert_eq!(Weight::one_third().to_integer(), 85);
    assert_eq!(Weight::new(0, 7).to_integer(), 0);
    assert_eq!(Weight::new(7, 7).to_integer(), 256);
    // halves go up
    assert_eq!(Weight::new(1, 512).to_integer(), 1);
    assert_eq!(Weight::new(511, 512).to_integer(), 256);
    assert_eq!(Weight::new(1, 513).to_integer(), 0);
    assert_eq!(Weight::new(65534, 65535).to_integer(), 256);
    assert_eq!(FRACTION_BITS, 8);
    assert_eq!(SAMPLE_MAX, 255);
}

#[test]
fn weights_agree_with_rounding_in_floating_point() {
    for denominator in [1u32, 2, 3, 5, 7, 9, 10, 100, 255, 256, 1000, 65535] {
        for numerator in 0..=denominator.min(300) {
            let expected = (numerator as f64 / denominator as f64 * 256.0).round() as u64;
            assert_eq!(Weight::new(numerator, denominator).to_integer(), expected);
        }
    }
}

#[test]
fn complement_is_what_is_left_of_one() {
    assert_eq!(Weight::new(1, 3).complement(), Weight::new(2, 3));
    assert_eq!(Weight::new(0, 5).complement(), Weight::new(5, 5));
    assert_eq!(Weight::new(5, 5).complement(), Weight::new(0, 5));
}

#[test]
fn weight_multiplication_scales_and_drops_the_fraction() {
    let (client, server) = small_keys();
    let x = sample(&client, 200);
    // 200 * 128 >> 8
    assert_eq!(plain(&client, &weight_multiplication(&x, Weight::new(1, 2), &server)), 100);
    // 200 * 85 >> 8 = 17000 >> 8
    assert_eq!(plain(&client, &weight_multiplication(&x, Weight::new(1, 3), &server)), 66);
    // 255 * 171 >> 8 = 43605 >> 8
    let y = sample(&client, 255);
    assert_eq!(plain(&client, &weight_multiplication(&y, Weight::new(2, 3), &server)), 170);
}

#[test]
fn weight_multiplication_by_one_and_by_zero() {
    let (client, server) = small_keys();
    let x = sample(&client, 300);
    let whole = weight_multiplication(&x, Weight::new(4, 4), &server);
    assert_eq!(plain(&client, &whole), 300);
    assert_eq!(whole.radix, x.radix);
    let nothing = weight_multiplication(&x, Weight::new(0, 4), &server);
    assert_eq!(plain(&client, &nothing), 0);
    // a weight that only rounds to one keeps the low eight bits
    let nearly = weight_multiplication(&x, Weight::new(999, 1000), &server);
    assert_eq!(plain(&client, &nearly), 44);
}

#[test]
fn weight_multiplication_wraps_in_the_plaintext_window() {
    let (client, server) = small_keys();
    // 765 * 128 = 97920 = 65536 + 32384; 32384 >> 8 = 126
    let x = sample(&client, 765);
    assert_eq!(plain(&client, &weight_multiplication(&x, Weight::new(1, 2), &server)), 126);
}

#[test]
fn linear_interpolation_lies_between_its_ends() {
    let (client, server) = small_keys();
    let low = sample(&client, 0);
    let high = sample(&client, 128);
    let middle = linear_interpolation(low.clone(), high.clone(), Weight::new(1, 2), &server);
    assert_eq!(plain(&client, &middle), 64);
    let at_low = linear_interpolation(low.clone(), high.clone(), Weight::new(0, 1), &server);
    assert_eq!(plain(&client, &at_low), 0);
    let at_high = linear_interpolation(low, high, Weight::new(1, 1), &server);
    assert_eq!(plain(&client, &at_high), 128);
}

#[test]
fn linear_interpolation_rounds_each_part_down() {
    let (client, server) = small_keys();
    let x = sample(&client, 255);
    let y = sample(&client, 255);
    // 255 * 171 >> 8 = 170, 255 * 85 >> 8 = 84
    let point = linear_interpolation(x, y, Weight::new(1, 3), &server);
    assert_eq!(plain(&client, &point), 254);
}

#[test]
fn bilinear_interpolation_of_a_square() {
    let (client, server) = small_keys();
    let a = sample(&client, 0);
    let b = sample(&client, 100);
    let c = sample(&client, 200);
    let d = sample(&client, 40);
    // upper edge 50, lower edge 120, halfway between them 85
    let point = bicubic_interpolation(a, b, c, d, Weight::new(1, 2), Weight::new(1, 2), &server);
    assert_eq!(plain(&client, &point), 85);
}

#[test]
fn bilinear_interpolation_of_equal_corners_loses_at_most_two() {
    let (client, server) = small_keys();
    let corner = sample(&client, 255);
    let point = bicubic_interpolation(
        corner.clone(),
        corner.clone(),
        corner.clone(),
        corner,
        Weight::new(1, 3),
        Weight::new(1, 3),
        &server,
    );
    assert_eq!(plain(&client, &point), 253);
}

#[test]
fn add_three_sums_without_moving_carries() {
    let (client, server) = small_keys();
    let x = sample(&client, 255);
    let y = sample(&client, 255);
    let z = sample(&client, 255);
    assert_eq!(plain(&client, &add_three([&x, &y, &z], &server)), 765);
    let x = sample(&client, 90);
    let y = sample(&client, 150);
    let z = sample(&client, 210);
    assert_eq!(plain(&client, &add_three([&x, &y, &z], &server)), 450);
}

#[test]
fn average_three_is_the_sum_times_one_third() {
    let (client, server) = small_keys();
    let x = sample(&client, 90);
    let y = sample(&client, 150);
    let z = sample(&client, 210);
    // 450 * 85 >> 8 = 38250 >> 8
    assert_eq!(plain(&client, &average_three([&x, &y, &z], &server)), 149);
    let x = sample(&client, 255);
    let y = sample(&client, 255);
    let z = sample(&client, 254);
    // 764 * 85 >> 8 = 64940 >> 8: two below the rounded third, 255
    assert_eq!(plain(&client, &average_three([&x, &y, &z], &server)), 253);
}

#[test]
fn invert_takes_the_sample_from_255() {
    let (client, server) = small_keys();
    for value in [0u64, 1, 10, 128, 200, 255] {
        let x = sample(&client, value);
        assert_eq!(plain(&client, &invert_u8(&x, &server)), 255 - value);
    }
}

#[test]
fn invert_twice_gives_the_sample_back() {
    let (client, server) = small_keys();
    let x = sample(&client, 77);
    let back = invert_u8(&invert_u8(&x, &server), &server);
    assert_eq!(plain(&client, &back), 77);
}

#[test]
fn invert_wraps_in_the_plaintext_window() {
    let (client, server) = small_keys();
    let x = sample(&client, 256);
    assert_eq!(plain(&client, &invert_u8(&x, &server)), 65535);
}

#[test]
fn clone_copies_the_ciphertext() {
    let (client, _server) = small_keys();
    let x = sample(&client, 201);
    let copy = x.clone();
    assert_eq!(copy.radix, x.radix);
    assert_eq!(plain(&client, &copy), 201);
}
