//! Operations that keep every pixel in its place: inversion and grayscale.
use crate::crypt::operations::{
    average_three, average_value, invert_u8, inverted_value, lemma_average_close, rounded_third,
};
use crate::crypt::scheme::{
    computable, decryption, paired, sound, ClientKeyType, EncryptedImageData, ServerKeyType,
    CLEAN_LOAD,
};
use crate::crypt::{computable_image, is_decryption, is_encryption, plaintexts, sound_image};
use crate::image::{sample_count, ColorType, EncryptedImage, Image, PlaintextImage};
use vstd::prelude::*;

verus! {

/// Whether the sample at `index` is the alpha sample of its pixel.
pub open spec fn is_alpha_at(color_type: ColorType, index: int) -> bool {
    color_type.has_alpha() && index % color_type.channels() == color_type.channels() - 1
}

/// The plain samples of an inverted image: alpha samples as they were, every
/// other sample taken from 255.
pub open spec fn inverted_samples(samples: Seq<int>, color_type: ColorType) -> Seq<int> {
    Seq::new(
        samples.len(),
        |i: int|
            if is_alpha_at(color_type, i) {
                samples[i]
            } else {
                inverted_value(samples[i])
            },
    )
}

/// `inverted` is the inversion of `image` under `key`: same shape, alpha
/// samples the very same ciphertexts, and under every client key paired with
/// `key` for which `image` is sound, `inverted` is sound and decrypts to the
/// inverted samples.
pub open spec fn is_inversion(key: ServerKeyType, image: EncryptedImage, inverted: EncryptedImage) -> bool {
    &&& inverted.size == image.size
    &&& inverted.color_type == image.color_type
    &&& inverted.data@.len() == image.data@.len()
    &&& image.wf() ==> inverted.wf()
    &&& computable_image(key, inverted)
    &&& forall|i: int|
        0 <= i < image.data@.len() && is_alpha_at(image.color_type, i) ==> #[trigger] inverted.data@[i]
            == image.data@[i]
    &&& forall|client: ClientKeyType| #[trigger]
        paired(client, key) && sound_image(client, image) ==> {
            &&& sound_image(client, inverted)
            &&& plaintexts(client, inverted) == inverted_samples(
                plaintexts(client, image),
                image.color_type,
            )
        }
}

/// Invert every sample but the alpha samples, which are copied.
pub fn invert(image: &EncryptedImage, key: &ServerKeyType) -> (inverted: EncryptedImage)
    requires
        computable_image(*key, *image),
    ensures
        is_inversion(*key, *image, inverted),
{
    let channels: usize = image.channel_count() as usize;
    let alpha: bool = image.color_type.carries_alpha();
    let mut data: Vec<EncryptedImageData> = Vec::new();
    let mut i: usize = 0;
    while i < image.data.len()
        invariant
            i <= image.data@.len(),
            data@.len() == i,
            channels == image.color_type.channels(),
            alpha == image.color_type.has_alpha(),
            computable_image(*key, *image),
            forall|j: int| 0 <= j < i ==> computable(*key, #[trigger] data@[j]),
            forall|j: int|
                0 <= j < i && is_alpha_at(image.color_type, j) ==> #[trigger] data@[j]
                    == image.data@[j],
            forall|client: ClientKeyType, j: int|
                #![trigger paired(client, *key), data@[j]]
                paired(client, *key) && 0 <= j < i && sound(
                    client,
                    image.data@[j],
                    CLEAN_LOAD as nat,
                ) ==> {
                    &&& sound(client, data@[j], CLEAN_LOAD as nat)
                    &&& decryption(client, data@[j]) == inverted_samples(
                        plaintexts(client, *image),
                        image.color_type,
                    )[j]
                },
        decreases image.data@.len() - i,
    {
        let sample = &image.data[i];
        if alpha && i % channels == channels - 1 {
            data.push(sample.clone());
        } else {
            data.push(invert_u8(sample, key));
        }
        i += 1;
    }
    let inverted = Image { data, size: image.size, color_type: image.color_type };
    assert forall|client: ClientKeyType| #[trigger]
        paired(client, *key) && sound_image(client, *image) implies {
        &&& sound_image(client, inverted)
        &&& plaintexts(client, inverted) == inverted_samples(
            plaintexts(client, *image),
            image.color_type,
        )
    } by {
        assert forall|j: int| 0 <= j < inverted.data@.len() implies sound(
            client,
            #[trigger] inverted.data@[j],
            CLEAN_LOAD as nat,
        ) && decryption(client, inverted.data@[j]) == inverted_samples(
            plaintexts(client, *image),
            image.color_type,
        )[j] by {
            assert(paired(client, *key));
            assert(sound(client, image.data@[j], CLEAN_LOAD as nat));
        }
        assert(plaintexts(client, inverted) =~= inverted_samples(
            plaintexts(client, *image),
            image.color_type,
        ));
    }
    inverted
}

/// The colour type of the grayscale form of an image, where it has one.
pub open spec fn gray_color(color_type: ColorType) -> Option<ColorType> {
    match color_type {
        ColorType::Rgb => Some(ColorType::Grayscale),
        ColorType::Rgba => Some(ColorType::GrayscaleAlpha),
        _ => None,
    }
}

/// The plain samples of the grayscale form of an image of red, green and
/// blue: for every pixel the average of the three, followed by the alpha sample
/// where the image has one.
pub open spec fn gray_samples(samples: Seq<int>, color_type: ColorType) -> Seq<int> {
    if color_type == ColorType::Rgba {
        Seq::new(
            (samples.len() / 4 * 2) as nat,
            |i: int|
                if i % 2 == 0 {
                    average_value(samples[i / 2 * 4], samples[i / 2 * 4 + 1], samples[i / 2 * 4 + 2])
                } else {
                    samples[i / 2 * 4 + 3]
                },
        )
    } else {
        Seq::new(
            samples.len() / 3,
            |i: int| average_value(samples[3 * i], samples[3 * i + 1], samples[3 * i + 2]),
        )
    }
}

/// `gray` is the grayscale form of `image` under `key`: same size, the colour
/// type without its colours, alpha samples the very same ciphertexts, and
/// under every client key paired with `key` for which `image` is sound, `gray`
/// is sound and decrypts to the grayscale samples.
pub open spec fn is_grayscale(key: ServerKeyType, image: EncryptedImage, gray: EncryptedImage) -> bool {
    &&& gray.size == image.size
    &&& Some(gray.color_type) == gray_color(image.color_type)
    &&& gray.wf()
    &&& computable_image(key, gray)
    &&& forall|pixel: int|
        0 <= pixel < image.size.pixels() && image.color_type == ColorType::Rgba ==> #[trigger] gray.data@[2
            * pixel + 1] == image.data@[4 * pixel + 3]
    &&& forall|client: ClientKeyType| #[trigger]
        paired(client, key) && sound_image(client, image) ==> {
            &&& sound_image(client, gray)
            &&& plaintexts(client, gray) == gray_samples(
                plaintexts(client, image),
                image.color_type,
            )
        }
}

/// The grayscale form of an image of red, green and blue: every pixel's
/// colours replaced by their average, its alpha sample kept. There is none for
/// the other colour types.
pub fn grayscale(image: &EncryptedImage, key: &ServerKeyType) -> (gray: Option<EncryptedImage>)
    requires
        image.wf(),
        computable_image(*key, *image),
    ensures
        gray is Some <==> image.color_type == ColorType::Rgb || image.color_type == ColorType::Rgba,
        gray matches Some(picture) ==> is_grayscale(*key, *image, picture),
{
    let with_alpha: bool = match image.color_type {
        ColorType::Rgb => false,
        ColorType::Rgba => true,
        _ => { return None; },
    };
    let channels: usize = if with_alpha { 4 } else { 3 };
    let ghost pixels: int = image.size.pixels();
    proof {
        if with_alpha {
            assert(image.data@.len() == 4 * pixels) by (nonlinear_arith)
                requires
                    image.data@.len() == image.size.width * image.size.height * 4,
                    pixels == image.size.width * image.size.height,
            ;
        } else {
            assert(image.data@.len() == 3 * pixels) by (nonlinear_arith)
                requires
                    image.data@.len() == image.size.width * image.size.height * 3,
                    pixels == image.size.width * image.size.height,
            ;
        }
    }
    let mut data: Vec<EncryptedImageData> = Vec::new();
    let mut start: usize = 0;
    let ghost mut pixel: int = 0;
    while start < image.data.len()
        invariant
            0 <= pixel <= pixels,
            with_alpha ==> start == 4 * pixel && data@.len() == 2 * pixel && channels == 4
                && image.data@.len() == 4 * pixels,
            !with_alpha ==> start == 3 * pixel && data@.len() == pixel && channels == 3
                && image.data@.len() == 3 * pixels,
            with_alpha == (image.color_type == ColorType::Rgba),
            !with_alpha == (image.color_type == ColorType::Rgb),
            computable_image(*key, *image),
            forall|j: int| 0 <= j < data@.len() ==> computable(*key, #[trigger] data@[j]),
            forall|p: int|
                0 <= p < pixel && with_alpha ==> #[trigger] data@[2 * p + 1] == image.data@[4 * p
                    + 3],
            forall|client: ClientKeyType, j: int|
                #![trigger paired(client, *key), data@[j]]
                paired(client, *key) && 0 <= j < data@.len() && sound_image(client, *image) ==> {
                    &&& sound(client, data@[j], CLEAN_LOAD as nat)
                    &&& decryption(client, data@[j]) == gray_samples(
                        plaintexts(client, *image),
                        image.color_type,
                    )[j]
                },
        decreases image.data@.len() - start,
    {
        let ghost before = data@;
        let average = average_three(
            [&image.data[start], &image.data[start + 1], &image.data[start + 2]],
            key,
        );
        data.push(average);
        if with_alpha {
            data.push(image.data[start + 3].clone());
        }
        proof {
            assert forall|client: ClientKeyType, j: int|
                #![trigger paired(client, *key), data@[j]]
                paired(client, *key) && 0 <= j < data@.len() && sound_image(
                    client,
                    *image,
                ) implies {
                &&& sound(client, data@[j], CLEAN_LOAD as nat)
                &&& decryption(client, data@[j]) == gray_samples(
                    plaintexts(client, *image),
                    image.color_type,
                )[j]
            } by {
                if j < before.len() {
                    assert(data@[j] == before[j]);
                    assert(paired(client, *key));
                } else {
                    let plain = plaintexts(client, *image);
                    assert(sound(client, image.data@[start as int], CLEAN_LOAD as nat));
                    assert(sound(client, image.data@[start + 1], CLEAN_LOAD as nat));
                    assert(sound(client, image.data@[start + 2], CLEAN_LOAD as nat));
                    if with_alpha {
                        assert(plain.len() / 4 == pixels);
                        assert(j / 2 == pixel);
                        assert(sound(client, image.data@[start + 3], CLEAN_LOAD as nat));
                    } else {
                        assert(plain.len() / 3 == pixels);
                        assert(j == pixel);
                    }
                }
            }
            pixel = pixel + 1;
        }
        start += channels;
    }
    let gray = Image {
        data,
        size: image.size,
        color_type: if with_alpha {
            ColorType::GrayscaleAlpha
        } else {
            ColorType::Grayscale
        },
    };
    proof {
        assert(pixel == pixels);
        if with_alpha {
            assert(gray.data@.len() == gray.size.width * gray.size.height * 2) by (nonlinear_arith)
                requires
                    gray.data@.len() == 2 * pixels,
                    pixels == gray.size.width * gray.size.height,
            ;
        } else {
            assert(gray.data@.len() == gray.size.width * gray.size.height * 1) by (nonlinear_arith)
                requires
                    gray.data@.len() == pixels,
                    pixels == gray.size.width * gray.size.height,
            ;
        }
        assert forall|client: ClientKeyType| #[trigger]
            paired(client, *key) && sound_image(client, *image) implies {
            &&& sound_image(client, gray)
            &&& plaintexts(client, gray) == gray_samples(
                plaintexts(client, *image),
                image.color_type,
            )
        } by {
            let plain = plaintexts(client, *image);
            if with_alpha {
                assert(plain.len() / 4 == pixels);
            } else {
                assert(plain.len() / 3 == pixels);
            }
            assert forall|j: int| 0 <= j < gray.data@.len() implies sound(
                client,
                #[trigger] gray.data@[j],
                CLEAN_LOAD as nat,
            ) && decryption(client, gray.data@[j]) == gray_samples(plain, image.color_type)[j] by {
                assert(paired(client, *key));
            }
            assert(plaintexts(client, gray) =~= gray_samples(plain, image.color_type));
        }
    }
    Some(gray)
}

/// Inversion, seen from the client: under a matched key pair, the inversion of
/// an encrypted image decrypts to an image in which every alpha sample is as it
/// was and every other sample `v` has become `255 - v`.
pub proof fn lemma_invert_decrypts(
    client: ClientKeyType,
    server: ServerKeyType,
    plain: PlaintextImage,
    encrypted: EncryptedImage,
    inverted: EncryptedImage,
    decrypted: PlaintextImage,
)
    requires
        paired(client, server),
        is_encryption(client, plain, encrypted),
        is_inversion(server, encrypted, inverted),
        is_decryption(client, inverted, decrypted),
    ensures
        decrypted.size == plain.size,
        decrypted.color_type == plain.color_type,
        decrypted.data@.len() == plain.data@.len(),
        forall|i: int|
            0 <= i < plain.data@.len() ==> #[trigger] decrypted.data@[i] == if is_alpha_at(
                plain.color_type,
                i,
            ) {
                plain.data@[i] as int
            } else {
                255 - plain.data@[i]
            },
{
    let before = plaintexts(client, encrypted);
    let after = plaintexts(client, inverted);
    assert(before == plain.data@.map_values(|sample: u8| sample as int));
    assert(after == inverted_samples(before, encrypted.color_type));
    assert forall|i: int| 0 <= i < plain.data@.len() implies #[trigger] decrypted.data@[i]
        == if is_alpha_at(plain.color_type, i) {
        plain.data@[i] as int
    } else {
        255 - plain.data@[i]
    } by {
        assert(before[i] == plain.data@[i] as int);
        assert(after[i] == inverted_samples(before, encrypted.color_type)[i]);
    }
}

/// Inversion is its own inverse: under a matched key pair, an encrypted image
/// inverted twice decrypts to the image that was encrypted, and its alpha
/// samples are still the ciphertexts that they were.
pub proof fn lemma_invert_twice(
    client: ClientKeyType,
    server: ServerKeyType,
    plain: PlaintextImage,
    encrypted: EncryptedImage,
    once: EncryptedImage,
    twice: EncryptedImage,
    decrypted: PlaintextImage,
)
    requires
        paired(client, server),
        is_encryption(client, plain, encrypted),
        is_inversion(server, encrypted, once),
        is_inversion(server, once, twice),
        is_decryption(client, twice, decrypted),
    ensures
        decrypted.size == plain.size,
        decrypted.color_type == plain.color_type,
        decrypted.data@ == plain.data@,
        forall|i: int|
            0 <= i < encrypted.data@.len() && is_alpha_at(plain.color_type, i)
                ==> #[trigger] twice.data@[i] == encrypted.data@[i],
{
    let first = plaintexts(client, encrypted);
    let second = plaintexts(client, once);
    let third = plaintexts(client, twice);
    assert(first == plain.data@.map_values(|sample: u8| sample as int));
    assert(second == inverted_samples(first, encrypted.color_type));
    assert(third == inverted_samples(second, once.color_type));
    assert forall|i: int| 0 <= i < plain.data@.len() implies decrypted.data@[i]
        == plain.data@[i] by {
        assert(first[i] == plain.data@[i] as int);
        assert(second[i] == inverted_samples(first, encrypted.color_type)[i]);
        assert(third[i] == inverted_samples(second, once.color_type)[i]);
    }
    assert(decrypted.data@ =~= plain.data@);
    assert forall|i: int|
        0 <= i < encrypted.data@.len() && is_alpha_at(plain.color_type, i) implies #[trigger] twice.data@[i]
        == encrypted.data@[i] by {
        assert(once.data@[i] == encrypted.data@[i]);
    }
}

/// Grayscale, seen from the client: under a matched key pair, the grayscale
/// form of an encrypted image of red, green and blue decrypts to an image in
/// which every pixel holds the scheme's average of its three colours, followed
/// by its alpha sample, unchanged, where it had one. The average lies at most
/// two below the rounded third of the colours' sum and never above it; it lies
/// at most one below unless the sum is at least 515 and leaves two when
/// divided by three.
pub proof fn lemma_grayscale_decrypts(
    client: ClientKeyType,
    server: ServerKeyType,
    plain: PlaintextImage,
    encrypted: EncryptedImage,
    gray: EncryptedImage,
    decrypted: PlaintextImage,
    pixel: int,
)
    requires
        paired(client, server),
        plain.wf(),
        plain.color_type == ColorType::Rgb || plain.color_type == ColorType::Rgba,
        is_encryption(client, plain, encrypted),
        is_grayscale(server, encrypted, gray),
        is_decryption(client, gray, decrypted),
        0 <= pixel < plain.size.pixels(),
    ensures
        decrypted.size == plain.size,
        Some(decrypted.color_type) == gray_color(plain.color_type),
        decrypted.wf(),
        ({
            let channels = plain.color_type.channels();
            let kept = channels - 2;
            let first = pixel * channels;
            let sum = plain.data@[first] + plain.data@[first + 1] + plain.data@[first + 2];
            let average = decrypted.data@[pixel * kept];
            &&& 0 <= first && first + channels <= plain.data@.len()
            &&& 0 <= pixel * kept && pixel * kept + kept <= decrypted.data@.len()
            &&& average == sum * 85 / 256
            &&& rounded_third(sum) - 2 <= average <= rounded_third(sum)
            &&& !(sum >= 515 && sum % 3 == 2) ==> rounded_third(sum) - 1 <= average
            &&& plain.color_type == ColorType::Rgba ==> decrypted.data@[pixel * kept + 1]
                == plain.data@[first + 3] && gray.data@[pixel * kept + 1]
                == encrypted.data@[first + 3]
        }),
{
    let channels = plain.color_type.channels();
    let kept = channels - 2;
    let pixels = plain.size.pixels();
    let before = plaintexts(client, encrypted);
    let after = plaintexts(client, gray);
    assert(before == plain.data@.map_values(|sample: u8| sample as int));
    assert(after == gray_samples(before, encrypted.color_type));
    assert(plain.data@.len() == pixels * channels) by (nonlinear_arith)
        requires
            plain.data@.len() == plain.size.width * plain.size.height * channels,
            pixels == plain.size.width * plain.size.height,
    ;
    assert(gray.data@.len() == pixels * kept) by (nonlinear_arith)
        requires
            gray.data@.len() == gray.size.width * gray.size.height * kept,
            pixels == gray.size.width * gray.size.height,
    ;
    let first = pixel * channels;
    assert(after.len() == gray.data@.len());
    assert(decrypted.data@.len() == after.len());
    if plain.color_type == ColorType::Rgba {
        assert(channels == 4 && kept == 2);
        assert(pixel * kept == 2 * pixel && pixel * channels == 4 * pixel) by (nonlinear_arith)
            requires
                kept == 2,
                channels == 4,
        ;
        assert(gray.data@.len() == 2 * pixels);
        assert(decrypted.data@[2 * pixel] == (after[2 * pixel] % 256) as u8);
        assert(decrypted.data@[2 * pixel + 1] == (after[2 * pixel + 1] % 256) as u8);
        assert(before.len() / 4 == pixels);
        assert(after[2 * pixel] == gray_samples(before, encrypted.color_type)[2 * pixel]);
        assert(after[2 * pixel + 1] == gray_samples(before, encrypted.color_type)[2 * pixel + 1]);
        assert((2 * pixel) / 2 == pixel && (2 * pixel + 1) / 2 == pixel);
        assert(before[first + 3] == plain.data@[first + 3] as int);
    } else {
        assert(channels == 3 && kept == 1);
        assert(pixel * kept == pixel && pixel * channels == 3 * pixel) by (nonlinear_arith)
            requires
                kept == 1,
                channels == 3,
        ;
        assert(gray.data@.len() == pixels);
        assert(decrypted.data@[pixel] == (after[pixel] % 256) as u8);
        assert(before.len() / 3 == pixels);
        assert(after[pixel] == gray_samples(before, encrypted.color_type)[pixel]);
    }
    assert(before[first] == plain.data@[first] as int);
    assert(before[first + 1] == plain.data@[first + 1] as int);
    assert(before[first + 2] == plain.data@[first + 2] as int);
    lemma_average_close(plain.data@[first], plain.data@[first + 1], plain.data@[first + 2]);
    let sum = plain.data@[first] + plain.data@[first + 1] + plain.data@[first + 2];
    assert(decrypted.data@[pixel * kept] == sum * 85 / 256);
    assert(pixel * kept + kept <= decrypted.data@.len());
    if plain.color_type == ColorType::Rgba {
        assert(decrypted.data@[pixel * kept + 1] == plain.data@[first + 3]);
        assert(gray.data@[2 * pixel + 1] == encrypted.data@[4 * pixel + 3]);
    }
}

} // verus!
