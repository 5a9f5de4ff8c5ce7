//! Rescaling: where every pixel of the new image comes from in the old one.
use crate::crypt::operations::{bicubic_interpolation, bilinear_value, Weight};
use crate::crypt::scheme::{
    computable, decryption, paired, sound, ClientKeyType, EncryptedImageData, ServerKeyType,
    CLEAN_LOAD,
};
use crate::crypt::{computable_image, is_decryption, is_encryption, plaintexts, sound_image};
use crate::image::{
    comes_before, lemma_next_pixel, lemma_pixel_inside, lemma_product_bounded,
    lemma_samples_in_order, pixel_start, sample_count, sample_index, EncryptedImage, Image,
    PlaintextImage, Size,
};
use vstd::prelude::*;

verus! {

/// How a pixel between the pixels of the old image gets its value.
#[derive(Clone, Copy, Debug, PartialEq, Eq, Structural)]
pub enum InterpolationType {
    Nearest,
    Bilinear,
}

/// The name of a kind of interpolation as it stands in file names.
pub open spec fn interpolation_name(interpolation_type: InterpolationType) -> Seq<char> {
    match interpolation_type {
        InterpolationType::Nearest => "Nearest"@,
        InterpolationType::Bilinear => "Bilinear"@,
    }
}

impl InterpolationType {
    /// The name of the kind of interpolation.
    pub fn name(&self) -> (name: &'static str)
        ensures
            name@ == interpolation_name(*self),
    {
        match self {
            InterpolationType::Nearest => "Nearest",
            InterpolationType::Bilinear => "Bilinear",
        }
    }
}

/// The whole part of `position * from / to`; zero where `to` is zero.
pub open spec fn scaled_floor(position: int, from: int, to: int) -> int {
    if to > 0 {
        (position * from) / to
    } else {
        0
    }
}

/// What `position * from` leaves when divided by `to`; zero where `to` is zero.
pub open spec fn scaled_rest(position: int, from: int, to: int) -> int {
    if to > 0 {
        (position * from) % to
    } else {
        0
    }
}

/// `position * from / to` rounded up; zero where `to` is zero.
pub open spec fn scaled_ceil(position: int, from: int, to: int) -> int {
    if scaled_rest(position, from, to) > 0 {
        scaled_floor(position, from, to) + 1
    } else {
        scaled_floor(position, from, to)
    }
}

/// How far `position * from / to` lies above its whole part, as a weight.
pub open spec fn scaled_weight(position: int, from: int, to: int) -> Weight {
    Weight {
        numerator: scaled_rest(position, from, to) as u32,
        denominator: if to > 0 {
            to as u32
        } else {
            1
        },
    }
}

/// Where a position of the new image falls in the old one, along one axis:
/// the positions to its either side and how far it lies from the lower one.
#[derive(Clone, Copy, Debug, PartialEq, Eq, Structural)]
pub struct Place {
    pub floor: u16,
    pub ceil: u16,
    pub weight: Weight,
}

/// The ratio between an extent of the old image and one of the new, held
/// exactly.
#[derive(Clone, Copy, Debug, PartialEq, Eq, Structural)]
pub struct Ratio {
    pub from: u16,
    pub to: u16,
}

impl Ratio {
    /// Where `position` of the new image falls in the old one.
    pub fn place(&self, position: u16) -> (place: Place)
        requires
            position <= self.to,
        ensures
            place.floor == scaled_floor(position as int, self.from as int, self.to as int),
            place.ceil == scaled_ceil(position as int, self.from as int, self.to as int),
            place.weight == scaled_weight(position as int, self.from as int, self.to as int),
            place.weight.wf(),
            place.weight.numerator < place.weight.denominator,
            place.floor <= place.ceil <= self.from,
            position < self.to && 0 < self.from ==> place.floor < self.from,
    {
        if self.to == 0 {
            return Place { floor: 0, ceil: 0, weight: Weight { numerator: 0, denominator: 1 } };
        }
        proof {
            lemma_product_bounded(position as int, self.from as int, 65535, 65535);
            lemma_scaled_within(position as int, self.from as int, self.to as int);
        }
        let product: u32 = position as u32 * self.from as u32;
        let floor: u32 = product / self.to as u32;
        let rest: u32 = product % self.to as u32;
        let ceil: u32 = if rest > 0 {
            floor + 1
        } else {
            floor
        };
        Place {
            floor: floor as u16,
            ceil: ceil as u16,
            weight: Weight { numerator: rest, denominator: self.to as u32 },
        }
    }
}

/// The ratios between the extents of the old image and those of the new.
#[derive(Clone, Copy, Debug, PartialEq, Eq, Structural)]
pub struct Scale {
    pub width: Ratio,
    pub height: Ratio,
}

impl Scale {
    /// The scale that takes an image of size `to` back to one of size `from`.
    pub fn from_sizes(from: &Size, to: &Size) -> (scale: Scale)
        ensures
            scale.width == (Ratio { from: from.width, to: to.width }),
            scale.height == (Ratio { from: from.height, to: to.height }),
    {
        Scale {
            width: Ratio { from: from.width, to: to.width },
            height: Ratio { from: from.height, to: to.height },
        }
    }
}

/// Every sample of `samples` is one of the samples of `source`.
pub open spec fn drawn_from(samples: Seq<EncryptedImageData>, source: Seq<EncryptedImageData>) -> bool {
    forall|i: int|
        0 <= i < samples.len() ==> exists|k: int|
            0 <= k < source.len() && #[trigger] samples[i] == #[trigger] source[k]
}

/// An image of `new_size` can be sampled from one of `size`: there is a pixel
/// to take wherever one is wanted.
pub open spec fn can_rescale(size: Size, new_size: Size) -> bool {
    (new_size.width > 0 && new_size.height > 0) ==> (size.width > 0 && size.height > 0)
}

/// `rescaled` is `image` resampled to `new_size` by taking, for every pixel,
/// the pixel of `image` at the same relative position, rounded down: the very
/// same ciphertexts.
pub open spec fn is_nearest(image: EncryptedImage, new_size: Size, rescaled: EncryptedImage) -> bool {
    &&& rescaled.size == new_size
    &&& rescaled.color_type == image.color_type
    &&& rescaled.wf()
    &&& drawn_from(rescaled.data@, image.data@)
    &&& forall|x: int, y: int, channel: int|
        0 <= x < new_size.width && 0 <= y < new_size.height && 0 <= channel
            < image.color_type.channels() ==> rescaled.data@[#[trigger] sample_index(
            new_size.width as int,
            image.color_type.channels(),
            x,
            y,
            channel,
        )] == image.data@[sample_index(
            image.size.width as int,
            image.color_type.channels(),
            scaled_floor(x, image.size.width as int, new_size.width as int),
            scaled_floor(y, image.size.height as int, new_size.height as int),
            channel,
        )]
}

/// Resample to `new_size` by nearest neighbour: every pixel of the new image is
/// the pixel of the old one at the same relative position, rounded down.
pub fn nearest(image: &EncryptedImage, new_size: Size) -> (rescaled: EncryptedImage)
    requires
        image.wf(),
        can_rescale(image.size, new_size),
    ensures
        is_nearest(*image, new_size, rescaled),
{
    let scale = Scale::from_sizes(&image.size, &new_size);
    let channels: usize = image.channel_count() as usize;
    let ghost width = new_size.width as int;
    let ghost depth = image.color_type.channels();
    let mut data: Vec<EncryptedImageData> = Vec::new();
    let mut y: u16 = 0;
    proof {
        lemma_next_pixel(width, depth, 0, 0);
    }
    while y < new_size.height
        invariant
            y <= new_size.height,
            image.wf(),
            can_rescale(image.size, new_size),
            scale.width == (Ratio { from: image.size.width, to: new_size.width }),
            scale.height == (Ratio { from: image.size.height, to: new_size.height }),
            channels == depth,
            depth == image.color_type.channels(),
            width == new_size.width,
            data@.len() == pixel_start(width, depth, 0, y as int),
            drawn_from(data@, image.data@),
            forall|u: int, v: int, channel: int|
                0 <= u < width && 0 <= v < y && 0 <= channel < depth ==> {
                    &&& #[trigger] sample_index(width, depth, u, v, channel) < data@.len()
                    &&& data@[sample_index(width, depth, u, v, channel)] == image.data@[sample_index(
                        image.size.width as int,
                        depth,
                        scaled_floor(u, image.size.width as int, width),
                        scaled_floor(v, image.size.height as int, new_size.height as int),
                        channel,
                    )]
                },
        decreases new_size.height - y,
    {
        let mut x: u16 = 0;
        while x < new_size.width
            invariant
                x <= new_size.width,
                y < new_size.height,
                image.wf(),
                can_rescale(image.size, new_size),
                scale.width == (Ratio { from: image.size.width, to: new_size.width }),
                scale.height == (Ratio { from: image.size.height, to: new_size.height }),
                channels == depth,
                depth == image.color_type.channels(),
                width == new_size.width,
                data@.len() == pixel_start(width, depth, x as int, y as int),
                drawn_from(data@, image.data@),
                forall|u: int, v: int, channel: int|
                    0 <= u < width && 0 <= v && comes_before(u, v, x as int, y as int) && 0
                        <= channel < depth ==> {
                        &&& #[trigger] sample_index(width, depth, u, v, channel) < data@.len()
                        &&& data@[sample_index(width, depth, u, v, channel)]
                            == image.data@[sample_index(
                            image.size.width as int,
                            depth,
                            scaled_floor(u, image.size.width as int, width),
                            scaled_floor(v, image.size.height as int, new_size.height as int),
                            channel,
                        )]
                    },
            decreases new_size.width - x,
        {
            let column = scale.width.place(x).floor;
            let row = scale.height.place(y).floor;
            proof {
                lemma_pixel_inside(
                    image.size.width as int,
                    image.size.height as int,
                    depth,
                    column as int,
                    row as int,
                );
            }
            let pixel = image.get_pixel(column, row).unwrap();
            let ghost filled = data@;
            let ghost start = data@.len() as int;
            let ghost source = image.start_of(column as int, row as int);
            let mut channel: usize = 0;
            while channel < channels
                invariant
                    channel <= channels,
                    channels == depth,
                    pixel@.len() == depth,
                    0 <= source,
                    source + depth <= image.data@.len(),
                    forall|i: int| 0 <= i < depth ==> *#[trigger] pixel@[i] == image.data@[source + i],
                    data@.len() == start + channel,
                    drawn_from(data@, image.data@),
                    start == filled.len(),
                    forall|j: int| 0 <= j < start ==> data@[j] == filled[j],
                    forall|i: int| 0 <= i < channel ==> #[trigger] data@[start + i] == image.data@[source + i],
                decreases channels - channel,
            {
                let sample = EncryptedImageData::clone(pixel[channel]);
                let ghost before = data@;
                data.push(sample);
                proof {
                    assert forall|i: int| 0 <= i < data@.len() implies exists|k: int|
                        0 <= k < image.data@.len() && #[trigger] data@[i]
                            == #[trigger] image.data@[k] by {
                        if i < before.len() {
                            assert(data@[i] == before[i]);
                        } else {
                            assert(data@[i] == image.data@[source + channel]);
                        }
                    }
                }
                channel += 1;
            }
            proof {
                lemma_next_pixel(width, depth, x as int, y as int);
                assert forall|u: int, v: int, c: int|
                    0 <= u < width && 0 <= v && comes_before(u, v, x + 1, y as int) && 0 <= c
                        < depth implies {
                    &&& #[trigger] sample_index(width, depth, u, v, c) < data@.len()
                    &&& data@[sample_index(width, depth, u, v, c)] == image.data@[sample_index(
                        image.size.width as int,
                        depth,
                        scaled_floor(u, image.size.width as int, width),
                        scaled_floor(v, image.size.height as int, new_size.height as int),
                        c,
                    )]
                } by {
                    if comes_before(u, v, x as int, y as int) {
                        lemma_samples_in_order(width, depth, u, v, c, x as int, y as int);
                    } else {
                        assert(u == x && v == y);
                        assert(data@[start + c] == image.data@[source + c]);
                    }
                }
            }
            x += 1;
        }
        proof {
            lemma_next_pixel(width, depth, 0, y as int);
        }
        y += 1;
    }
    let rescaled = Image { data, size: new_size, color_type: image.color_type };
    proof {
        assert(rescaled.data@.len() == sample_count(new_size, image.color_type)) by (nonlinear_arith)
            requires
                rescaled.data@.len() == (new_size.height * new_size.width + 0) * depth,
                sample_count(new_size, image.color_type) == new_size.width * new_size.height
                    * depth,
        ;
    }
    rescaled
}

/// The plain value of channel `channel` of the pixel in column `x` of row `y`
/// of an image resampled bilinearly to `new_size`: the positions are scaled so
/// that the first and the last pixel of the new image fall on the first and
/// the last of the old, and the four pixels around the scaled position are
/// interpolated by how far the position lies from the upper left one.
pub open spec fn bilinear_sample(
    samples: Seq<int>,
    size: Size,
    channels: int,
    new_size: Size,
    x: int,
    y: int,
    channel: int,
) -> int {
    let from = size.shrunk();
    let to = new_size.shrunk();
    let left = scaled_floor(x, from.width as int, to.width as int);
    let right = scaled_ceil(x, from.width as int, to.width as int);
    let upper = scaled_floor(y, from.height as int, to.height as int);
    let lower = scaled_ceil(y, from.height as int, to.height as int);
    bilinear_value(
        samples[sample_index(size.width as int, channels, left, upper, channel)],
        samples[sample_index(size.width as int, channels, right, upper, channel)],
        samples[sample_index(size.width as int, channels, left, lower, channel)],
        samples[sample_index(size.width as int, channels, right, lower, channel)],
        scaled_weight(x, from.width as int, to.width as int),
        scaled_weight(y, from.height as int, to.height as int),
    )
}

/// `rescaled` is `image` resampled bilinearly to `new_size` under `key`: under
/// every client key paired with `key` for which `image` is sound, `rescaled` is
/// sound and every one of its samples decrypts to the interpolated value.
pub open spec fn is_bilinear(
    key: ServerKeyType,
    image: EncryptedImage,
    new_size: Size,
    rescaled: EncryptedImage,
) -> bool {
    &&& rescaled.size == new_size
    &&& rescaled.color_type == image.color_type
    &&& rescaled.wf()
    &&& computable_image(key, rescaled)
    &&& forall|client: ClientKeyType| #[trigger]
        paired(client, key) && sound_image(client, image) ==> {
            &&& sound_image(client, rescaled)
            &&& forall|x: int, y: int, channel: int|
                0 <= x < new_size.width && 0 <= y < new_size.height && 0 <= channel
                    < image.color_type.channels() ==> decryption(
                    client,
                    rescaled.data@[#[trigger] sample_index(
                        new_size.width as int,
                        image.color_type.channels(),
                        x,
                        y,
                        channel,
                    )],
                ) == bilinear_sample(
                    plaintexts(client, image),
                    image.size,
                    image.color_type.channels(),
                    new_size,
                    x,
                    y,
                    channel,
                )
        }
}

/// Resample to `new_size` bilinearly: every sample of the new image is
/// interpolated between the four pixels of the old one that lie around its
/// scaled position, alpha samples like any other.
pub fn bilinear(image: &EncryptedImage, key: &ServerKeyType, new_size: Size) -> (rescaled:
    EncryptedImage)
    requires
        image.wf(),
        can_rescale(image.size, new_size),
        computable_image(*key, *image),
    ensures
        is_bilinear(*key, *image, new_size, rescaled),
{
    let scale = Scale::from_sizes(&image.size.minus_one(), &new_size.minus_one());
    let channels: usize = image.channel_count() as usize;
    let ghost width = new_size.width as int;
    let ghost depth = image.color_type.channels();
    let ghost from = image.size.shrunk();
    let ghost to = new_size.shrunk();
    let mut data: Vec<EncryptedImageData> = Vec::new();
    let mut y: u16 = 0;
    proof {
        lemma_next_pixel(width, depth, 0, 0);
    }
    while y < new_size.height
        invariant
            y <= new_size.height,
            image.wf(),
            can_rescale(image.size, new_size),
            computable_image(*key, *image),
            scale.width == (Ratio { from: from.width, to: to.width }),
            scale.height == (Ratio { from: from.height, to: to.height }),
            from == image.size.shrunk(),
            to == new_size.shrunk(),
            channels == depth,
            depth == image.color_type.channels(),
            width == new_size.width,
            data@.len() == pixel_start(width, depth, 0, y as int),
            forall|j: int| 0 <= j < data@.len() ==> computable(*key, #[trigger] data@[j]),
            forall|client: ClientKeyType, j: int|
                #![trigger paired(client, *key), data@[j]]
                paired(client, *key) && sound_image(client, *image) && 0 <= j < data@.len()
                    ==> sound(client, data@[j], CLEAN_LOAD as nat),
            forall|client: ClientKeyType, u: int, v: int, channel: int|
                #![trigger paired(client, *key), sample_index(width, depth, u, v, channel)]
                paired(client, *key) && sound_image(client, *image) && 0 <= u < width && 0 <= v
                    < y && 0 <= channel < depth ==> {
                    &&& sample_index(width, depth, u, v, channel) < data@.len()
                    &&& decryption(client, data@[sample_index(width, depth, u, v, channel)])
                        == bilinear_sample(
                        plaintexts(client, *image),
                        image.size,
                        depth,
                        new_size,
                        u,
                        v,
                        channel,
                    )
                },
        decreases new_size.height - y,
    {
        let mut x: u16 = 0;
        while x < new_size.width
            invariant
                x <= new_size.width,
                y < new_size.height,
                image.wf(),
                can_rescale(image.size, new_size),
                computable_image(*key, *image),
                scale.width == (Ratio { from: from.width, to: to.width }),
                scale.height == (Ratio { from: from.height, to: to.height }),
                from == image.size.shrunk(),
                to == new_size.shrunk(),
                channels == depth,
                depth == image.color_type.channels(),
                width == new_size.width,
                data@.len() == pixel_start(width, depth, x as int, y as int),
                forall|j: int| 0 <= j < data@.len() ==> computable(*key, #[trigger] data@[j]),
                forall|client: ClientKeyType, j: int|
                    #![trigger paired(client, *key), data@[j]]
                    paired(client, *key) && sound_image(client, *image) && 0 <= j < data@.len()
                        ==> sound(client, data@[j], CLEAN_LOAD as nat),
                forall|client: ClientKeyType, u: int, v: int, channel: int|
                    #![trigger paired(client, *key), sample_index(width, depth, u, v, channel)]
                    paired(client, *key) && sound_image(client, *image) && 0 <= u < width && 0
                        <= v && comes_before(u, v, x as int, y as int) && 0 <= channel < depth
                        ==> {
                        &&& sample_index(width, depth, u, v, channel) < data@.len()
                        &&& decryption(client, data@[sample_index(width, depth, u, v, channel)])
                            == bilinear_sample(
                            plaintexts(client, *image),
                            image.size,
                            depth,
                            new_size,
                            u,
                            v,
                            channel,
                        )
                    },
            decreases new_size.width - x,
        {
            let across = scale.width.place(x);
            let down = scale.height.place(y);
            proof {
                let w = image.size.width as int;
                let h = image.size.height as int;
                lemma_pixel_inside(w, h, depth, across.floor as int, down.floor as int);
                lemma_pixel_inside(w, h, depth, across.ceil as int, down.floor as int);
                lemma_pixel_inside(w, h, depth, across.floor as int, down.ceil as int);
                lemma_pixel_inside(w, h, depth, across.ceil as int, down.ceil as int);
            }
            let a = image.get_pixel(across.floor, down.floor).unwrap();
            let b = image.get_pixel(across.ceil, down.floor).unwrap();
            let c = image.get_pixel(across.floor, down.ceil).unwrap();
            let d = image.get_pixel(across.ceil, down.ceil).unwrap();
            let ghost filled = data@;
            let ghost start = data@.len() as int;
            let ghost a_start = image.start_of(across.floor as int, down.floor as int);
            let ghost b_start = image.start_of(across.ceil as int, down.floor as int);
            let ghost c_start = image.start_of(across.floor as int, down.ceil as int);
            let ghost d_start = image.start_of(across.ceil as int, down.ceil as int);
            let mut channel: usize = 0;
            while channel < channels
                invariant
                    channel <= channels,
                    channels == depth,
                    across.weight.wf(),
                    down.weight.wf(),
                    computable_image(*key, *image),
                    a@.len() == depth,
                    b@.len() == depth,
                    c@.len() == depth,
                    d@.len() == depth,
                    0 <= a_start && a_start + depth <= image.data@.len(),
                    0 <= b_start && b_start + depth <= image.data@.len(),
                    0 <= c_start && c_start + depth <= image.data@.len(),
                    0 <= d_start && d_start + depth <= image.data@.len(),
                    forall|i: int| 0 <= i < depth ==> *#[trigger] a@[i] == image.data@[a_start + i],
                    forall|i: int| 0 <= i < depth ==> *#[trigger] b@[i] == image.data@[b_start + i],
                    forall|i: int| 0 <= i < depth ==> *#[trigger] c@[i] == image.data@[c_start + i],
                    forall|i: int| 0 <= i < depth ==> *#[trigger] d@[i] == image.data@[d_start + i],
                    data@.len() == start + channel,
                    start == filled.len(),
                    forall|j: int| 0 <= j < start ==> data@[j] == filled[j],
                    forall|j: int| start <= j < data@.len() ==> computable(*key, #[trigger] data@[j]),
                    forall|client: ClientKeyType, i: int|
                        #![trigger paired(client, *key), data@[start + i]]
                        paired(client, *key) && sound_image(client, *image) && 0 <= i < channel
                            ==> {
                            &&& sound(client, data@[start + i], CLEAN_LOAD as nat)
                            &&& decryption(client, data@[start + i]) == bilinear_value(
                                decryption(client, image.data@[a_start + i]) as int,
                                decryption(client, image.data@[b_start + i]) as int,
                                decryption(client, image.data@[c_start + i]) as int,
                                decryption(client, image.data@[d_start + i]) as int,
                                across.weight,
                                down.weight,
                            )
                        },
                decreases channels - channel,
            {
                let ghost before = data@;
                let point = bicubic_interpolation(
                    EncryptedImageData::clone(a[channel]),
                    EncryptedImageData::clone(b[channel]),
                    EncryptedImageData::clone(c[channel]),
                    EncryptedImageData::clone(d[channel]),
                    across.weight,
                    down.weight,
                    key,
                );
                data.push(point);
                proof {
                    assert forall|client: ClientKeyType, i: int|
                        #![trigger paired(client, *key), data@[start + i]]
                        paired(client, *key) && sound_image(client, *image) && 0 <= i < channel
                            + 1 implies {
                        &&& sound(client, data@[start + i], CLEAN_LOAD as nat)
                        &&& decryption(client, data@[start + i]) == bilinear_value(
                            decryption(client, image.data@[a_start + i]) as int,
                            decryption(client, image.data@[b_start + i]) as int,
                            decryption(client, image.data@[c_start + i]) as int,
                            decryption(client, image.data@[d_start + i]) as int,
                            across.weight,
                            down.weight,
                        )
                    } by {
                        if i < channel {
                            assert(data@[start + i] == before[start + i]);
                        } else {
                            assert(sound(client, image.data@[a_start + i], CLEAN_LOAD as nat));
                            assert(sound(client, image.data@[b_start + i], CLEAN_LOAD as nat));
                            assert(sound(client, image.data@[c_start + i], CLEAN_LOAD as nat));
                            assert(sound(client, image.data@[d_start + i], CLEAN_LOAD as nat));
                        }
                    }
                }
                channel += 1;
            }
            proof {
                lemma_next_pixel(width, depth, x as int, y as int);
                assert forall|j: int| 0 <= j < data@.len() implies computable(
                    *key,
                    #[trigger] data@[j],
                ) by {
                    if j < start {
                        assert(data@[j] == filled[j]);
                    }
                }
                assert forall|client: ClientKeyType, j: int|
                    #![trigger paired(client, *key), data@[j]]
                    paired(client, *key) && sound_image(client, *image) && 0 <= j
                        < data@.len() implies sound(client, data@[j], CLEAN_LOAD as nat) by {
                    if j < start {
                        assert(data@[j] == filled[j]);
                    } else {
                        assert(data@[start + (j - start)] == data@[j]);
                    }
                }
                assert forall|client: ClientKeyType, u: int, v: int, ch: int|
                    #![trigger paired(client, *key), sample_index(width, depth, u, v, ch)]
                    paired(client, *key) && sound_image(client, *image) && 0 <= u < width && 0
                        <= v && comes_before(u, v, x + 1, y as int) && 0 <= ch < depth implies {
                    &&& sample_index(width, depth, u, v, ch) < data@.len()
                    &&& decryption(client, data@[sample_index(width, depth, u, v, ch)])
                        == bilinear_sample(
                        plaintexts(client, *image),
                        image.size,
                        depth,
                        new_size,
                        u,
                        v,
                        ch,
                    )
                } by {
                    if comes_before(u, v, x as int, y as int) {
                        lemma_samples_in_order(width, depth, u, v, ch, x as int, y as int);
                        assert(data@[sample_index(width, depth, u, v, ch)] == filled[sample_index(
                            width,
                            depth,
                            u,
                            v,
                            ch,
                        )]);
                    } else {
                        assert(u == x && v == y);
                        assert(sample_index(width, depth, u, v, ch) == start + ch);
                        assert(sound(client, data@[start + ch], CLEAN_LOAD as nat));
                    }
                }
            }
            x += 1;
        }
        proof {
            lemma_next_pixel(width, depth, 0, y as int);
        }
        y += 1;
    }
    let rescaled = Image { data, size: new_size, color_type: image.color_type };
    proof {
        assert(rescaled.data@.len() == sample_count(new_size, image.color_type)) by (nonlinear_arith)
            requires
                rescaled.data@.len() == (new_size.height * new_size.width + 0) * depth,
                sample_count(new_size, image.color_type) == new_size.width * new_size.height
                    * depth,
        ;
        assert forall|client: ClientKeyType| #[trigger]
            paired(client, *key) && sound_image(client, *image) implies {
            &&& sound_image(client, rescaled)
            &&& forall|u: int, v: int, channel: int|
                0 <= u < new_size.width && 0 <= v < new_size.height && 0 <= channel
                    < image.color_type.channels() ==> decryption(
                    client,
                    rescaled.data@[#[trigger] sample_index(
                        new_size.width as int,
                        image.color_type.channels(),
                        u,
                        v,
                        channel,
                    )],
                ) == bilinear_sample(
                    plaintexts(client, *image),
                    image.size,
                    image.color_type.channels(),
                    new_size,
                    u,
                    v,
                    channel,
                )
        } by {
            assert forall|j: int| 0 <= j < rescaled.data@.len() implies sound(
                client,
                #[trigger] rescaled.data@[j],
                CLEAN_LOAD as nat,
            ) by {
                assert(paired(client, *key));
            }
        }
    }
    rescaled
}

/// Resample to `new_size` by the given kind of interpolation.
pub fn rescale(
    image: &EncryptedImage,
    key: &ServerKeyType,
    new_size: Size,
    interpolation_type: InterpolationType,
) -> (rescaled: EncryptedImage)
    requires
        image.wf(),
        can_rescale(image.size, new_size),
        computable_image(*key, *image),
    ensures
        interpolation_type == InterpolationType::Nearest ==> is_nearest(*image, new_size, rescaled),
        interpolation_type == InterpolationType::Bilinear ==> is_bilinear(
            *key,
            *image,
            new_size,
            rescaled,
        ),
        computable_image(*key, rescaled),
{
    match interpolation_type {
        InterpolationType::Nearest => {
            let rescaled = nearest(image, new_size);
            proof {
                lemma_drawn_computable(*key, image.data@, rescaled.data@);
            }
            rescaled
        },
        InterpolationType::Bilinear => bilinear(image, key, new_size),
    }
}

/// Samples drawn from samples that a key computes on are samples that the key
/// computes on.
pub proof fn lemma_drawn_computable(
    key: ServerKeyType,
    source: Seq<EncryptedImageData>,
    samples: Seq<EncryptedImageData>,
)
    requires
        drawn_from(samples, source),
        forall|k: int| 0 <= k < source.len() ==> computable(key, #[trigger] source[k]),
    ensures
        forall|i: int| 0 <= i < samples.len() ==> computable(key, #[trigger] samples[i]),
{
    assert forall|i: int| 0 <= i < samples.len() implies computable(key, #[trigger] samples[i]) by {
        let k = choose|k: int| 0 <= k < source.len() && #[trigger] samples[i] == #[trigger] source[k];
        assert(computable(key, source[k]));
    }
}

/// A position within the new extent falls within the old one, and its weight
/// is a proper fraction.
pub proof fn lemma_scaled_within(position: int, from: int, to: int)
    requires
        0 <= position <= to <= 65535,
        0 <= from <= 65535,
    ensures
        0 <= scaled_floor(position, from, to) <= scaled_ceil(position, from, to) <= from,
        scaled_weight(position, from, to).wf(),
        from == to ==> scaled_floor(position, from, to) == position && scaled_ceil(
            position,
            from,
            to,
        ) == position && scaled_weight(position, from, to).is_zero(),
        position < to && 0 < from ==> scaled_floor(position, from, to) < from,
        position < to && from == to ==> scaled_floor(position, from, to) == position,
{
    if to > 0 {
        let product = position * from;
        let floor = product / to;
        let rest = product % to;
        vstd::arithmetic::div_mod::lemma_fundamental_div_mod(product, to);
        vstd::arithmetic::div_mod::lemma_mod_bound(product, to);
        assert(0 <= product <= to * from) by (nonlinear_arith)
            requires
                product == position * from,
                0 <= position <= to,
                0 <= from,
        ;
        assert(0 <= floor <= from && (rest > 0 ==> floor < from)) by (nonlinear_arith)
            requires
                product == to * floor + rest,
                0 <= rest < to,
                0 <= product <= to * from,
        ;
        if position < to && 0 < from {
            assert(floor < from) by (nonlinear_arith)
                requires
                    product == to * floor + rest,
                    0 <= rest,
                    product == position * from,
                    0 <= position < to,
                    0 < from,
            ;
        }
        if from == to {
            assert(floor == position && rest == 0) by (nonlinear_arith)
                requires
                    product == to * floor + rest,
                    0 <= rest < to,
                    product == position * to,
            ;
        }
    }
}

/// Nearest identity: an image resampled to its own size by nearest neighbour
/// is the image itself, ciphertext for ciphertext, so that it decrypts to
/// exactly what the image decrypts to.
pub proof fn lemma_nearest_identity(image: EncryptedImage, rescaled: EncryptedImage)
    requires
        image.wf(),
        is_nearest(image, image.size, rescaled),
    ensures
        rescaled.size == image.size,
        rescaled.color_type == image.color_type,
        rescaled.data@ == image.data@,
{
    let width = image.size.width as int;
    let height = image.size.height as int;
    let depth = image.color_type.channels();
    assert(rescaled.data@.len() == image.data@.len());
    assert forall|j: int| 0 <= j < image.data@.len() implies rescaled.data@[j] == image.data@[j] by {
        crate::image::lemma_index_splits(width, height, depth, j);
        let x = (j / depth) % width;
        let y = (j / depth) / width;
        let channel = j % depth;
        lemma_scaled_within(x, width, width);
        lemma_scaled_within(y, height, height);
        assert(sample_index(width, depth, x, y, channel) == j);
    }
    assert(rescaled.data@ =~= image.data@);
}

/// Nearest identity, seen from the client: under a matched key pair, an
/// encrypted image resampled to its own size by nearest neighbour decrypts to
/// exactly the image that was encrypted.
pub proof fn lemma_nearest_identity_decrypts(
    client: ClientKeyType,
    server: ServerKeyType,
    plain: PlaintextImage,
    encrypted: EncryptedImage,
    rescaled: EncryptedImage,
    decrypted: PlaintextImage,
)
    requires
        paired(client, server),
        plain.wf(),
        is_encryption(client, plain, encrypted),
        is_nearest(encrypted, plain.size, rescaled),
        is_decryption(client, rescaled, decrypted),
    ensures
        decrypted.size == plain.size,
        decrypted.color_type == plain.color_type,
        decrypted.data@ == plain.data@,
{
    lemma_nearest_identity(encrypted, rescaled);
    let before = plaintexts(client, encrypted);
    assert(before == plain.data@.map_values(|sample: u8| sample as int));
    assert(plaintexts(client, rescaled) =~= before);
    assert forall|j: int| 0 <= j < plain.data@.len() implies decrypted.data@[j] == plain.data@[j] by {
        assert(before[j] == plain.data@[j] as int);
    }
    assert(decrypted.data@ =~= plain.data@);
}

/// Bilinear identity: under a matched key pair, an encrypted image resampled
/// bilinearly to its own size decrypts to exactly the image that was encrypted.
pub proof fn lemma_bilinear_identity(
    client: ClientKeyType,
    server: ServerKeyType,
    plain: PlaintextImage,
    encrypted: EncryptedImage,
    rescaled: EncryptedImage,
    decrypted: PlaintextImage,
)
    requires
        paired(client, server),
        plain.wf(),
        is_encryption(client, plain, encrypted),
        is_bilinear(server, encrypted, plain.size, rescaled),
        is_decryption(client, rescaled, decrypted),
    ensures
        decrypted.size == plain.size,
        decrypted.color_type == plain.color_type,
        decrypted.data@ == plain.data@,
{
    let width = plain.size.width as int;
    let height = plain.size.height as int;
    let depth = plain.color_type.channels();
    let before = plaintexts(client, encrypted);
    assert(before == plain.data@.map_values(|sample: u8| sample as int));
    assert(decrypted.data@.len() == plain.data@.len());
    assert forall|j: int| 0 <= j < plain.data@.len() implies decrypted.data@[j] == plain.data@[j] by {
        crate::image::lemma_index_splits(width, height, depth, j);
        let x = (j / depth) % width;
        let y = (j / depth) / width;
        let channel = j % depth;
        let from = plain.size.shrunk();
        lemma_scaled_within(x, from.width as int, from.width as int);
        lemma_scaled_within(y, from.height as int, from.height as int);
        assert(sample_index(width, depth, x, y, channel) == j);
        let value = plain.data@[j] as int;
        assert(before[j] == value);
        let x_weight = scaled_weight(x, from.width as int, from.width as int);
        let y_weight = scaled_weight(y, from.height as int, from.height as int);
        crate::crypt::operations::lemma_bilinear_of_equals(value, x_weight, y_weight);
        assert(bilinear_sample(before, plain.size, depth, plain.size, x, y, channel)
            == bilinear_value(value, value, value, value, x_weight, y_weight));
    }
    assert(decrypted.data@ =~= plain.data@);
}

/// Bilinear resampling of a constant image: under a matched key pair, when
/// every sample of the encrypted image is `value`, every sample of the image
/// resampled bilinearly to any size decrypts to `value` less what the two
/// interpolation steps lose to rounding, at most one each: it lies between
/// `value - 2` and `value`, and within one of `value` wherever the position
/// falls on a pixel along one of the axes.
pub proof fn lemma_bilinear_constant(
    client: ClientKeyType,
    server: ServerKeyType,
    plain: PlaintextImage,
    encrypted: EncryptedImage,
    new_size: Size,
    rescaled: EncryptedImage,
    decrypted: PlaintextImage,
    value: u8,
    x: int,
    y: int,
    channel: int,
)
    requires
        paired(client, server),
        plain.wf(),
        can_rescale(plain.size, new_size),
        forall|i: int| 0 <= i < plain.data@.len() ==> plain.data@[i] == value,
        is_encryption(client, plain, encrypted),
        is_bilinear(server, encrypted, new_size, rescaled),
        is_decryption(client, rescaled, decrypted),
        0 <= x < new_size.width,
        0 <= y < new_size.height,
        0 <= channel < plain.color_type.channels(),
    ensures
        decrypted.size == new_size,
        decrypted.color_type == plain.color_type,
        ({
            let from = plain.size.shrunk();
            let to = new_size.shrunk();
            let x_weight = scaled_weight(x, from.width as int, to.width as int);
            let y_weight = scaled_weight(y, from.height as int, to.height as int);
            let index = sample_index(
                new_size.width as int,
                plain.color_type.channels(),
                x,
                y,
                channel,
            );
            let sample = decrypted.data@[index];
            &&& 0 <= index < decrypted.data@.len()
            &&& sample == bilinear_value(
                value as int,
                value as int,
                value as int,
                value as int,
                x_weight,
                y_weight,
            )
            &&& value - 2 <= sample <= value
            &&& x_weight.is_zero() || y_weight.is_zero() ==> value - 1 <= sample
            &&& !(value - 1 <= sample) ==> crate::crypt::operations::interpolation_loss(
                value as int,
                x_weight,
            ) == 1 && crate::crypt::operations::interpolation_loss(value - 1, y_weight) == 1
        }),
{
    let width = plain.size.width as int;
    let height = plain.size.height as int;
    let depth = plain.color_type.channels();
    let from = plain.size.shrunk();
    let to = new_size.shrunk();
    let before = plaintexts(client, encrypted);
    assert(before == plain.data@.map_values(|sample: u8| sample as int));
    lemma_scaled_within(x, from.width as int, to.width as int);
    lemma_scaled_within(y, from.height as int, to.height as int);
    let left = scaled_floor(x, from.width as int, to.width as int);
    let right = scaled_ceil(x, from.width as int, to.width as int);
    let upper = scaled_floor(y, from.height as int, to.height as int);
    let lower = scaled_ceil(y, from.height as int, to.height as int);
    lemma_pixel_inside(width, height, depth, left, upper);
    lemma_pixel_inside(width, height, depth, right, upper);
    lemma_pixel_inside(width, height, depth, left, lower);
    lemma_pixel_inside(width, height, depth, right, lower);
    assert(before[sample_index(width, depth, left, upper, channel)] == value as int);
    assert(before[sample_index(width, depth, right, upper, channel)] == value as int);
    assert(before[sample_index(width, depth, left, lower, channel)] == value as int);
    assert(before[sample_index(width, depth, right, lower, channel)] == value as int);
    let x_weight = scaled_weight(x, from.width as int, to.width as int);
    let y_weight = scaled_weight(y, from.height as int, to.height as int);
    crate::crypt::operations::lemma_bilinear_of_equals(value as int, x_weight, y_weight);
    crate::crypt::operations::lemma_interpolation_of_equals(value as int, x_weight);
    crate::crypt::operations::lemma_interpolation_of_equals(
        value - crate::crypt::operations::interpolation_loss(value as int, x_weight),
        y_weight,
    );
    lemma_pixel_inside(new_size.width as int, new_size.height as int, depth, x, y);
    let index = sample_index(new_size.width as int, depth, x, y, channel);
    assert(decrypted.data@.len() == rescaled.data@.len());
    assert(decrypted.data@[index] == (plaintexts(client, rescaled)[index] % 256) as u8);
}

} // verus!
