//! The image model: sizes, colour types and the sample container.
use crate::crypt::scheme::EncryptedImageData;
use vstd::prelude::*;
use vstd::string::StringExecFns;

pub mod pixel_operations;
pub mod rescaling;

verus! {

/// How the samples of one pixel are to be read.
#[derive(Clone, Copy, Debug, PartialEq, Eq, Structural)]
pub enum ColorType {
    Grayscale,
    Indexed,
    GrayscaleAlpha,
    Rgb,
    Rgba,
}

impl ColorType {
    /// Number of samples that make up one pixel.
    pub open spec fn channels(self) -> int {
        match self {
            ColorType::Grayscale | ColorType::Indexed => 1,
            ColorType::GrayscaleAlpha => 2,
            ColorType::Rgb => 3,
            ColorType::Rgba => 4,
        }
    }

    /// Whether the last sample of every pixel is an alpha value.
    pub open spec fn has_alpha(self) -> bool {
        self == ColorType::GrayscaleAlpha || self == ColorType::Rgba
    }

    /// Number of samples that make up one pixel.
    pub fn channel_count(self) -> (count: u16)
        ensures
            count == self.channels(),
    {
        match self {
            ColorType::Grayscale | ColorType::Indexed => 1,
            ColorType::GrayscaleAlpha => 2,
            ColorType::Rgb => 3,
            ColorType::Rgba => 4,
        }
    }

    /// The number by which a PNG header names the colour type.
    pub open spec fn png_code(self) -> u8 {
        match self {
            ColorType::Grayscale => 0,
            ColorType::Rgb => 2,
            ColorType::Indexed => 3,
            ColorType::GrayscaleAlpha => 4,
            ColorType::Rgba => 6,
        }
    }

    /// The number by which a PNG header names the colour type.
    pub fn code(self) -> (code: u8)
        ensures
            code == self.png_code(),
            ColorType::from_code(code) == Some(self),
    {
        match self {
            ColorType::Grayscale => 0,
            ColorType::Rgb => 2,
            ColorType::Indexed => 3,
            ColorType::GrayscaleAlpha => 4,
            ColorType::Rgba => 6,
        }
    }

    /// The colour type that a PNG header names by `code`, if it names one.
    #[verifier::when_used_as_spec(spec_from_code)]
    pub fn from_code(code: u8) -> (color_type: Option<ColorType>)
        ensures
            color_type == ColorType::spec_from_code(code),
    {
        match code {
            0 => Some(ColorType::Grayscale),
            2 => Some(ColorType::Rgb),
            3 => Some(ColorType::Indexed),
            4 => Some(ColorType::GrayscaleAlpha),
            6 => Some(ColorType::Rgba),
            _ => None,
        }
    }

    /// The colour type that a PNG header names by `code`, if it names one.
    pub open spec fn spec_from_code(code: u8) -> Option<ColorType> {
        if code == 0 {
            Some(ColorType::Grayscale)
        } else if code == 2 {
            Some(ColorType::Rgb)
        } else if code == 3 {
            Some(ColorType::Indexed)
        } else if code == 4 {
            Some(ColorType::GrayscaleAlpha)
        } else if code == 6 {
            Some(ColorType::Rgba)
        } else {
            None
        }
    }

    /// Whether the last sample of every pixel is an alpha value.
    pub fn carries_alpha(self) -> (alpha: bool)
        ensures
            alpha == self.has_alpha(),
    {
        match self {
            ColorType::GrayscaleAlpha | ColorType::Rgba => true,
            ColorType::Grayscale | ColorType::Indexed | ColorType::Rgb => false,
        }
    }
}

impl From<ColorType> for u16 {
    /// Number of samples that make up one pixel.
    fn from(value: ColorType) -> (count: u16) {
        value.channel_count()
    }
}

impl vstd::std_specs::convert::FromSpecImpl<ColorType> for u16 {
    open spec fn obeys_from_spec() -> bool {
        true
    }

    open spec fn from_spec(value: ColorType) -> u16 {
        value.channels() as u16
    }
}

/// Width and height of an image, in pixels.
#[derive(Clone, Copy, Debug, PartialEq, Eq, Structural)]
pub struct Size {
    pub width: u16,
    pub height: u16,
}

impl Size {
    /// Number of pixels of an image of this size.
    pub open spec fn pixels(self) -> int {
        self.width * self.height
    }

    /// Both fields lowered by one, neither below zero.
    pub open spec fn shrunk(self) -> Size {
        Size {
            width: if self.width > 0 { (self.width - 1) as u16 } else { 0 },
            height: if self.height > 0 { (self.height - 1) as u16 } else { 0 },
        }
    }

    /// Both fields lowered by one, neither below zero.
    pub fn minus_one(&self) -> (smaller: Size)
        ensures
            smaller == self.shrunk(),
    {
        Size {
            width: if self.width > 0 { self.width - 1 } else { 0 },
            height: if self.height > 0 { self.height - 1 } else { 0 },
        }
    }
}

/// Number of samples in an image of the given size and colour type.
pub open spec fn sample_count(size: Size, color_type: ColorType) -> int {
    size.width * size.height * color_type.channels()
}

/// Index in the sample sequence at which the pixel in column `x` of row `y` starts.
pub open spec fn pixel_start(width: int, channels: int, x: int, y: int) -> int {
    (y * width + x) * channels
}

/// The product of two bounded naturals is bounded by the product of the bounds.
pub proof fn lemma_product_bounded(a: int, b: int, a_max: int, b_max: int)
    requires
        0 <= a <= a_max,
        0 <= b <= b_max,
    ensures
        0 <= a * b <= a_max * b_max,
{
    assert(0 <= a * b <= a_max * b_max) by (nonlinear_arith)
        requires
            0 <= a <= a_max,
            0 <= b <= b_max,
    ;
}

/// Index in the sample sequence of channel `channel` of the pixel in column `x`
/// of row `y`.
pub open spec fn sample_index(width: int, channels: int, x: int, y: int, channel: int) -> int {
    pixel_start(width, channels, x, y) + channel
}

/// Whether the pixel in column `x1` of row `y1` comes before the one in column
/// `x2` of row `y2` in row-major order.
pub open spec fn comes_before(x1: int, y1: int, x2: int, y2: int) -> bool {
    y1 < y2 || (y1 == y2 && x1 < x2)
}

/// The samples of a pixel lie before every sample of a pixel that comes later
/// in row-major order.
pub proof fn lemma_samples_in_order(
    width: int,
    channels: int,
    x1: int,
    y1: int,
    channel: int,
    x2: int,
    y2: int,
)
    requires
        0 <= x1 < width,
        0 <= y1,
        0 <= channel < channels,
        0 <= x2 <= width,
        comes_before(x1, y1, x2, y2),
    ensures
        0 <= sample_index(width, channels, x1, y1, channel) < pixel_start(width, channels, x2, y2),
        pixel_start(width, channels, x1, y1) + channels <= pixel_start(width, channels, x2, y2),
{
    let first = y1 * width + x1;
    let second = y2 * width + x2;
    assert(0 <= first && first + 1 <= second) by (nonlinear_arith)
        requires
            first == y1 * width + x1,
            second == y2 * width + x2,
            0 <= x1 < width,
            0 <= y1,
            0 <= x2 <= width,
            y1 < y2 || (y1 == y2 && x1 < x2),
    ;
    assert(0 <= first * channels && first * channels + channels <= second * channels)
        by (nonlinear_arith)
        requires
            0 <= first,
            first + 1 <= second,
            0 < channels,
    ;
}

/// The pixel after the one in column `x` starts `channels` samples later, and a
/// row starts where the row before it ends.
pub proof fn lemma_next_pixel(width: int, channels: int, x: int, y: int)
    ensures
        pixel_start(width, channels, x + 1, y) == pixel_start(width, channels, x, y) + channels,
        pixel_start(width, channels, 0, y + 1) == pixel_start(width, channels, width, y),
        pixel_start(width, channels, 0, 0) == 0,
{
    assert((y * width + (x + 1)) * channels == (y * width + x) * channels + channels)
        by (nonlinear_arith);
    assert(((y + 1) * width + 0) * channels == (y * width + width) * channels)
        by (nonlinear_arith);
    assert((0 * width + 0) * channels == 0) by (nonlinear_arith);
}

/// Every sample of a pixel inside an image of `width` by `height` pixels lies
/// among the image's samples.
pub proof fn lemma_pixel_inside(width: int, height: int, channels: int, x: int, y: int)
    requires
        0 <= x < width,
        0 <= y < height,
        0 < channels,
    ensures
        0 <= pixel_start(width, channels, x, y),
        pixel_start(width, channels, x, y) + channels <= width * height * channels,
{
    lemma_samples_in_order(width, channels, x, y, 0, 0, height);
    assert((height * width + 0) * channels == width * height * channels) by (nonlinear_arith);
}

/// Every index below the number of samples is that of one channel of one pixel.
pub proof fn lemma_index_splits(width: int, height: int, channels: int, index: int)
    requires
        0 <= width,
        0 <= height,
        0 < channels,
        0 <= index < width * height * channels,
    ensures
        0 < width,
        0 < height,
        0 <= (index / channels) % width < width,
        0 <= (index / channels) / width < height,
        0 <= index % channels < channels,
        sample_index(
            width,
            channels,
            (index / channels) % width,
            (index / channels) / width,
            index % channels,
        ) == index,
{
    assert(0 < width && 0 < height) by (nonlinear_arith)
        requires
            0 <= index < width * height * channels,
            0 <= width,
            0 <= height,
            0 < channels,
    ;
    let pixel = index / channels;
    vstd::arithmetic::div_mod::lemma_fundamental_div_mod(index, channels);
    vstd::arithmetic::div_mod::lemma_mod_bound(index, channels);
    assert(0 <= pixel < width * height) by (nonlinear_arith)
        requires
            index == channels * pixel + index % channels,
            0 <= index % channels < channels,
            0 <= index < width * height * channels,
            0 < channels,
    ;
    vstd::arithmetic::div_mod::lemma_fundamental_div_mod(pixel, width);
    vstd::arithmetic::div_mod::lemma_mod_bound(pixel, width);
    let row = pixel / width;
    assert(0 <= row < height) by (nonlinear_arith)
        requires
            pixel == width * row + pixel % width,
            0 <= pixel % width < width,
            0 <= pixel < width * height,
            0 < width,
    ;
    assert((row * width + pixel % width) * channels + index % channels == index)
        by (nonlinear_arith)
        requires
            pixel == width * row + pixel % width,
            index == channels * pixel + index % channels,
    ;
}

/// Samples in row-major order, the channels of one pixel side by side, alpha last.
pub struct Image<T: Clone> {
    pub data: Vec<T>,
    pub size: Size,
    pub color_type: ColorType,
}

impl<T: Clone> Image<T> {
    /// The image holds exactly the samples that its size and colour type call for.
    pub open spec fn wf(&self) -> bool {
        self.data@.len() == sample_count(self.size, self.color_type)
    }

    /// Index of the first sample of the pixel in column `x` of row `y`.
    pub open spec fn start_of(&self, x: int, y: int) -> int {
        pixel_start(self.size.width as int, self.color_type.channels(), x, y)
    }

    /// Whether every sample of the pixel in column `x` of row `y` is stored.
    pub open spec fn holds_pixel(&self, x: int, y: int) -> bool {
        self.start_of(x, y) + self.color_type.channels() <= self.data@.len()
    }

    /// Whether `data_len` samples fill an image of the given size and colour type.
    pub fn fills(data_len: usize, width: u16, height: u16, color_type: ColorType) -> (full: bool)
        ensures
            full == (data_len == sample_count(Size { width, height }, color_type)),
    {
        let wanted: u64 = Self::wanted_samples(width, height, color_type);
        data_len as u64 == wanted
    }

    /// Number of samples of an image of the given size and colour type.
    pub fn wanted_samples(width: u16, height: u16, color_type: ColorType) -> (wanted: u64)
        ensures
            wanted == sample_count(Size { width, height }, color_type),
    {
        proof {
            lemma_product_bounded(width as int, height as int, 65535, 65535);
        }
        let pixels: u64 = width as u64 * height as u64;
        let channels: u64 = color_type.channel_count() as u64;
        proof {
            lemma_product_bounded(pixels as int, channels as int, 4294836225, 4);
        }
        pixels * channels
    }

    /// An image of `width` by `height` pixels over `data`.
    pub fn new(data: Vec<T>, width: u16, height: u16, color_type: ColorType) -> (image: Self)
        requires
            data@.len() == sample_count(Size { width, height }, color_type),
        ensures
            image.data == data,
            image.size == (Size { width, height }),
            image.color_type == color_type,
            image.wf(),
    {
        Self { data, size: Size { width, height }, color_type }
    }

    /// Number of samples that make up one pixel of this image.
    pub fn channel_count(&self) -> (count: u16)
        ensures
            count == self.color_type.channels(),
    {
        u16::from(self.color_type)
    }

    /// The samples of the pixel in column `x` of row `y`, alpha last; none where
    /// one of them would lie beyond the stored samples.
    pub fn get_pixel(&self, x: u16, y: u16) -> (pixel: Option<Vec<&T>>)
        ensures
            pixel is Some <==> self.holds_pixel(x as int, y as int),
            pixel matches Some(samples) ==> {
                &&& samples@.len() == self.color_type.channels()
                &&& forall|i: int|
                    0 <= i < samples@.len() ==> *#[trigger] samples@[i] == self.data@[self.start_of(
                        x as int,
                        y as int,
                    ) + i]
            },
    {
        let channels: u64 = self.channel_count() as u64;
        proof {
            lemma_product_bounded(y as int, self.size.width as int, 65535, 65535);
        }
        let row_start: u64 = y as u64 * self.size.width as u64;
        proof {
            lemma_product_bounded(row_start + x, channels as int, 4294901760, 4);
        }
        let start: u64 = (row_start + x as u64) * channels;
        if start + channels > self.data.len() as u64 {
            return None;
        }
        let mut samples: Vec<&T> = Vec::new();
        let mut channel: u64 = 0;
        while channel < channels
            invariant
                channel <= channels,
                start + channels <= self.data@.len(),
                self.data@.len() <= usize::MAX,
                samples@.len() == channel,
                forall|i: int| 0 <= i < channel ==> *#[trigger] samples@[i] == self.data@[start + i],
            decreases channels - channel,
        {
            samples.push(&self.data[(start + channel) as usize]);
            channel += 1;
        }
        Some(samples)
    }
}

/// An image whose samples are plain 8-bit values.
pub type PlaintextImage = Image<u8>;

/// Why decoded picture data is not taken as an image.
#[derive(Clone, Copy, Debug, PartialEq, Eq, Structural)]
pub enum ImageError {
    /// The samples are not eight bits wide.
    UnsupportedBitDepth,
    /// The header names no colour type that is known.
    UnsupportedColorType,
    /// Width or height does not fit sixteen bits.
    DimensionsTooLarge,
    /// There are more or fewer samples than the size and colour type call for.
    SampleCountMismatch,
}

/// The bit depth of every image: eight bits to a sample.
pub const BIT_DEPTH: u8 = 8;

/// The gamma that is written with every image, times 100000.
pub const SOURCE_GAMMA: u32 = 45455;

/// What the header of a written image says, in the numbers of the PNG format.
/// The chromaticities are the sRGB ones, each coordinate times 100000.
#[derive(Clone, Copy, Debug)]
pub struct Header {
    pub width: u32,
    pub height: u32,
    pub color_code: u8,
    pub bit_depth: u8,
    pub source_gamma: u32,
    pub white: (u32, u32),
    pub red: (u32, u32),
    pub green: (u32, u32),
    pub blue: (u32, u32),
}

/// What keeps decoded picture data from being an image, checked in this
/// order: the bit depth, the colour type, the dimensions, the sample count.
pub open spec fn decode_error(
    samples: nat,
    width: u32,
    height: u32,
    bit_depth: u8,
    color_code: u8,
) -> Option<ImageError> {
    if bit_depth != BIT_DEPTH {
        Some(ImageError::UnsupportedBitDepth)
    } else if ColorType::spec_from_code(color_code) is None {
        Some(ImageError::UnsupportedColorType)
    } else if width > u16::MAX || height > u16::MAX {
        Some(ImageError::DimensionsTooLarge)
    } else if samples != width * height * ColorType::spec_from_code(color_code).unwrap().channels() {
        Some(ImageError::SampleCountMismatch)
    } else {
        None
    }
}

impl Image<u8> {
    /// The image that a decoder read: `buffer` holds the samples, the rest is
    /// what the header said. Only complete images of eight bits to a sample,
    /// of a known colour type and of at most 65535 pixels either way are taken.
    pub fn from_decoded(
        buffer: Vec<u8>,
        width: u32,
        height: u32,
        bit_depth: u8,
        color_code: u8,
    ) -> (decoded: Result<PlaintextImage, ImageError>)
        ensures
            match decoded {
                Ok(image) => {
                    &&& decode_error(buffer@.len(), width, height, bit_depth, color_code) is None
                    &&& image.data == buffer
                    &&& image.size.width == width
                    &&& image.size.height == height
                    &&& Some(image.color_type) == ColorType::spec_from_code(color_code)
                    &&& image.wf()
                },
                Err(error) => decode_error(buffer@.len(), width, height, bit_depth, color_code)
                    == Some(error),
            },
    {
        if bit_depth != BIT_DEPTH {
            return Err(ImageError::UnsupportedBitDepth);
        }
        let color_type = match ColorType::from_code(color_code) {
            Some(color_type) => color_type,
            None => { return Err(ImageError::UnsupportedColorType); },
        };
        if width > 65535 || height > 65535 {
            return Err(ImageError::DimensionsTooLarge);
        }
        if !Self::fills(buffer.len(), width as u16, height as u16, color_type) {
            return Err(ImageError::SampleCountMismatch);
        }
        Ok(Self::new(buffer, width as u16, height as u16, color_type))
    }

    /// What the header of the written image says.
    pub fn header(&self) -> (header: Header)
        ensures
            header.width == self.size.width,
            header.height == self.size.height,
            header.color_code == self.color_type.png_code(),
            header.bit_depth == BIT_DEPTH,
            header.source_gamma == SOURCE_GAMMA,
            header.white == (31270u32, 32900u32),
            header.red == (64000u32, 33000u32),
            header.green == (30000u32, 60000u32),
            header.blue == (15000u32, 6000u32),
    {
        Header {
            width: self.size.width as u32,
            height: self.size.height as u32,
            color_code: self.color_type.code(),
            bit_depth: BIT_DEPTH,
            source_gamma: SOURCE_GAMMA,
            white: (31270, 32900),
            red: (64000, 33000),
            green: (30000, 60000),
            blue: (15000, 6000),
        }
    }
}

/// An image whose samples are ciphertexts, each sample encrypted on its own.
pub type EncryptedImage = Image<EncryptedImageData>;

/// The decimal digit `digit`, as a character.
pub open spec fn digit_char(digit: nat) -> char {
    if digit == 0 {
        '0'
    } else if digit == 1 {
        '1'
    } else if digit == 2 {
        '2'
    } else if digit == 3 {
        '3'
    } else if digit == 4 {
        '4'
    } else if digit == 5 {
        '5'
    } else if digit == 6 {
        '6'
    } else if digit == 7 {
        '7'
    } else if digit == 8 {
        '8'
    } else {
        '9'
    }
}

/// `number` written in decimal, without leading zeros.
pub open spec fn decimal(number: nat) -> Seq<char>
    decreases number,
{
    if number < 10 {
        seq![digit_char(number)]
    } else {
        decimal(number / 10) + seq![digit_char(number % 10)]
    }
}

/// A size as it stands in file names: width, an `x`, height.
pub open spec fn size_name(size: Size) -> Seq<char> {
    decimal(size.width as nat) + "x"@ + decimal(size.height as nat)
}

/// One decimal digit as text.
pub fn digit_text(digit: u16) -> (text: &'static str)
    requires
        digit < 10,
    ensures
        text@ == seq![digit_char(digit as nat)],
{
    proof {
        reveal_strlit("0");
        reveal_strlit("1");
        reveal_strlit("2");
        reveal_strlit("3");
        reveal_strlit("4");
        reveal_strlit("5");
        reveal_strlit("6");
        reveal_strlit("7");
        reveal_strlit("8");
        reveal_strlit("9");
    }
    let text = match digit {
        0 => "0",
        1 => "1",
        2 => "2",
        3 => "3",
        4 => "4",
        5 => "5",
        6 => "6",
        7 => "7",
        8 => "8",
        _ => "9",
    };
    assert(text@ =~= seq![digit_char(digit as nat)]);
    text
}

/// `number` written in decimal.
pub fn decimal_text(number: u16) -> (text: String)
    ensures
        text@ == decimal(number as nat),
    decreases number,
{
    if number < 10 {
        String::from_str(digit_text(number))
    } else {
        decimal_text(number / 10).concat(digit_text(number % 10))
    }
}

impl Size {
    /// The size as it stands in file names and logs: width, an `x`, height.
    pub fn text(&self) -> (text: String)
        ensures
            text@ == size_name(*self),
    {
        let width = decimal_text(self.width);
        let height = decimal_text(self.height);
        width.concat("x").concat(height.as_str())
    }
}

/// The name of a colour type.
pub open spec fn color_name(color_type: ColorType) -> Seq<char> {
    match color_type {
        ColorType::Grayscale => "Grayscale"@,
        ColorType::Indexed => "Indexed"@,
        ColorType::GrayscaleAlpha => "GrayscaleAlpha"@,
        ColorType::Rgb => "Rgb"@,
        ColorType::Rgba => "Rgba"@,
    }
}

impl ColorType {
    /// The name of the colour type.
    pub fn name(&self) -> (name: &'static str)
        ensures
            name@ == color_name(*self),
    {
        match self {
            ColorType::Grayscale => "Grayscale",
            ColorType::Indexed => "Indexed",
            ColorType::GrayscaleAlpha => "GrayscaleAlpha",
            ColorType::Rgb => "Rgb",
            ColorType::Rgba => "Rgba",
        }
    }
}

/// An image in a word: what it is, and in brackets its size and colour type.
pub open spec fn image_name(kind: Seq<char>, size: Size, color_type: ColorType) -> Seq<char> {
    kind + " ("@ + size_name(size) + ", "@ + color_name(color_type) + ")"@
}

impl<T: Clone> Image<T> {
    /// The image in a word, without its samples: `kind`, and in brackets the
    /// size and the colour type.
    pub fn describe(&self, kind: &str) -> (text: String)
        ensures
            text@ == image_name(kind@, self.size, self.color_type),
    {
        let size = self.size.text();
        String::from_str(kind).concat(" (").concat(size.as_str()).concat(", ").concat(
            self.color_type.name(),
        ).concat(")")
    }
}

} // verus!
