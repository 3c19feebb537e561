//! Pixels: premultiplied alpha, and the choice between color and gray.

use vstd::prelude::*;

use crate::files::{extension, file_name, file_name_of, split_extension};
use crate::formats::{bgra, bgra_name, ga8, ga8_name};

verus! {

/// A color channel with the alpha multiplied in, rounded to the nearest number.
pub open spec fn premultiplied(c: u8, a: u8) -> u8 {
    ((c * a + 127) / 255) as u8
}

/// Multiplying in alpha never makes a channel brighter than its alpha; full alpha
/// leaves the channel as it is, and no alpha leaves nothing.
pub proof fn premultiplied_is_bounded(c: u8, a: u8)
    ensures
        premultiplied(c, a) <= a,
        premultiplied(c, 255) == c,
        premultiplied(c, 0) == 0,
{
    assert(c * a <= 255 * a) by (nonlinear_arith)
        requires
            c <= 255,
            a >= 0,
    ;
    assert(c * a >= 0) by (nonlinear_arith)
        requires
            c >= 0,
            a >= 0,
    ;
}

/// A color channel with the alpha multiplied in.
fn premultiply(c: u8, a: u8) -> (p: u8)
    ensures
        p == premultiplied(c, a),
{
    proof {
        premultiplied_is_bounded(c, a);
        assert(c * a <= 255 * 255) by (nonlinear_arith)
            requires
                c <= 255,
                a <= 255,
        ;
    }
    ((c as u32 * a as u32 + 127) / 255) as u8
}

/// Pixels of four bytes with the alpha, the last of them, multiplied into the
/// other three.  Bytes behind the last whole pixel stay as they are.
pub open spec fn premultiplied_bgra(pixels: Seq<u8>) -> Seq<u8> {
    Seq::new(
        pixels.len(),
        |i: int|
            if i / 4 * 4 + 3 < pixels.len() && i % 4 != 3 {
                premultiplied(pixels[i], pixels[i / 4 * 4 + 3])
            } else {
                pixels[i]
            },
    )
}

/// Pixels of two bytes with the alpha, the second, multiplied into the gray.
pub open spec fn premultiplied_ga8(pixels: Seq<u8>) -> Seq<u8> {
    Seq::new(
        pixels.len(),
        |i: int|
            if i + 1 < pixels.len() && i % 2 == 0 {
                premultiplied(pixels[i], pixels[i + 1])
            } else {
                pixels[i]
            },
    )
}

/// Multiplies alpha into the colors.
pub fn premultiply_bgra(buf: Vec<u8>) -> (out: Vec<u8>)
    ensures
        out@ == premultiplied_bgra(buf@),
{
    let mut out: Vec<u8> = Vec::new();
    let n: usize = buf.len();
    let mut i: usize = 0;
    while i < n
        invariant
            i <= n == buf@.len(),
            out@ == premultiplied_bgra(buf@).take(i as int),
        decreases n - i,
    {
        let channel: usize = i % 4;
        let byte: u8 = if channel != 3 && 3 - channel < n - i {
            premultiply(buf[i], buf[i + (3 - channel)])
        } else {
            buf[i]
        };
        proof {
            assert(i / 4 * 4 + 3 == i + (3 - channel));
        }
        out.push(byte);
        i = i + 1;
        assert(out@ =~= premultiplied_bgra(buf@).take(i as int));
    }
    assert(out@ =~= premultiplied_bgra(buf@));
    out
}

/// Multiplies alpha into the gray.
pub fn premultiply_ga8(buf: Vec<u8>) -> (out: Vec<u8>)
    ensures
        out@ == premultiplied_ga8(buf@),
{
    let mut out: Vec<u8> = Vec::new();
    let n: usize = buf.len();
    let mut i: usize = 0;
    while i < n
        invariant
            i <= n == buf@.len(),
            out@ == premultiplied_ga8(buf@).take(i as int),
        decreases n - i,
    {
        let byte: u8 = if i % 2 == 0 && 1 < n - i {
            premultiply(buf[i], buf[i + 1])
        } else {
            buf[i]
        };
        out.push(byte);
        i = i + 1;
        assert(out@ =~= premultiplied_ga8(buf@).take(i as int));
    }
    assert(out@ =~= premultiplied_ga8(buf@));
    out
}

/// Whether the three colors of every whole pixel are the same.
pub open spec fn all_gray(pixels: Seq<u8>) -> bool {
    forall|k: int|
        0 <= k < pixels.len() / 4 ==> #[trigger] pixels[4 * k] == pixels[4 * k + 1] && pixels[4 * k
            + 1] == pixels[4 * k + 2]
}

/// The first color and the alpha of every whole pixel.
pub open spec fn gray_of(pixels: Seq<u8>) -> Seq<u8> {
    Seq::new(
        2 * (pixels.len() / 4),
        |i: int|
            if i % 2 == 0 {
                pixels[i * 2]
            } else {
                pixels[i * 2 + 1]
            },
    )
}

/// Whether the three colors of every whole pixel are the same.
fn check_gray(pixels: &Vec<u8>) -> (answer: bool)
    ensures
        answer == all_gray(pixels@),
{
    let n: usize = pixels.len() / 4;
    let len: usize = pixels.len();
    let mut k: usize = 0;
    while k < n
        invariant
            k <= n,
            n == len / 4,
            len == pixels@.len(),
            forall|j: int|
                0 <= j < k ==> #[trigger] pixels@[4 * j] == pixels@[4 * j + 1] && pixels@[4 * j + 1]
                    == pixels@[4 * j + 2],
        decreases n - k,
    {
        if pixels[4 * k] != pixels[4 * k + 1] || pixels[4 * k + 1] != pixels[4 * k + 2] {
            assert(pixels@[4 * k as int] != pixels@[4 * k + 1] || pixels@[4 * k + 1] != pixels@[4
                * k + 2]);
            return false;
        }
        k = k + 1;
    }
    true
}

/// The first color and the alpha of every whole pixel.
fn to_gray(pixels: &Vec<u8>) -> (out: Vec<u8>)
    ensures
        out@ == gray_of(pixels@),
{
    let n: usize = pixels.len() / 4;
    let len: usize = pixels.len();
    let mut out: Vec<u8> = Vec::new();
    let mut k: usize = 0;
    while k < n
        invariant
            k <= n,
            n == len / 4,
            len == pixels@.len(),
            out@ == gray_of(pixels@).take(2 * k as int),
        decreases n - k,
    {
        out.push(pixels[4 * k]);
        out.push(pixels[4 * k + 3]);
        k = k + 1;
        assert(out@ =~= gray_of(pixels@).take(2 * k as int));
    }
    assert(out@ =~= gray_of(pixels@));
    out
}

/// An image whose every pixel is gray, unless color is asked for, as gray; all
/// others as they are.
pub open spec fn best_format(pixels: Seq<u8>, force_bgra: bool) -> (Seq<u8>, Seq<u8>) {
    if !force_bgra && all_gray(pixels) {
        (gray_of(pixels), ga8_name())
    } else {
        (pixels, bgra_name())
    }
}

/// Stores an image without color as gray.
pub fn bgra_to_best_format(
    bgra_data: Vec<u8>,
    width: u32,
    height: u32,
    force_bgra: bool,
) -> (out: (Vec<u8>, u32, u32, [u8; 4]))
    ensures
        (out.0@, out.3@) == best_format(bgra_data@, force_bgra),
        out.1 == width,
        out.2 == height,
{
    if !force_bgra && check_gray(&bgra_data) {
        (to_gray(&bgra_data), width, height, ga8())
    } else {
        (bgra_data, width, height, bgra())
    }
}

/// Whole pixels with their first and third byte exchanged.
pub open spec fn swapped(pixels: Seq<u8>) -> Seq<u8> {
    Seq::new(
        4 * (pixels.len() / 4),
        |i: int|
            if i % 4 == 0 {
                pixels[i + 2]
            } else if i % 4 == 2 {
                pixels[i - 2]
            } else {
                pixels[i]
            },
    )
}

/// Exchanges red and blue.
pub fn swap_channels(pixels: &Vec<u8>) -> (out: Vec<u8>)
    ensures
        out@ == swapped(pixels@),
{
    let n: usize = pixels.len() / 4;
    let len: usize = pixels.len();
    let mut out: Vec<u8> = Vec::new();
    let mut k: usize = 0;
    while k < n
        invariant
            k <= n,
            n == len / 4,
            len == pixels@.len(),
            out@ == swapped(pixels@).take(4 * k as int),
        decreases n - k,
    {
        out.push(pixels[4 * k + 2]);
        out.push(pixels[4 * k + 1]);
        out.push(pixels[4 * k]);
        out.push(pixels[4 * k + 3]);
        k = k + 1;
        assert(out@ =~= swapped(pixels@).take(4 * k as int));
    }
    assert(out@ =~= swapped(pixels@));
    out
}

/// Exchanging red and blue twice changes nothing.
pub proof fn swapping_twice_changes_nothing(pixels: Seq<u8>)
    requires
        pixels.len() % 4 == 0,
    ensures
        swapped(swapped(pixels)) == pixels,
{
    assert(swapped(swapped(pixels)) =~= pixels);
}

/// Gray pixels made opaque.
pub open spec fn with_opaque_alpha(gray: Seq<u8>) -> Seq<u8> {
    Seq::new(
        2 * gray.len(),
        |i: int|
            if i % 2 == 0 {
                gray[i / 2]
            } else {
                255u8
            },
    )
}

fn add_opaque_alpha(gray: &Vec<u8>) -> (out: Vec<u8>)
    ensures
        out@ == with_opaque_alpha(gray@),
{
    let mut out: Vec<u8> = Vec::new();
    let mut k: usize = 0;
    while k < gray.len()
        invariant
            k <= gray@.len(),
            out@ == with_opaque_alpha(gray@).take(2 * k as int),
        decreases gray.len() - k,
    {
        out.push(gray[k]);
        out.push(255);
        k = k + 1;
        assert(out@ =~= with_opaque_alpha(gray@).take(2 * k as int));
    }
    assert(out@ =~= with_opaque_alpha(gray@));
    out
}

/// How the pixels of an image file are made up.
#[derive(Debug, Clone, Copy, PartialEq, Eq, Structural)]
pub enum Channels {
    /// Gray, in eight bits.
    Gray,
    /// Gray and alpha, in eight bits each.
    GrayAlpha,
    /// Red, green, blue and alpha, in eight bits each.
    Rgba,
    /// Anything else.
    Other,
}

/// An image file, decoded.
#[derive(Debug)]
pub struct Picture {
    pub width: u32,
    pub height: u32,
    pub channels: Channels,
    /// The pixels of a gray image, with alpha where the file has it.
    pub gray: Vec<u8>,
    /// Red, green, blue and alpha of each pixel.
    pub rgba: Vec<u8>,
}

/// A decoded image as a mathematical value.
#[verifier::ext_equal]
pub struct PictureModel {
    pub width: u32,
    pub height: u32,
    pub channels: Channels,
    pub gray: Seq<u8>,
    pub rgba: Seq<u8>,
}

impl View for Picture {
    type V = PictureModel;

    open spec fn view(&self) -> PictureModel {
        PictureModel {
            width: self.width,
            height: self.height,
            channels: self.channels,
            gray: self.gray@,
            rgba: self.rgba@,
        }
    }
}

/// What the `image` crate decodes from a file with this extension and contents;
/// `None` if it cannot.
pub uninterp spec fn decoded_image(extension: Seq<char>, data: Seq<u8>) -> Option<PictureModel>;

/// Decodes an image file with `image::load_from_memory_with_format`, in the format
/// that `image::ImageFormat::from_extension` finds for the extension.  The result
/// depends on the extension and the contents alone, and holds four bytes for each
/// pixel.  What they are for given contents is left unsaid: that is the business of
/// the file formats.
#[verifier::external_body]
pub(crate) fn decode_image(extension: &str, data: &[u8]) -> (picture: Option<Picture>)
    ensures
        match picture {
            Some(p) => decoded_image(extension@, data@) == Some(p@) && p.rgba@.len() == 4 * (p.width
                * p.height),
            None => decoded_image(extension@, data@) is None,
        },
{
    let format = image::ImageFormat::from_extension(extension)?;
    let decoded = image::load_from_memory_with_format(data, format).ok()?;
    let (width, height) = (decoded.width(), decoded.height());
    let rgba = decoded.to_rgba8().into_raw();
    let (channels, gray) = match decoded {
        image::DynamicImage::ImageLuma8(pixels) => (Channels::Gray, pixels.into_raw()),
        image::DynamicImage::ImageLumaA8(pixels) => (Channels::GrayAlpha, pixels.into_raw()),
        image::DynamicImage::ImageRgba8(_) => (Channels::Rgba, Vec::new()),
        _ => (Channels::Other, Vec::new()),
    };
    Some(Picture { width, height, channels, gray, rgba })
}

/// The pixels of an image as they are stored, and their format: gray images as
/// gray unless color is asked for, others in color; alpha is multiplied in.
pub open spec fn stored_form(picture: PictureModel, force_bgra: bool) -> (Seq<u8>, Seq<u8>) {
    if !force_bgra && picture.channels == Channels::Gray {
        (with_opaque_alpha(picture.gray), ga8_name())
    } else if !force_bgra && picture.channels == Channels::GrayAlpha {
        (premultiplied_ga8(picture.gray), ga8_name())
    } else if !force_bgra && picture.channels == Channels::Rgba && all_gray(picture.rgba) {
        (premultiplied_ga8(gray_of(picture.rgba)), ga8_name())
    } else {
        (premultiplied_bgra(swapped(picture.rgba)), bgra_name())
    }
}

/// The pixels of an image as they are stored, and their format.
pub fn to_stored_form(picture: Picture, force_bgra: bool) -> (out: (Vec<u8>, [u8; 4]))
    ensures
        (out.0@, out.1@) == stored_form(picture@, force_bgra),
{
    if !force_bgra {
        if picture.channels == Channels::Gray {
            return (add_opaque_alpha(&picture.gray), ga8());
        }
        if picture.channels == Channels::GrayAlpha {
            return (premultiply_ga8(picture.gray), ga8());
        }
        if picture.channels == Channels::Rgba && check_gray(&picture.rgba) {
            return (premultiply_ga8(to_gray(&picture.rgba)), ga8());
        }
    }
    (premultiply_bgra(swap_channels(&picture.rgba)), bgra())
}

/// A loaded image: its stored pixels, width, height and pixel format.
pub open spec fn loaded_image(path: Seq<char>, data: Seq<u8>, force_bgra: bool) -> Option<
    (Seq<u8>, u32, u32, Seq<u8>),
> {
    match decoded_image(extension(file_name_of(path)), data) {
        Some(picture) => {
            let (pixels, format) = stored_form(picture, force_bgra);
            Some((pixels, picture.width, picture.height, format))
        },
        None => None,
    }
}

/// Loads an image file: its stored pixels, width, height and pixel format.
pub fn load_image_as_bgra(path: &str, data: &[u8], force_bgra: bool) -> (out: Option<
    (Vec<u8>, u32, u32, [u8; 4]),
>)
    ensures
        match out {
            Some((pixels, width, height, format)) => loaded_image(path@, data@, force_bgra) == Some(
                (pixels@, width, height, format@),
            ),
            None => loaded_image(path@, data@, force_bgra) is None,
        },
{
    let (_, extension) = split_extension(file_name(path));
    match decode_image(extension, data) {
        Some(picture) => {
            let width: u32 = picture.width;
            let height: u32 = picture.height;
            let (pixels, format) = to_stored_form(picture, force_bgra);
            Some((pixels, width, height, format))
        },
        None => None,
    }
}

/// The width and the height that the `image` crate reads from a file with this
/// extension and contents; `None` if it cannot.
pub uninterp spec fn image_size(extension: Seq<char>, data: Seq<u8>) -> Option<(u32, u32)>;

/// Reads the size of an image file with `image::ImageReader::into_dimensions`, in
/// the format that `image::ImageFormat::from_extension` finds for the extension.
/// The result depends on the extension and the contents alone.  What it is for
/// given contents is left unsaid: that is the business of the file formats.
#[verifier::external_body]
pub(crate) fn measure_image(extension: &str, data: &[u8]) -> (size: Option<(u32, u32)>)
    ensures
        size == image_size(extension@, data@),
{
    let format = image::ImageFormat::from_extension(extension)?;
    let reader = image::ImageReader::with_format(std::io::Cursor::new(data), format);
    reader.into_dimensions().ok()
}

} // verus!
