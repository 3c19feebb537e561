//! Images brought to other sizes, and written as PNG files.

use vstd::prelude::*;

use crate::files::{extension, file_name, file_name_of, split_extension};
use crate::icon_car::file_view;
use crate::icon_renditions::{icon_size, macos_icon_size, ICON_SIZES};
use crate::outputs::{has_other_size, icon_needs_scaling, png_size};
use crate::pixels::{decode_image, decoded_image, swap_channels, swapped, PictureModel};
use crate::plist::LooseIcon;
use crate::report::{build_exif_dimensions, exif_dimensions};

verus! {

/// How long a side may be so that the filter, which computes in single precision, finds
/// every place along it to half a pixel.  Where both the old and the new side are
/// longer, its weights may add up to nothing.
pub const MAX_FILTERED_SIDE: u32 = 0x10_0000;

/// Whether the filter can bring an image to a size: along each side one of the two
/// lengths is not too long, and the step between the two, with four bytes for each
/// channel, fits in memory.
pub open spec fn filterable(width: u32, height: u32, new_width: u32, new_height: u32) -> bool {
    &&& width <= MAX_FILTERED_SIDE || new_width <= MAX_FILTERED_SIDE
    &&& height <= MAX_FILTERED_SIDE || new_height <= MAX_FILTERED_SIDE
    &&& 16 * (width * new_height) <= isize::MAX
}

/// Whether an image can be brought to a size: it fits in memory with `channel` bytes
/// for each channel, and the filter can do it.  An image of that size, or without
/// pixels, does not go through the filter.
pub open spec fn scalable(
    width: u32,
    height: u32,
    new_width: u32,
    new_height: u32,
    channel: int,
) -> bool {
    &&& 4 * (channel * (new_width * new_height)) <= isize::MAX
    &&& width == 0 || height == 0 || width == new_width && height == new_height || filterable(
        width,
        height,
        new_width,
        new_height,
    )
}

/// Whether an image can be brought to a size.
fn check_scalable(
    width: u32,
    height: u32,
    new_width: u32,
    new_height: u32,
    channel: u8,
) -> (answer: bool)
    ensures
        answer == scalable(width, height, new_width, new_height, channel as int),
{
    let limit: u128 = isize::MAX as u128;
    proof {
        assert(0 <= width * new_height <= 0xffff_ffff * 0xffff_ffff) by (nonlinear_arith)
            requires
                0 <= width <= 0xffff_ffff,
                0 <= new_height <= 0xffff_ffff,
        ;
        assert(0 <= new_width * new_height <= 0xffff_ffff * 0xffff_ffff) by (nonlinear_arith)
            requires
                0 <= new_width <= 0xffff_ffff,
                0 <= new_height <= 0xffff_ffff,
        ;
        assert(0 <= channel * (new_width * new_height) <= 255 * (0xffff_ffff * 0xffff_ffff))
            by (nonlinear_arith)
            requires
                0 <= channel <= 255,
                0 <= new_width * new_height <= 0xffff_ffff * 0xffff_ffff,
        ;
    }
    let area: u128 = new_width as u128 * new_height as u128;
    if 4 * (channel as u128 * area) > limit {
        return false;
    }
    if width == 0 || height == 0 || width == new_width && height == new_height {
        return true;
    }
    (width <= MAX_FILTERED_SIDE || new_width <= MAX_FILTERED_SIDE) && (height <= MAX_FILTERED_SIDE
        || new_height <= MAX_FILTERED_SIDE) && 16 * (width as u128 * new_height as u128) <= limit
}

/// Whether `image::imageops::resize` may bring red, green, blue and alpha of an image to
/// `out` in a new size.
pub uninterp spec fn may_resize(
    width: u32,
    height: u32,
    rgba: Seq<u8>,
    new_width: u32,
    new_height: u32,
    out: Seq<u8>,
) -> bool;

/// Scales red, green, blue and alpha to a size with `image::imageops::resize` and its
/// Lanczos filter: four bytes come out for each pixel of the new size, and an image
/// of that size already comes out as it is.  What else the pixels are is left
/// unsaid, as they are rounded from floating-point sums; `may_resize` says which
/// image they were made of.
#[verifier::external_body]
fn resize_rgba(
    width: u32,
    height: u32,
    rgba: &Vec<u8>,
    new_width: u32,
    new_height: u32,
) -> (out: Vec<u8>)
    requires
        rgba@.len() == 4 * (width * height),
        scalable(width, height, new_width, new_height, 1),
    ensures
        may_resize(width, height, rgba@, new_width, new_height, out@),
        out@.len() == 4 * (new_width * new_height),
        width == new_width && height == new_height ==> out@ == rgba@,
{
    let pixels: &[u8] = rgba;
    let image: image::ImageBuffer<image::Rgba<u8>, &[u8]> =
        image::ImageBuffer::from_raw(width, height, pixels).expect("complete pixels");
    let filter = image::imageops::FilterType::Lanczos3;
    image::imageops::resize(&image, new_width, new_height, filter).into_raw()
}

/// Whether `image::DynamicImage::resize` may bring an image file, inside a square, to
/// `out` in a new size.
pub uninterp spec fn may_fit(
    extension: Seq<char>,
    data: Seq<u8>,
    side: u32,
    new_width: u32,
    new_height: u32,
    out: Seq<u8>,
) -> bool;

/// Decodes an image file with `image::load_from_memory_with_format` and scales it, in
/// the channels that it has, with `image::DynamicImage::resize` and its Lanczos filter
/// to the largest size inside a square that keeps the proportions: no side is longer
/// than that of the square, a square image fills it, and one of its size comes out as
/// it is.  Width, height, and red, green, blue and alpha come out.  What else they are
/// is left unsaid, as they are rounded from floating-point numbers; `may_fit` says
/// which file they were made of.
#[verifier::external_body]
fn fit_file(extension: &str, data: &[u8], side: u32) -> (out: (u32, u32, Vec<u8>))
    requires
        side > 0,
        match decoded_image(extension@, data@) {
            Some(picture) => scalable(picture.width, picture.height, side, side, 4),
            None => false,
        },
    ensures
        may_fit(extension@, data@, side, out.0, out.1, out.2@),
        fills_square(decoded_image(extension@, data@)->0, side, out.0, out.1, out.2@),
{
    let format = image::ImageFormat::from_extension(extension).expect("a known format");
    let decoded = image::load_from_memory_with_format(data, format).expect("an image");
    let scaled = decoded.resize(side, side, image::imageops::FilterType::Lanczos3);
    (scaled.width(), scaled.height(), scaled.to_rgba8().into_raw())
}

/// Whether pixels are those of a picture in a square: no side is longer, a square
/// picture fills it, and one of its size is unchanged.
pub open spec fn fills_square(
    picture: PictureModel,
    side: u32,
    width: u32,
    height: u32,
    rgba: Seq<u8>,
) -> bool {
    &&& 0 < width <= side
    &&& 0 < height <= side
    &&& rgba.len() == 4 * (width * height)
    &&& picture.width == picture.height && picture.width > 0 ==> width == side && height == side
    &&& picture.width == side && picture.height == side ==> rgba == picture.rgba
}

/// The PNG file that the `png` crate writes of red, green, blue and alpha, with a
/// description in front of the pixels; `None` if it cannot.
pub uninterp spec fn png_file(width: u32, height: u32, rgba: Seq<u8>, exif: Seq<u8>) -> Option<
    Seq<u8>,
>;

/// Writes a PNG file with `png::Encoder`: eight bits for each channel, compressed fast,
/// marked as perceptual sRGB, with the description in an `eXIf` chunk.  The file
/// depends on the arguments alone, and there is one only of complete pixels.  What
/// it is for given pixels is left unsaid: that is the business of the file format.
#[verifier::external_body]
fn write_png(width: u32, height: u32, rgba: &Vec<u8>, exif: &Vec<u8>) -> (file: Option<Vec<u8>>)
    requires
        4 * (width * height) <= usize::MAX,
    ensures
        match file {
            Some(f) => png_file(width, height, rgba@, exif@) == Some(f@) && rgba@.len() == 4 * (
            width * height),
            None => png_file(width, height, rgba@, exif@) is None,
        },
{
    let mut out: Vec<u8> = Vec::new();
    let mut encoder = png::Encoder::new(&mut out, width, height);
    encoder.set_color(png::ColorType::Rgba);
    encoder.set_depth(png::BitDepth::Eight);
    encoder.set_compression(png::Compression::Fast);
    encoder.set_source_srgb(png::SrgbRenderingIntent::Perceptual);
    let mut writer = encoder.write_header().ok()?;
    writer.write_chunk(png::chunk::ChunkType(*b"eXIf"), exif).ok()?;
    writer.write_image_data(rgba).ok()?;
    writer.finish().ok()?;
    Some(out)
}

/// The file of a home screen icon: a square PNG image that names its size.
pub open spec fn icon_png(rgba: Seq<u8>, side: u32) -> Option<Seq<u8>> {
    png_file(side, side, rgba, exif_dimensions(side, side))
}

/// Writes the file of a home screen icon.
pub fn make_icon_png(rgba: &Vec<u8>, side: u32) -> (file: Option<Vec<u8>>)
    requires
        4 * (side * side) <= usize::MAX,
    ensures
        match file {
            Some(f) => icon_png(rgba@, side) == Some(f@) && rgba@.len() == 4 * (side * side),
            None => icon_png(rgba@, side) is None,
        },
{
    let exif = build_exif_dimensions(side, side);
    write_png(side, side, rgba, &exif)
}

/// Whether `file` is what comes of bringing an image file to the size of a home screen
/// icon: nothing of an image that cannot be read or scaled, nor where there is no
/// room for pixels; else what comes of writing the scaled pixels, which is nothing
/// where they do not fill the square.
pub open spec fn scales_to_icon(
    extension: Seq<char>,
    data: Seq<u8>,
    side: u32,
    file: Option<Seq<u8>>,
) -> bool {
    match decoded_image(extension, data) {
        None => file is None,
        Some(picture) => if side == 0 || !scalable(picture.width, picture.height, side, side, 4) {
            file is None
        } else {
            exists|width: u32, height: u32, rgba: Seq<u8>|
                {
                    &&& #[trigger] may_fit(extension, data, side, width, height, rgba)
                    &&& fills_square(picture, side, width, height, rgba)
                    &&& file == icon_png(rgba, side)
                    &&& file is Some ==> width == side && height == side
                }
        },
    }
}

/// Brings an image file to the size of a home screen icon.
pub fn scale_png(extension: &str, data: &[u8], side: u32) -> (file: Option<Vec<u8>>)
    ensures
        scales_to_icon(extension@, data@, side, file_view(file)),
{
    match decode_image(extension, data) {
        Some(picture) => {
            if side == 0 || !check_scalable(picture.width, picture.height, side, side, 4) {
                return None;
            }
            let (width, height, rgba) = fit_file(extension, data, side);
            let file = make_icon_png(&rgba, side);
            assert(may_fit(extension@, data@, side, width, height, rgba@));
            proof {
                if file is Some {
                    lemma_square_is_full(width, height, side);
                }
            }
            file
        },
        None => None,
    }
}

/// No smaller size inside a square has as many pixels.
proof fn lemma_square_is_full(width: u32, height: u32, side: u32)
    requires
        width <= side,
        height <= side,
        side > 0,
        width * height == side * side,
    ensures
        width == side,
        height == side,
{
    assert(width == side && height == side) by (nonlinear_arith)
        requires
            0 <= width <= side,
            0 <= height <= side,
            side > 0,
            width * height == side * side,
    ;
}

/// The contents of a home screen icon: the image as it is, or brought to its size.
/// There are none where it cannot be brought there.
pub fn make_loose_icon(icon: &LooseIcon, data: &[u8]) -> (file: Option<Vec<u8>>)
    requires
        icon.point_w * icon.scale <= u32::MAX,
    ensures
        if has_other_size(png_size(data@), icon.point_w, icon.scale) {
            scales_to_icon(
                extension(file_name_of(icon.src@)),
                data@,
                (icon.point_w * icon.scale) as u32,
                file_view(file),
            )
        } else {
            file_view(file) == Some(data@)
        },
{
    if icon_needs_scaling(icon, data) {
        let (_, extension) = split_extension(file_name(&icon.src));
        scale_png(extension, data, icon.point_w * icon.scale)
    } else {
        let mut copy: Vec<u8> = Vec::new();
        copy.extend_from_slice(data);
        assert(copy@ =~= data@);
        Some(copy)
    }
}

/// The PNG file that the `image` crate writes of red, green, blue and alpha; `None`
/// if it cannot.
pub uninterp spec fn encoded_png(width: u32, height: u32, rgba: Seq<u8>) -> Option<Seq<u8>>;

/// Writes a PNG file with `image::ImageBuffer::write_to`.  The file depends on the
/// arguments alone, and there is none where pixels are missing.  What it is for given
/// pixels is left unsaid: that is the business of the file format.
#[verifier::external_body]
fn encode_png(width: u32, height: u32, rgba: Vec<u8>) -> (file: Option<Vec<u8>>)
    ensures
        match file {
            Some(f) => encoded_png(width, height, rgba@) == Some(f@) && rgba@.len() >= 4 * (width
                * height),
            None => encoded_png(width, height, rgba@) is None,
        },
{
    let image = image::RgbaImage::from_raw(width, height, rgba)?;
    let mut out = std::io::Cursor::new(Vec::new());
    image.write_to(&mut out, image::ImageFormat::Png).ok()?;
    Some(out.into_inner())
}

/// Writes a drawing of blue, green, red and alpha as a square PNG image; there is none
/// where pixels are missing.
pub fn make_drawn_image(bgra: &Vec<u8>, side: u32) -> (file: Option<Vec<u8>>)
    ensures
        match file {
            Some(f) => encoded_png(side, side, swapped(bgra@)) == Some(f@) && bgra@.len() >= 4 * (
            side * side),
            None => encoded_png(side, side, swapped(bgra@)) is None,
        },
{
    encode_png(side, side, swap_channels(bgra))
}

/// Whether pixels may come of bringing a picture to a size; a picture of that size is
/// unchanged.
pub open spec fn resized(picture: PictureModel, width: u32, height: u32, rgba: Seq<u8>) -> bool {
    &&& may_resize(picture.width, picture.height, picture.rgba, width, height, rgba)
    &&& rgba.len() == 4 * (width * height)
    &&& picture.width == width && picture.height == height ==> rgba == picture.rgba
}

/// Brings an image file to a size: red, green, blue and alpha of each pixel.  They are
/// there exactly where the file can be read and scaled.
pub fn scale_layer(extension: &str, data: &[u8], width: u32, height: u32) -> (pixels: Option<
    Vec<u8>,
>)
    ensures
        match decoded_image(extension@, data@) {
            None => pixels is None,
            Some(picture) => match pixels {
                Some(rgba) => scalable(picture.width, picture.height, width, height, 1) && resized(
                    picture,
                    width,
                    height,
                    rgba@,
                ),
                None => !scalable(picture.width, picture.height, width, height, 1),
            },
        },
{
    match decode_image(extension, data) {
        Some(picture) => {
            if check_scalable(picture.width, picture.height, width, height, 1) {
                Some(resize_rgba(picture.width, picture.height, &picture.rgba, width, height))
            } else {
                None
            }
        },
        None => None,
    }
}

/// The width of an icon in one of its sizes.
pub open spec fn icon_side(i: int) -> u32 {
    (icon_size(i).0 * icon_size(i).1) as u32
}

/// Whether a picture can be brought to all the sizes of an icon.
pub open spec fn all_sizes_scalable(picture: PictureModel) -> bool {
    forall|i: int|
        0 <= i < ICON_SIZES ==> scalable(
            picture.width,
            picture.height,
            #[trigger] icon_side(i),
            icon_side(i),
            1,
        )
}

/// Whether `file` may come of writing a picture as a square PNG image.
pub open spec fn may_be_written(picture: PictureModel, side: u32, file: Option<Seq<u8>>) -> bool {
    exists|rgba: Seq<u8>| #[trigger]
        resized(picture, side, side, rgba) && file == encoded_png(side, side, rgba)
}

/// Brings an image file to all the sizes of an icon: a PNG image of each, with its
/// width.  There are none of an image that cannot be read or scaled, nor where one of
/// them cannot be written.
pub fn make_source_images(extension: &str, data: &[u8]) -> (images: Option<Vec<(Vec<u8>, u64)>>)
    ensures
        match decoded_image(extension@, data@) {
            None => images is None,
            Some(picture) => match images {
                Some(list) => {
                    &&& all_sizes_scalable(picture)
                    &&& list@.len() == ICON_SIZES
                    &&& forall|i: int|
                        0 <= i < ICON_SIZES ==> (#[trigger] list@[i]).1 == icon_side(i)
                            && may_be_written(picture, icon_side(i), Some(list@[i].0@))
                },
                None => !all_sizes_scalable(picture) || exists|i: int|
                    0 <= i < ICON_SIZES && may_be_written(picture, #[trigger] icon_side(i), None),
            },
        },
{
    let picture = match decode_image(extension, data) {
        Some(p) => p,
        None => {
            return None;
        },
    };
    let mut list: Vec<(Vec<u8>, u64)> = Vec::new();
    let mut i: usize = 0;
    while i < ICON_SIZES
        invariant
            i <= ICON_SIZES,
            list@.len() == i,
            decoded_image(extension@, data@) == Some(picture@),
            picture@.rgba.len() == 4 * (picture.width * picture.height),
            forall|k: int|
                0 <= k < i ==> scalable(
                    picture.width,
                    picture.height,
                    #[trigger] icon_side(k),
                    icon_side(k),
                    1,
                ),
            forall|k: int|
                0 <= k < i ==> (#[trigger] list@[k]).1 == icon_side(k) && may_be_written(
                    picture@,
                    icon_side(k),
                    Some(list@[k].0@),
                ),
        decreases ICON_SIZES - i,
    {
        let (points, scale) = macos_icon_size(i);
        let side: u32 = points * scale;
        assert(side == icon_side(i as int));
        if !check_scalable(picture.width, picture.height, side, side, 1) {
            return None;
        }
        let rgba = resize_rgba(picture.width, picture.height, &picture.rgba, side, side);
        assert(resized(picture@, side, side, rgba@));
        match encode_png(side, side, rgba) {
            Some(file) => {
                assert(may_be_written(picture@, side, Some(file@)));
                list.push((file, side as u64));
            },
            None => {
                assert(may_be_written(picture@, icon_side(i as int), None));
                return None;
            },
        }
        i = i + 1;
    }
    Some(list)
}

} // verus!
