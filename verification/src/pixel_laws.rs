//! What stored pixels show of the image they were made of.

use vstd::prelude::*;

use crate::canvas::{finished_canvas, straight, straight_rgba};
use crate::files::{extension, file_name_of};
use crate::pixels::{
    best_format, decoded_image, gray_of, loaded_image, premultiplied, premultiplied_bgra,
    premultiplied_ga8, stored_form, swapped, with_opaque_alpha, PictureModel,
};

verus! {

/// Whether `p` is the whole number nearest to a share `a / 255` of `c`.
pub open spec fn is_nearest_share(p: u8, c: u8, a: u8) -> bool {
    &&& 2 * (255 * p - c * a) <= 255
    &&& 2 * (c * a - 255 * p) <= 255
}

/// A channel with the alpha multiplied in is the whole number nearest to its share.
pub proof fn premultiplied_is_nearest(c: u8, a: u8)
    ensures
        is_nearest_share(premultiplied(c, a), c, a),
{
    let n = c * a + 127;
    assert(0 <= c * a <= 255 * 255) by (nonlinear_arith)
        requires
            0 <= c <= 255,
            0 <= a <= 255,
    ;
    assert(0 <= n / 255 <= 255);
    assert(premultiplied(c, a) == n / 255);
}

/// No two numbers are nearest to a share, so that the nearest one is settled.
pub proof fn nearest_share_is_settled(p: u8, q: u8, c: u8, a: u8)
    requires
        is_nearest_share(p, c, a),
        is_nearest_share(q, c, a),
    ensures
        p == q,
{
}

/// A brighter channel, or a higher alpha, never makes the result darker.
pub proof fn premultiplied_is_monotonic(c: u8, d: u8, a: u8, b: u8)
    requires
        c <= d,
        a <= b,
    ensures
        premultiplied(c, a) <= premultiplied(d, b),
{
    assert(c * a <= d * b) by (nonlinear_arith)
        requires
            0 <= c <= d,
            0 <= a <= b,
    ;
    assert(d * b <= 255 * 255) by (nonlinear_arith)
        requires
            0 <= d <= 255,
            0 <= b <= 255,
    ;
    assert(0 <= c * a) by (nonlinear_arith)
        requires
            0 <= c,
            0 <= a,
    ;
}

/// Whether pixel `k` of blue, green, red and alpha shows the pixel of red, green, blue
/// and alpha, with the alpha multiplied in.
pub open spec fn shows_color(bgra: Seq<u8>, rgba: Seq<u8>, k: int) -> bool {
    let alpha = rgba[4 * k + 3];
    &&& is_nearest_share(bgra[4 * k], rgba[4 * k + 2], alpha)
    &&& is_nearest_share(bgra[4 * k + 1], rgba[4 * k + 1], alpha)
    &&& is_nearest_share(bgra[4 * k + 2], rgba[4 * k], alpha)
    &&& bgra[4 * k + 3] == alpha
}

/// Pixels of a canvas or an image in color as they are stored.
pub proof fn colors_are_shown(rgba: Seq<u8>, k: int)
    requires
        rgba.len() % 4 == 0,
        0 <= k < rgba.len() / 4,
    ensures
        premultiplied_bgra(swapped(rgba)).len() == rgba.len(),
        shows_color(premultiplied_bgra(swapped(rgba)), rgba, k),
{
    let alpha = rgba[4 * k + 3];
    let other = swapped(rgba);
    assert(other[4 * k] == rgba[4 * k + 2]);
    assert(other[4 * k + 1] == rgba[4 * k + 1]);
    assert(other[4 * k + 2] == rgba[4 * k]);
    assert(other[4 * k + 3] == alpha);
    let out = premultiplied_bgra(other);
    assert(out[4 * k] == premultiplied(rgba[4 * k + 2], alpha));
    assert(out[4 * k + 1] == premultiplied(rgba[4 * k + 1], alpha));
    assert(out[4 * k + 2] == premultiplied(rgba[4 * k], alpha));
    assert(out[4 * k + 3] == alpha);
    premultiplied_is_nearest(rgba[4 * k], alpha);
    premultiplied_is_nearest(rgba[4 * k + 1], alpha);
    premultiplied_is_nearest(rgba[4 * k + 2], alpha);
}

/// Whether pixel `k` of gray and alpha shows a gray with an alpha.
pub open spec fn shows_gray(out: Seq<u8>, gray: u8, alpha: u8, k: int) -> bool {
    is_nearest_share(out[2 * k], gray, alpha) && out[2 * k + 1] == alpha
}

/// Whether every pixel has the same red, green and blue.
pub open spec fn is_colorless(rgba: Seq<u8>) -> bool {
    forall|k: int|
        0 <= k < rgba.len() / 4 ==> #[trigger] rgba[4 * k] == rgba[4 * k + 1] && rgba[4 * k + 1]
            == rgba[4 * k + 2]
}

/// Whether stored pixels show a picture: in color, as blue, green, red and alpha; or
/// where color is not asked for and there is none, as gray and alpha.  The alpha is
/// multiplied in, and the name of the format tells which it is.
pub open spec fn shows_picture(
    pixels: Seq<u8>,
    format: Seq<u8>,
    picture: PictureModel,
    force_bgra: bool,
) -> bool {
    if !force_bgra && picture.channels is Gray {
        &&& format == seq![0x20u8, 0x38, 0x41, 0x47]
        &&& pixels.len() == 2 * picture.gray.len()
        &&& forall|k: int|
            0 <= k < picture.gray.len() ==> pixels[2 * k] == #[trigger] picture.gray[k] && pixels[2
                * k + 1] == 255
    } else if !force_bgra && picture.channels is GrayAlpha {
        &&& format == seq![0x20u8, 0x38, 0x41, 0x47]
        &&& pixels.len() == picture.gray.len()
        &&& forall|k: int|
            0 <= k < picture.gray.len() / 2 ==> #[trigger] shows_gray(
                pixels,
                picture.gray[2 * k],
                picture.gray[2 * k + 1],
                k,
            )
    } else if !force_bgra && picture.channels is Rgba && is_colorless(picture.rgba) {
        &&& format == seq![0x20u8, 0x38, 0x41, 0x47]
        &&& 2 * pixels.len() == picture.rgba.len()
        &&& forall|k: int|
            0 <= k < picture.rgba.len() / 4 ==> #[trigger] shows_gray(
                pixels,
                picture.rgba[4 * k],
                picture.rgba[4 * k + 3],
                k,
            )
    } else {
        &&& format == seq![0x42u8, 0x47, 0x52, 0x41]
        &&& pixels.len() == picture.rgba.len()
        &&& forall|k: int|
            0 <= k < picture.rgba.len() / 4 ==> #[trigger] shows_color(pixels, picture.rgba, k)
    }
}

/// An image is stored in pixels that show it.
pub proof fn stored_forms_show_the_picture(picture: PictureModel, force_bgra: bool)
    requires
        picture.rgba.len() % 4 == 0,
    ensures
        ({
            let (pixels, format) = stored_form(picture, force_bgra);
            shows_picture(pixels, format, picture, force_bgra)
        }),
{
    let (pixels, format) = stored_form(picture, force_bgra);
    if !force_bgra && picture.channels is Gray {
        assert(pixels == with_opaque_alpha(picture.gray));
        assert forall|k: int| 0 <= k < picture.gray.len() implies pixels[2 * k]
            == #[trigger] picture.gray[k] && pixels[2 * k + 1] == 255 by {
            assert(2 * k / 2 == k);
        }
    } else if !force_bgra && picture.channels is GrayAlpha {
        assert forall|k: int| 0 <= k < picture.gray.len() / 2 implies #[trigger] shows_gray(
            pixels,
            picture.gray[2 * k],
            picture.gray[2 * k + 1],
            k,
        ) by {
            lemma_gray_pixel(picture.gray, k);
        }
    } else if !force_bgra && picture.channels is Rgba && is_colorless(picture.rgba) {
        let gray = gray_of(picture.rgba);
        assert(pixels == premultiplied_ga8(gray));
        assert forall|k: int| 0 <= k < picture.rgba.len() / 4 implies #[trigger] shows_gray(
            pixels,
            picture.rgba[4 * k],
            picture.rgba[4 * k + 3],
            k,
        ) by {
            lemma_gray_pixel(gray, k);
            assert(gray[2 * k] == picture.rgba[4 * k]);
            assert(gray[2 * k + 1] == picture.rgba[4 * k + 3]);
        }
    } else {
        assert(pixels == premultiplied_bgra(swapped(picture.rgba)));
        assert forall|k: int| 0 <= k < picture.rgba.len() / 4 implies #[trigger] shows_color(
            pixels,
            picture.rgba,
            k,
        ) by {
            colors_are_shown(picture.rgba, k);
        }
        assert(swapped(picture.rgba).len() == picture.rgba.len());
    }
}

proof fn lemma_gray_pixel(gray: Seq<u8>, k: int)
    requires
        0 <= k < gray.len() / 2,
    ensures
        shows_gray(premultiplied_ga8(gray), gray[2 * k], gray[2 * k + 1], k),
{
    premultiplied_is_nearest(gray[2 * k], gray[2 * k + 1]);
}

/// A loaded image has the width and the height of the decoded one, and pixels that
/// show it; a file that cannot be decoded gives none.  The format of the file goes by
/// the extension of its name.
pub proof fn loaded_images_show_the_file(path: Seq<char>, data: Seq<u8>, force_bgra: bool)
    ensures
        match (decoded_image(extension(file_name_of(path)), data), loaded_image(path, data, force_bgra)) {
            (Some(picture), Some(image)) => image.1 == picture.width && image.2 == picture.height && (
            picture.rgba.len() % 4 == 0 ==> shows_picture(image.0, image.3, picture, force_bgra)),
            (None, None) => true,
            _ => false,
        },
{
    match decoded_image(extension(file_name_of(path)), data) {
        Some(picture) => {
            if picture.rgba.len() % 4 == 0 {
                stored_forms_show_the_picture(picture, force_bgra);
            }
        },
        None => {},
    }
}

/// A drawing without color is stored as gray and alpha where color is not asked for, and
/// any other as it is.
pub proof fn best_formats_keep_the_pixels(bgra: Seq<u8>, force_bgra: bool)
    requires
        bgra.len() % 4 == 0,
    ensures
        ({
            let (pixels, format) = best_format(bgra, force_bgra);
            if !force_bgra && is_colorless(bgra) {
                &&& format == seq![0x20u8, 0x38, 0x41, 0x47]
                &&& 2 * pixels.len() == bgra.len()
                &&& forall|k: int|
                    0 <= k < bgra.len() / 4 ==> pixels[2 * k] == #[trigger] bgra[4 * k] && pixels[2
                        * k + 1] == bgra[4 * k + 3]
            } else {
                format == seq![0x42u8, 0x47, 0x52, 0x41] && pixels == bgra
            }
        }),
{
    let (pixels, format) = best_format(bgra, force_bgra);
    if !force_bgra && is_colorless(bgra) {
        assert(pixels == gray_of(bgra));
    }
}

/// A canvas of straight colors is stored in pixels that show it.
pub proof fn canvases_are_shown(rgba: Seq<u8>, k: int)
    requires
        rgba.len() % 4 == 0,
        0 <= k < rgba.len() / 4,
    ensures
        finished_canvas(rgba).len() == rgba.len(),
        shows_color(finished_canvas(rgba), rgba, k),
{
    colors_are_shown(rgba, k);
}

/// Dividing the alpha out gives the number nearest to the color, as long as the color
/// is not brighter than its alpha; without alpha there is no color.
pub proof fn straight_is_nearest(c: u8, a: u8)
    ensures
        a == 0 ==> straight(c, a) == 0,
        0 < a && c <= a ==> 2 * (a * straight(c, a) - 255 * c) <= a && 2 * (255 * c - a * straight(
            c,
            a,
        )) <= a,
{
    if 0 < a && c <= a {
        let n = c * 255 + a / 2;
        let q = n / (a as int);
        vstd::arithmetic::div_mod::lemma_fundamental_div_mod(n, a as int);
        vstd::arithmetic::div_mod::lemma_mod_bound(n, a as int);
        assert(q <= 255) by (nonlinear_arith)
            requires
                n == a * q + n % (a as int),
                0 <= n % (a as int),
                n <= 255 * a + a / 2,
                a > 0,
        ;
        assert(q >= 0) by (nonlinear_arith)
            requires
                n == a * q + n % (a as int),
                n % (a as int) < a,
                n >= 0,
                a > 0,
        ;
        assert(straight(c, a) == q);
    }
}

/// Dividing the alpha out puts red first and blue third.
pub proof fn straight_pixels_are_in_order(bgra: Seq<u8>, k: int)
    requires
        0 <= k < bgra.len() / 4,
    ensures
        ({
            let rgba = straight_rgba(bgra);
            let a = bgra[4 * k + 3];
            &&& rgba.len() == bgra.len()
            &&& rgba[4 * k] == straight(bgra[4 * k + 2], a)
            &&& rgba[4 * k + 1] == straight(bgra[4 * k + 1], a)
            &&& rgba[4 * k + 2] == straight(bgra[4 * k], a)
            &&& rgba[4 * k + 3] == a
        }),
{
}

} // verus!
