//! What the flattened pictures of a layered icon show.

use vstd::prelude::*;

use crate::brand::{
    blended, flattened, in_color, laid_over, picture_renditions, with_pictures, BrandPicture,
};
use crate::catalog::Settings;
use crate::project::ProjectModel;
use crate::rendition::RenditionModel;
use crate::set_laws::begins_with;
use crate::text::decimal;

verus! {

/// A color over another is its own share and the part of the other that shows through,
/// to the nearest step.
pub proof fn blending_is_nearest(above: u8, below: u8, alpha: u8)
    ensures
        ({
            let c = blended(above, below, alpha) as int;
            let shown = below * (255 - alpha);
            &&& above <= c
            &&& c < 255 ==> -255 <= 2 * (255 * (c - above) - shown) <= 255
            &&& c == 255 ==> 2 * (255 * (255 - above) - shown) <= 255
        }),
        alpha == 0 ==> blended(0, below, alpha) == below,
        alpha == 255 ==> blended(above, below, alpha) == above,
{
    assert(0 <= below * (255 - alpha) <= 255 * 255) by (nonlinear_arith)
        requires
            0 <= below <= 255,
            0 <= alpha <= 255,
    ;
    if alpha == 0 {
        assert(below * (255 - alpha) == below * 255);
    }
    if alpha == 255 {
        assert(below * (255 - alpha) == 0) by (nonlinear_arith)
            requires
                alpha == 255,
        ;
    }
}

/// Each channel of a pixel is laid over the one below it, by the alpha of the upper
/// pixel.
pub proof fn layers_are_laid_over(below: Seq<u8>, above: Seq<u8>, pixel: int, channel: int)
    requires
        0 <= pixel,
        0 <= channel < 4,
        4 * pixel + 3 < below.len(),
        4 * pixel + 3 < above.len(),
    ensures
        ({
            let at = 4 * pixel + channel;
            let c = laid_over(below, above)[at] as int;
            let alpha = above[4 * pixel + 3];
            let shown = below[at] * (255 - alpha);
            &&& laid_over(below, above).len() == below.len()
            &&& above[at] <= c
            &&& c < 255 ==> -255 <= 2 * (255 * (c - above[at]) - shown) <= 255
            &&& c == 255 ==> 2 * (255 * (255 - above[at]) - shown) <= 255
            &&& alpha == 255 ==> c == above[at]
            &&& alpha == 0 && above[at] == 0 ==> c == below[at]
        }),
{
    let at = 4 * pixel + channel;
    lemma_quarter(pixel, channel);
    blending_is_nearest(above[at], below[at], above[4 * pixel + 3]);
}

/// A gray pixel in color has its gray in each of the three colors, and its alpha.
pub proof fn grays_are_colored(pixels: Seq<u8>, pixel: int)
    requires
        0 <= pixel < pixels.len() / 2,
    ensures
        ({
            let out = in_color(pixels, seq![32u8, 56u8, 65u8, 71u8]);
            &&& out.len() == 4 * (pixels.len() / 2)
            &&& out[4 * pixel] == pixels[2 * pixel]
            &&& out[4 * pixel + 1] == pixels[2 * pixel]
            &&& out[4 * pixel + 2] == pixels[2 * pixel]
            &&& out[4 * pixel + 3] == pixels[2 * pixel + 1]
        }),
{
    let out = in_color(pixels, seq![32u8, 56u8, 65u8, 71u8]);
    let n = (pixels.len() / 2) as int;
    assert(pixel < n);
    lemma_gray(pixels, out, n, pixel);
}

proof fn lemma_gray(pixels: Seq<u8>, out: Seq<u8>, n: int, pixel: int)
    requires
        0 <= pixel < n,
        out == Seq::new(
            (4 * n) as nat,
            |i: int|
                if i % 4 == 3 {
                    pixels[i / 4 * 2 + 1]
                } else {
                    pixels[i / 4 * 2]
                },
        ),
    ensures
        out.len() == 4 * n,
        out[4 * pixel] == pixels[2 * pixel],
        out[4 * pixel + 1] == pixels[2 * pixel],
        out[4 * pixel + 2] == pixels[2 * pixel],
        out[4 * pixel + 3] == pixels[2 * pixel + 1],
{
    lemma_quarter(pixel, 0);
    lemma_quarter(pixel, 1);
    lemma_quarter(pixel, 2);
    lemma_quarter(pixel, 3);
}

proof fn lemma_quarter(pixel: int, channel: int)
    requires
        0 <= channel < 4,
    ensures
        (4 * pixel + channel) / 4 == pixel,
        (4 * pixel + channel) % 4 == channel,
{
}

/// Pixels in color are kept.
pub proof fn colors_stay(pixels: Seq<u8>, format: Seq<u8>)
    requires
        format != seq![32u8, 56u8, 65u8, 71u8],
    ensures
        in_color(pixels, format) == pixels,
{
}

/// The first layer of a scale gives the picture its size and its pixels.
pub proof fn first_layers_give_the_size(layers: Seq<RenditionModel>, scale: u16, n: nat)
    requires
        n < layers.len(),
        layers[n as int].scale == scale,
        forall|i: int| 0 <= i < n ==> (#[trigger] layers[i]).scale != scale,
    ensures
        flattened(layers, scale, n + 1) == Some(
            (
                layers[n as int].width,
                layers[n as int].height,
                in_color(layers[n as int].pixel_data, layers[n as int].pixel_format),
            ),
        ),
{
    lemma_no_layers(layers, scale, n);
}

proof fn lemma_no_layers(layers: Seq<RenditionModel>, scale: u16, n: nat)
    requires
        n <= layers.len(),
        forall|i: int| 0 <= i < n ==> (#[trigger] layers[i]).scale != scale,
    ensures
        flattened(layers, scale, n) is None,
    decreases n,
{
    if n > 0 {
        lemma_no_layers(layers, scale, (n - 1) as nat);
    }
}

/// A later layer of the same scale and size is laid over the others: where it is opaque
/// it is seen, where it is clear they are.  A layer of another scale or size is not.
pub proof fn later_layers_are_on_top(
    layers: Seq<RenditionModel>,
    scale: u16,
    n: nat,
    size: (u32, u32),
    below: Seq<u8>,
    pixel: int,
    channel: int,
)
    requires
        n < layers.len(),
        flattened(layers, scale, n) == Some((size.0, size.1, below)),
        0 <= pixel,
        0 <= channel < 4,
        4 * pixel + 3 < below.len(),
        in_color(layers[n as int].pixel_data, layers[n as int].pixel_format).len() == below.len(),
    ensures
        ({
            let layer = layers[n as int];
            let above = in_color(layer.pixel_data, layer.pixel_format);
            let out = flattened(layers, scale, n + 1);
            let at = 4 * pixel + channel;
            &&& out is Some
            &&& (out->0).0 == size.0
            &&& (out->0).1 == size.1
            &&& (out->0).2.len() == below.len()
            &&& if layer.scale == scale && layer.width == size.0 && layer.height == size.1 {
                &&& above[4 * pixel + 3] == 255 ==> (out->0).2[at] == above[at]
                &&& above[4 * pixel + 3] == 0 && above[at] == 0 ==> (out->0).2[at] == below[at]
            } else {
                (out->0).2 == below
            }
        }),
{
    let layer = layers[n as int];
    layers_are_laid_over(below, in_color(layer.pixel_data, layer.pixel_format), pixel, channel);
}

/// Whether a rendition is a picture of a layered icon: its size, its scale and its
/// pixels, for televisions.
pub open spec fn shows_picture(
    r: RenditionModel,
    picture: BrandPicture,
    identifier: u16,
    part: int,
    prefix: Seq<char>,
    pixels: Seq<u8>,
) -> bool {
    &&& r.name == prefix + decimal(picture.scale as nat) + ".0.0"@
    &&& r.identifier == identifier
    &&& r.part == part
    &&& r.scale == picture.scale
    &&& r.width == picture.width
    &&& r.height == picture.height
    &&& r.pixel_data == pixels
    &&& r.idiom == 3
    &&& r.csi_override is None
}

/// Each pair of pictures is stored: the flattened one, behind it the light around it.
pub proof fn pictures_are_stored(
    s: Settings,
    pictures: Seq<BrandPicture>,
    n: nat,
    identifier: u16,
    i: int,
)
    requires
        n <= pictures.len(),
        0 <= i < n,
    ensures
        ({
            let rs = picture_renditions(s, pictures, n, identifier);
            &&& rs.len() == 2 * n
            &&& shows_picture(
                rs[2 * i],
                pictures[i],
                identifier,
                208,
                "ZZZZFlattenedImage-"@,
                pictures[i].flattened@,
            )
            &&& shows_picture(
                rs[2 * i + 1],
                pictures[i],
                identifier,
                209,
                "ZZZZRadiosityImage-"@,
                pictures[i].radiosity@,
            )
        }),
    decreases n,
{
    lemma_pictures_len(s, pictures, (n - 1) as nat, identifier);
    if i < n - 1 {
        pictures_are_stored(s, pictures, (n - 1) as nat, identifier, i);
    }
}

proof fn lemma_pictures_len(s: Settings, pictures: Seq<BrandPicture>, n: nat, identifier: u16)
    ensures
        picture_renditions(s, pictures, n, identifier).len() == 2 * n,
    decreases n,
{
    if n > 0 {
        lemma_pictures_len(s, pictures, (n - 1) as nat, identifier);
    }
}

/// The pictures of an icon follow what the project holds.
pub proof fn pictures_follow_the_project(
    p: ProjectModel,
    s: Settings,
    name: Seq<char>,
    identifier: u16,
    pictures: Seq<BrandPicture>,
)
    ensures
        begins_with(with_pictures(p, s, name, identifier, pictures).renditions, p.renditions),
        with_pictures(p, s, name, identifier, pictures).renditions.len() == p.renditions.len() + 2
            * pictures.len(),
        pictures.len() == 0 ==> with_pictures(p, s, name, identifier, pictures) == p,
{
    lemma_pictures_len(s, pictures, pictures.len(), identifier);
}

} // verus!
