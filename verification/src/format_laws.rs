//! How pixels are laid out, how sheets are filled, and how values are found and sorted.

use vstd::prelude::*;

use crate::car::colorspace_of_format;
use crate::catalog::{locale_number, with_locale, Gathered};
use crate::compress::{
    allows_deepmap, allows_lzfse, chunk_rows, envelope, plain_envelope, rle_pixel_size,
};
use crate::icon_renditions::icon_format;
use crate::json::{is_set, items_of, member, named_from, text_or, Json};
use crate::naming::value_of;
use crate::order::bytes_before;
use crate::packer::{
    align32, bytes_per_pixel, next_x, next_y, no_layout, placed, strip_takes, Atlas, Layout, Row,
    Strip,
};

verus! {

/// The letters `BGRA`.
pub open spec fn in_bgra(format: Seq<u8>) -> bool {
    format == seq![66u8, 71u8, 82u8, 65u8]
}

/// The letters ` 8AG`, which stand for gray and alpha of eight bits.
pub open spec fn in_gray(format: Seq<u8>) -> bool {
    format == seq![32u8, 56u8, 65u8, 71u8]
}

/// The letters `61AG`, which stand for gray and alpha of sixteen bits.
pub open spec fn in_deep_gray(format: Seq<u8>) -> bool {
    format == seq![54u8, 49u8, 65u8, 71u8]
}

/// Pixels in color have four bytes, others have two.
pub proof fn pixels_have_sizes(format: [u8; 4])
    ensures
        in_bgra(format@) ==> bytes_per_pixel(format) == 4,
        !in_bgra(format@) ==> bytes_per_pixel(format) == 2,
        in_bgra(format@) ==> rle_pixel_size(format@) == 4,
        !in_bgra(format@) ==> rle_pixel_size(format@) == 2,
{
}

/// Gray pixels are in a gray color space, all others in sRGB.
pub proof fn formats_have_spaces(format: Seq<u8>)
    ensures
        in_bgra(format) ==> colorspace_of_format(format) == 1,
        in_gray(format) ==> colorspace_of_format(format) == 2,
        in_deep_gray(format) ==> colorspace_of_format(format) == 6,
        !in_gray(format) && !in_deep_gray(format) ==> colorspace_of_format(format) == 1,
{
    if in_bgra(format) {
        assert(format[0] == 66);
    }
    if in_gray(format) {
        assert(format[0] == 32);
    }
    if in_deep_gray(format) {
        assert(format[0] == 54);
    }
}

/// A rounded length is the next multiple of 32.
pub proof fn rows_are_rounded_up(n: nat)
    ensures
        align32(n) % 32 == 0,
        n <= align32(n) < n + 32,
{
}

/// The rows of an atlas have room for its pixels, and less than 32 bytes to spare.
pub proof fn atlas_rows_have_room(atlas: Atlas)
    ensures
        ({
            let exact = if in_bgra(atlas.pixel_format@) {
                4 * atlas.width
            } else {
                2 * atlas.width
            };
            atlas.row_bytes() % 32 == 0 && exact <= atlas.row_bytes() < exact + 32
        }),
{
}

/// The third number in the name of an atlas tells color from gray, unless there is a
/// gamut.
pub proof fn atlas_names_tell_the_format(atlas: Atlas)
    ensures
        atlas.gamut > 0 ==> atlas.name_index() == atlas.gamut,
        atlas.gamut == 0 && in_bgra(atlas.pixel_format@) ==> atlas.name_index() == 0,
        atlas.gamut == 0 && !in_bgra(atlas.pixel_format@) ==> atlas.name_index() == 1,
{
}

/// The first image of an atlas stands two pixels from its corner, and the atlas is four
/// pixels wider than the image.
pub proof fn first_images_stand_in_the_corner(
    image: int,
    w: int,
    h: int,
    max_width: int,
    max_height: int,
)
    requires
        w >= 0,
        h >= 0,
    ensures
        ({
            let layout = placed(no_layout(), image, w, h, max_width, max_height);
            &&& layout.spots.len() == 1
            &&& layout.spots[0].image == image
            &&& layout.spots[0].x == 2
            &&& layout.spots[0].y == 2
            &&& layout.width == w + 4
            &&& layout.bottom == h + 2
        }),
{
}

/// Columns and shelves are two pixels apart.
pub proof fn gaps_are_two_pixels_wide(row: Row, rows: Seq<Row>, strip: Strip, w: int, h: int)
    ensures
        row.strips.len() > 0 ==> next_x(row) - (row.strips.last().x + row.strips.last().width) == 2,
        row.strips.len() == 0 ==> next_x(row) == 2,
        rows.len() > 0 ==> next_y(rows) - (rows.last().y + rows.last().height) == 2,
        rows.len() == 0 ==> next_y(rows) == 2,
        strip_takes(row, strip, w, h) <==> w <= strip.width && strip.bottom + 2 + h <= row.y
            + row.height,
{
}

/// An image is given one place or left for the next atlas; those before it stay.
pub proof fn images_are_placed_or_left(
    layout: Layout,
    image: int,
    w: int,
    h: int,
    max_width: int,
    max_height: int,
)
    ensures
        ({
            let after = placed(layout, image, w, h, max_width, max_height);
            ||| after.spots.len() == layout.spots.len() + 1 && after.spots.drop_last()
                == layout.spots && after.spots.last().image == image && after.rest == layout.rest
            ||| after.spots == layout.spots && after.rest == layout.rest.push(image)
        }),
{
    let after = placed(layout, image, w, h, max_width, max_height);
    if after.spots.len() == layout.spots.len() + 1 {
        assert(after.spots.drop_last() =~= layout.spots);
    }
}

/// Up to 256 bytes of pixels go to no encoder of the platform.
pub proof fn small_pixels_are_not_encoded(
    pixels: Seq<u8>,
    min_deploy: Seq<char>,
    platform: Seq<char>,
)
    requires
        pixels.len() <= 256,
    ensures
        !allows_lzfse(pixels, min_deploy, platform),
        !allows_deepmap(pixels, min_deploy, platform),
{
}

/// From 4096 bytes on pixels are a gzip stream, if it is shorter than they are.
pub proof fn large_pixels_are_streams(
    pixels: Seq<u8>,
    format: Seq<u8>,
    width: u32,
    height: u32,
    stream: Seq<u8>,
)
    requires
        pixels.len() >= 4096,
    ensures
        stream.len() < pixels.len() ==> plain_envelope(pixels, format, width, height, Some(stream))
            == envelope(2, stream),
        stream.len() >= pixels.len() ==> plain_envelope(pixels, format, width, height, Some(stream))
            == envelope(0, pixels),
        plain_envelope(pixels, format, width, height, None) == envelope(0, pixels),
{
}

/// Chunks have a third of the rows each, and the last one those that are left.
pub proof fn chunks_have_a_third(height: u32, row: nat)
    requires
        3 <= height,
        row <= height,
    ensures
        row + height / 3 <= height ==> chunk_rows(height, row) == height / 3,
        row + height / 3 > height ==> chunk_rows(height, row) == height - row,
{
}

/// A rendered icon is in color, unless it has variants: these are gray, the dark one in
/// sixteen bits.
pub proof fn icons_have_formats(variant: u16)
    ensures
        in_bgra(icon_format(false, variant)),
        in_gray(icon_format(true, 0)),
        variant > 0 ==> in_deep_gray(icon_format(true, variant)),
{
}

/// The first member with a key is the one that counts.
pub proof fn members_are_found(members: Vec<(String, Json)>, key: Seq<char>, i: int)
    requires
        0 <= i < members@.len(),
        members@[i].0@ == key,
        forall|j: int| 0 <= j < i ==> (#[trigger] members@[j]).0@ != key,
    ensures
        member(Json::Object(members), key) == Some(members@[i].1),
{
    lemma_member(members@, key, 0, i);
}

proof fn lemma_member(members: Seq<(String, Json)>, key: Seq<char>, from: int, i: int)
    requires
        0 <= from <= i < members.len(),
        members[i].0@ == key,
        forall|j: int| from <= j < i ==> (#[trigger] members[j]).0@ != key,
    ensures
        named_from(members, key, from) == Some(members[i].1),
    decreases i - from,
{
    if from < i {
        lemma_member(members, key, from + 1, i);
    }
}

/// A value that is no object has no members, and a key that is not there stands for
/// nothing.
pub proof fn missing_members_are_missed(value: Json, key: Seq<char>, other: Seq<char>)
    requires
        !(value is Object),
    ensures
        member(value, key) is None,
        items_of(value, key).len() == 0,
        !is_set(value, key),
        text_or(value, key, other) == other,
{
}

/// Of two texts in bytes the one with the smaller first different byte comes first; a
/// beginning comes before the whole.
pub proof fn bytes_are_sorted(a: Seq<u8>, b: Seq<u8>, k: int)
    requires
        0 <= k <= a.len(),
        k <= b.len(),
        a.take(k) == b.take(k),
    ensures
        k < a.len() && k < b.len() && a[k] < b[k] ==> bytes_before(a, b, 0) && !bytes_before(
            b,
            a,
            0,
        ),
        k == a.len() && k < b.len() ==> bytes_before(a, b, 0) && !bytes_before(b, a, 0),
{
    assert forall|i: int| 0 <= i < k implies a[i] == b[i] by {
        assert(a.take(k)[i] == a[i]);
        assert(b.take(k)[i] == b[i]);
    }
    lemma_before(a, b, 0, k);
}

proof fn lemma_before(a: Seq<u8>, b: Seq<u8>, i: int, k: int)
    requires
        0 <= i <= k <= a.len(),
        k <= b.len(),
        forall|j: int| 0 <= j < k ==> a[j] == b[j],
    ensures
        k < a.len() && k < b.len() && a[k] < b[k] ==> bytes_before(a, b, i) && !bytes_before(
            b,
            a,
            i,
        ),
        k == a.len() && k < b.len() ==> bytes_before(a, b, i) && !bytes_before(b, a, i),
    decreases k - i,
{
    if i < k {
        lemma_before(a, b, i + 1, k);
    }
}

/// A language is known once it was met, once, and has a number; the empty one has none.
pub proof fn languages_are_known<H: Fn(&str) -> u16>(hash: H, g: Gathered, locale: Seq<char>)
    ensures
        locale.len() > 0 ==> with_locale(g, locale).locales.contains(locale),
        locale.len() == 0 || g.locales.contains(locale) ==> with_locale(g, locale) == g,
        with_locale(g, locale).renditions == g.renditions,
        locale.len() > 0 ==> locale_number(hash, locale) == value_of(hash, locale),
        locale.len() == 0 ==> locale_number(hash, locale) == 0,
{
    if locale.len() > 0 && !g.locales.contains(locale) {
        let after = with_locale(g, locale).locales;
        assert(after[after.len() - 1] == locale);
    }
}

} // verus!
