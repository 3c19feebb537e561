//! Where a reader finds the images that were packed.

use vstd::prelude::*;

use crate::bytes::read_le32;
use crate::car::colorspace_of_format;
use crate::compiler::{image_csi, image_entry, image_flags, sheet_entries};
use crate::csi::{packed_image_tlv, percent};
use crate::csi_laws::{
    body_of, headers_read_back, leads_to, lemma_parts_told, packed_tags_read_back, tagged, tags_of,
    tell_opacity, tell_size, tells_image, tells_name,
};
use crate::grouping::{group_ok, PackGroup, PACK_MAX_HEIGHT, PACK_MAX_WIDTH};
use crate::order::{arranged, is_stable_order, lemma_permutation_reaches};
use crate::packer::{
    atlases_pack, bytes_per_pixel, images_match, is_complete, packed_atlases_show_their_images,
    packing_keeps_every_image, packing_order, row_target, shows_all, sides_fit, size_keys, Atlas,
    PackedImage,
};
use crate::rendition::Rendition;
use crate::sheets::{
    are_group_sheets, are_images_of, earlier_sheets, is_image_of, is_sheet_of, lemma_atlases_small,
    Sheet,
};

verus! {

/// Whether a stored image is a link into the sheet of a scale, a sprite atlas, a number
/// and an idiom, to a place that begins `x` from the left and `y` from the lower edge.
pub open spec fn links_into(stored: Seq<u8>, sheet: Sheet, image: PackedImage, x: u32, y: u32) -> bool {
    match tagged(tags_of(stored), 1010) {
        Some(link) => leads_to(
            link,
            x,
            y,
            image.width,
            image.height,
            sheet.scale,
            sheet.sprite_atlas_id,
            sheet.atlas.dim1 as u16,
            image.idiom as u16,
        ),
        None => false,
    }
}

/// An image on a sheet is stored under its name, in its size and scale, with no pixels
/// of its own but a link to its place, which is counted from the lower edge.
pub proof fn packed_images_read_back(sheet: Sheet, image: PackedImage)
    requires
        image.y + image.height <= sheet.atlas.height,
    ensures
        ({
            let stored = image_csi(sheet, image);
            let format = sheet.atlas.pixel_format@;
            &&& tells_image(
                stored,
                image.width,
                image.height,
                (100 * sheet.scale) as u32,
                format,
                image_flags(image),
                colorspace_of_format(format),
            )
            &&& tells_name(stored, 1003, image.name@)
            &&& tell_size(tags_of(stored), image.width as nat, image.height as nat)
            &&& tell_opacity(tags_of(stored), 0x3f80_0000)
            &&& body_of(stored).len() == 0
            &&& links_into(
                stored,
                sheet,
                image,
                image.x,
                (sheet.atlas.height - image.y - image.height) as u32,
            )
        }),
{
    let format = sheet.atlas.pixel_format@;
    let y = (sheet.atlas.height - image.y - image.height) as u32;
    let tags = packed_image_tlv(
        image.width,
        image.height,
        sheet.scale,
        image.x,
        y,
        sheet.sprite_atlas_id,
        sheet.atlas.dim1 as u16,
        image.idiom as u16,
    );
    packed_tags_read_back(
        image.width,
        image.height,
        sheet.scale,
        image.x,
        y,
        sheet.sprite_atlas_id,
        sheet.atlas.dim1 as u16,
        image.idiom as u16,
    );
    assert(percent(sheet.scale) == (100 * sheet.scale) as u32);
    headers_read_back(
        image.width,
        image.height,
        percent(sheet.scale),
        format,
        1003,
        image.name@,
        tags,
        Seq::empty(),
        image_flags(image),
        colorspace_of_format(format),
        1,
    );
    lemma_parts_told(image_csi(sheet, image), tags, Seq::empty(), 1);
}

/// How many bytes a pixel has: four in color, two in gray.
pub open spec fn pixel_bytes(format: Seq<u8>) -> nat {
    if format == seq![0x42u8, 0x47, 0x52, 0x41] {
        4
    } else {
        2
    }
}

/// How many bytes a row of a sheet has: those of its pixels, padded to a multiple of 32.
pub open spec fn sheet_row(sheet: Sheet) -> nat {
    ((sheet.atlas.width as nat * pixel_bytes(sheet.atlas.pixel_format@) + 31) / 32 * 32) as nat
}

/// Row `j` of the rectangle of a sheet that a stored image links to; `y` counts from the
/// lower edge.
pub open spec fn linked_row(sheet: Sheet, link: Seq<u8>, j: int) -> Seq<u8> {
    let x = read_le32(link, 8) as int;
    let y = read_le32(link, 12) as int;
    let width = read_le32(link, 16) as int;
    let height = read_le32(link, 20) as int;
    let size = pixel_bytes(sheet.atlas.pixel_format@) as int;
    let top = sheet.atlas.height - y - height;
    let at = (top + j) * sheet_row(sheet) + x * size;
    sheet.atlas.pixel_data@.subrange(at, at + width * size)
}

/// Row `j` of a rendition.
pub open spec fn own_row(r: Rendition, j: int) -> Seq<u8> {
    let len = r.width * pixel_bytes(r.pixel_format@);
    r.pixel_data@.subrange(j * len, j * len + len)
}

/// Whether a rendition has all its pixels and no others.
pub open spec fn has_all_pixels(r: Rendition) -> bool {
    r.pixel_data@.len() == r.height * (r.width * pixel_bytes(r.pixel_format@))
}

/// Whether a stored image shows a rendition: its link cuts out of the sheet, row by row,
/// the pixels of the rendition.
#[verifier::opaque]
pub open spec fn cuts_out(stored: Seq<u8>, sheet: Sheet, r: Rendition) -> bool {
    match tagged(tags_of(stored), 1010) {
        Some(link) => {
            &&& read_le32(link, 16) == r.width
            &&& read_le32(link, 20) == r.height
            &&& forall|j: int| 0 <= j < r.height ==> #[trigger] linked_row(sheet, link, j) == own_row(r, j)
        },
        None => false,
    }
}

proof fn lemma_cuts_out(sheet: Sheet, image: PackedImage, r: Rendition, e: int)
    requires
        0 <= e < sheet.atlas.images@.len(),
        sheet.atlas.images@[e] == image,
        image.y + image.height <= sheet.atlas.height,
        image.width == r.width,
        image.height == r.height,
        image.pixel_data@ == r.pixel_data@,
        image.pixel_format@ == r.pixel_format@,
        sheet.atlas.pixel_format@ == r.pixel_format@,
        shows_all(sheet.atlas, sheet.atlas.pixel_data@),
    ensures
        cuts_out(image_csi(sheet, image), sheet, r),
{
    let stored = image_csi(sheet, image);
    packed_images_read_back(sheet, image);
    let link = tagged(tags_of(stored), 1010)->0;
    lemma_link_numbers(sheet, image, link);
    lemma_linked_rows(sheet, image, r, e, link);
    lemma_link_cuts(stored, sheet, r, link);
}

proof fn lemma_link_cuts(stored: Seq<u8>, sheet: Sheet, r: Rendition, link: Seq<u8>)
    requires
        tagged(tags_of(stored), 1010) == Some(link),
        read_le32(link, 16) == r.width,
        read_le32(link, 20) == r.height,
        forall|j: int| 0 <= j < r.height ==> #[trigger] linked_row(sheet, link, j) == own_row(r, j),
    ensures
        cuts_out(stored, sheet, r),
{
    reveal(cuts_out);
}

proof fn lemma_linked_rows(
    sheet: Sheet,
    image: PackedImage,
    r: Rendition,
    e: int,
    link: Seq<u8>,
)
    requires
        0 <= e < sheet.atlas.images@.len(),
        sheet.atlas.images@[e] == image,
        image.width == r.width,
        image.height == r.height,
        image.pixel_data@ == r.pixel_data@,
        image.pixel_format@ == r.pixel_format@,
        sheet.atlas.pixel_format@ == r.pixel_format@,
        shows_all(sheet.atlas, sheet.atlas.pixel_data@),
        read_le32(link, 8) == image.x,
        read_le32(link, 12) == sheet.atlas.height - image.y - image.height,
        read_le32(link, 16) == image.width,
        read_le32(link, 20) == image.height,
    ensures
        forall|j: int| 0 <= j < r.height ==> #[trigger] linked_row(sheet, link, j) == own_row(r, j),
{
    let bpp = bytes_per_pixel(sheet.atlas.pixel_format);
    let bpr = sheet.atlas.row_bytes();
    assert(bpp == pixel_bytes(sheet.atlas.pixel_format@));
    assert(bpr == sheet_row(sheet));
    assert forall|j: int| 0 <= j < r.height implies #[trigger] linked_row(sheet, link, j) == own_row(
        r,
        j,
    ) by {
        let at = row_target(image, j, bpp, bpr);
        assert(sheet.atlas.pixel_data@.subrange(
            row_target(sheet.atlas.images@[e], j, bpp, bpr),
            row_target(sheet.atlas.images@[e], j, bpp, bpr) + sheet.atlas.images@[e].width * bpp,
        ) == crate::packer::image_row(sheet.atlas.images@[e], j, bpp));
    }
}

proof fn lemma_link_numbers(sheet: Sheet, image: PackedImage, link: Seq<u8>)
    requires
        image.y + image.height <= sheet.atlas.height,
        leads_to(
            link,
            image.x,
            (sheet.atlas.height - image.y - image.height) as u32,
            image.width,
            image.height,
            sheet.scale,
            sheet.sprite_atlas_id,
            sheet.atlas.dim1 as u16,
            image.idiom as u16,
        ),
    ensures
        read_le32(link, 8) == image.x,
        read_le32(link, 12) == sheet.atlas.height - image.y - image.height,
        read_le32(link, 16) == image.width,
        read_le32(link, 20) == image.height,
{
    reveal(leads_to);
}

/// Whether sheet `k` holds member `i` of a group as its image `e`, and the stored image
/// cuts the pixels of the member out of the sheet.
pub open spec fn is_found(
    sheets: Seq<Sheet>,
    rs: Seq<Rendition>,
    group: PackGroup,
    i: int,
    k: int,
    e: int,
) -> bool {
    let r = rs[group.members@[i] as int];
    let image = sheets[k].atlas.images@[e];
    &&& 0 <= e < sheets[k].atlas.images@.len()
    &&& image.name@ == r.name@
    &&& image.identifier == r.identifier
    &&& image.part == r.part
    &&& image.dim2 == r.dim2
    &&& image.appearance == r.appearance
    &&& image.direction == r.direction
    &&& image.idiom == r.idiom
    &&& sheets[k].scale == r.scale
    &&& sheets[k].sprite_atlas_id == r.sprite_atlas_id
    &&& sheets[k].idiom == r.idiom
    &&& sheets[k].atlas.pixel_format@ == r.pixel_format@
    &&& tells_name(image_csi(sheets[k], image), 1003, r.name@)
    &&& cuts_out(image_csi(sheets[k], image), sheets[k], r)
}

/// Every rendition of a group that is packed is found on one of the sheets of the group:
/// there is an image with its name and its key whose link cuts its pixels out of the
/// sheet.
pub proof fn packed_renditions_are_found(
    sheets: Seq<Sheet>,
    lo: int,
    hi: int,
    rs: Seq<Rendition>,
    group: PackGroup,
    i: int,
) -> (place: (int, int))
    requires
        0 <= lo <= hi <= sheets.len(),
        are_group_sheets(sheets, lo, hi, rs, group),
        group_ok(rs, group),
        forall|m: int|
            0 <= m < group.members@.len() ==> has_all_pixels(
                rs[#[trigger] group.members@[m] as int],
            ),
        0 <= i < group.members@.len(),
    ensures
        lo <= place.0 < hi,
        is_found(sheets, rs, group, i, place.0, place.1),
{
    let (images, atlases) = choose|images: Seq<PackedImage>, atlases: Seq<Atlas>|
        {
            &&& #[trigger] are_images_of(images, rs, group.members@)
            &&& is_stable_order(size_keys(images), packing_order(images))
            &&& #[trigger] atlases_pack(
                atlases,
                arranged(images, packing_order(images)),
                PACK_MAX_WIDTH,
                PACK_MAX_HEIGHT,
            )
            &&& atlases.len() == hi - lo
            &&& forall|i: int|
                lo <= i < hi ==> is_sheet_of(
                    #[trigger] sheets[i],
                    atlases[i - lo],
                    group,
                    earlier_sheets(sheets, i, group.scale, group.idiom),
                )
        };
    let order = packing_order(images);
    let all = arranged(images, order);
    lemma_images_ready(images, all, order, rs, group);
    let at = lemma_permutation_reaches(order, i);
    let (a, e) = packing_keeps_every_image(atlases, all, PACK_MAX_WIDTH, PACK_MAX_HEIGHT, at);
    packed_atlases_show_their_images(atlases, all, PACK_MAX_WIDTH, PACK_MAX_HEIGHT, a);
    lemma_atlases_small(atlases, all, a);
    let k = lo + a;
    let sheet = sheets[k];
    let packed = atlases[a];
    assert(is_sheet_of(sheet, packed, group, earlier_sheets(sheets, k, group.scale, group.idiom)));
    let r = rs[group.members@[i] as int];
    let image = sheet.atlas.images@[e];
    assert(all[at] == images[i]);
    assert(is_image_of(images[i], r));
    lemma_sheet_shows(sheet, packed);
    assert(packed.images@[e].pixel_format@ == r.pixel_format@);
    lemma_atlas_format(atlases, all, a);
    assert(all[0].pixel_format == all[at].pixel_format);
    packed_images_read_back(sheet, image);
    lemma_cuts_out(sheet, image, r, e);
    (k, e)
}

/// Every atlas has the format of the images.
pub proof fn lemma_atlas_format(atlases: Seq<Atlas>, images: Seq<PackedImage>, a: int)
    requires
        images_match(images),
        sides_fit(images),
        atlases_pack(atlases, images, PACK_MAX_WIDTH, PACK_MAX_HEIGHT),
        0 <= a < atlases.len(),
    ensures
        images.len() > 0,
        atlases[a].pixel_format == images[0].pixel_format,
    decreases a,
{
    if a > 0 {
        let layout = crate::packer::image_layout(images, PACK_MAX_WIDTH, PACK_MAX_HEIGHT);
        let left = crate::packer::left_images(images, layout);
        crate::packer::lemma_every_image_once(
            crate::packer::sizes_of(images),
            images.len(),
            PACK_MAX_WIDTH as int,
            PACK_MAX_HEIGHT as int,
        );
        assert forall|i: int| 0 <= i < left.len() implies is_complete(#[trigger] left[i])
            && left[i].pixel_format == left[0].pixel_format by {
            assert(left[i] == images[layout.rest[i]]);
            assert(left[0] == images[layout.rest[0]]);
        }
        lemma_atlas_format(atlases.skip(1), left, a - 1);
        assert(left[0] == images[layout.rest[0]]);
    }
}

/// A drawn sheet shows what its atlas shows.
pub proof fn lemma_sheet_shows(sheet: Sheet, packed: Atlas)
    requires
        sheet.atlas.width == packed.width,
        sheet.atlas.height == packed.height,
        sheet.atlas.images@ == packed.images@,
        sheet.atlas.pixel_format == packed.pixel_format,
        sheet.atlas.pixel_data@ == sheet.atlas.rendered(),
        shows_all(packed, packed.rendered()),
    ensures
        shows_all(sheet.atlas, sheet.atlas.pixel_data@),
{
    assert(sheet.atlas.row_bytes() == packed.row_bytes());
    assert(sheet.atlas.rendered() == packed.rendered());
}

/// The images of a group fit, are complete and have one format.
proof fn lemma_images_ready(
    images: Seq<PackedImage>,
    all: Seq<PackedImage>,
    order: Seq<usize>,
    rs: Seq<Rendition>,
    group: PackGroup,
)
    requires
        are_images_of(images, rs, group.members@),
        is_stable_order(size_keys(images), order),
        all == arranged(images, order),
        group_ok(rs, group),
        forall|m: int|
            0 <= m < group.members@.len() ==> has_all_pixels(
                rs[#[trigger] group.members@[m] as int],
            ),
    ensures
        sides_fit(all),
        images_match(all),
        order.len() == group.members@.len(),
        all.len() == order.len(),
        forall|i: int|
            0 <= i < all.len() ==> (#[trigger] all[i]).width <= PACK_MAX_WIDTH - 4 && all[i].height
                <= PACK_MAX_HEIGHT - 4,
{
    assert(size_keys(images).len() == images.len());
    assert forall|i: int| 0 <= i < all.len() implies is_complete(#[trigger] all[i])
        && all[i].pixel_format == all[0].pixel_format && all[i].width <= PACK_MAX_WIDTH - 4
        && all[i].height <= PACK_MAX_HEIGHT - 4 by {
        let a = order[i] as int;
        let b = order[0] as int;
        assert(is_image_of(images[a], rs[group.members@[a] as int]));
        assert(is_image_of(images[b], rs[group.members@[b] as int]));
        let m = group.members@[a];
        let n = group.members@[b];
        assert(all[i].pixel_format@ == group.pixel_format@);
        assert(all[0].pixel_format@ == group.pixel_format@);
        assert(all[i].pixel_format =~= all[0].pixel_format);
        assert(has_all_pixels(rs[m as int]));
    }
}

/// The entries of a sheet hold each of its images, behind the sheet itself.
pub proof fn sheet_entries_hold_the_images(
    sheet: Sheet,
    columns: Seq<u16>,
    min_deploy: Seq<char>,
    platform: Seq<char>,
    e: int,
)
    requires
        0 <= e < sheet.atlas.images@.len(),
    ensures
        ({
            let entries = sheet_entries(sheet, columns, min_deploy, platform);
            &&& entries.len() == sheet.atlas.images@.len() + 1
            &&& entries[e + 1] == image_entry(sheet, sheet.atlas.images@[e], columns)
            &&& entries[e + 1].1 == image_csi(sheet, sheet.atlas.images@[e])
        }),
{
}

} // verus!
