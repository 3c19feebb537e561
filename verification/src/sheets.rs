//! Sheets: the atlases of a catalog, drawn and numbered.

use vstd::prelude::*;

use crate::bytes::{copy_of, zeros};
use crate::grouping::{group_ok, stays_inline, PACK_MAX_HEIGHT, PACK_MAX_WIDTH, PackGroup};
use crate::index::{
    has_key, key_at, keys_differ, lemma_with_entry_keeps_keys_apart, new_number_index,
    number_entries, number_index_get, number_index_insert, with_entry,
};
use crate::order::{arranged, is_stable_order};
use crate::packer::{
    atlas_keeps_limits, atlases_pack, bytes_per_pixel, image_layout, images_drawn, left_images,
    lemma_drawable, lemma_every_image_once, pack_images_split, packed_images_are_separate,
    packing_order, size_keys, sizes_of, Atlas, PackedImage,
};
use crate::rendition::Rendition;

use indexmap::IndexMap;

verus! {

/// The rendering intent of a rendition, decided by whether it is a template where
/// it is left open.
pub open spec fn intent_of(r: Rendition) -> i32 {
    if r.template_rendering_intent >= 0 {
        r.template_rendering_intent
    } else if r.is_template {
        2
    } else {
        4
    }
}

/// Whether `image` is the unplaced image of a rendition.
pub open spec fn is_image_of(image: PackedImage, r: Rendition) -> bool {
    &&& image.name@ == r.name@
    &&& image.identifier == r.identifier
    &&& image.width == r.width
    &&& image.height == r.height
    &&& image.x == 0
    &&& image.y == 0
    &&& image.pixel_data@ == r.pixel_data@
    &&& image.pixel_format@ == r.pixel_format@
    &&& image.scale == r.scale
    &&& image.is_template == r.is_template
    &&& image.template_rendering_intent == intent_of(r)
    &&& image.part == r.part
    &&& image.dim2 == r.dim2
    &&& image.appearance == r.appearance
    &&& image.direction == r.direction
    &&& image.idiom == r.idiom
    &&& image.is_svg_rasterization == r.is_svg_rasterization
    &&& image.variant == r.variant
}

/// The unplaced image of a rendition.
pub fn image_of(r: &Rendition) -> (image: PackedImage)
    ensures
        is_image_of(image, *r),
{
    let intent: i32 = if r.template_rendering_intent >= 0 {
        r.template_rendering_intent
    } else if r.is_template {
        2
    } else {
        4
    };
    PackedImage {
        name: r.name.clone(),
        identifier: r.identifier as u32,
        width: r.width,
        height: r.height,
        x: 0,
        y: 0,
        pixel_data: copy_of(r.pixel_data.as_slice()),
        pixel_format: r.pixel_format,
        scale: r.scale as u32,
        is_template: r.is_template,
        template_rendering_intent: intent,
        part: r.part as u32,
        dim2: r.dim2 as u32,
        appearance: r.appearance as u32,
        direction: r.direction as u32,
        idiom: r.idiom as u32,
        is_svg_rasterization: r.is_svg_rasterization,
        variant: r.variant as u32,
    }
}

/// An atlas of a catalog, with what its members have in common.
pub struct Sheet {
    pub atlas: Atlas,
    pub scale: u16,
    pub sprite_atlas_id: u16,
    pub idiom: u16,
    /// What the deepmap encoder of the platform has made of the pixels.
    pub deepmap: Option<Vec<u8>>,
}

/// How many of the first `n` sheets have a scale and an idiom.
pub open spec fn earlier_sheets(sheets: Seq<Sheet>, n: int, scale: u16, idiom: u16) -> nat
    decreases n,
{
    if n <= 0 {
        0
    } else if sheets[n - 1].scale == scale && sheets[n - 1].idiom == idiom {
        earlier_sheets(sheets, n - 1, scale, idiom) + 1
    } else {
        earlier_sheets(sheets, n - 1, scale, idiom)
    }
}

/// Whether `sheet` is the atlas `packed` of a group, drawn, and numbered `dim1`.
pub open spec fn is_sheet_of(sheet: Sheet, packed: Atlas, group: PackGroup, dim1: nat) -> bool {
    &&& sheet.atlas.width == packed.width
    &&& sheet.atlas.height == packed.height
    &&& sheet.atlas.images@ == packed.images@
    &&& sheet.atlas.pixel_format == packed.pixel_format
    &&& sheet.atlas.scale == packed.scale
    &&& sheet.atlas.gamut == packed.gamut
    &&& sheet.atlas.dim1 == dim1 as u16
    &&& sheet.atlas.pixel_data@ == images_drawn(
        zeros(sheet.atlas.row_bytes() * sheet.atlas.height as nat),
        sheet.atlas.images@,
        sheet.atlas.images@.len(),
        bytes_per_pixel(sheet.atlas.pixel_format),
        sheet.atlas.row_bytes(),
    )
    &&& sheet.scale == group.scale
    &&& sheet.sprite_atlas_id == group.sprite_atlas_id
    &&& sheet.idiom == group.idiom
    &&& sheet.deepmap is None
}

/// Whether `images` are the unplaced images of the members of a group.
pub open spec fn are_images_of(
    images: Seq<PackedImage>,
    rs: Seq<Rendition>,
    members: Seq<usize>,
) -> bool {
    &&& images.len() == members.len()
    &&& forall|i: int|
        0 <= i < members.len() ==> is_image_of(#[trigger] images[i], rs[members[i] as int])
}

/// Whether the sheets from `lo` to `hi` are those of a group.
pub open spec fn are_group_sheets(
    sheets: Seq<Sheet>,
    lo: int,
    hi: int,
    rs: Seq<Rendition>,
    group: PackGroup,
) -> bool {
    exists|images: Seq<PackedImage>, atlases: Seq<Atlas>|
        {
            &&& #[trigger] are_images_of(images, rs, group.members@)
            &&& is_stable_order(size_keys(images), packing_order(images))
            &&& #[trigger] atlases_pack(
                atlases,
                arranged(images, packing_order(images)),
                PACK_MAX_WIDTH,
                PACK_MAX_HEIGHT,
            )
            &&& atlases.len() == hi - lo
            &&& forall|i: int|
                lo <= i < hi ==> is_sheet_of(
                    #[trigger] sheets[i],
                    atlases[i - lo],
                    group,
                    earlier_sheets(sheets, i, group.scale, group.idiom),
                )
        }
}

/// Whether `sheets` are the sheets of the groups, one group behind the other;
/// `bounds` tells where each group ends.
pub open spec fn sheets_follow(
    sheets: Seq<Sheet>,
    bounds: Seq<int>,
    rs: Seq<Rendition>,
    groups: Seq<PackGroup>,
) -> bool {
    &&& bounds.len() == groups.len() + 1
    &&& bounds[0] == 0
    &&& bounds.last() == sheets.len()
    &&& forall|g: int|
        0 <= g < groups.len() ==> #[trigger] bounds[g] <= bounds[g + 1] && are_group_sheets(
            sheets,
            bounds[g],
            bounds[g + 1],
            rs,
            groups[g],
        )
}

/// Every sheet has pixels in rows of its padded width, and its images lie in it.
pub open spec fn sheet_ok(sheet: Sheet) -> bool {
    &&& sheet.atlas.width <= PACK_MAX_WIDTH
    &&& sheet.atlas.height <= PACK_MAX_HEIGHT
    &&& sheet.atlas.pixel_data@.len() == sheet.atlas.row_bytes() * sheet.atlas.height as nat
    &&& forall|i: int|
        0 <= i < sheet.atlas.images@.len() ==> {
            let image = #[trigger] sheet.atlas.images@[i];
            image.y + image.height <= sheet.atlas.height
        }
    &&& sheet.deepmap matches Some(d) ==> 16 + d@.len() <= u32::MAX
}

/// How often a scale and an idiom were counted.
pub open spec fn counted(entries: Seq<(u128, usize)>, scale: u16, idiom: u16) -> nat {
    let key = (scale * 65536 + idiom) as u128;
    if has_key(entries, key) {
        entries[key_at(entries, key)].1 as nat
    } else {
        0
    }
}

/// Counting one more leaves the other counts as they were.
proof fn lemma_counted(entries: Seq<(u128, usize)>, scale: u16, idiom: u16, n: usize)
    requires
        keys_differ(entries),
    ensures
        ({
            let key = (scale * 65536 + idiom) as u128;
            let after = with_entry(entries, key, n);
            &&& counted(after, scale, idiom) == n
            &&& forall|s: u16, i: u16|
                (s != scale || i != idiom) ==> #[trigger] counted(after, s, i) == counted(
                    entries,
                    s,
                    i,
                )
        }),
{
    let key = (scale * 65536 + idiom) as u128;
    let after = with_entry(entries, key, n);
    let at = if has_key(entries, key) {
        key_at(entries, key)
    } else {
        entries.len() as int
    };
    assert(after[at] == (key, n));
    assert(after[at].0 == key);
    assert(has_key(after, key));
    lemma_with_entry_keeps_keys_apart(entries, key, n);
    assert(key_at(after, key) == at) by {
        let k = key_at(after, key);
        assert(after[k].0 == key);
        assert(0 <= k < after.len());
        if k < at {
            assert(after[k].0 != after[at].0);
        } else if k > at {
            assert(after[at].0 != after[k].0);
        }
    }
    assert forall|s: u16, i: u16| s != scale || i != idiom implies #[trigger] counted(after, s, i)
        == counted(entries, s, i) by {
        let other = (s * 65536 + i) as u128;
        assert(other != key);
        if has_key(entries, other) {
            let k = key_at(entries, other);
            assert(entries[k].0 == other);
            assert(k != at);
            assert(after[k] == entries[k]);
            assert(has_key(after, other));
            let m = key_at(after, other);
            assert(after[m].0 == other);
            assert(m != at);
            assert(entries[m].0 == other);
        } else {
            if has_key(after, other) {
                let m = key_at(after, other);
                assert(m != at);
                assert(entries[m].0 == other);
            }
        }
    }
}

/// What was counted among the first sheets stays the same when more follow.
proof fn lemma_earlier_sheets_stay(
    sheets: Seq<Sheet>,
    more: Sheet,
    n: int,
    scale: u16,
    idiom: u16,
)
    requires
        n <= sheets.len(),
    ensures
        earlier_sheets(sheets.push(more), n, scale, idiom) == earlier_sheets(
            sheets,
            n,
            scale,
            idiom,
        ),
    decreases n,
{
    if n > 0 {
        lemma_earlier_sheets_stay(sheets, more, n - 1, scale, idiom);
    }
}

/// The sheets of a group stay its sheets when more follow.
proof fn lemma_group_sheets_stay(
    sheets: Seq<Sheet>,
    more: Sheet,
    lo: int,
    hi: int,
    rs: Seq<Rendition>,
    group: PackGroup,
)
    requires
        0 <= lo <= hi <= sheets.len(),
        are_group_sheets(sheets, lo, hi, rs, group),
    ensures
        are_group_sheets(sheets.push(more), lo, hi, rs, group),
{
    let (images, atlases) = choose|images: Seq<PackedImage>, atlases: Seq<Atlas>|
        {
            &&& #[trigger] are_images_of(images, rs, group.members@)
            &&& is_stable_order(size_keys(images), packing_order(images))
            &&& #[trigger] atlases_pack(
                atlases,
                arranged(images, packing_order(images)),
                PACK_MAX_WIDTH,
                PACK_MAX_HEIGHT,
            )
            &&& atlases.len() == hi - lo
            &&& forall|i: int|
                lo <= i < hi ==> is_sheet_of(
                    #[trigger] sheets[i],
                    atlases[i - lo],
                    group,
                    earlier_sheets(sheets, i, group.scale, group.idiom),
                )
        };
    let after = sheets.push(more);
    assert forall|i: int| lo <= i < hi implies is_sheet_of(
        #[trigger] after[i],
        atlases[i - lo],
        group,
        earlier_sheets(after, i, group.scale, group.idiom),
    ) by {
        assert(after[i] == sheets[i]);
        lemma_earlier_sheets_stay(sheets, more, i, group.scale, group.idiom);
    }
    assert(are_images_of(images, rs, group.members@));
}

/// Each atlas of a packing is small and holds its images.
pub proof fn lemma_atlases_small(
    atlases: Seq<Atlas>,
    images: Seq<PackedImage>,
    k: int,
)
    requires
        atlases_pack(atlases, images, PACK_MAX_WIDTH, PACK_MAX_HEIGHT),
        0 <= k < atlases.len(),
        forall|i: int|
            0 <= i < images.len() ==> (#[trigger] images[i]).width <= PACK_MAX_WIDTH - 4
                && images[i].height <= PACK_MAX_HEIGHT - 4,
    ensures
        atlases[k].width <= PACK_MAX_WIDTH,
        atlases[k].height <= PACK_MAX_HEIGHT,
        forall|l: int|
            0 <= l < atlases[k].images@.len() ==> {
                let image = #[trigger] atlases[k].images@[l];
                &&& image.x + image.width <= atlases[k].width
                &&& image.y + image.height <= atlases[k].height
            },
    decreases images.len(),
{
    let layout = image_layout(images, PACK_MAX_WIDTH, PACK_MAX_HEIGHT);
    let sizes = sizes_of(images);
    lemma_every_image_once(
        sizes,
        images.len(),
        PACK_MAX_WIDTH as int,
        PACK_MAX_HEIGHT as int,
    );
    if k == 0 {
        atlas_keeps_limits(
            sizes,
            images.len(),
            PACK_MAX_WIDTH as int,
            PACK_MAX_HEIGHT as int,
        );
        packed_images_are_separate(atlases[0], images, PACK_MAX_WIDTH, PACK_MAX_HEIGHT);
    } else {
        let left = left_images(images, layout);
        lemma_atlases_small(atlases.skip(1), left, k - 1);
        assert(atlases.skip(1)[k - 1] == atlases[k]);
    }
}

/// There are no more sheets of one kind than sheets.
proof fn lemma_earlier_sheets_bound(sheets: Seq<Sheet>, n: int, scale: u16, idiom: u16)
    requires
        0 <= n,
    ensures
        earlier_sheets(sheets, n, scale, idiom) <= n,
    decreases n,
{
    if n > 0 {
        lemma_earlier_sheets_bound(sheets, n - 1, scale, idiom);
    }
}

/// The unplaced images of the members of a group.
fn group_images(renditions: &[Rendition], group: &PackGroup) -> (images: Vec<PackedImage>)
    requires
        group_ok(renditions@, *group),
    ensures
        are_images_of(images@, renditions@, group.members@),
{
    let mut images: Vec<PackedImage> = Vec::new();
    let mut i: usize = 0;
    while i < group.members.len()
        invariant
            i <= group.members@.len(),
            group_ok(renditions@, *group),
            images@.len() == i,
            forall|j: int|
                0 <= j < i ==> is_image_of(
                    #[trigger] images@[j],
                    renditions@[group.members@[j] as int],
                ),
        decreases group.members.len() - i,
    {
        let m: usize = group.members[i];
        images.push(image_of(&renditions[m]));
        i = i + 1;
    }
    images
}

/// Appends the sheets of a group.
#[verifier::rlimit(30)]
fn add_group_sheets(
    sheets: &mut Vec<Sheet>,
    counts: &mut IndexMap<u128, usize>,
    renditions: &[Rendition],
    group: &PackGroup,
)
    requires
        group_ok(renditions@, *group),
        keys_differ(number_entries(*old(counts))),
        forall|s: u16, i: u16| #[trigger]
            counted(number_entries(*old(counts)), s, i) == earlier_sheets(
                old(sheets)@,
                old(sheets)@.len() as int,
                s,
                i,
            ),
        forall|i: int| 0 <= i < old(sheets)@.len() ==> sheet_ok(#[trigger] old(sheets)@[i]),
    ensures
        keys_differ(number_entries(*final(counts))),
        forall|s: u16, i: u16| #[trigger]
            counted(number_entries(*final(counts)), s, i) == earlier_sheets(
                final(sheets)@,
                final(sheets)@.len() as int,
                s,
                i,
            ),
        forall|i: int| 0 <= i < final(sheets)@.len() ==> sheet_ok(#[trigger] final(sheets)@[i]),
        old(sheets)@.len() <= final(sheets)@.len(),
        final(sheets)@.take(old(sheets)@.len() as int) == old(sheets)@,
        forall|lo: int, hi: int, g: PackGroup|
            0 <= lo <= hi <= old(sheets)@.len() && #[trigger] are_group_sheets(
                old(sheets)@,
                lo,
                hi,
                renditions@,
                g,
            ) ==> are_group_sheets(final(sheets)@, lo, hi, renditions@, g),
        are_group_sheets(
            final(sheets)@,
            old(sheets)@.len() as int,
            final(sheets)@.len() as int,
            renditions@,
            *group,
        ),
{
    let ghost rs = renditions@;
    let ghost lo = sheets@.len() as int;
    let ghost before = sheets@;
    let images = group_images(renditions, group);
    let ghost unplaced = images@;
    let ghost order = packing_order(unplaced);
    let ghost sorted = arranged(unplaced, order);
    proof {
        assert forall|i: int| 0 <= i < unplaced.len() implies (#[trigger] unplaced[i]).width
            <= PACK_MAX_WIDTH - 4 && unplaced[i].height <= PACK_MAX_HEIGHT - 4 by {
            assert(is_image_of(unplaced[i], rs[group.members@[i] as int]));
            assert(!stays_inline(rs[group.members@[i] as int]));
        }
    }
    let packed = pack_images_split(images, PACK_MAX_WIDTH, PACK_MAX_HEIGHT);
    let ghost all = packed@;
    proof {
        assert forall|i: int| 0 <= i < sorted.len() implies (#[trigger] sorted[i]).width
            <= PACK_MAX_WIDTH - 4 && sorted[i].height <= PACK_MAX_HEIGHT - 4 by {
            assert(sorted[i] == unplaced[order[i] as int]);
        }
        assert(sheets@.take(lo) =~= before);
    }
    for atlas in it: packed
        invariant
            it.seq() == all,
            lo == old(sheets)@.len(),
            before == old(sheets)@,
            rs == renditions@,
            atlases_pack(all, sorted, PACK_MAX_WIDTH, PACK_MAX_HEIGHT),
            forall|i: int|
                0 <= i < sorted.len() ==> (#[trigger] sorted[i]).width <= PACK_MAX_WIDTH - 4
                    && sorted[i].height <= PACK_MAX_HEIGHT - 4,
            sheets@.len() == lo + it.index(),
            sheets@.take(lo) == before,
            keys_differ(number_entries(*counts)),
            forall|s: u16, i: u16| #[trigger]
                counted(number_entries(*counts), s, i) == earlier_sheets(
                    sheets@,
                    sheets@.len() as int,
                    s,
                    i,
                ),
            forall|i: int| 0 <= i < sheets@.len() ==> sheet_ok(#[trigger] sheets@[i]),
            forall|i: int|
                lo <= i < sheets@.len() ==> is_sheet_of(
                    #[trigger] sheets@[i],
                    all[i - lo],
                    *group,
                    earlier_sheets(sheets@, i, group.scale, group.idiom),
                ),
            forall|a: int, b: int, g: PackGroup|
                0 <= a <= b <= lo && #[trigger] are_group_sheets(before, a, b, rs, g)
                    ==> are_group_sheets(sheets@, a, b, rs, g),
    {
        let ghost k = it.index() as int;
        let ghost now = sheets@;
        let ghost entries = number_entries(*counts);
        proof {
            lemma_atlases_small(all, sorted, k);
        }
        let mut atlas = atlas;
        let ghost packed_atlas = atlas;
        let key: u128 = group.scale as u128 * 65536 + group.idiom as u128;
        let count: usize = match number_index_get(counts, key) {
            Some(n) => n,
            None => 0,
        };
        assert(count == counted(entries, group.scale, group.idiom));
        atlas.dim1 = (count as u16) as u32;
        proof {
            lemma_drawable(atlas);
        }
        atlas.render();
        proof {
            crate::packer::lemma_images_drawn_len(
                zeros(atlas.row_bytes() * atlas.height as nat),
                atlas.images@,
                atlas.images@.len(),
                bytes_per_pixel(atlas.pixel_format),
                atlas.row_bytes(),
            );
        }
        let sheet = Sheet {
            atlas,
            scale: group.scale,
            sprite_atlas_id: group.sprite_atlas_id,
            idiom: group.idiom,
            deepmap: None,
        };
        assert(sheet_ok(sheet));
        assert(is_sheet_of(
            sheet,
            all[k],
            *group,
            earlier_sheets(now, lo + k, group.scale, group.idiom),
        ));
        sheets.push(sheet);
        let total: usize = sheets.len();
        proof {
            lemma_earlier_sheets_bound(now, now.len() as int, group.scale, group.idiom);
            lemma_counted(entries, group.scale, group.idiom, (count + 1) as usize);
            lemma_with_entry_keeps_keys_apart(entries, key, (count + 1) as usize);
        }
        number_index_insert(counts, key, count + 1);
        proof {
            assert forall|s: u16, i: u16| #[trigger]
                counted(number_entries(*counts), s, i) == earlier_sheets(
                sheets@,
                sheets@.len() as int,
                s,
                i,
            ) by {
                lemma_earlier_sheets_stay(now, sheet, now.len() as int, s, i);
            }
            assert forall|i: int| lo <= i < sheets@.len() implies is_sheet_of(
                #[trigger] sheets@[i],
                all[i - lo],
                *group,
                earlier_sheets(sheets@, i, group.scale, group.idiom),
            ) by {
                lemma_earlier_sheets_stay(now, sheet, i, group.scale, group.idiom);
                if i < now.len() {
                    assert(sheets@[i] == now[i]);
                }
            }
            assert forall|a: int, b: int, g: PackGroup| 0 <= a <= b <= lo
                && #[trigger] are_group_sheets(before, a, b, rs, g) implies are_group_sheets(
                sheets@,
                a,
                b,
                rs,
                g,
            ) by {
                lemma_group_sheets_stay(now, sheet, a, b, rs, g);
            }
            assert(sheets@.take(lo) =~= before);
        }
    }
    assert(are_images_of(unplaced, rs, group.members@));
}

/// The sheets of one more group behind those of the groups before it.
proof fn lemma_sheets_extend(
    before: Seq<Sheet>,
    after: Seq<Sheet>,
    bounds: Seq<int>,
    rs: Seq<Rendition>,
    groups: Seq<PackGroup>,
    g: int,
)
    requires
        0 <= g < groups.len(),
        sheets_follow(before, bounds, rs, groups.take(g)),
        before.len() <= after.len(),
        forall|lo: int, hi: int, h: PackGroup|
            0 <= lo <= hi <= before.len() && #[trigger] are_group_sheets(before, lo, hi, rs, h)
                ==> are_group_sheets(after, lo, hi, rs, h),
        are_group_sheets(after, before.len() as int, after.len() as int, rs, groups[g]),
    ensures
        sheets_follow(after, bounds.push(after.len() as int), rs, groups.take(g + 1)),
{
    let first = groups.take(g);
    let now = groups.take(g + 1);
    let wider = bounds.push(after.len() as int);
    assert forall|k: int| 0 <= k < now.len() implies #[trigger] wider[k] <= wider[k + 1]
        && are_group_sheets(after, wider[k], wider[k + 1], rs, now[k]) by {
        if k < g {
            lemma_bounds_grow(before, bounds, rs, first, k);
            assert(bounds[k] <= bounds[k + 1]);
            assert(are_group_sheets(before, bounds[k], bounds[k + 1], rs, first[k]));
            assert(now[k] == first[k]);
        } else {
            assert(now[k] == groups[g]);
        }
    }
}

/// Packs groups of renditions into sheets.
pub fn pack_sheets(renditions: &[Rendition], groups: &Vec<PackGroup>) -> (sheets: Vec<Sheet>)
    requires
        forall|g: int| 0 <= g < groups@.len() ==> group_ok(renditions@, #[trigger] groups@[g]),
    ensures
        exists|bounds: Seq<int>| #[trigger]
            sheets_follow(sheets@, bounds, renditions@, groups@),
        forall|i: int| 0 <= i < sheets@.len() ==> sheet_ok(#[trigger] sheets@[i]),
{
    let mut sheets: Vec<Sheet> = Vec::new();
    let mut counts = new_number_index();
    let ghost mut bounds: Seq<int> = seq![0int];
    let mut g: usize = 0;
    while g < groups.len()
        invariant
            g <= groups@.len(),
            forall|g: int| 0 <= g < groups@.len() ==> group_ok(renditions@, #[trigger] groups@[g]),
            keys_differ(number_entries(counts)),
            forall|s: u16, i: u16| #[trigger]
                counted(number_entries(counts), s, i) == earlier_sheets(
                    sheets@,
                    sheets@.len() as int,
                    s,
                    i,
                ),
            forall|i: int| 0 <= i < sheets@.len() ==> sheet_ok(#[trigger] sheets@[i]),
            sheets_follow(sheets@, bounds, renditions@, groups@.take(g as int)),
        decreases groups.len() - g,
    {
        let ghost before = sheets@;
        let ghost old_bounds = bounds;
        add_group_sheets(&mut sheets, &mut counts, renditions, &groups[g]);
        g = g + 1;
        proof {
            bounds = bounds.push(sheets@.len() as int);
            lemma_sheets_extend(before, sheets@, old_bounds, renditions@, groups@, g - 1);
        }
    }
    assert(groups@.take(g as int) =~= groups@);
    sheets
}

/// The bounds of the groups lie between zero and the number of sheets.
proof fn lemma_bounds_grow(
    sheets: Seq<Sheet>,
    bounds: Seq<int>,
    rs: Seq<Rendition>,
    groups: Seq<PackGroup>,
    k: int,
)
    requires
        sheets_follow(sheets, bounds, rs, groups),
        0 <= k < groups.len(),
    ensures
        0 <= bounds[k],
        bounds[k + 1] <= sheets.len(),
{
    lemma_bounds_start(sheets, bounds, rs, groups, k);
    lemma_bounds_end(sheets, bounds, rs, groups, k + 1);
}

proof fn lemma_bounds_start(
    sheets: Seq<Sheet>,
    bounds: Seq<int>,
    rs: Seq<Rendition>,
    groups: Seq<PackGroup>,
    k: int,
)
    requires
        sheets_follow(sheets, bounds, rs, groups),
        0 <= k <= groups.len(),
    ensures
        0 <= bounds[k],
    decreases k,
{
    if k > 0 {
        lemma_bounds_start(sheets, bounds, rs, groups, k - 1);
        assert(bounds[k - 1] <= bounds[k - 1 + 1]);
    }
}

proof fn lemma_bounds_end(
    sheets: Seq<Sheet>,
    bounds: Seq<int>,
    rs: Seq<Rendition>,
    groups: Seq<PackGroup>,
    k: int,
)
    requires
        sheets_follow(sheets, bounds, rs, groups),
        0 <= k <= groups.len(),
    ensures
        bounds[k] <= sheets.len(),
    decreases groups.len() - k,
{
    if k < groups.len() {
        lemma_bounds_end(sheets, bounds, rs, groups, k + 1);
        assert(bounds[k] <= bounds[k + 1]);
    }
}

} // verus!
