//! What the renditions of an app icon hold, and which devices they are for.

use vstd::prelude::*;

use crate::catalog::{
    app_icon, app_icon_set, file_data, icon_entry, icon_match, icons_end, image_wanted,
    loaded_file, size_list, Gathered, Outcome, Settings,
};
use crate::compress::LZFSE_SLACK;
use crate::device_icons::{
    device_entries, device_icon, device_icon_set, device_icons, device_list, device_size_number,
    device_wanted, devices_of, same_device, set_device_icon, size_before, with_device_lists,
    DeviceSize,
};
use crate::entries::{kind_of, point_width, scale_of, ImageKind};
use crate::entry_laws::numbers_read_back;
use crate::facets::Facet;
use crate::files::{item_at, Item};
use crate::json::{text_member, Json};
use crate::platform::{idiom_number, platform_family};
use crate::rendition::{sizes_rendition, MultisizeImageEntry, RenditionModel};
use crate::set_laws::{
    begins_with, documents_are_kept, holds_document, lemma_named, names, text_under,
};
use crate::svg::svg_size;
use crate::text::decimal;

verus! {

/// Whether a rendition holds an icon: its pixels and their size, under the number of the
/// size in points that it is for.
pub open spec fn holds_icon(
    r: RenditionModel,
    filename: Seq<char>,
    identifier: u16,
    scale: u32,
    number: int,
    image: (Seq<u8>, u32, u32, Seq<u8>),
) -> bool {
    &&& r.name == filename
    &&& r.identifier == identifier
    &&& r.part == 220
    &&& r.scale == scale as u16
    &&& r.dim2 == number
    &&& r.pixel_data == image.0
    &&& r.width == image.1
    &&& r.height == image.2
    &&& r.pixel_format == image.3
    &&& r.template_rendering_intent == 0
    &&& r.csi_override is None
}

/// The number of a size in points on the Mac.
pub open spec fn mac_number(points: u32) -> int {
    if points == 16 {
        1
    } else if points == 32 {
        2
    } else if points == 128 {
        3
    } else if points == 256 {
        4
    } else if points == 512 {
        5
    } else {
        0
    }
}

/// An image of an app icon is stored behind what was there, and its size is told.
pub proof fn app_icons_are_stored(
    s: Settings,
    g: Gathered,
    info: Json,
    set: Item,
    identifier: u16,
    filename: Seq<char>,
    item: Item,
    points: u32,
    image: (Seq<u8>, u32, u32, Seq<u8>),
)
    requires
        text_member(info, "filename"@) == Some(filename),
        item_at(set, filename) == Some(item),
        text_under(info, "platform"@, ""@) == s.platform || text_under(
            info,
            "platform"@,
            ""@,
        ).len() == 0,
        kind_of(filename) != ImageKind::Svg,
        point_width(info) == Some(points),
        loaded_file(item, filename, s.force_bgra) == Ok::<
            (Seq<u8>, u32, u32, Seq<u8>),
            crate::catalog::CatalogError,
        >(image),
    ensures
        ({
            let out = app_icon(s, g, info, set, identifier);
            &&& out.error is None
            &&& out.state.renditions.len() == g.renditions.len() + 1
            &&& begins_with(out.state.renditions, g.renditions)
            &&& out.state.facets == g.facets
            &&& out.points == seq![points]
            &&& holds_icon(
                out.state.renditions.last(),
                filename,
                identifier,
                scale_of(info),
                mac_number(points),
                image,
            )
        }),
{
}

/// An icon for another platform, or without its file, is skipped.
pub proof fn other_icons_are_skipped(
    s: Settings,
    g: Gathered,
    info: Json,
    set: Item,
    identifier: u16,
)
    requires
        text_member(info, "filename"@) is None || item_at(
            set,
            text_member(info, "filename"@)->0,
        ) is None || (text_under(info, "platform"@, ""@).len() > 0 && text_under(
            info,
            "platform"@,
            ""@,
        ) != s.platform),
    ensures
        app_icon(s, g, info, set, identifier).error is None,
        app_icon(s, g, info, set, identifier).state == g,
        app_icon(s, g, info, set, identifier).points.len() == 0,
{
}

/// Only the app icon that is asked for is read.
pub proof fn only_the_named_icon_is_read<H: Fn(&str) -> u16>(
    s: Settings,
    hash: H,
    g: Gathered,
    set: Item,
    name: Seq<char>,
)
    requires
        s.app_icon is None || s.app_icon->0 != name,
    ensures
        app_icon_set(s, hash, g, set, name).error is None,
        app_icon_set(s, hash, g, set, name).state == g,
{
}

/// The name of a file of an icon set tells its size in points and its scale.
pub proof fn icon_names_tell_the_size(
    whole: Option<Seq<char>>,
    points: u32,
    height: Option<Seq<char>>,
    scale: u32,
)
    ensures
        icon_match(
            seq![whole, Some(decimal(points as nat)), height, Some(decimal(scale as nat))],
        ) == (points, scale),
        icon_match(seq![whole, Some(decimal(points as nat)), height, None]) == (points, 1u32),
{
    numbers_read_back(points);
    numbers_read_back(scale);
}

/// A file of an icon set is stored as its name tells; scales above two are not for the
/// Mac.
pub proof fn icon_files_are_stored(
    s: Settings,
    g: Gathered,
    filename: Seq<char>,
    item: Item,
    identifier: u16,
    groups: Seq<Option<Seq<char>>>,
    points: u32,
    scale: u32,
    image: (Seq<u8>, u32, u32, Seq<u8>),
)
    requires
        groups.len() == 4,
        groups[1] == Some(decimal(points as nat)),
        groups[3] == Some(decimal(scale as nat)) || groups[3] is None && scale == 1,
        loaded_file(item, filename, s.force_bgra) == Ok::<
            (Seq<u8>, u32, u32, Seq<u8>),
            crate::catalog::CatalogError,
        >(image),
    ensures
        ({
            let out = icon_entry(s, g, filename, item, identifier, Some(groups));
            if s.platform == "macosx"@ && scale > 2 {
                out.error is None && out.state == g && out.points.len() == 0
            } else {
                &&& out.error is None
                &&& out.state.renditions.len() == g.renditions.len() + 1
                &&& begins_with(out.state.renditions, g.renditions)
                &&& out.points == seq![points]
                &&& holds_icon(
                    out.state.renditions.last(),
                    filename,
                    identifier,
                    scale,
                    mac_number(points),
                    image,
                )
            }
        }),
{
    numbers_read_back(points);
    numbers_read_back(scale);
    assert(item is File);
}

/// Files of other names are left out of an icon set.
pub proof fn other_files_are_no_icons(
    s: Settings,
    g: Gathered,
    filename: Seq<char>,
    item: Item,
    identifier: u16,
)
    ensures
        icon_entry(s, g, filename, item, identifier, None).error is None,
        icon_entry(s, g, filename, item, identifier, None).state == g,
{
}

/// Whether a size is listed, square and under its number.
pub open spec fn lists(entries: Seq<MultisizeImageEntry>, points: u32) -> bool {
    exists|i: int| 0 <= i < entries.len() && (#[trigger] entries[i]).width == points
}

/// Every size of an icon is listed once, square, and under its number; no other is.
pub proof fn sizes_are_listed_once(points: Seq<u32>)
    ensures
        forall|p: u32| #[trigger] lists(size_list(points), p) <==> points.contains(p),
        forall|i: int|
            #![trigger size_list(points)[i]]
            0 <= i < size_list(points).len() ==> size_list(points)[i].height == size_list(
                points,
            )[i].width && size_list(points)[i].index == mac_number(size_list(points)[i].width),
        forall|i: int, j: int|
            #![trigger size_list(points)[i], size_list(points)[j]]
            0 <= i < j < size_list(points).len() ==> size_list(points)[i].width != size_list(
                points,
            )[j].width,
    decreases points.len(),
{
    let all = size_list(points);
    if points.len() > 0 {
        let rest = points.drop_last();
        let last = points.last();
        let before = size_list(rest);
        sizes_are_listed_once(rest);
        assert(points =~= rest.push(last));
        assert forall|p: u32| #[trigger] lists(all, p) implies points.contains(p) by {
            let i = choose|i: int| 0 <= i < all.len() && (#[trigger] all[i]).width == p;
            if i < before.len() {
                assert(before[i].width == p);
                assert(lists(before, p));
                let k = choose|k: int| 0 <= k < rest.len() && rest[k] == p;
                assert(points[k] == p);
            } else {
                assert(points[points.len() - 1] == p);
            }
        }
        assert forall|p: u32| points.contains(p) implies #[trigger] lists(all, p) by {
            if rest.contains(p) {
                assert(lists(before, p));
                let i = choose|i: int| 0 <= i < before.len() && (#[trigger] before[i]).width == p;
                assert(all[i].width == p);
            } else {
                assert(p == last);
                assert(all[before.len() as int].width == p);
            }
        }
        if !rest.contains(last) {
            assert forall|i: int, j: int|
                #![trigger all[i], all[j]]
                0 <= i < j < all.len() implies all[i].width != all[j].width by {
                assert(before[i] == all[i]);
                if j == before.len() {
                    if all[i].width == last {
                        assert(lists(before, last));
                    }
                } else {
                    assert(before[j] == all[j]);
                }
            }
        }
    } else {
        assert forall|p: u32| !(#[trigger] lists(all, p)) && !points.contains(p) by {}
    }
}

/// Icons that were read are followed by the list of their sizes and get the name of
/// their set; without any, nothing is added.
pub proof fn icons_are_followed_by_their_sizes(
    out: Outcome,
    name: Seq<char>,
    facet: Seq<char>,
    identifier: u16,
)
    ensures
        ({
            let end = icons_end(out, name, facet, identifier);
            if out.error is None && out.points.len() > 0 {
                &&& end.error is None
                &&& end.state.renditions.len() == out.state.renditions.len() + 1
                &&& begins_with(end.state.renditions, out.state.renditions)
                &&& end.state.renditions.last() == sizes_rendition(
                    name,
                    identifier,
                    size_list(out.points),
                )
                &&& end.state.renditions.last().part == 218
                &&& end.state.renditions.last().layout == 1010
                &&& names(end.state.facets, facet, 85, Some(220u16), identifier)
            } else {
                end == out
            }
        }),
{
    lemma_named(
        out.state.facets,
        facet,
        (Facet { element: 85, part: Some(220u16), identifier }),
    );
}

/// An image is compiled unless it is for another device, another scale or another
/// language.
pub proof fn images_are_wanted(s: Settings, info: Json)
    requires
        s.platform == "macosx"@,
        s.languages is None || text_under(info, "locale"@, ""@).len() == 0,
    ensures
        image_wanted(s, info) <==> {
            &&& text_under(info, "idiom"@, "universal"@) == "mac"@ || text_under(
                info,
                "idiom"@,
                "universal"@,
            ) == "universal"@
            &&& scale_of(info) <= 2
        },
{
    reveal_strlit("macosx");
    reveal_strlit("iphoneos");
    reveal_strlit("iphonesimulator");
    assert("macosx"@.len() == 6);
    assert("iphoneos"@.len() == 8);
    assert("iphonesimulator"@.len() == 15);
}

/// An image in a language is compiled where that language is the region or asked for.
pub proof fn languages_are_wanted(s: Settings, info: Json)
    requires
        s.languages is Some,
        text_under(info, "locale"@, ""@).len() > 0,
    ensures
        image_wanted(s, info) ==> (s.region == Some(text_under(info, "locale"@, ""@))
            || s.languages->0.contains(text_under(info, "locale"@, ""@))),
        (s.region == Some(text_under(info, "locale"@, ""@)) || s.languages->0.contains(
            text_under(info, "locale"@, ""@),
        )) ==> image_wanted(s, info) == image_wanted(Settings { languages: None, ..s }, info),
{
}

/// The sizes of phones and pads have numbers of their own.
pub proof fn device_sizes_have_numbers(points: u32)
    ensures
        device_size_number(20) == 1,
        device_size_number(29) == 2,
        device_size_number(40) == 3,
        device_size_number(60) == 4,
        device_size_number(90) == 7,
        points != 20 && points != 29 && points != 40 && points != 60 && points != 90
            ==> device_size_number(points) == mac_number(points),
{
}

/// An icon is not for devices if it is for the Mac or for another platform.
pub proof fn devices_are_wanted(s: Settings, info: Json)
    ensures
        text_under(info, "idiom"@, "universal"@) == "mac"@ ==> !device_wanted(s, info),
        text_under(info, "idiom"@, "universal"@) != "mac"@ && text_under(
            info,
            "platform"@,
            ""@,
        ).len() == 0 ==> device_wanted(s, info),
        text_under(info, "platform"@, ""@).len() > 0 && text_under(info, "platform"@, ""@)
            != s.platform && text_under(info, "platform"@, ""@) != platform_family(s.platform)
            ==> !device_wanted(s, info),
{
}

/// An icon for all devices is for the phone and for the pad; any other is for its own
/// device.
pub proof fn icons_have_devices(info: Json)
    ensures
        text_under(info, "idiom"@, "universal"@) == "universal"@ ==> devices_of(info) == seq![
            1u16,
            2u16,
        ],
        text_under(info, "idiom"@, "universal"@) != "universal"@ ==> devices_of(info) == seq![
            idiom_number(text_under(info, "idiom"@, "universal"@)),
        ],
{
}

/// The number of a size in points on phones and pads.
pub open spec fn device_number(info: Json, points: u32) -> int {
    if text_under(info, "idiom"@, "universal"@) == "universal"@ {
        1
    } else if points == 20 {
        1
    } else if points == 29 {
        2
    } else if points == 40 {
        3
    } else if points == 60 {
        4
    } else if points == 90 {
        7
    } else {
        mac_number(points)
    }
}

/// An image of an icon is stored for a device, under the number of its size there.  The
/// phone icon of 60 points at three times the size is stored again for the larger
/// phones.
pub proof fn device_icons_are_stored(
    s: Settings,
    g: Gathered,
    info: Json,
    filename: Seq<char>,
    item: Item,
    identifier: u16,
    idiom: u16,
    points: u32,
    image: (Seq<u8>, u32, u32, Seq<u8>),
)
    requires
        kind_of(filename) != ImageKind::Svg,
        point_width(info) == Some(points),
        loaded_file(item, filename, s.force_bgra) == Ok::<
            (Seq<u8>, u32, u32, Seq<u8>),
            crate::catalog::CatalogError,
        >(image),
    ensures
        ({
            let out = device_icon(s, g, info, filename, item, identifier, idiom);
            let n = g.renditions.len() as int;
            let shared = text_under(info, "idiom"@, "universal"@) != "universal"@ && idiom == 1
                && points == 60 && scale_of(info) == 3;
            &&& out.error is None
            &&& out.state.renditions.len() == n + if shared {
                2int
            } else {
                1int
            }
            &&& begins_with(out.state.renditions, g.renditions)
            &&& holds_icon(
                out.state.renditions[n],
                filename,
                identifier,
                scale_of(info),
                device_number(info, points),
                image,
            )
            &&& out.state.renditions[n].idiom == idiom
            &&& out.sizes[0] == (DeviceSize {
                idiom,
                subtype: 0,
                point_w: points,
                number: device_number(info, points) as u16,
            })
            &&& shared ==> {
                &&& holds_icon(
                    out.state.renditions[n + 1],
                    filename,
                    identifier,
                    2,
                    7,
                    image,
                )
                &&& out.state.renditions[n + 1].idiom == 1
                &&& out.state.renditions[n + 1].subtype == 1792
                &&& out.sizes == seq![
                    out.sizes[0],
                    DeviceSize { idiom: 1, subtype: 1792, point_w: 90, number: 7 },
                ]
            }
            &&& !shared ==> out.sizes.len() == 1
        }),
{
    let out = device_icon(s, g, info, filename, item, identifier, idiom);
    assert forall|i: int| 0 <= i < g.renditions.len() implies #[trigger] out.state.renditions[i]
        == g.renditions[i] by {}
}

/// A list of sizes of a device is for that device, and lists its sizes square and under
/// their numbers.
pub proof fn device_lists_hold_their_sizes(
    name: Seq<char>,
    identifier: u16,
    sizes: Seq<DeviceSize>,
    one: DeviceSize,
    n: nat,
)
    requires
        n <= sizes.len(),
    ensures
        device_list(name, identifier, sizes, one).idiom == one.idiom,
        device_list(name, identifier, sizes, one).subtype == one.subtype,
        device_list(name, identifier, sizes, one).part == 218,
        device_list(name, identifier, sizes, one).identifier == identifier,
        forall|k: int|
            #![trigger sizes[k]]
            0 <= k < n && sizes[k].idiom == one.idiom && sizes[k].subtype == one.subtype ==> lists(
                device_entries(sizes, one, n),
                sizes[k].point_w,
            ),
        forall|i: int|
            #![trigger device_entries(sizes, one, n)[i]]
            0 <= i < device_entries(sizes, one, n).len() ==> lists_one_of(
                device_entries(sizes, one, n)[i],
                sizes,
                one,
            ),
    decreases n,
{
    if n > 0 {
        device_lists_hold_their_sizes(name, identifier, sizes, one, (n - 1) as nat);
        let before = device_entries(sizes, one, (n - 1) as nat);
        let all = device_entries(sizes, one, n);
        assert forall|i: int|
            #![trigger all[i]]
            0 <= i < all.len() implies lists_one_of(all[i], sizes, one) by {
            if i < before.len() {
                assert(before[i] == all[i]);
            } else {
                assert(sizes[n - 1].point_w == all[i].width);
            }
        }
        assert forall|k: int|
            #![trigger sizes[k]]
            0 <= k < n && sizes[k].idiom == one.idiom && sizes[k].subtype
                == one.subtype implies lists(all, sizes[k].point_w) by {
            let last = sizes[n - 1];
            if k < n - 1 {
                assert(lists(before, sizes[k].point_w));
                lemma_still_listed(before, all, sizes[k].point_w);
            } else if size_before(sizes, n - 1, last) {
                let j = choose|j: int|
                    0 <= j < n - 1 && same_device(#[trigger] sizes[j], last) && sizes[j].point_w
                        == last.point_w;
                assert(lists(before, sizes[j].point_w));
                lemma_still_listed(before, all, sizes[k].point_w);
            } else {
                assert(all[before.len() as int].width == last.point_w);
            }
        }
    }
}

/// Whether an entry of a list is one of the sizes of a device.
pub open spec fn lists_one_of(
    entry: MultisizeImageEntry,
    sizes: Seq<DeviceSize>,
    one: DeviceSize,
) -> bool {
    &&& entry.height == entry.width
    &&& exists|k: int|
        0 <= k < sizes.len() && (#[trigger] sizes[k]).idiom == one.idiom && sizes[k].subtype
            == one.subtype && sizes[k].point_w == entry.width && sizes[k].number == entry.index
}

proof fn lemma_still_listed(
    before: Seq<MultisizeImageEntry>,
    all: Seq<MultisizeImageEntry>,
    points: u32,
)
    requires
        lists(before, points),
        before.len() <= all.len(),
        forall|i: int| 0 <= i < before.len() ==> #[trigger] before[i] == all[i],
    ensures
        lists(all, points),
{
    let i = choose|i: int| 0 <= i < before.len() && (#[trigger] before[i]).width == points;
    assert(all[i].width == points);
}

/// Whether a rendition is a drawing of an icon: that many times as wide and high as the
/// document, or else as the icon in points.
pub open spec fn is_icon_drawing(
    r: RenditionModel,
    filename: Seq<char>,
    identifier: u16,
    points: u32,
    size: (u32, u32),
    scale: u32,
) -> bool {
    &&& r.name == filename
    &&& r.identifier == identifier
    &&& r.part == 220
    &&& r.dim2 == mac_number(points)
    &&& r.scale == scale
    &&& size.0 > 0 ==> r.width == (size.0 * scale) as u32 && r.height == (size.1 * scale) as u32
    &&& size.0 == 0 ==> r.width == (points * scale) as u32 && r.height == (points * scale) as u32
    &&& r.is_svg_rasterization
    &&& r.csi_override is None
}

/// A document of an app icon is kept, and drawn at both scales where the icon has a size
/// and documents are drawn.
pub proof fn icon_documents_are_stored(
    s: Settings,
    g: Gathered,
    info: Json,
    set: Item,
    identifier: u16,
    filename: Seq<char>,
    item: Item,
    data: Seq<u8>,
    points: u32,
)
    requires
        text_member(info, "filename"@) == Some(filename),
        item_at(set, filename) == Some(item),
        text_under(info, "platform"@, ""@).len() == 0,
        kind_of(filename) == ImageKind::Svg,
        file_data(item) == Some(data),
        12 + data.len() <= u32::MAX,
        data.len() + LZFSE_SLACK <= usize::MAX,
        point_width(info) == Some(points),
        app_icon(s, g, info, set, identifier).error is None,
    ensures
        ({
            let out = app_icon(s, g, info, set, identifier);
            let at = g.renditions.len() as int;
            let r = out.state.renditions[at];
            let is_drawn = s.draws_svg && points > 0;
            &&& begins_with(out.state.renditions, g.renditions)
            &&& r.name == filename
            &&& r.identifier == identifier
            &&& r.part == 220
            &&& r.dim2 == mac_number(points)
            &&& r.layout == 9
            &&& r.csi_override matches Some(stored) && holds_document(stored, data)
            &&& !is_drawn ==> out.state.renditions.len() == at + 1 && out.points.len() == 0
            &&& is_drawn ==> {
                &&& out.state.renditions.len() == at + 3
                &&& out.points == seq![points, points]
                &&& is_icon_drawing(
                    out.state.renditions[at + 1],
                    filename,
                    identifier,
                    points,
                    svg_size(data),
                    1,
                )
                &&& is_icon_drawing(
                    out.state.renditions[at + 2],
                    filename,
                    identifier,
                    points,
                    svg_size(data),
                    2,
                )
            }
        }),
{
    documents_are_kept(filename, data);
}

/// The icons of a set for devices get the name of the set, if there are any.
pub proof fn device_icons_are_named(
    s: Settings,
    g: Gathered,
    infos: Seq<Json>,
    set: Item,
    name: Seq<char>,
    identifier: u16,
)
    ensures
        ({
            let found = device_icons(s, g, infos, infos.len(), set, identifier);
            let out = device_icon_set(s, g, infos, set, name, identifier);
            &&& out.error == found.error
            &&& found.error is None && found.sizes.len() > 0 ==> names(
                out.state.facets,
                name,
                85,
                Some(220u16),
                identifier,
            )
            &&& found.sizes.len() == 0 ==> out.state == found.state
        }),
{
    let found = device_icons(s, g, infos, infos.len(), set, identifier);
    lemma_named(
        with_device_lists(found.state, name, identifier, found.sizes, found.sizes.len()).facets,
        name,
        (Facet { element: 85, part: Some(220u16), identifier }),
    );
}

/// An icon is skipped if it is not wanted, or without its file.
pub proof fn unwanted_device_icons_are_skipped(
    s: Settings,
    g: Gathered,
    info: Json,
    set: Item,
    identifier: u16,
)
    requires
        text_member(info, "filename"@) is None || item_at(
            set,
            text_member(info, "filename"@)->0,
        ) is None || !device_wanted(s, info),
    ensures
        set_device_icon(s, g, info, set, identifier).error is None,
        set_device_icon(s, g, info, set, identifier).state == g,
        set_device_icon(s, g, info, set, identifier).sizes.len() == 0,
{
}

} // verus!
