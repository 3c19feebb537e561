//! What holds of everything that is found in an asset catalog.

use vstd::prelude::*;

use crate::catalog::{
    app_icon_set, app_icons, asset_part, atlas_entries, brand_assets, brand_set, catalog_entries,
    catalog_of, catalog_set, color_set, data_set, file_data, file_json, group_namespace,
    icon_bitmap, icon_content, icon_document, icon_drawing, icon_drawing_size, icon_entries,
    icon_file_match, icon_set, icons_end, image_set, image_stack, kept_rendition, loaded_file,
    named, part_image, part_images, plus, set_color, set_colors, set_data, set_datum,
    set_document, set_drawing, set_file, set_images, size_list, stack_layers, traits_of,
    with_drawings, with_locale, CatalogError, Gathered, ImageTraits, Outcome, Settings,
};
use crate::device_icons::{
    device_content, device_icon, device_icon_set, device_icons, device_list, devices_of,
    icon_for_devices, icon_number, large_phone_icon, with_device_lists, DeviceSize,
};
use crate::entries::{rendering_intent, scale_of};
use crate::facets::{has_name, name_at, names_differ, with_facet, Facet};
use crate::files::{extension, item_at, joined, listing, stem, Item};
use crate::json::{items_of, text_member, Json};
use crate::naming::value_of;
use crate::rendition::{sizes_rendition, RenditionModel};
use crate::svg::svg_size;

verus! {

/// Whether a rendition is stored as it is, or made for the catalog's platform and
/// deployment target.
pub open spec fn suits(s: Settings, r: RenditionModel) -> bool {
    r.csi_override is Some || r.min_deploy == s.min_deploy && r.platform == s.platform
}

/// What holds of everything that is found in a catalog: renditions are made for
/// it, names stand for the numbers that `hash` gives them, and no name and no
/// language comes twice.
pub open spec fn consistent<H: Fn(&str) -> u16>(s: Settings, hash: H, g: Gathered) -> bool {
    &&& forall|i: int| 0 <= i < g.renditions.len() ==> suits(s, #[trigger] g.renditions[i])
    &&& forall|i: int|
        0 <= i < g.facets.len() ==> (#[trigger] g.facets[i]).1.identifier == value_of(
            hash,
            g.facets[i].0,
        )
    &&& names_differ(g.facets)
    &&& g.locales.no_duplicates()
}

/// Everything that is found in a catalog is made for it and stands under the
/// number of its name, and no name and no language comes twice.
pub proof fn catalogs_are_consistent<H: Fn(&str) -> u16, C: Fn(&str) -> u64>(
    s: Settings,
    hash: H,
    component: C,
    g: Gathered,
    root: Option<Item>,
    path: Seq<char>,
)
    requires
        consistent(s, hash, g),
    ensures
        consistent(s, hash, catalog_of(s, hash, component, g, root, path).state),
{
    match root {
        Some(Item::Folder(entries)) => {
            lemma_entries_consistent(
                s,
                hash,
                component,
                g,
                entries@,
                entries@.len(),
                path,
                Seq::empty(),
            );
        },
        _ => {},
    }
}

proof fn lemma_plus_consistent<H: Fn(&str) -> u16>(
    s: Settings,
    hash: H,
    g: Gathered,
    r: RenditionModel,
)
    requires
        consistent(s, hash, g),
        suits(s, r),
    ensures
        consistent(s, hash, plus(g, r)),
{
    let after = plus(g, r);
    assert forall|i: int| 0 <= i < after.renditions.len() implies suits(
        s,
        #[trigger] after.renditions[i],
    ) by {
        if i < g.renditions.len() {
            assert(after.renditions[i] == g.renditions[i]);
        }
    }
}

proof fn lemma_named_consistent<H: Fn(&str) -> u16>(
    s: Settings,
    hash: H,
    g: Gathered,
    name: Seq<char>,
    element: u16,
    part: Option<u16>,
)
    requires
        consistent(s, hash, g),
    ensures
        consistent(s, hash, named(g, name, element, part, value_of(hash, name))),
{
    let facet = Facet { element, part, identifier: value_of(hash, name) };
    let after = with_facet(g.facets, name, facet);
    if has_name(g.facets, name) {
        let k = name_at(g.facets, name);
        assert forall|i: int, j: int| 0 <= i < j < after.len() implies (#[trigger] after[i]).0 != (
        #[trigger] after[j]).0 by {
            assert(g.facets[i].0 == after[i].0 && g.facets[j].0 == after[j].0);
        }
        assert forall|i: int| 0 <= i < after.len() implies (#[trigger] after[i]).1.identifier
            == value_of(hash, after[i].0) by {
            if i != k {
                assert(after[i] == g.facets[i]);
            }
        }
    } else {
        assert forall|i: int, j: int| 0 <= i < j < after.len() implies (#[trigger] after[i]).0 != (
        #[trigger] after[j]).0 by {
            assert(g.facets[i] == after[i]);
            if j < g.facets.len() {
                assert(g.facets[j] == after[j]);
            }
        }
        assert forall|i: int| 0 <= i < after.len() implies (#[trigger] after[i]).1.identifier
            == value_of(hash, after[i].0) by {
            if i < g.facets.len() {
                assert(after[i] == g.facets[i]);
            }
        }
    }
}

proof fn lemma_locale_consistent<H: Fn(&str) -> u16>(
    s: Settings,
    hash: H,
    g: Gathered,
    locale: Seq<char>,
)
    requires
        consistent(s, hash, g),
    ensures
        consistent(s, hash, with_locale(g, locale)),
{
    if locale.len() > 0 && !g.locales.contains(locale) {
        let after = g.locales.push(locale);
        assert forall|i: int, j: int| 0 <= i < after.len() && 0 <= j < after.len() && i
            != j implies after[i] != after[j] by {
            if i < g.locales.len() && j < g.locales.len() {
                assert(g.locales[i] != g.locales[j]);
            } else if i < g.locales.len() {
                assert(g.locales.contains(g.locales[i]));
            } else {
                assert(g.locales.contains(g.locales[j]));
            }
        }
    }
}

proof fn lemma_drawings_consistent<H: Fn(&str) -> u16>(
    s: Settings,
    hash: H,
    g: Gathered,
    first: Option<RenditionModel>,
    second: Option<RenditionModel>,
)
    requires
        consistent(s, hash, g),
        first is Some ==> suits(s, first->0),
        second is Some ==> suits(s, second->0),
    ensures
        consistent(s, hash, with_drawings(g, first, second).state),
{
    if first is Some {
        lemma_plus_consistent(s, hash, g, first->0);
        if second is Some {
            lemma_plus_consistent(s, hash, plus(g, first->0), second->0);
        }
    }
}

proof fn lemma_set_document<H: Fn(&str) -> u16>(
    s: Settings,
    hash: H,
    g: Gathered,
    filename: Seq<char>,
    identifier: u16,
    item: Item,
    data: Seq<u8>,
    t: ImageTraits,
)
    requires
        consistent(s, hash, g),
    ensures
        consistent(s, hash, set_document(s, g, filename, identifier, item, data, t).state),
{
    let out = set_document(s, g, filename, identifier, item, data, t);
    let size = svg_size(data);
    let first = set_drawing(s, filename, identifier, item, size, 1, t);
    let second = set_drawing(s, filename, identifier, item, size, 2, t);
    if out.error != Some(CatalogError::TooLarge) {
        let kept = RenditionModel {
            idiom: t.idiom,
            appearance: t.appearance,
            direction: t.direction,
            ..kept_rendition(
                s,
                filename,
                identifier,
                crate::car::PART_REGULAR,
                crate::car::LAYOUT_PDF,
                crate::bytes::be32(crate::csi::PIXELFMT_SVG),
                crate::catalog::svg_stored(filename, data),
            )
        };
        lemma_plus_consistent(s, hash, g, kept);
        lemma_drawings_consistent(s, hash, plus(g, kept), first, second);
    }
}

proof fn lemma_set_file<H: Fn(&str) -> u16>(
    s: Settings,
    hash: H,
    g: Gathered,
    name: Seq<char>,
    path: Seq<char>,
    filename: Seq<char>,
    identifier: u16,
    scale: u32,
    item: Item,
    t: ImageTraits,
)
    requires
        consistent(s, hash, g),
    ensures
        consistent(
            s,
            hash,
            set_file(s, g, name, path, filename, identifier, scale, item, t).state,
        ),
{
    let out = set_file(s, g, name, path, filename, identifier, scale, item, t);
    if file_data(item) is Some {
        lemma_set_document(s, hash, g, filename, identifier, item, file_data(item)->0, t);
    }
    if out.state.renditions.len() == g.renditions.len() + 1 && out.state == plus(
        g,
        out.state.renditions.last(),
    ) {
        let r = out.state.renditions.last();
        if suits(s, r) {
            lemma_plus_consistent(s, hash, g, r);
        }
    }
}

proof fn lemma_set_images<H: Fn(&str) -> u16>(
    s: Settings,
    hash: H,
    g: Gathered,
    infos: Seq<Json>,
    n: nat,
    set: Item,
    dir: Seq<char>,
    name: Seq<char>,
    identifier: u16,
    intent: i32,
)
    requires
        consistent(s, hash, g),
    ensures
        consistent(
            s,
            hash,
            set_images(s, hash, g, infos, n, set, dir, name, identifier, intent).state,
        ),
    decreases n,
{
    if n > 0 {
        let m = (n - 1) as nat;
        lemma_set_images(s, hash, g, infos, m, set, dir, name, identifier, intent);
        let before = set_images(s, hash, g, infos, m, set, dir, name, identifier, intent);
        if before.error is None {
            let info = infos[n - 1];
            match text_member(info, "filename"@) {
                None => {},
                Some(filename) => match item_at(set, filename) {
                    None => {},
                    Some(item) => {
                        let t = traits_of(s, hash, info, intent);
                        let g = with_locale(before.state, t.locale);
                        lemma_locale_consistent(s, hash, before.state, t.locale);
                        lemma_set_file(
                            s,
                            hash,
                            g,
                            name,
                            joined(dir, filename),
                            filename,
                            identifier,
                            scale_of(info),
                            item,
                            t,
                        );
                    },
                },
            }
        }
    }
}

proof fn lemma_image_set<H: Fn(&str) -> u16>(
    s: Settings,
    hash: H,
    g: Gathered,
    set: Item,
    dir: Seq<char>,
    name: Seq<char>,
    namespace: Seq<char>,
)
    requires
        consistent(s, hash, g),
    ensures
        consistent(s, hash, image_set(s, hash, g, set, dir, name, namespace).state),
{
    let facet = namespace + name;
    let identifier = value_of(hash, facet);
    if item_at(set, "Contents.json"@) is Some && file_json(
        item_at(set, "Contents.json"@)->0,
    ) is Some {
        let contents = file_json(item_at(set, "Contents.json"@)->0)->0;
        let infos = items_of(contents, "images"@);
        let intent = rendering_intent(contents);
        lemma_set_images(
            s,
            hash,
            g,
            infos,
            infos.len(),
            set,
            dir,
            name,
            identifier,
            intent,
        );
        let out = set_images(
            s,
            hash,
            g,
            infos,
            infos.len(),
            set,
            dir,
            name,
            identifier,
            intent,
        );
        lemma_named_consistent(
            s,
            hash,
            out.state,
            facet,
            crate::car::ELEMENT_UNIVERSAL,
            Some(crate::car::PART_REGULAR),
        );
    }
}

proof fn lemma_icon_bitmap<H: Fn(&str) -> u16>(
    s: Settings,
    hash: H,
    g: Gathered,
    filename: Seq<char>,
    identifier: u16,
    item: Item,
    scale: u32,
    point_w: u32,
)
    requires
        consistent(s, hash, g),
    ensures
        consistent(
            s,
            hash,
            icon_bitmap(s, g, filename, identifier, item, scale, point_w).state,
        ),
{
    let out = icon_bitmap(s, g, filename, identifier, item, scale, point_w);
    if loaded_file(item, filename, s.force_bgra) is Ok {
        let r = out.state.renditions.last();
        lemma_plus_consistent(s, hash, g, r);
    }
}

proof fn lemma_icon_document<H: Fn(&str) -> u16>(
    s: Settings,
    hash: H,
    g: Gathered,
    filename: Seq<char>,
    identifier: u16,
    item: Item,
    data: Seq<u8>,
    point_w: u32,
)
    requires
        consistent(s, hash, g),
    ensures
        consistent(
            s,
            hash,
            icon_document(s, g, filename, identifier, item, data, point_w).state,
        ),
{
    let out = icon_document(s, g, filename, identifier, item, data, point_w);
    let size = icon_drawing_size(data, point_w);
    if out.error != Some(CatalogError::TooLarge) {
        let kept = RenditionModel {
            dim2: crate::entries::icon_size_number(point_w),
            ..kept_rendition(
                s,
                filename,
                identifier,
                crate::car::PART_ICON,
                crate::car::LAYOUT_PDF,
                crate::bytes::be32(crate::csi::PIXELFMT_SVG),
                crate::catalog::svg_stored(filename, data),
            )
        };
        lemma_plus_consistent(s, hash, g, kept);
        lemma_drawings_consistent(
            s,
            hash,
            plus(g, kept),
            icon_drawing(s, filename, identifier, item, size, 1, point_w),
            icon_drawing(s, filename, identifier, item, size, 2, point_w),
        );
    }
}

proof fn lemma_app_icons<H: Fn(&str) -> u16>(
    s: Settings,
    hash: H,
    g: Gathered,
    infos: Seq<Json>,
    n: nat,
    set: Item,
    identifier: u16,
)
    requires
        consistent(s, hash, g),
    ensures
        consistent(s, hash, app_icons(s, g, infos, n, set, identifier).state),
    decreases n,
{
    if n > 0 {
        let m = (n - 1) as nat;
        lemma_app_icons(s, hash, g, infos, m, set, identifier);
        let before = app_icons(s, g, infos, m, set, identifier);
        if before.error is None {
            let info = infos[n - 1];
            match text_member(info, "filename"@) {
                None => {},
                Some(filename) => match item_at(set, filename) {
                    None => {},
                    Some(item) => {
                        let point_w = crate::platform::number_or_zero(
                            crate::entries::point_width(info),
                        );
                        lemma_icon_content(
                            s,
                            hash,
                            before.state,
                            filename,
                            identifier,
                            item,
                            scale_of(info),
                            point_w,
                        );
                    },
                },
            }
        }
    }
}

proof fn lemma_icon_content<H: Fn(&str) -> u16>(
    s: Settings,
    hash: H,
    g: Gathered,
    filename: Seq<char>,
    identifier: u16,
    item: Item,
    scale: u32,
    point_w: u32,
)
    requires
        consistent(s, hash, g),
    ensures
        consistent(
            s,
            hash,
            icon_content(s, g, filename, identifier, item, scale, point_w).state,
        ),
{
    if file_data(item) is Some {
        lemma_icon_document(
            s,
            hash,
            g,
            filename,
            identifier,
            item,
            file_data(item)->0,
            point_w,
        );
    }
    lemma_icon_bitmap(s, hash, g, filename, identifier, item, scale, point_w);
}

proof fn lemma_device_icon<H: Fn(&str) -> u16>(
    s: Settings,
    hash: H,
    g: Gathered,
    info: Json,
    filename: Seq<char>,
    item: Item,
    identifier: u16,
    idiom: u16,
)
    requires
        consistent(s, hash, g),
    ensures
        consistent(
            s,
            hash,
            device_icon(s, g, info, filename, item, identifier, idiom).state,
        ),
{
    let point_w = crate::platform::number_or_zero(crate::entries::point_width(info));
    lemma_icon_content(s, hash, g, filename, identifier, item, scale_of(info), point_w);
    let content = icon_content(s, g, filename, identifier, item, scale_of(info), point_w);
    let made = device_content(
        s,
        g,
        filename,
        identifier,
        item,
        scale_of(info),
        point_w,
        idiom,
        icon_number(info),
    );
    assert forall|i: int| 0 <= i < made.state.renditions.len() implies suits(
        s,
        #[trigger] made.state.renditions[i],
    ) by {
        assert(suits(s, content.state.renditions[i]));
    }
    if made.state.renditions.len() > 0 {
        let last = made.state.renditions.last();
        assert(suits(s, made.state.renditions[made.state.renditions.len() - 1]));
        lemma_plus_consistent(s, hash, made.state, large_phone_icon(last));
    }
}

proof fn lemma_icon_for_devices<H: Fn(&str) -> u16>(
    s: Settings,
    hash: H,
    g: Gathered,
    info: Json,
    filename: Seq<char>,
    item: Item,
    identifier: u16,
    n: nat,
)
    requires
        consistent(s, hash, g),
    ensures
        consistent(
            s,
            hash,
            icon_for_devices(s, g, info, filename, item, identifier, n).state,
        ),
    decreases n,
{
    if n > 0 {
        let m = (n - 1) as nat;
        lemma_icon_for_devices(s, hash, g, info, filename, item, identifier, m);
        let before = icon_for_devices(s, g, info, filename, item, identifier, m);
        if before.error is None {
            lemma_device_icon(
                s,
                hash,
                before.state,
                info,
                filename,
                item,
                identifier,
                devices_of(info)[n - 1],
            );
        }
    }
}

proof fn lemma_device_icons<H: Fn(&str) -> u16>(
    s: Settings,
    hash: H,
    g: Gathered,
    infos: Seq<Json>,
    n: nat,
    set: Item,
    identifier: u16,
)
    requires
        consistent(s, hash, g),
    ensures
        consistent(s, hash, device_icons(s, g, infos, n, set, identifier).state),
    decreases n,
{
    if n > 0 {
        let m = (n - 1) as nat;
        lemma_device_icons(s, hash, g, infos, m, set, identifier);
        let before = device_icons(s, g, infos, m, set, identifier);
        let info = infos[n - 1];
        if before.error is None && text_member(info, "filename"@) is Some {
            let filename = text_member(info, "filename"@)->0;
            if item_at(set, filename) is Some {
                lemma_icon_for_devices(
                    s,
                    hash,
                    before.state,
                    info,
                    filename,
                    item_at(set, filename)->0,
                    identifier,
                    devices_of(info).len(),
                );
            }
        }
    }
}

proof fn lemma_device_lists<H: Fn(&str) -> u16>(
    s: Settings,
    hash: H,
    g: Gathered,
    name: Seq<char>,
    identifier: u16,
    sizes: Seq<DeviceSize>,
    n: nat,
)
    requires
        consistent(s, hash, g),
    ensures
        consistent(s, hash, with_device_lists(g, name, identifier, sizes, n)),
    decreases n,
{
    if n > 0 {
        let m = (n - 1) as nat;
        lemma_device_lists(s, hash, g, name, identifier, sizes, m);
        lemma_plus_consistent(
            s,
            hash,
            with_device_lists(g, name, identifier, sizes, m),
            device_list(name, identifier, sizes, sizes[n - 1]),
        );
    }
}

proof fn lemma_device_icon_set<H: Fn(&str) -> u16>(
    s: Settings,
    hash: H,
    g: Gathered,
    infos: Seq<Json>,
    set: Item,
    name: Seq<char>,
)
    requires
        consistent(s, hash, g),
    ensures
        consistent(
            s,
            hash,
            device_icon_set(s, g, infos, set, name, value_of(hash, name)).state,
        ),
{
    let identifier = value_of(hash, name);
    lemma_device_icons(s, hash, g, infos, infos.len(), set, identifier);
    let out = device_icons(s, g, infos, infos.len(), set, identifier);
    lemma_device_lists(s, hash, out.state, name, identifier, out.sizes, out.sizes.len());
    lemma_named_consistent(
        s,
        hash,
        with_device_lists(out.state, name, identifier, out.sizes, out.sizes.len()),
        name,
        crate::car::ELEMENT_UNIVERSAL,
        Some(crate::car::PART_ICON),
    );
}

proof fn lemma_icons_end<H: Fn(&str) -> u16>(
    s: Settings,
    hash: H,
    out: Outcome,
    name: Seq<char>,
    facet: Seq<char>,
)
    requires
        consistent(s, hash, out.state),
    ensures
        consistent(s, hash, icons_end(out, name, facet, value_of(hash, facet)).state),
{
    let r = sizes_rendition(name, value_of(hash, facet), size_list(out.points));
    lemma_plus_consistent(s, hash, out.state, r);
    lemma_named_consistent(
        s,
        hash,
        plus(out.state, r),
        facet,
        crate::car::ELEMENT_UNIVERSAL,
        Some(crate::car::PART_ICON),
    );
}

proof fn lemma_app_icon_set<H: Fn(&str) -> u16>(
    s: Settings,
    hash: H,
    g: Gathered,
    set: Item,
    name: Seq<char>,
)
    requires
        consistent(s, hash, g),
    ensures
        consistent(s, hash, app_icon_set(s, hash, g, set, name).state),
{
    if item_at(set, "Contents.json"@) is Some && file_json(
        item_at(set, "Contents.json"@)->0,
    ) is Some {
        let contents = file_json(item_at(set, "Contents.json"@)->0)->0;
        let infos = items_of(contents, "images"@);
        let identifier = value_of(hash, name);
        lemma_app_icons(s, hash, g, infos, infos.len(), set, identifier);
        lemma_icons_end(
            s,
            hash,
            app_icons(s, g, infos, infos.len(), set, identifier),
            name,
            name,
        );
        lemma_device_icon_set(s, hash, g, infos, set, name);
    }
}

proof fn lemma_icon_entries<H: Fn(&str) -> u16>(
    s: Settings,
    hash: H,
    g: Gathered,
    entries: Seq<(String, Item)>,
    n: nat,
    identifier: u16,
)
    requires
        consistent(s, hash, g),
    ensures
        consistent(s, hash, icon_entries(s, g, entries, n, identifier).state),
    decreases n,
{
    if n > 0 {
        let m = (n - 1) as nat;
        lemma_icon_entries(s, hash, g, entries, m, identifier);
        let before = icon_entries(s, g, entries, m, identifier);
        let (filename, item) = entries[listing(entries)[n - 1] as int];
        match icon_file_match(filename@) {
            None => {},
            Some(groups) => {
                let (point_w, scale) = crate::catalog::icon_match(groups);
                lemma_icon_bitmap(
                    s,
                    hash,
                    before.state,
                    filename@,
                    identifier,
                    item,
                    scale,
                    point_w,
                );
            },
        }
    }
}

proof fn lemma_icon_set<H: Fn(&str) -> u16>(
    s: Settings,
    hash: H,
    g: Gathered,
    set: Item,
    name: Seq<char>,
    namespace: Seq<char>,
)
    requires
        consistent(s, hash, g),
    ensures
        consistent(s, hash, icon_set(s, hash, g, set, name, namespace).state),
{
    let facet = namespace + name;
    match set {
        Item::File(_) => {},
        Item::Folder(entries) => {
            lemma_icon_entries(s, hash, g, entries@, entries@.len(), value_of(hash, facet));
            lemma_icons_end(
                s,
                hash,
                icon_entries(s, g, entries@, entries@.len(), value_of(hash, facet)),
                name,
                facet,
            );
        },
    }
}

proof fn lemma_set_colors<H: Fn(&str) -> u16, C: Fn(&str) -> u64>(
    s: Settings,
    hash: H,
    component: C,
    g: Gathered,
    colors: Seq<Json>,
    n: nat,
    name: Seq<char>,
    identifier: u16,
)
    requires
        consistent(s, hash, g),
    ensures
        consistent(s, hash, set_colors(s, component, g, colors, n, name, identifier)),
    decreases n,
{
    if n > 0 {
        let m = (n - 1) as nat;
        lemma_set_colors(s, hash, component, g, colors, m, name, identifier);
        let before = set_colors(s, component, g, colors, m, name, identifier);
        let after = set_color(s, component, before, colors[n - 1], name, identifier);
        if after != before {
            lemma_plus_consistent(s, hash, before, after.renditions.last());
        }
    }
}

proof fn lemma_color_set<H: Fn(&str) -> u16, C: Fn(&str) -> u64>(
    s: Settings,
    hash: H,
    component: C,
    g: Gathered,
    set: Item,
    name: Seq<char>,
    namespace: Seq<char>,
)
    requires
        consistent(s, hash, g),
    ensures
        consistent(s, hash, color_set(s, hash, component, g, set, name, namespace).state),
{
    let facet = namespace + name;
    let identifier = value_of(hash, facet);
    if item_at(set, "Contents.json"@) is Some && file_json(
        item_at(set, "Contents.json"@)->0,
    ) is Some {
        let contents = file_json(item_at(set, "Contents.json"@)->0)->0;
        let colors = items_of(contents, "colors"@);
        lemma_set_colors(s, hash, component, g, colors, colors.len(), name, identifier);
        lemma_named_consistent(
            s,
            hash,
            set_colors(s, component, g, colors, colors.len(), name, identifier),
            facet,
            crate::car::ELEMENT_UNIVERSAL,
            Some(crate::car::PART_COLOR),
        );
    }
}

proof fn lemma_set_data<H: Fn(&str) -> u16>(
    s: Settings,
    hash: H,
    g: Gathered,
    list: Seq<Json>,
    n: nat,
    set: Item,
    identifier: u16,
)
    requires
        consistent(s, hash, g),
    ensures
        consistent(s, hash, set_data(s, g, list, n, set, identifier).state),
    decreases n,
{
    if n > 0 {
        let m = (n - 1) as nat;
        lemma_set_data(s, hash, g, list, m, set, identifier);
        let before = set_data(s, g, list, m, set, identifier);
        let after = set_datum(s, before.state, list[n - 1], set, identifier);
        if after.state != before.state {
            lemma_plus_consistent(s, hash, before.state, after.state.renditions.last());
        }
    }
}

proof fn lemma_data_set<H: Fn(&str) -> u16>(
    s: Settings,
    hash: H,
    g: Gathered,
    set: Item,
    name: Seq<char>,
    namespace: Seq<char>,
)
    requires
        consistent(s, hash, g),
    ensures
        consistent(s, hash, data_set(s, hash, g, set, name, namespace).state),
{
    let facet = namespace + name;
    let identifier = value_of(hash, facet);
    if item_at(set, "Contents.json"@) is Some && file_json(
        item_at(set, "Contents.json"@)->0,
    ) is Some {
        let contents = file_json(item_at(set, "Contents.json"@)->0)->0;
        let list = items_of(contents, "data"@);
        lemma_set_data(s, hash, g, list, list.len(), set, identifier);
        lemma_named_consistent(
            s,
            hash,
            set_data(s, g, list, list.len(), set, identifier).state,
            facet,
            crate::car::ELEMENT_UNIVERSAL,
            Some(crate::car::PART_REGULAR),
        );
    }
}

proof fn lemma_part_images<H: Fn(&str) -> u16>(
    s: Settings,
    hash: H,
    g: Gathered,
    infos: Seq<Json>,
    n: nat,
    set: Item,
    identifier: u16,
    atlas: u16,
    layered: bool,
)
    requires
        consistent(s, hash, g),
    ensures
        consistent(
            s,
            hash,
            part_images(s, g, infos, n, set, identifier, atlas, layered).state,
        ),
    decreases n,
{
    if n > 0 {
        let m = (n - 1) as nat;
        lemma_part_images(s, hash, g, infos, m, set, identifier, atlas, layered);
        let before = part_images(s, g, infos, m, set, identifier, atlas, layered);
        let after = part_image(
            s,
            before.state,
            infos[n - 1],
            set,
            identifier,
            atlas,
            layered,
        );
        if after.state != before.state {
            lemma_plus_consistent(s, hash, before.state, after.state.renditions.last());
        }
    }
}

proof fn lemma_asset_part<H: Fn(&str) -> u16>(
    s: Settings,
    hash: H,
    g: Gathered,
    set: Item,
    facet: Seq<char>,
    atlas: u16,
    layered: bool,
)
    requires
        consistent(s, hash, g),
    ensures
        consistent(
            s,
            hash,
            asset_part(s, g, set, facet, value_of(hash, facet), atlas, layered).state,
        ),
{
    let identifier = value_of(hash, facet);
    if item_at(set, "Contents.json"@) is Some && file_json(
        item_at(set, "Contents.json"@)->0,
    ) is Some {
        let contents = file_json(item_at(set, "Contents.json"@)->0)->0;
        let infos = items_of(contents, "images"@);
        lemma_part_images(s, hash, g, infos, infos.len(), set, identifier, atlas, layered);
        lemma_named_consistent(
            s,
            hash,
            part_images(s, g, infos, infos.len(), set, identifier, atlas, layered).state,
            facet,
            crate::car::ELEMENT_UNIVERSAL,
            Some(crate::car::PART_REGULAR),
        );
    }
}

proof fn lemma_atlas_entries<H: Fn(&str) -> u16>(
    s: Settings,
    hash: H,
    g: Gathered,
    entries: Seq<(String, Item)>,
    n: nat,
    name: Seq<char>,
)
    requires
        consistent(s, hash, g),
    ensures
        consistent(s, hash, atlas_entries(s, hash, g, entries, n, name).state),
    decreases n,
{
    if n > 0 {
        let m = (n - 1) as nat;
        lemma_atlas_entries(s, hash, g, entries, m, name);
        let before = atlas_entries(s, hash, g, entries, m, name);
        let entry = entries[listing(entries)[n - 1] as int];
        lemma_asset_part(
            s,
            hash,
            before.state,
            entry.1,
            name + "/"@ + stem(entry.0@),
            value_of(hash, name),
            false,
        );
    }
}

proof fn lemma_stack_layers<H: Fn(&str) -> u16>(
    s: Settings,
    hash: H,
    g: Gathered,
    layers: Seq<Json>,
    n: nat,
    stack: Item,
    name: Seq<char>,
)
    requires
        consistent(s, hash, g),
    ensures
        consistent(s, hash, stack_layers(s, hash, g, layers, n, stack, name).state),
    decreases n,
{
    if n > 0 {
        let m = (n - 1) as nat;
        lemma_stack_layers(s, hash, g, layers, m, stack, name);
        let before = stack_layers(s, hash, g, layers, m, stack, name);
        match text_member(layers[n - 1], "filename"@) {
            None => {},
            Some(filename) => match item_at(stack, filename) {
                None => {},
                Some(item) => match item_at(item, "Content.imageset"@) {
                    None => {},
                    Some(content) => {
                        lemma_asset_part(
                            s,
                            hash,
                            before.state,
                            content,
                            name + "/"@ + stem(crate::files::file_name_of(filename)) + "/Content"@,
                            0,
                            true,
                        );
                    },
                },
            },
        }
    }
}

proof fn lemma_image_stack<H: Fn(&str) -> u16>(
    s: Settings,
    hash: H,
    g: Gathered,
    stack: Item,
    name: Seq<char>,
)
    requires
        consistent(s, hash, g),
    ensures
        consistent(s, hash, image_stack(s, hash, g, stack, name).state),
{
    if item_at(stack, "Contents.json"@) is Some && file_json(
        item_at(stack, "Contents.json"@)->0,
    ) is Some {
        let contents = file_json(item_at(stack, "Contents.json"@)->0)->0;
        let layers = items_of(contents, "layers"@);
        lemma_stack_layers(s, hash, g, layers, layers.len(), stack, name);
    }
}

proof fn lemma_brand_assets<H: Fn(&str) -> u16>(
    s: Settings,
    hash: H,
    g: Gathered,
    assets: Seq<Json>,
    n: nat,
    brand: Item,
)
    requires
        consistent(s, hash, g),
    ensures
        consistent(s, hash, brand_assets(s, hash, g, assets, n, brand).state),
    decreases n,
{
    if n > 0 {
        let m = (n - 1) as nat;
        lemma_brand_assets(s, hash, g, assets, m, brand);
        let before = brand_assets(s, hash, g, assets, m, brand);
        match text_member(assets[n - 1], "filename"@) {
            None => {},
            Some(filename) => match item_at(brand, filename) {
                None => {},
                Some(stack) => {
                    lemma_image_stack(
                        s,
                        hash,
                        before.state,
                        stack,
                        stem(crate::files::file_name_of(filename)),
                    );
                },
            },
        }
    }
}

proof fn lemma_brand_set<H: Fn(&str) -> u16>(
    s: Settings,
    hash: H,
    g: Gathered,
    brand: Item,
    name: Seq<char>,
)
    requires
        consistent(s, hash, g),
    ensures
        consistent(s, hash, brand_set(s, hash, g, brand, name).state),
{
    if item_at(brand, "Contents.json"@) is Some && file_json(
        item_at(brand, "Contents.json"@)->0,
    ) is Some {
        let contents = file_json(item_at(brand, "Contents.json"@)->0)->0;
        let assets = items_of(contents, "assets"@);
        lemma_brand_assets(s, hash, g, assets, assets.len(), brand);
    }
}

proof fn lemma_catalog_set<H: Fn(&str) -> u16, C: Fn(&str) -> u64>(
    s: Settings,
    hash: H,
    component: C,
    g: Gathered,
    entry: (String, Item),
    dir: Seq<char>,
    namespace: Seq<char>,
)
    requires
        consistent(s, hash, g),
    ensures
        consistent(s, hash, catalog_set(s, hash, component, g, entry, dir, namespace).state),
{
    reveal(catalog_set);
    let kind = extension(entry.0@);
    let name = stem(entry.0@);
    if kind == "imageset"@ {
        lemma_image_set(s, hash, g, entry.1, joined(dir, entry.0@), name, namespace);
    } else if kind == "appiconset"@ {
        lemma_app_icon_set(s, hash, g, entry.1, name);
    } else if kind == "iconset"@ {
        lemma_icon_set(s, hash, g, entry.1, name, namespace);
    } else if kind == "colorset"@ {
        lemma_color_set(s, hash, component, g, entry.1, name, namespace);
    } else if kind == "dataset"@ {
        lemma_data_set(s, hash, g, entry.1, name, namespace);
    } else if kind == "spriteatlas"@ {
        let after = named(g, name, crate::car::ELEMENT_PACKED, None, value_of(hash, name));
        lemma_named_consistent(s, hash, g, name, crate::car::ELEMENT_PACKED, None);
        match entry.1 {
            Item::File(_) => {},
            Item::Folder(entries) => {
                lemma_atlas_entries(s, hash, after, entries@, entries@.len(), name);
            },
        }
    } else if kind == "imagestack"@ {
        lemma_image_stack(s, hash, g, entry.1, name);
    } else if kind == "brandassets"@ {
        lemma_brand_set(s, hash, g, entry.1, name);
    }
}

proof fn lemma_entries_consistent<H: Fn(&str) -> u16, C: Fn(&str) -> u64>(
    s: Settings,
    hash: H,
    component: C,
    g: Gathered,
    entries: Seq<(String, Item)>,
    n: nat,
    dir: Seq<char>,
    namespace: Seq<char>,
)
    requires
        consistent(s, hash, g),
    ensures
        consistent(
            s,
            hash,
            catalog_entries(s, hash, component, g, entries, n, dir, namespace).state,
        ),
    decreases entries, n,
{
    if n > 0 {
        let m = (n - 1) as nat;
        lemma_entries_consistent(s, hash, component, g, entries, m, dir, namespace);
        let before = catalog_entries(s, hash, component, g, entries, m, dir, namespace);
        let k = listing(entries)[n - 1] as int;
        if before.error is None && k < entries.len() {
            let name = entries[k].0@;
            lemma_catalog_set(s, hash, component, before.state, entries[k], dir, namespace);
            match entries[k].1 {
                Item::Folder(inner) => {
                    lemma_entries_consistent(
                        s,
                        hash,
                        component,
                        before.state,
                        inner@,
                        inner@.len(),
                        joined(dir, name),
                        group_namespace(entries[k].1, name, namespace),
                    );
                },
                Item::File(_) => {},
            }
        }
    }
}

} // verus!
