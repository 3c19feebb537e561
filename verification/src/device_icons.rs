//! App icons of phones and pads.
//!
//! On iOS an icon is made for a device: its renditions carry the device, and every
//! device has a list of sizes of its own.  An icon for all devices serves the phone
//! and the pad.  The largest phone icon also stands in for a size that only the
//! larger phones use.

use vstd::prelude::*;
use vstd::string::StrSliceExecFns;

use crate::car::{ELEMENT_UNIVERSAL, PART_ICON};
use crate::catalog::{
    ends_as, icon_content, models, named, plus, AssetCatalog, CatalogError, Gathered, Gathering,
    Outcome, Settings,
};
use crate::entries::{
    icon_dim2, icon_size_number, image_kind, kind_of, parse_point_width, parse_scale, point_width,
    scale_of, ImageKind,
};
use crate::files::{item_at, Item};
use crate::json::{text_member, text_or, Json};
use crate::platform::{
    deployment_platform_name, idiom_number, idiom_value, number_or_zero, platform_family,
};
use crate::rendition::{
    build_multisize_rendition, sizes_rendition, MultisizeImageEntry, Rendition, RenditionModel,
};
use crate::text::same_text;

verus! {

/// The number of the phone among the devices.
pub const PHONE: u16 = 1;

/// The number of the pad among the devices.
pub const PAD: u16 = 2;

/// The display of the larger phones.
pub const LARGE_PHONE: u16 = 1792;

/// The size of an icon for the larger phones, in points.
pub const LARGE_PHONE_POINTS: u32 = 90;

/// A size of an icon for a device.
#[derive(Debug, Clone, Copy)]
pub struct DeviceSize {
    pub idiom: u16,
    pub subtype: u16,
    pub point_w: u32,
    pub number: u16,
}

/// What comes of reading icons: what was found up to the end or to the first error,
/// and the sizes of the icons among it.
#[verifier::ext_equal]
pub struct DeviceOutcome {
    pub state: Gathered,
    pub sizes: Seq<DeviceSize>,
    pub error: Option<CatalogError>,
}

/// Whether an icon is for the platform: not for the Mac, and not for a platform of
/// another name.
pub open spec fn device_wanted(s: Settings, info: Json) -> bool {
    let platform = text_or(info, "platform"@, ""@);
    &&& text_or(info, "idiom"@, "universal"@) != "mac"@
    &&& platform.len() == 0 || platform == s.platform || platform == platform_family(s.platform)
}

/// Whether an icon is for all devices.
pub open spec fn for_all_devices(info: Json) -> bool {
    text_or(info, "idiom"@, "universal"@) == "universal"@
}

/// The devices that an icon is for.
pub open spec fn devices_of(info: Json) -> Seq<u16> {
    if for_all_devices(info) {
        seq![PHONE, PAD]
    } else {
        seq![idiom_number(text_or(info, "idiom"@, "universal"@))]
    }
}

/// The number of a size on phones and pads.
pub open spec fn device_size_number(point_w: u32) -> u16 {
    if point_w == 20 {
        1
    } else if point_w == 29 {
        2
    } else if point_w == 40 {
        3
    } else if point_w == 60 {
        4
    } else if point_w == LARGE_PHONE_POINTS {
        7
    } else {
        icon_size_number(point_w)
    }
}

/// The number of a size on phones and pads.
pub fn device_dim2(point_w: u32) -> (number: u16)
    ensures
        number == device_size_number(point_w),
{
    if point_w == 20 {
        1
    } else if point_w == 29 {
        2
    } else if point_w == 40 {
        3
    } else if point_w == 60 {
        4
    } else if point_w == LARGE_PHONE_POINTS {
        7
    } else {
        icon_dim2(point_w)
    }
}

/// The number of the size of an icon: an icon for all devices is the only one.
pub open spec fn icon_number(info: Json) -> u16 {
    if for_all_devices(info) {
        1
    } else {
        device_size_number(number_or_zero(point_width(info)))
    }
}

/// Renditions, of which those from `from` on are for a device.
pub open spec fn made_for(
    rs: Seq<RenditionModel>,
    from: int,
    idiom: u16,
    number: u16,
) -> Seq<RenditionModel> {
    Seq::new(
        rs.len(),
        |i: int|
            if i < from {
                rs[i]
            } else {
                RenditionModel { idiom, dim2: number, ..rs[i] }
            },
    )
}

/// An icon made for one device.
pub open spec fn device_content(
    s: Settings,
    g: Gathered,
    filename: Seq<char>,
    identifier: u16,
    item: Item,
    scale: u32,
    point_w: u32,
    idiom: u16,
    number: u16,
) -> DeviceOutcome {
    let out = icon_content(s, g, filename, identifier, item, scale, point_w);
    if out.error is Some {
        DeviceOutcome { state: out.state, sizes: Seq::empty(), error: out.error }
    } else {
        DeviceOutcome {
            state: Gathered {
                renditions: made_for(
                    out.state.renditions,
                    g.renditions.len() as int,
                    idiom,
                    number,
                ),
                ..out.state
            },
            sizes: if out.points.len() > 0 {
                seq![DeviceSize { idiom, subtype: 0, point_w, number }]
            } else {
                Seq::empty()
            },
            error: None,
        }
    }
}

/// Whether an icon stands in for the one of the larger phones: an image for the phone
/// of 60 points at three times the size.
pub open spec fn serves_large_phones(info: Json, filename: Seq<char>, idiom: u16) -> bool {
    &&& !for_all_devices(info)
    &&& idiom == PHONE
    &&& number_or_zero(point_width(info)) == 60
    &&& scale_of(info) == 3
    &&& kind_of(filename) != ImageKind::Svg
}

/// The icon of the larger phones: the same image, at twice the size of its points.
pub open spec fn large_phone_icon(r: RenditionModel) -> RenditionModel {
    RenditionModel {
        subtype: LARGE_PHONE,
        scale: 2,
        dim2: device_size_number(LARGE_PHONE_POINTS),
        ..r
    }
}

/// The size of the icon of the larger phones.
pub open spec fn large_phone_size() -> DeviceSize {
    DeviceSize {
        idiom: PHONE,
        subtype: LARGE_PHONE,
        point_w: LARGE_PHONE_POINTS,
        number: device_size_number(LARGE_PHONE_POINTS),
    }
}

/// An icon for one device, and for the larger phones if it stands in for their icon.
pub open spec fn device_icon(
    s: Settings,
    g: Gathered,
    info: Json,
    filename: Seq<char>,
    item: Item,
    identifier: u16,
    idiom: u16,
) -> DeviceOutcome {
    let out = device_content(
        s,
        g,
        filename,
        identifier,
        item,
        scale_of(info),
        number_or_zero(point_width(info)),
        idiom,
        icon_number(info),
    );
    if out.error is None && serves_large_phones(info, filename, idiom)
        && out.state.renditions.len() > 0 {
        DeviceOutcome {
            state: plus(out.state, large_phone_icon(out.state.renditions.last())),
            sizes: out.sizes.push(large_phone_size()),
            error: None,
        }
    } else {
        out
    }
}

/// Reading went on: sizes add up.
pub open spec fn later(before: DeviceOutcome, out: DeviceOutcome) -> DeviceOutcome {
    DeviceOutcome { sizes: before.sizes + out.sizes, ..out }
}

/// Nothing was found.
pub open spec fn nothing_found(g: Gathered) -> DeviceOutcome {
    DeviceOutcome { state: g, sizes: Seq::empty(), error: None }
}

/// An icon for the first `n` of its devices.
pub open spec fn icon_for_devices(
    s: Settings,
    g: Gathered,
    info: Json,
    filename: Seq<char>,
    item: Item,
    identifier: u16,
    n: nat,
) -> DeviceOutcome
    decreases n,
{
    if n == 0 {
        nothing_found(g)
    } else {
        let before = icon_for_devices(s, g, info, filename, item, identifier, (n - 1) as nat);
        if before.error is Some {
            before
        } else {
            later(
                before,
                device_icon(
                    s,
                    before.state,
                    info,
                    filename,
                    item,
                    identifier,
                    devices_of(info)[n - 1],
                ),
            )
        }
    }
}

/// One icon of a set: skipped without a file, or if it is not wanted.
pub open spec fn set_device_icon(
    s: Settings,
    g: Gathered,
    info: Json,
    set: Item,
    identifier: u16,
) -> DeviceOutcome {
    match text_member(info, "filename"@) {
        None => nothing_found(g),
        Some(filename) => match item_at(set, filename) {
            None => nothing_found(g),
            Some(item) => if device_wanted(s, info) {
                icon_for_devices(
                    s,
                    g,
                    info,
                    filename,
                    item,
                    identifier,
                    devices_of(info).len(),
                )
            } else {
                nothing_found(g)
            },
        },
    }
}

/// The first `n` icons of a set.
pub open spec fn device_icons(
    s: Settings,
    g: Gathered,
    infos: Seq<Json>,
    n: nat,
    set: Item,
    identifier: u16,
) -> DeviceOutcome
    decreases n,
{
    if n == 0 {
        nothing_found(g)
    } else {
        let before = device_icons(s, g, infos, (n - 1) as nat, set, identifier);
        if before.error is Some {
            before
        } else {
            later(before, set_device_icon(s, before.state, infos[n - 1], set, identifier))
        }
    }
}

proof fn lemma_device_icons_stop(
    s: Settings,
    g: Gathered,
    infos: Seq<Json>,
    m: nat,
    n: nat,
    set: Item,
    identifier: u16,
)
    requires
        m <= n,
        device_icons(s, g, infos, m, set, identifier).error is Some,
    ensures
        device_icons(s, g, infos, n, set, identifier) == device_icons(
            s,
            g,
            infos,
            m,
            set,
            identifier,
        ),
    decreases n,
{
    if m < n {
        lemma_device_icons_stop(s, g, infos, m, (n - 1) as nat, set, identifier);
    }
}

/// Whether two sizes are for the same device and display.
pub open spec fn same_device(a: DeviceSize, b: DeviceSize) -> bool {
    a.idiom == b.idiom && a.subtype == b.subtype
}

/// Whether one of the first `n` sizes is for the device of `size`.
pub open spec fn device_before(sizes: Seq<DeviceSize>, n: int, size: DeviceSize) -> bool {
    exists|j: int| 0 <= j < n && same_device(#[trigger] sizes[j], size)
}

/// Whether one of the first `n` sizes is `size` on its device.
pub open spec fn size_before(sizes: Seq<DeviceSize>, n: int, size: DeviceSize) -> bool {
    exists|j: int|
        0 <= j < n && same_device(#[trigger] sizes[j], size) && sizes[j].point_w == size.point_w
}

/// The sizes among the first `n` that are for the device of `one`, each once.
pub open spec fn device_entries(sizes: Seq<DeviceSize>, one: DeviceSize, n: nat) -> Seq<
    MultisizeImageEntry,
>
    decreases n,
{
    if n == 0 {
        Seq::empty()
    } else {
        let before = device_entries(sizes, one, (n - 1) as nat);
        let size = sizes[n - 1];
        if same_device(size, one) && !size_before(sizes, n - 1, size) {
            before.push(
                MultisizeImageEntry {
                    width: size.point_w,
                    height: size.point_w,
                    index: size.number as u32,
                },
            )
        } else {
            before
        }
    }
}

/// The list of sizes of the device of `one`.
pub open spec fn device_list(
    name: Seq<char>,
    identifier: u16,
    sizes: Seq<DeviceSize>,
    one: DeviceSize,
) -> RenditionModel {
    RenditionModel {
        idiom: one.idiom,
        subtype: one.subtype,
        ..sizes_rendition(name, identifier, device_entries(sizes, one, sizes.len()))
    }
}

/// With a list of sizes for each device among the first `n` sizes.
pub open spec fn with_device_lists(
    g: Gathered,
    name: Seq<char>,
    identifier: u16,
    sizes: Seq<DeviceSize>,
    n: nat,
) -> Gathered
    decreases n,
{
    if n == 0 {
        g
    } else {
        let before = with_device_lists(g, name, identifier, sizes, (n - 1) as nat);
        if device_before(sizes, n - 1, sizes[n - 1]) {
            before
        } else {
            plus(before, device_list(name, identifier, sizes, sizes[n - 1]))
        }
    }
}

/// The icons of a set, with a list of sizes for each device and the name of the set,
/// if there are any.
pub open spec fn device_icon_set(
    s: Settings,
    g: Gathered,
    infos: Seq<Json>,
    set: Item,
    name: Seq<char>,
    identifier: u16,
) -> Outcome {
    let out = device_icons(s, g, infos, infos.len(), set, identifier);
    Outcome {
        state: if out.error is None && out.sizes.len() > 0 {
            named(
                with_device_lists(out.state, name, identifier, out.sizes, out.sizes.len()),
                name,
                ELEMENT_UNIVERSAL,
                Some(PART_ICON),
                identifier,
            )
        } else {
            out.state
        },
        points: Seq::empty(),
        error: out.error,
    }
}

/// Whether a result and a state are an outcome, with sizes behind those there were.
pub open spec fn ends_with_sizes(
    result: Result<(), CatalogError>,
    state: Gathered,
    before: Seq<DeviceSize>,
    sizes: Seq<DeviceSize>,
    out: DeviceOutcome,
) -> bool {
    &&& state == out.state
    &&& match result {
        Ok(()) => out.error is None && sizes == before + out.sizes,
        Err(e) => out.error == Some(e),
    }
}

/// Makes the renditions from `from` on for a device.
fn make_for(g: &mut Gathering, from: usize, idiom: u16, number: u16)
    requires
        old(g).facets.wf(),
        from <= old(g).renditions@.len(),
    ensures
        final(g).facets.wf(),
        final(g)@ == (Gathered {
            renditions: made_for(old(g)@.renditions, from as int, idiom, number),
            ..old(g)@
        }),
{
    let ghost start = g@;
    let ghost before = g.renditions@;
    let mut i: usize = from;
    while i < g.renditions.len()
        invariant
            from <= i <= g.renditions@.len(),
            g.renditions@.len() == before.len(),
            g.facets.wf(),
            start.renditions == models(before),
            g@ == (Gathered { renditions: models(g.renditions@), ..start }),
            forall|j: int| 0 <= j < from ==> #[trigger] g.renditions@[j] == before[j],
            forall|j: int|
                from <= j < i ==> (#[trigger] g.renditions@[j])@ == (RenditionModel {
                    idiom,
                    dim2: number,
                    ..before[j]@
                }),
            forall|j: int| i <= j < before.len() ==> #[trigger] g.renditions@[j] == before[j],
        decreases g.renditions.len() - i,
    {
        let mut r = Rendition::default();
        core::mem::swap(&mut r, &mut g.renditions[i]);
        r.idiom = idiom;
        r.dim2 = number;
        core::mem::swap(&mut r, &mut g.renditions[i]);
        i = i + 1;
    }
    assert(models(g.renditions@) =~= made_for(start.renditions, from as int, idiom, number));
}

/// The icon of the larger phones that the last rendition stands in for.
fn add_large_phone_icon(g: &mut Gathering, sizes: &mut Vec<DeviceSize>)
    requires
        old(g).facets.wf(),
        old(g).renditions@.len() > 0,
    ensures
        final(g).facets.wf(),
        final(g)@ == plus(old(g)@, large_phone_icon(old(g)@.renditions.last())),
        final(sizes)@ == old(sizes)@.push(large_phone_size()),
{
    let last: usize = g.renditions.len() - 1;
    let mut r = g.renditions[last].copy();
    r.subtype = LARGE_PHONE;
    r.scale = 2;
    r.dim2 = device_dim2(LARGE_PHONE_POINTS);
    assert(g@.renditions.last() == g.renditions@[last as int]@);
    g.push(r);
    sizes.push(
        DeviceSize {
            idiom: PHONE,
            subtype: LARGE_PHONE,
            point_w: LARGE_PHONE_POINTS,
            number: device_dim2(LARGE_PHONE_POINTS),
        },
    );
}

/// The sizes of the device of `one`, each once.
fn list_device_sizes(sizes: &Vec<DeviceSize>, one: &DeviceSize) -> (entries: Vec<
    MultisizeImageEntry,
>)
    ensures
        entries@ == device_entries(sizes@, *one, sizes@.len()),
{
    let mut entries: Vec<MultisizeImageEntry> = Vec::new();
    let mut i: usize = 0;
    while i < sizes.len()
        invariant
            i <= sizes@.len(),
            entries@ == device_entries(sizes@, *one, i as nat),
        decreases sizes.len() - i,
    {
        let size = &sizes[i];
        if size.idiom == one.idiom && size.subtype == one.subtype {
            let mut seen = false;
            let mut j: usize = 0;
            while j < i
                invariant
                    j <= i < sizes@.len(),
                    *size == sizes@[i as int],
                    seen == size_before(sizes@, j as int, *size),
                decreases i - j,
            {
                let other = &sizes[j];
                if other.idiom == size.idiom && other.subtype == size.subtype && other.point_w
                    == size.point_w {
                    assert(same_device(sizes@[j as int], *size));
                    seen = true;
                } else {
                    proof {
                        if size_before(sizes@, j + 1, *size) {
                            let k = choose|k: int|
                                0 <= k < j + 1 && same_device(#[trigger] sizes@[k], *size)
                                    && sizes@[k].point_w == size.point_w;
                            assert(k < j);
                        }
                    }
                }
                j = j + 1;
            }
            if !seen {
                entries.push(
                    MultisizeImageEntry {
                        width: size.point_w,
                        height: size.point_w,
                        index: size.number as u32,
                    },
                );
            }
        }
        i = i + 1;
    }
    entries
}

/// Adds a list of sizes for each device.
fn add_device_lists(g: &mut Gathering, name: &str, identifier: u16, sizes: &Vec<DeviceSize>)
    requires
        old(g).facets.wf(),
    ensures
        final(g).facets.wf(),
        final(g)@ == with_device_lists(old(g)@, name@, identifier, sizes@, sizes@.len()),
{
    let ghost start = g@;
    let mut i: usize = 0;
    while i < sizes.len()
        invariant
            i <= sizes@.len(),
            g.facets.wf(),
            start == old(g)@,
            g@ == with_device_lists(start, name@, identifier, sizes@, i as nat),
        decreases sizes.len() - i,
    {
        let size = &sizes[i];
        let mut seen = false;
        let mut j: usize = 0;
        while j < i
            invariant
                j <= i < sizes@.len(),
                *size == sizes@[i as int],
                seen == device_before(sizes@, j as int, *size),
            decreases i - j,
        {
            if sizes[j].idiom == size.idiom && sizes[j].subtype == size.subtype {
                assert(same_device(sizes@[j as int], *size));
                seen = true;
            } else {
                proof {
                    if device_before(sizes@, j + 1, *size) {
                        let k = choose|k: int|
                            0 <= k < j + 1 && same_device(#[trigger] sizes@[k], *size);
                        assert(k < j);
                    }
                }
            }
            j = j + 1;
        }
        if !seen {
            let entries = list_device_sizes(sizes, size);
            let mut r = build_multisize_rendition(name, identifier, entries.as_slice());
            r.idiom = size.idiom;
            r.subtype = size.subtype;
            g.push(r);
        }
        i = i + 1;
    }
}

impl AssetCatalog {
    /// An icon for one device.
    fn add_device_icon(
        &self,
        g: &mut Gathering,
        sizes: &mut Vec<DeviceSize>,
        info: &Json,
        filename: &str,
        item: &Item,
        identifier: u16,
        idiom: u16,
    ) -> (result: Result<(), CatalogError>)
        requires
            old(g).facets.wf(),
        ensures
            final(g).facets.wf(),
            ends_with_sizes(
                result,
                final(g)@,
                old(sizes)@,
                final(sizes)@,
                device_icon(
                    self.settings(),
                    old(g)@,
                    *info,
                    filename@,
                    *item,
                    identifier,
                    idiom,
                ),
            ),
    {
        let all = same_text(info.get_text_or("idiom", "universal"), "universal");
        let point_w: u32 = match parse_point_width(info) {
            Some(n) => n,
            None => 0,
        };
        let number: u16 = if all {
            1
        } else {
            device_dim2(point_w)
        };
        let scale = parse_scale(info);
        let from: usize = g.renditions.len();
        let mut points: Vec<u32> = Vec::new();
        match self.add_icon_content(g, &mut points, filename, identifier, item, scale, point_w) {
            Ok(()) => {},
            Err(e) => {
                return Err(e);
            },
        }
        proof {
            lemma_content_grows(
                self.settings(),
                old(g)@,
                filename@,
                identifier,
                *item,
                scale,
                point_w,
            );
            assert(points@ =~= icon_content(
                self.settings(),
                old(g)@,
                filename@,
                identifier,
                *item,
                scale,
                point_w,
            ).points);
        }
        make_for(g, from, idiom, number);
        if points.len() > 0 {
            sizes.push(DeviceSize { idiom, subtype: 0, point_w, number });
        }
        let ghost content = device_content(
            self.settings(),
            old(g)@,
            filename@,
            identifier,
            *item,
            scale,
            point_w,
            idiom,
            number,
        );
        assert(g@ == content.state);
        assert(sizes@ =~= old(sizes)@ + content.sizes);
        if !all && idiom == PHONE && point_w == 60 && scale == 3 && image_kind(filename)
            != ImageKind::Svg && g.renditions.len() > 0 {
            add_large_phone_icon(g, sizes);
            assert(sizes@ =~= old(sizes)@ + content.sizes.push(large_phone_size()));
        }
        Ok(())
    }

    /// One icon of a set.
    fn add_set_device_icon(
        &self,
        g: &mut Gathering,
        sizes: &mut Vec<DeviceSize>,
        info: &Json,
        set: &Item,
        identifier: u16,
    ) -> (result: Result<(), CatalogError>)
        requires
            old(g).facets.wf(),
        ensures
            final(g).facets.wf(),
            ends_with_sizes(
                result,
                final(g)@,
                old(sizes)@,
                final(sizes)@,
                set_device_icon(self.settings(), old(g)@, *info, *set, identifier),
            ),
    {
        assert(sizes@ =~= old(sizes)@ + Seq::<DeviceSize>::empty());
        let filename = match info.get_text("filename") {
            None => {
                return Ok(());
            },
            Some(filename) => filename,
        };
        let item = match set.find(filename) {
            None => {
                return Ok(());
            },
            Some(item) => item,
        };
        let idiom = info.get_text_or("idiom", "universal");
        let platform = info.get_text_or("platform", "");
        let own = self.get_platform();
        if same_text(idiom, "mac") || !(platform.unicode_len() == 0 || same_text(platform, own)
            || same_text(platform, deployment_platform_name(own))) {
            return Ok(());
        }
        let ghost s = self.settings();
        let ghost start = g@;
        proof {
            reveal_with_fuel(icon_for_devices, 3);
        }
        if same_text(idiom, "universal") {
            let ghost first = device_icon(s, start, *info, filename@, *item, identifier, PHONE);
            match self.add_device_icon(g, sizes, info, filename, item, identifier, PHONE) {
                Ok(()) => {},
                Err(e) => {
                    return Err(e);
                },
            }
            let ghost middle = g@;
            let ghost second = device_icon(s, middle, *info, filename@, *item, identifier, PAD);
            match self.add_device_icon(g, sizes, info, filename, item, identifier, PAD) {
                Ok(()) => {},
                Err(e) => {
                    return Err(e);
                },
            }
            assert(sizes@ =~= old(sizes)@ + (Seq::<DeviceSize>::empty() + first.sizes
                + second.sizes));
            Ok(())
        } else {
            let number: u16 = idiom_value(idiom);
            let ghost only = device_icon(s, start, *info, filename@, *item, identifier, number);
            let result = self.add_device_icon(
                g,
                sizes,
                info,
                filename,
                item,
                identifier,
                number,
            );
            assert(Seq::<DeviceSize>::empty() + only.sizes =~= only.sizes);
            result
        }
    }

    /// The icons of a set for phones and pads.
    pub(crate) fn read_device_icons(
        &self,
        g: &mut Gathering,
        infos: &Vec<Json>,
        set: &Item,
        name: &str,
        identifier: u16,
    ) -> (result: Result<(), CatalogError>)
        requires
            old(g).facets.wf(),
        ensures
            final(g).facets.wf(),
            ends_as(
                result,
                final(g)@,
                device_icon_set(self.settings(), old(g)@, infos@, *set, name@, identifier),
            ),
    {
        let ghost start = g@;
        let mut sizes: Vec<DeviceSize> = Vec::new();
        let mut i: usize = 0;
        assert(sizes@ =~= Seq::empty());
        while i < infos.len()
            invariant
                i <= infos@.len(),
                g.facets.wf(),
                start == old(g)@,
                (DeviceOutcome { state: g@, sizes: sizes@, error: None }) == device_icons(
                    self.settings(),
                    start,
                    infos@,
                    i as nat,
                    *set,
                    identifier,
                ),
            decreases infos.len() - i,
        {
            match self.add_set_device_icon(g, &mut sizes, &infos[i], set, identifier) {
                Ok(()) => {},
                Err(e) => {
                    proof {
                        lemma_device_icons_stop(
                            self.settings(),
                            start,
                            infos@,
                            (i + 1) as nat,
                            infos@.len(),
                            *set,
                            identifier,
                        );
                    }
                    return Err(e);
                },
            }
            i = i + 1;
        }
        if sizes.len() > 0 {
            add_device_lists(g, name, identifier, &sizes);
            g.name(name, ELEMENT_UNIVERSAL, Some(PART_ICON), identifier);
        }
        Ok(())
    }
}

/// Reading an icon adds renditions behind those there were.
proof fn lemma_content_grows(
    s: Settings,
    g: Gathered,
    filename: Seq<char>,
    identifier: u16,
    item: Item,
    scale: u32,
    point_w: u32,
)
    ensures
        icon_content(s, g, filename, identifier, item, scale, point_w).state.renditions.len()
            >= g.renditions.len(),
{
}

} // verus!
