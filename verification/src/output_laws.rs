//! Which files come of a project, and what its parts contribute.

use vstd::prelude::*;

use crate::bytes::le16;
use crate::car::{ios_columns, mac_columns};
use crate::catalog::{
    catalog_set_icons, file_json, icon_uses, set_icon, set_icons, suffix_of, Gathered, IconModel,
    Settings,
};
use crate::compiler::{
    appearance_table, catalog_columns, some_dim1, some_dim2, some_direction, some_variant,
};
use crate::entries::{point_width, scale_of};
use crate::files::{
    child, extension, extension_dot, file_name_of, first_slash, item_at, item_below, joined, stem,
    Item,
};
use crate::json::{items_of, text_member, Json};
use crate::order::sorted_texts;
use crate::outputs::{
    brand_outputs, has_other_size, icon_bundle_outputs, icon_outputs, jpeg_copies, outputs_of,
    plist_languages, project_plist, OutputModel, Wishes,
};
use crate::part_laws::names_come_apart;
use crate::plist::{icon_plist, info_plist, ios_icon_plist, loose_icons, tvos_icon_plist, IconImage};
use crate::project::{
    languages_among, names_languages, with_catalog, with_new_texts, Project, ProjectModel,
};
use crate::rendition::Rendition;
use crate::set_laws::{begins_with, text_under};
use crate::table_laws::{ios_columns_are_in_order, mac_columns_are_in_order};

verus! {

/// A JPEG image is copied from where it is, under the name of its set and with its own
/// extension; without one it gets the usual one.
pub proof fn photos_are_copied(
    pairs: Seq<(Seq<char>, Seq<char>)>,
    i: int,
    base: Seq<char>,
    kind: Seq<char>,
)
    requires
        0 <= i < pairs.len(),
        base.len() > 0,
        !kind.contains('.'),
    ensures
        ({
            let out = jpeg_copies(pairs);
            &&& out.len() == pairs.len()
            &&& out[i] is Copy
            &&& out[i]->Copy_from == pairs[i].1
            &&& file_name_of(pairs[i].1) == base + seq!['.'] + kind ==> out[i]->Copy_to
                == pairs[i].0 + "."@ + kind
            &&& extension_dot(file_name_of(pairs[i].1), file_name_of(pairs[i].1).len() as int)
                is None ==> out[i]->Copy_to == pairs[i].0 + "."@ + "jpg"@
        }),
{
    names_come_apart(base, kind);
    let name = file_name_of(pairs[i].1);
    if name == base + seq!['.'] + kind {
        if extension_dot(name, name.len() as int) is None {
            assert(stem(name).len() == name.len());
        }
    }
}

/// On iOS and tvOS the home screen icons stand beside the archive; elsewhere one icon
/// file does, where it is wanted and there are images for it.
pub proof fn icons_stand_beside(
    platform: Seq<char>,
    name: Seq<char>,
    standalone: bool,
    icons: Seq<IconImage>,
    images: nat,
    i: int,
)
    ensures
        icon_outputs(platform, None, standalone, icons, images).len() == 0,
        ({
            let out = icon_outputs(platform, Some(name), standalone, icons, images);
            let devices = platform == "iphoneos"@ || platform == "iphonesimulator"@ || platform
                == "appletvos"@ || platform == "appletvsimulator"@;
            &&& devices ==> out.len() == loose_icons(icons, name).len()
            &&& devices && 0 <= i < out.len() ==> out[i] == OutputModel::Icon(
                loose_icons(icons, name)[i],
            )
            &&& !devices && standalone && images > 0 ==> out == seq![
                OutputModel::IconFile(name + ".icns"@),
            ]
            &&& !devices && !(standalone && images > 0) ==> out.len() == 0
        }),
{
}

/// The folders of brands are copied on tvOS, and nowhere else.
pub proof fn brands_are_copied(platform: Seq<char>, folders: Seq<Seq<char>>, i: int)
    requires
        0 <= i < folders.len(),
    ensures
        ({
            let out = brand_outputs(platform, folders);
            if platform == "appletvos"@ || platform == "appletvsimulator"@ {
                out.len() == folders.len() && out[i] == (OutputModel::Folder {
                    from: folders[i],
                    to: file_name_of(folders[i]),
                })
            } else {
                out.len() == 0
            }
        }),
{
}

/// The archive is among the outputs exactly where it is made.
pub proof fn archives_are_outputs(
    project: Project,
    archive: bool,
    folders: Seq<Seq<char>>,
    platform: Seq<char>,
    wishes: Wishes,
)
    ensures
        outputs_of(project, archive, folders, platform, wishes).contains(OutputModel::Archive)
            <==> archive,
{
    let out = outputs_of(project, archive, folders, platform, wishes);
    let first = jpeg_copies(crate::catalog::text_pairs(project.loose_jpegs@)) + icon_outputs(
        platform,
        crate::outputs::wish(wishes.app_icon),
        wishes.standalone_icon,
        project.icons@,
        project.icon_files@.len(),
    );
    if archive {
        assert(out[first.len() as int] is Archive);
    }
    assert forall|i: int| 0 <= i < out.len() && #[trigger] out[i] is Archive implies archive by {
        if i < first.len() {
            assert(first[i] == out[i]);
        }
    }
    if out.contains(OutputModel::Archive) {
        let i = choose|i: int| 0 <= i < out.len() && out[i] == OutputModel::Archive;
        assert(out[i] is Archive);
    }
}

/// The property list of a project is the one of its platform.
pub proof fn plists_are_by_platform(
    platform: Seq<char>,
    icon: Option<Seq<char>>,
    accent: Option<Seq<char>>,
    widget: Option<Seq<char>>,
    languages: Seq<Seq<char>>,
    icons: Seq<IconImage>,
)
    ensures
        ({
            let out = project_plist(platform, icon, accent, widget, languages, icons);
            &&& icon is Some && (platform == "appletvos"@ || platform == "appletvsimulator"@)
                ==> out == tvos_icon_plist(icon->0)
            &&& icon is Some && (platform == "iphoneos"@ || platform == "iphonesimulator"@)
                ==> out == ios_icon_plist(icons, icon->0)
            &&& icon is None || platform == "macosx"@ ==> out == info_plist(
                icon,
                accent,
                widget,
                languages,
            )
        }),
{
    reveal_strlit("macosx");
    reveal_strlit("iphoneos");
    reveal_strlit("iphonesimulator");
    reveal_strlit("appletvos");
    reveal_strlit("appletvsimulator");
    assert("macosx"@.len() == 6);
    assert("iphoneos"@.len() == 8);
    assert("iphonesimulator"@.len() == 15);
    assert("appletvos"@.len() == 9);
    assert("appletvsimulator"@.len() == 16);
}

/// The property list names the languages where it is asked to.
pub proof fn plists_name_wanted_languages(locales: Seq<Seq<char>>)
    ensures
        plist_languages(locales, true) == sorted_texts(locales),
        plist_languages(locales, false).len() == 0,
{
}

/// The archive of an icon goes with its icon file where the app has that icon, and with
/// a property list where it is asked for.
pub proof fn icon_bundles_have_outputs(name: Seq<char>, matches: bool, plist: bool)
    ensures
        ({
            let out = icon_bundle_outputs(name, matches, plist);
            &&& out.contains(OutputModel::Archive)
            &&& out.contains(OutputModel::IconFile(name + ".icns"@)) <==> matches
            &&& plist && matches ==> out.last() == OutputModel::Plist(icon_plist(Some(name)))
            &&& plist && !matches ==> out.last() == OutputModel::Plist(icon_plist(None))
            &&& !plist ==> forall|i: int| 0 <= i < out.len() ==> !(#[trigger] out[i] is Plist)
        }),
{
    let out = icon_bundle_outputs(name, matches, plist);
    if matches {
        assert(out.contains(out[0]));
        assert(out.contains(out[1]));
    } else {
        assert(out.contains(out[0]));
    }
}

/// An icon is brought to its size unless it has it: its points times its scale, both
/// ways.
pub proof fn icons_are_brought_to_size(width: u32, height: u32, points: u32, scale: u32)
    ensures
        has_other_size(None, points, scale) == false,
        !has_other_size(Some((width, height)), points, scale) <==> width == points * scale && height
            == points * scale,
{
}

/// The languages of a command line are its arguments that are not empty; without any,
/// all languages are meant.
pub proof fn languages_are_picked(arguments: Seq<Seq<char>>, i: int)
    requires
        0 <= i < arguments.len(),
    ensures
        arguments[i].len() > 0 ==> languages_among(arguments) is Some && languages_among(
            arguments,
        )->0.contains(arguments[i]),
        languages_among(arguments) is Some ==> forall|j: int|
            0 <= j < languages_among(arguments)->0.len() ==> (#[trigger] languages_among(
                arguments,
            )->0[j]).len() > 0,
{
    let wanted = |a: Seq<char>| a.len() > 0;
    let named = arguments.filter(wanted);
    assert forall|j: int| 0 <= j < named.len() implies (#[trigger] named[j]).len() > 0 by {
        arguments.lemma_filter_pred(wanted, j);
    }
    if arguments[i].len() > 0 {
        arguments.lemma_filter_contains(wanted, i);
        assert(named.contains(arguments[i]));
    }
}

/// Languages are named unless the argument is a no.
pub proof fn languages_are_named(argument: Seq<char>)
    ensures
        names_languages("YES"@),
        !names_languages("NO"@),
        !names_languages("no"@),
        argument.len() != 2 ==> names_languages(argument),
{
    reveal_strlit("YES");
    reveal_strlit("NO");
    reveal_strlit("no");
}

/// What a catalog holds follows what was there: renditions, JPEG images, icon files and
/// icons, each in order.
pub proof fn catalogs_add_up(
    p: ProjectModel,
    found: Gathered,
    icon_files: Seq<(Seq<char>, nat, u32)>,
    icons: Seq<IconModel>,
)
    ensures
        ({
            let q = with_catalog(p, found, icon_files, icons);
            &&& q.renditions.take(p.renditions.len() as int) == p.renditions
            &&& q.renditions.skip(p.renditions.len() as int) == found.renditions
            &&& q.loose_jpegs.take(p.loose_jpegs.len() as int) == p.loose_jpegs
            &&& q.loose_jpegs.skip(p.loose_jpegs.len() as int) == found.loose_jpegs
            &&& q.icon_files.take(p.icon_files.len() as int) == p.icon_files
            &&& q.icon_files.skip(p.icon_files.len() as int) == icon_files
            &&& q.icons.take(p.icons.len() as int) == p.icons
            &&& q.icons.skip(p.icons.len() as int) == icons
        }),
{
    let q = with_catalog(p, found, icon_files, icons);
    assert(q.renditions.take(p.renditions.len() as int) =~= p.renditions);
    assert(q.renditions.skip(p.renditions.len() as int) =~= found.renditions);
    assert(q.loose_jpegs.take(p.loose_jpegs.len() as int) =~= p.loose_jpegs);
    assert(q.loose_jpegs.skip(p.loose_jpegs.len() as int) =~= found.loose_jpegs);
    assert(q.icon_files.take(p.icon_files.len() as int) =~= p.icon_files);
    assert(q.icon_files.skip(p.icon_files.len() as int) =~= icon_files);
    assert(q.icons.take(p.icons.len() as int) =~= p.icons);
    assert(q.icons.skip(p.icons.len() as int) =~= icons);
}

/// Texts that are added are there afterwards, each once.
pub proof fn texts_are_added_once(all: Seq<Seq<char>>, more: Seq<Seq<char>>, n: nat, i: int)
    requires
        n <= more.len(),
        0 <= i < n,
    ensures
        with_new_texts(all, more, n).contains(more[i]),
        begins_with(with_new_texts(all, more, n), all),
        all.no_duplicates() ==> with_new_texts(all, more, n).no_duplicates(),
    decreases n,
{
    let before = with_new_texts(all, more, (n - 1) as nat);
    let now = with_new_texts(all, more, n);
    if n > 1 {
        let j = if i < n - 1 {
            i
        } else {
            0
        };
        texts_are_added_once(all, more, (n - 1) as nat, j);
    }
    if i < n - 1 {
        let k = choose|k: int| 0 <= k < before.len() && before[k] == more[i];
        assert(now[k] == more[i]);
    } else if !before.contains(more[i]) {
        assert(now[before.len() as int] == more[i]);
    }
}

/// An image of the icon set that was asked for is told with its path, its extension, its
/// device, its size in points and its scale.
pub proof fn set_icons_are_told(
    info: Json,
    set: Item,
    dir: Seq<char>,
    filename: Seq<char>,
    points: u32,
)
    requires
        text_member(info, "filename"@) == Some(filename),
        item_at(set, filename) is Some,
        point_width(info) == Some(points),
    ensures
        ({
            let icon = set_icon(info, set, dir)->0;
            &&& set_icon(info, set, dir) is Some
            &&& icon.path == joined(dir, filename)
            &&& icon.extension == suffix_of(joined(dir, filename))
            &&& icon.idiom == text_under(info, "idiom"@, "universal"@)
            &&& icon.point_w == points
            &&& icon.scale == scale_of(info)
        }),
{
}

/// On iOS an image for all devices serves the home screens of phone and pad, in their
/// sizes; any other serves its own device.
pub proof fn icons_serve_devices(platform: Seq<char>, icon: IconModel)
    ensures
        ({
            let uses = icon_uses(platform, icon);
            if (platform == "iphoneos"@ || platform == "iphonesimulator"@) && icon.idiom
                == "universal"@ {
                &&& uses.len() == 2
                &&& uses[0] == IconModel { idiom: "iphone"@, point_w: 60, scale: 2, ..icon }
                &&& uses[1] == IconModel { idiom: "ipad"@, point_w: 76, scale: 2, ..icon }
            } else {
                uses == seq![icon]
            }
        }),
{
    reveal_strlit("iphone");
    reveal_strlit("ipad");
    assert("iphone"@.len() == 6 && "ipad"@.len() == 4);
}

/// The icon set that was asked for is looked up by its name.
pub proof fn asked_icons_are_looked_up(
    s: Settings,
    item: Item,
    path: Seq<char>,
    name: Seq<char>,
    set: Item,
    file: Item,
    contents: Json,
)
    requires
        s.app_icon == Some(name),
        item_at(item, name + ".appiconset"@) == Some(set),
        item_at(set, "Contents.json"@) == Some(file),
        file_json(file) == Some(contents),
    ensures
        ({
            let infos = items_of(contents, "images"@);
            &&& catalog_set_icons(s, Some(item), path) is Ok
            &&& catalog_set_icons(s, Some(item), path)->Ok_0 == set_icons(
                s.platform,
                infos,
                infos.len(),
                set,
                joined(path, name + ".appiconset"@),
            )
        }),
{
}

/// The first entry of a name in a folder is what the name leads to.
pub proof fn names_lead_to_entries(entries: Vec<(String, Item)>, name: Seq<char>, i: int)
    requires
        0 <= i < entries@.len(),
        entries@[i].0@ == name,
        forall|j: int| 0 <= j < i ==> (#[trigger] entries@[j]).0@ != name,
        name.len() > 0,
        !name.contains('/'),
        name != "."@,
        name != ".."@,
    ensures
        item_at(Item::Folder(entries), name) == Some(entries@[i].1),
{
    let item = Item::Folder(entries);
    lemma_child(entries@, name, 0, i);
    crate::files::lemma_first_slash(name);
    let at = first_slash(name);
    if at < name.len() {
        assert(name.contains(name[at]));
    }
    assert(name.take(at) =~= name);
    assert(crate::files::behind_slash(name) =~= Seq::<char>::empty());
    assert(!crate::files::goes_up(crate::files::behind_slash(name)));
    assert(!crate::files::goes_up(name));
    assert(name[0] != '/') by {
        assert(name.contains(name[0]));
    }
    assert(child(item, name) == Some(entries@[i].1));
    assert(item_below(entries@[i].1, Seq::empty()) == Some(entries@[i].1));
}

proof fn lemma_child(entries: Seq<(String, Item)>, name: Seq<char>, from: int, i: int)
    requires
        0 <= from <= i < entries.len(),
        entries[i].0@ == name,
        forall|j: int| from <= j < i ==> (#[trigger] entries[j]).0@ != name,
    ensures
        crate::files::child_from(entries, name, from) == Some(entries[i].1),
    decreases i - from,
{
    if from < i {
        lemma_child(entries, name, from + 1, i);
    }
}

/// The appearances of an archive: without one that is used, iOS and tvOS have the one
/// for any, and the Mac has no table.
pub proof fn appearances_are_listed(platform: Seq<char>)
    ensures
        ({
            let devices = platform == "iphoneos"@ || platform == "iphonesimulator"@ || platform
                == "appletvos"@ || platform == "appletvsimulator"@;
            let used = appearance_table(platform, true);
            let unused = appearance_table(platform, false);
            &&& used is Some
            &&& used->0.len() == 2
            &&& devices ==> unused is Some && unused->0.len() == 1 && unused->0[0] == used->0[0]
            &&& devices ==> used->0[0].1 == le16(0) && used->0[1].1 == le16(1)
            &&& !devices ==> unused is None
            &&& !devices ==> used->0[0].1 == le16(1) && used->0[1].1 == le16(0)
        }),
{
}

proof fn lemma_mac_columns(direction: bool, dim1: bool, dim2: bool, variant: bool)
    ensures
        ({
            let m = mac_columns(direction, dim1, dim2, variant);
            &&& m.contains(4) <==> direction
            &&& m.contains(8) <==> dim1
            &&& m.contains(9) <==> dim2
            &&& m.contains(24) <==> variant
        }),
{
    let m = mac_columns(direction, dim1, dim2, variant);
    mac_columns_are_in_order(direction, dim1, dim2, variant);
    let at = if direction {
        7int
    } else {
        6int
    };
    if direction {
        assert(m[5] == 4);
    }
    if dim1 {
        assert(m[at] == 8);
    }
    if dim2 {
        assert(m[if dim1 {
            at + 1
        } else {
            at
        }] == 9);
    }
    if variant {
        assert(m[m.len() - 1] == 24);
    }
}

proof fn lemma_ios_columns(dim1: bool, dim2: bool)
    ensures
        ({
            let m = ios_columns(dim1, dim2);
            &&& m.contains(8) <==> dim1
            &&& m.contains(9) <==> dim2
        }),
{
    let m = ios_columns(dim1, dim2);
    ios_columns_are_in_order(dim1, dim2);
    if dim2 {
        assert(m[5] == 9);
    }
    if dim1 {
        assert(m[if dim2 {
            6int
        } else {
            5int
        }] == 8);
    }
}

/// The keys of the Mac have a column for a direction, a dimension or a variant exactly
/// where some rendition has one.
pub proof fn columns_are_there_where_used(rs: Seq<Rendition>, force: bool)
    ensures
        ({
            let m = catalog_columns(rs, "macosx"@, force);
            &&& m.contains(4) <==> exists|i: int|
                0 <= i < rs.len() && (#[trigger] rs[i]).direction != 0
            &&& m.contains(8) <==> force || exists|i: int|
                0 <= i < rs.len() && (#[trigger] rs[i]).dim1 != 0
            &&& m.contains(9) <==> exists|i: int|
                0 <= i < rs.len() && (#[trigger] rs[i]).dim2 != 0
            &&& m.contains(24) <==> exists|i: int|
                0 <= i < rs.len() && (#[trigger] rs[i]).variant != 0
        }),
{
    reveal_strlit("macosx");
    reveal_strlit("iphoneos");
    reveal_strlit("iphonesimulator");
    reveal_strlit("appletvos");
    reveal_strlit("appletvsimulator");
    assert("macosx"@.len() == 6);
    assert("iphoneos"@.len() == 8);
    assert("iphonesimulator"@.len() == 15);
    assert("appletvos"@.len() == 9);
    assert("appletvsimulator"@.len() == 16);
    lemma_mac_columns(
        some_direction(rs),
        force || some_dim1(rs),
        some_dim2(rs),
        some_variant(rs),
    );
}

/// The keys of phones, pads and televisions have a column for a dimension exactly where
/// some rendition has one.
pub proof fn device_columns_are_there_where_used(
    rs: Seq<Rendition>,
    platform: Seq<char>,
    force: bool,
)
    requires
        platform == "iphoneos"@ || platform == "iphonesimulator"@ || platform == "appletvos"@
            || platform == "appletvsimulator"@,
    ensures
        ({
            let m = catalog_columns(rs, platform, force);
            &&& m.contains(8) <==> force || exists|i: int|
                0 <= i < rs.len() && (#[trigger] rs[i]).dim1 != 0
            &&& m.contains(9) <==> exists|i: int|
                0 <= i < rs.len() && (#[trigger] rs[i]).dim2 != 0
        }),
{
    lemma_ios_columns(force || some_dim1(rs), some_dim2(rs));
}

} // verus!
