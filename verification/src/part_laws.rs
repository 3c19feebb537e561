//! What the parts of sprite atlases, image stacks and brands are called and hold, and
//! where the entries of a catalog are read.

use vstd::prelude::*;

use crate::catalog::{
    app_icon_set, asset_part, atlas_entry, brand_asset, brand_set, catalog_entries, catalog_set,
    color_set, data_set, file_json, group_namespace, icon_set, image_set, image_stack,
    loaded_file, part_image, part_images, sprite_atlas, stack_layer, Gathered, Outcome, Settings,
};
use crate::entries::scale_of;
use crate::facets::Facet;
use crate::files::{
    extension, extension_dot, file_name_of, item_at, joined, listing, stem, Item,
};
use crate::json::{is_set, items_of, member, text_member, Json};
use crate::naming::value_of;
use crate::rendition::RenditionModel;
use crate::set_laws::{begins_with, lemma_named, names, text_under};

verus! {

/// A name and its extension come apart at the last dot.
pub proof fn names_come_apart(base: Seq<char>, kind: Seq<char>)
    requires
        base.len() > 0,
        !kind.contains('.'),
    ensures
        stem(base + seq!['.'] + kind) == base,
        extension(base + seq!['.'] + kind) == kind,
{
    let name = base + seq!['.'] + kind;
    lemma_dot(name, base.len() as int, name.len() as int);
    assert(name.take(base.len() as int) =~= base);
    assert(name.skip(base.len() as int + 1) =~= kind);
}

proof fn lemma_dot(name: Seq<char>, at: int, len: int)
    requires
        1 <= at < len <= name.len(),
        name[at] == '.',
        forall|i: int| at < i < len ==> #[trigger] name[i] != '.',
    ensures
        extension_dot(name, len) == Some(at),
    decreases len,
{
    if at < len - 1 {
        lemma_dot(name, at, len - 1);
    }
}

proof fn lemma_no_dot(name: Seq<char>, len: int)
    requires
        0 <= len <= name.len(),
        forall|i: int| 1 <= i < len ==> #[trigger] name[i] != '.',
    ensures
        extension_dot(name, len) is None,
    decreases len,
{
    if len > 1 {
        lemma_no_dot(name, len - 1);
    }
}

/// A name without a dot behind its first character has no extension.
pub proof fn plain_names_stay_whole(name: Seq<char>)
    requires
        forall|i: int| 1 <= i < name.len() ==> #[trigger] name[i] != '.',
    ensures
        stem(name) == name,
        extension(name).len() == 0,
{
    lemma_no_dot(name, name.len() as int);
}

/// A path in a folder is behind the folder's, with one slash between; a path from the
/// root stands for itself.
pub proof fn paths_are_joined(dir: Seq<char>, path: Seq<char>)
    ensures
        path.len() > 0 && path[0] == '/' ==> joined(dir, path) == path,
        (path.len() == 0 || path[0] != '/') && dir.len() > 0 && dir.last() != '/' ==> {
            &&& joined(dir, path).take(dir.len() as int) == dir
            &&& joined(dir, path)[dir.len() as int] == '/'
            &&& joined(dir, path).skip(dir.len() as int + 1) == path
        },
        (path.len() == 0 || path[0] != '/') && dir.len() > 0 && dir.last() == '/' ==> {
            &&& joined(dir, path).take(dir.len() as int) == dir
            &&& joined(dir, path).skip(dir.len() as int) == path
        },
        dir.len() == 0 ==> joined(dir, path) == path,
{
    reveal_strlit("/");
    let all = joined(dir, path);
    if (path.len() == 0 || path[0] != '/') && dir.len() > 0 {
        assert(all.take(dir.len() as int) =~= dir);
        if dir.last() == '/' {
            assert(all.skip(dir.len() as int) =~= path);
        } else {
            assert(all.skip(dir.len() as int + 1) =~= path);
        }
    }
    if dir.len() == 0 {
        assert(joined(dir, path) =~= path);
    }
}

/// The extension of an entry of a catalog tells what kind of set it is.
pub proof fn extensions_tell_the_set<H: Fn(&str) -> u16, C: Fn(&str) -> u64>(
    s: Settings,
    hash: H,
    component: C,
    g: Gathered,
    entry: (String, Item),
    dir: Seq<char>,
    namespace: Seq<char>,
    base: Seq<char>,
)
    requires
        base.len() > 0,
    ensures
        ({
            let out = catalog_set(s, hash, component, g, entry, dir, namespace);
            let path = joined(dir, entry.0@);
            &&& entry.0@ == base + ".imageset"@ ==> out == image_set(
                s,
                hash,
                g,
                entry.1,
                path,
                base,
                namespace,
            )
            &&& entry.0@ == base + ".appiconset"@ ==> out == app_icon_set(
                s,
                hash,
                g,
                entry.1,
                base,
            )
            &&& entry.0@ == base + ".iconset"@ ==> out == icon_set(
                s,
                hash,
                g,
                entry.1,
                base,
                namespace,
            )
            &&& entry.0@ == base + ".colorset"@ ==> out == color_set(
                s,
                hash,
                component,
                g,
                entry.1,
                base,
                namespace,
            )
        }),
{
    reveal(catalog_set);
    lemma_kinds_differ();
    lemma_kind(base, ".imageset"@, "imageset"@);
    lemma_kind(base, ".appiconset"@, "appiconset"@);
    lemma_kind(base, ".iconset"@, "iconset"@);
    lemma_kind(base, ".colorset"@, "colorset"@);
}

/// The extension of an entry of a catalog tells what kind of set it is: the other kinds.
pub proof fn extensions_tell_the_asset<H: Fn(&str) -> u16, C: Fn(&str) -> u64>(
    s: Settings,
    hash: H,
    component: C,
    g: Gathered,
    entry: (String, Item),
    dir: Seq<char>,
    namespace: Seq<char>,
    base: Seq<char>,
)
    requires
        base.len() > 0,
    ensures
        ({
            let out = catalog_set(s, hash, component, g, entry, dir, namespace);
            &&& entry.0@ == base + ".dataset"@ ==> out == data_set(
                s,
                hash,
                g,
                entry.1,
                base,
                namespace,
            )
            &&& entry.0@ == base + ".spriteatlas"@ ==> out == sprite_atlas(
                s,
                hash,
                g,
                entry.1,
                base,
            )
            &&& entry.0@ == base + ".imagestack"@ ==> out == image_stack(
                s,
                hash,
                g,
                entry.1,
                base,
            )
            &&& entry.0@ == base + ".brandassets"@ ==> out == brand_set(
                s,
                hash,
                g,
                entry.1,
                base,
            )
            &&& extension(entry.0@).len() == 0 ==> out.state == g && out.error is None
        }),
{
    reveal(catalog_set);
    lemma_kinds_differ();
    lemma_kind(base, ".dataset"@, "dataset"@);
    lemma_kind(base, ".spriteatlas"@, "spriteatlas"@);
    lemma_kind(base, ".imagestack"@, "imagestack"@);
    lemma_kind(base, ".brandassets"@, "brandassets"@);
}

/// The kinds of sets have different names, without a dot.
proof fn lemma_kinds_differ()
    ensures
        "imageset"@.len() == 8 && "imageset"@[0] == 'i',
        "appiconset"@.len() == 10 && "appiconset"@[0] == 'a',
        "iconset"@.len() == 7 && "iconset"@[0] == 'i',
        "colorset"@.len() == 8 && "colorset"@[0] == 'c',
        "dataset"@.len() == 7 && "dataset"@[0] == 'd',
        "spriteatlas"@.len() == 11 && "spriteatlas"@[0] == 's',
        "imagestack"@.len() == 10 && "imagestack"@[0] == 'i',
        "brandassets"@.len() == 11 && "brandassets"@[0] == 'b',
        ".imageset"@ == seq!['.'] + "imageset"@ && !"imageset"@.contains('.'),
        ".appiconset"@ == seq!['.'] + "appiconset"@ && !"appiconset"@.contains('.'),
        ".iconset"@ == seq!['.'] + "iconset"@ && !"iconset"@.contains('.'),
        ".colorset"@ == seq!['.'] + "colorset"@ && !"colorset"@.contains('.'),
        ".dataset"@ == seq!['.'] + "dataset"@ && !"dataset"@.contains('.'),
        ".spriteatlas"@ == seq!['.'] + "spriteatlas"@ && !"spriteatlas"@.contains('.'),
        ".imagestack"@ == seq!['.'] + "imagestack"@ && !"imagestack"@.contains('.'),
        ".brandassets"@ == seq!['.'] + "brandassets"@ && !"brandassets"@.contains('.'),
{
    reveal_strlit("imageset");
    reveal_strlit("appiconset");
    reveal_strlit("iconset");
    reveal_strlit("colorset");
    reveal_strlit("dataset");
    reveal_strlit("spriteatlas");
    reveal_strlit("imagestack");
    reveal_strlit("brandassets");
    reveal_strlit(".imageset");
    reveal_strlit(".appiconset");
    reveal_strlit(".iconset");
    reveal_strlit(".colorset");
    reveal_strlit(".dataset");
    reveal_strlit(".spriteatlas");
    reveal_strlit(".imagestack");
    reveal_strlit(".brandassets");
}

proof fn lemma_kind(base: Seq<char>, dotted: Seq<char>, kind: Seq<char>)
    requires
        base.len() > 0,
        dotted == seq!['.'] + kind,
        !kind.contains('.'),
    ensures
        stem(base + dotted) == base,
        extension(base + dotted) == kind,
{
    names_come_apart(base, kind);
    assert(base + dotted =~= base + seq!['.'] + kind);
}

/// A group that provides a namespace adds its name and a slash to the prefix of the
/// names in it; any other group adds nothing.
pub proof fn groups_provide_namespaces(
    group: Item,
    name: Seq<char>,
    namespace: Seq<char>,
    file: Item,
    contents: Json,
    properties: Json,
)
    requires
        item_at(group, "Contents.json"@) == Some(file),
        file_json(file) == Some(contents),
    ensures
        member(contents, "properties"@) == Some(properties) && is_set(
            properties,
            "provides-namespace"@,
        ) ==> group_namespace(group, name, namespace) == namespace + name + seq!['/'],
        member(contents, "properties"@) == Some(properties) && !is_set(
            properties,
            "provides-namespace"@,
        ) ==> group_namespace(group, name, namespace) == namespace,
        member(contents, "properties"@) is None ==> group_namespace(group, name, namespace)
            == namespace,
{
    reveal_strlit("/");
    assert("/"@ =~= seq!['/']);
}

/// A folder without an extension is a group: its entries are read in its place, under
/// its prefix.
pub proof fn groups_are_entered<H: Fn(&str) -> u16, C: Fn(&str) -> u64>(
    s: Settings,
    hash: H,
    component: C,
    g: Gathered,
    entries: Seq<(String, Item)>,
    n: nat,
    dir: Seq<char>,
    namespace: Seq<char>,
    inner: Vec<(String, Item)>,
)
    requires
        n < entries.len(),
        0 <= listing(entries)[n as int] < entries.len(),
        entries[listing(entries)[n as int] as int].1 == Item::Folder(inner),
        extension(entries[listing(entries)[n as int] as int].0@).len() == 0,
        catalog_entries(s, hash, component, g, entries, n, dir, namespace).error is None,
    ensures
        ({
            let entry = entries[listing(entries)[n as int] as int];
            let before = catalog_entries(s, hash, component, g, entries, n, dir, namespace);
            let out = catalog_entries(s, hash, component, g, entries, n + 1, dir, namespace);
            let within = catalog_entries(
                s,
                hash,
                component,
                before.state,
                inner@,
                inner@.len(),
                joined(dir, entry.0@),
                group_namespace(entry.1, entry.0@, namespace),
            );
            out.state == within.state && out.error == within.error
        }),
{
}

/// Any other entry is read as a set.
pub proof fn sets_are_read<H: Fn(&str) -> u16, C: Fn(&str) -> u64>(
    s: Settings,
    hash: H,
    component: C,
    g: Gathered,
    entries: Seq<(String, Item)>,
    n: nat,
    dir: Seq<char>,
    namespace: Seq<char>,
)
    requires
        n < entries.len(),
        0 <= listing(entries)[n as int] < entries.len(),
        extension(entries[listing(entries)[n as int] as int].0@).len() > 0,
        catalog_entries(s, hash, component, g, entries, n, dir, namespace).error is None,
    ensures
        ({
            let entry = entries[listing(entries)[n as int] as int];
            let before = catalog_entries(s, hash, component, g, entries, n, dir, namespace);
            let out = catalog_entries(s, hash, component, g, entries, n + 1, dir, namespace);
            let read = catalog_set(s, hash, component, before.state, entry, dir, namespace);
            out.state == read.state && out.error == read.error
        }),
{
}

/// An image that belongs to a larger asset is stored in pixels, behind what was there.
pub proof fn parts_are_stored(
    s: Settings,
    g: Gathered,
    info: Json,
    set: Item,
    identifier: u16,
    atlas: u16,
    filename: Seq<char>,
    item: Item,
    image: (Seq<u8>, u32, u32, Seq<u8>),
)
    requires
        text_member(info, "filename"@) == Some(filename),
        item_at(set, filename) == Some(item),
        loaded_file(item, filename, s.force_bgra) == Ok::<
            (Seq<u8>, u32, u32, Seq<u8>),
            crate::catalog::CatalogError,
        >(image),
    ensures
        ({
            let out = part_image(s, g, info, set, identifier, atlas, false);
            let r = out.state.renditions.last();
            &&& out.error is None
            &&& out.state.renditions.len() == g.renditions.len() + 1
            &&& begins_with(out.state.renditions, g.renditions)
            &&& r.name == filename
            &&& r.identifier == identifier
            &&& r.sprite_atlas_id == atlas
            &&& r.part == 181
            &&& r.idiom == 0
            &&& r.scale == scale_of(info) as u16
            &&& r.pixel_data == image.0
            &&& r.width == image.1
            &&& r.height == image.2
            &&& r.pixel_format == image.3
        }),
{
}

/// A layer of an image stack is stored in pixels, gray where it can be; on the Mac one
/// for another device is skipped.
pub proof fn layers_are_stored(
    s: Settings,
    g: Gathered,
    info: Json,
    set: Item,
    identifier: u16,
    filename: Seq<char>,
    item: Item,
    image: (Seq<u8>, u32, u32, Seq<u8>),
)
    requires
        text_member(info, "filename"@) == Some(filename),
        item_at(set, filename) == Some(item),
        loaded_file(item, filename, false) == Ok::<
            (Seq<u8>, u32, u32, Seq<u8>),
            crate::catalog::CatalogError,
        >(image),
    ensures
        ({
            let out = part_image(s, g, info, set, identifier, 0, true);
            let r = out.state.renditions.last();
            let idiom = text_under(info, "idiom"@, "universal"@);
            if s.platform == "macosx"@ && idiom != "mac"@ && idiom != "universal"@ {
                out.error is None && out.state == g
            } else {
                &&& out.error is None
                &&& out.state.renditions.len() == g.renditions.len() + 1
                &&& begins_with(out.state.renditions, g.renditions)
                &&& r.name == filename
                &&& r.identifier == identifier
                &&& r.part == 181
                &&& r.scale == scale_of(info) as u16
                &&& r.pixel_data == image.0
                &&& r.width == image.1
                &&& r.height == image.2
                &&& r.pixel_format == image.3
            }
        }),
{
}

/// Whether renditions from `from` on belong to an asset.
pub open spec fn belong(rs: Seq<RenditionModel>, from: int, identifier: u16, atlas: u16) -> bool {
    forall|i: int|
        from <= i < rs.len() ==> (#[trigger] rs[i]).identifier == identifier
            && rs[i].sprite_atlas_id == atlas && rs[i].part == 181
}

/// The images of a part of an asset follow what was there, and belong to the part.
pub proof fn parts_belong_to_their_asset(
    s: Settings,
    g: Gathered,
    infos: Seq<Json>,
    n: nat,
    set: Item,
    identifier: u16,
    atlas: u16,
    layered: bool,
)
    ensures
        ({
            let out = part_images(s, g, infos, n, set, identifier, atlas, layered);
            &&& begins_with(out.state.renditions, g.renditions)
            &&& belong(out.state.renditions, g.renditions.len() as int, identifier, atlas)
            &&& out.state.facets == g.facets
        }),
    decreases n,
{
    if n > 0 {
        parts_belong_to_their_asset(
            s,
            g,
            infos,
            (n - 1) as nat,
            set,
            identifier,
            atlas,
            layered,
        );
    }
}

/// A part of an asset bears its name.
pub proof fn parts_are_named(
    s: Settings,
    g: Gathered,
    set: Item,
    facet: Seq<char>,
    identifier: u16,
    atlas: u16,
    layered: bool,
    file: Item,
    contents: Json,
)
    requires
        item_at(set, "Contents.json"@) == Some(file),
        file_json(file) == Some(contents),
    ensures
        ({
            let out = asset_part(s, g, set, facet, identifier, atlas, layered);
            &&& begins_with(out.state.renditions, g.renditions)
            &&& belong(out.state.renditions, g.renditions.len() as int, identifier, atlas)
            &&& out.error is None ==> names(
                out.state.facets,
                facet,
                85,
                Some(181u16),
                identifier,
            )
        }),
{
    let infos = items_of(contents, "images"@);
    let n = infos.len();
    parts_belong_to_their_asset(s, g, infos, n, set, identifier, atlas, layered);
    let out = part_images(s, g, infos, n, set, identifier, atlas, layered);
    lemma_named(
        out.state.facets,
        facet,
        (Facet { element: 85, part: Some(181u16), identifier }),
    );
}

/// A sprite is named after its atlas and its image set, with a slash between, and its
/// images belong to both; other entries are no sprites.
pub proof fn sprites_are_named<H: Fn(&str) -> u16>(
    s: Settings,
    hash: H,
    g: Gathered,
    entry: (String, Item),
    name: Seq<char>,
    base: Seq<char>,
    file: Item,
    contents: Json,
)
    requires
        item_at(entry.1, "Contents.json"@) == Some(file),
        file_json(file) == Some(contents),
        base.len() > 0,
    ensures
        ({
            let out = atlas_entry(s, hash, g, entry, name);
            let facet = name + seq!['/'] + base;
            let identifier = value_of(hash, facet);
            &&& entry.0@ == base + ".imageset"@ ==> {
                &&& begins_with(out.state.renditions, g.renditions)
                &&& belong(
                    out.state.renditions,
                    g.renditions.len() as int,
                    identifier,
                    value_of(hash, name),
                )
                &&& out.error is None ==> names(
                    out.state.facets,
                    facet,
                    85,
                    Some(181u16),
                    identifier,
                )
            }
            &&& extension(entry.0@) != "imageset"@ ==> out.state == g && out.error is None
        }),
{
    lemma_kinds_differ();
    lemma_kind(base, ".imageset"@, "imageset"@);
    reveal_strlit("/");
    assert("/"@ =~= seq!['/']);
    let facet = name + seq!['/'] + base;
    parts_are_named(
        s,
        g,
        entry.1,
        facet,
        value_of(hash, facet),
        value_of(hash, name),
        false,
        file,
        contents,
    );
}

/// A layer of an image stack is named after its stack and its file.
pub proof fn layers_are_named<H: Fn(&str) -> u16>(
    s: Settings,
    hash: H,
    g: Gathered,
    layer: Json,
    stack: Item,
    name: Seq<char>,
    filename: Seq<char>,
    item: Item,
    content: Item,
    file: Item,
    contents: Json,
)
    requires
        text_member(layer, "filename"@) == Some(filename),
        item_at(stack, filename) == Some(item),
        item_at(item, "Content.imageset"@) == Some(content),
        item_at(content, "Contents.json"@) == Some(file),
        file_json(file) == Some(contents),
    ensures
        ({
            let out = stack_layer(s, hash, g, layer, stack, name);
            let facet = name + "/"@ + stem(file_name_of(filename)) + "/Content"@;
            let identifier = value_of(hash, facet);
            &&& begins_with(out.state.renditions, g.renditions)
            &&& belong(out.state.renditions, g.renditions.len() as int, identifier, 0)
            &&& out.error is None ==> names(
                out.state.facets,
                facet,
                85,
                Some(181u16),
                identifier,
            )
        }),
{
    let facet = name + "/"@ + stem(file_name_of(filename)) + "/Content"@;
    parts_are_named(s, g, content, facet, value_of(hash, facet), 0, true, file, contents);
}

/// Of the assets of a brand, the image stacks are read, under the names of their files.
pub proof fn brands_hold_stacks<H: Fn(&str) -> u16>(
    s: Settings,
    hash: H,
    g: Gathered,
    asset: Json,
    brand: Item,
    filename: Seq<char>,
    stack: Item,
    base: Seq<char>,
)
    requires
        text_member(asset, "filename"@) == Some(filename),
        item_at(brand, filename) == Some(stack),
        base.len() > 0,
    ensures
        ({
            let out: Outcome = brand_asset(s, hash, g, asset, brand);
            &&& file_name_of(filename) == base + ".imagestack"@ ==> out == image_stack(
                s,
                hash,
                g,
                stack,
                base,
            )
            &&& extension(file_name_of(filename)) != "imagestack"@ ==> out.state == g
                && out.error is None
        }),
{
    lemma_kinds_differ();
    lemma_kind(base, ".imagestack"@, "imagestack"@);
}

} // verus!
