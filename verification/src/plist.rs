//! Property lists that an app bundle merges into its own, and the icon files they
//! name.

use vstd::prelude::*;

use crate::order::texts;
use crate::text::{decimal, put_decimal, put_str, same_text};

verus! {

/// What every property list begins with.
pub open spec fn plist_start() -> Seq<char> {
    "<?xml version=\"1.0\" encoding=\"UTF-8\"?>\n<!DOCTYPE plist PUBLIC \"-//Apple//DTD PLIST 1.0//EN\" \"http://www.apple.com/DTDs/PropertyList-1.0.dtd\">\n<plist version=\"1.0\">\n<dict>\n"@
}

/// What every property list ends with.
pub open spec fn plist_end() -> Seq<char> {
    "</dict>\n</plist>\n"@
}

/// A key, behind an indentation.
pub open spec fn key_line(indent: Seq<char>, key: Seq<char>) -> Seq<char> {
    indent + "<key>"@ + key + "</key>\n"@
}

/// A string, behind an indentation.
pub open spec fn string_line(indent: Seq<char>, value: Seq<char>) -> Seq<char> {
    indent + "<string>"@ + value + "</string>\n"@
}

/// Strings, one below the other.
pub open spec fn string_lines(indent: Seq<char>, values: Seq<Seq<char>>) -> Seq<char>
    decreases values.len(),
{
    if values.len() == 0 {
        Seq::empty()
    } else {
        string_lines(indent, values.drop_last()) + string_line(indent, values.last())
    }
}

/// A key with a list of strings, unless the list is empty.
pub open spec fn array_lines(
    indent: Seq<char>,
    inner: Seq<char>,
    key: Seq<char>,
    values: Seq<Seq<char>>,
) -> Seq<char> {
    if values.len() == 0 {
        Seq::empty()
    } else {
        key_line(indent, key) + (indent + "<array>\n"@) + string_lines(inner, values) + (indent
            + "</array>\n"@)
    }
}

/// A key with a string, unless there is none.
pub open spec fn optional_lines(key: Seq<char>, value: Option<Seq<char>>) -> Seq<char> {
    match value {
        Some(v) => key_line("\t"@, key) + string_line("\t"@, v),
        None => Seq::empty(),
    }
}

/// The view of an optional string.
pub open spec fn text_view(text: Option<&str>) -> Option<Seq<char>> {
    match text {
        Some(t) => Some(t@),
        None => None,
    }
}

/// The property list of a catalog: the icon, two colors, and the languages.
pub open spec fn info_plist(
    app_icon: Option<Seq<char>>,
    accent_color: Option<Seq<char>>,
    widget_background_color: Option<Seq<char>>,
    localizations: Seq<Seq<char>>,
) -> Seq<char> {
    plist_start() + optional_lines("CFBundleIconFile"@, app_icon) + optional_lines(
        "CFBundleIconName"@,
        app_icon,
    ) + optional_lines("NSAccentColorName"@, accent_color) + optional_lines(
        "NSWidgetBackgroundColorName"@,
        widget_background_color,
    ) + array_lines("\t"@, "\t\t"@, "CFBundleLocalizations"@, localizations) + plist_end()
}

pub(crate) fn new_plist() -> (out: String)
    ensures
        out@ == plist_start(),
{
    "<?xml version=\"1.0\" encoding=\"UTF-8\"?>\n<!DOCTYPE plist PUBLIC \"-//Apple//DTD PLIST 1.0//EN\" \"http://www.apple.com/DTDs/PropertyList-1.0.dtd\">\n<plist version=\"1.0\">\n<dict>\n".to_owned()
}

pub(crate) fn put_key(out: &mut String, indent: &str, key: &str)
    ensures
        final(out)@ == old(out)@ + key_line(indent@, key@),
{
    let ghost before = out@;
    put_str(out, indent);
    put_str(out, "<key>");
    put_str(out, key);
    put_str(out, "</key>\n");
    assert(out@ =~= before + key_line(indent@, key@));
}

pub(crate) fn put_string(out: &mut String, indent: &str, value: &str)
    ensures
        final(out)@ == old(out)@ + string_line(indent@, value@),
{
    let ghost before = out@;
    put_str(out, indent);
    put_str(out, "<string>");
    put_str(out, value);
    put_str(out, "</string>\n");
    assert(out@ =~= before + string_line(indent@, value@));
}

fn put_array(out: &mut String, indent: &str, inner: &str, key: &str, values: &[String])
    ensures
        final(out)@ == old(out)@ + array_lines(indent@, inner@, key@, texts(values@)),
{
    let ghost before = out@;
    let ghost all = texts(values@);
    if values.len() > 0 {
        put_key(out, indent, key);
        put_str(out, indent);
        put_str(out, "<array>\n");
        let ghost head = out@;
        let mut i: usize = 0;
        assert(out@ =~= head + string_lines(inner@, all.take(0)));
        while i < values.len()
            invariant
                i <= values@.len(),
                all == texts(values@),
                out@ == head + string_lines(inner@, all.take(i as int)),
            decreases values.len() - i,
        {
            put_string(out, inner, values[i].as_str());
            i = i + 1;
            assert(all.take(i as int).drop_last() =~= all.take(i - 1));
            assert(out@ =~= head + string_lines(inner@, all.take(i as int)));
        }
        assert(all.take(i as int) =~= all);
        put_str(out, indent);
        put_str(out, "</array>\n");
    }
    assert(out@ =~= before + array_lines(indent@, inner@, key@, all));
}

fn put_optional(out: &mut String, key: &str, value: Option<&str>)
    ensures
        final(out)@ == old(out)@ + optional_lines(key@, text_view(value)),
{
    let ghost before = out@;
    match value {
        Some(v) => {
            put_key(out, "\t", key);
            put_string(out, "\t", v);
        },
        None => {},
    }
    assert(out@ =~= before + optional_lines(key@, text_view(value)));
}

/// The property list of a catalog.
pub fn make_info_plist(
    app_icon: Option<&str>,
    accent_color: Option<&str>,
    widget_background_color: Option<&str>,
    localizations: &[String],
) -> (out: String)
    ensures
        out@ == info_plist(
            text_view(app_icon),
            text_view(accent_color),
            text_view(widget_background_color),
            texts(localizations@),
        ),
{
    let mut out = new_plist();
    put_optional(&mut out, "CFBundleIconFile", app_icon);
    put_optional(&mut out, "CFBundleIconName", app_icon);
    put_optional(&mut out, "NSAccentColorName", accent_color);
    put_optional(&mut out, "NSWidgetBackgroundColorName", widget_background_color);
    put_array(&mut out, "\t", "\t\t", "CFBundleLocalizations", localizations);
    put_str(&mut out, "</dict>\n</plist>\n");
    out
}

/// An image of an app icon set.
pub struct IconImage {
    pub path: String,
    /// What follows the last dot of the file name, if it has one.
    pub extension: Option<String>,
    pub idiom: String,
    pub point_w: u32,
    pub scale: u32,
}

/// The size in points of the home screen icon of an idiom.
pub open spec fn primary_size(idiom: Seq<char>) -> Option<u32> {
    if idiom == "iphone"@ {
        Some(60u32)
    } else if idiom == "ipad"@ {
        Some(76u32)
    } else {
        None
    }
}

/// The size in points of the home screen icon of an idiom.
pub fn ios_primary_size(idiom: &str) -> (size: Option<u32>)
    ensures
        size == primary_size(idiom@),
{
    if same_text(idiom, "iphone") {
        Some(60)
    } else if same_text(idiom, "ipad") {
        Some(76)
    } else {
        None
    }
}

/// An icon that is stored as a file beside the archive.
pub struct LooseIcon {
    pub filename: String,
    pub src: String,
    pub point_w: u32,
    pub scale: u32,
}

/// Whether an icon is the home screen icon of an idiom at twice the size.
pub open spec fn is_primary(icon: IconImage, idiom: Seq<char>) -> bool {
    icon.idiom@ == idiom && Some(icon.point_w) == primary_size(idiom) && icon.scale == 2
}

/// The first home screen icon of an idiom from `from` on.
pub open spec fn first_primary(icons: Seq<IconImage>, idiom: Seq<char>, from: int) -> int
    decreases icons.len() - from,
{
    if from >= icons.len() {
        icons.len() as int
    } else if is_primary(icons[from], idiom) {
        from
    } else {
        first_primary(icons, idiom, from + 1)
    }
}

/// The name of an icon file without suffix: `AppIcon60x60`.
pub open spec fn sized_name(name: Seq<char>, size: u32) -> Seq<char> {
    name + decimal(size as nat) + "x"@ + decimal(size as nat)
}

/// The extension of an icon file, `png` where it has none.
pub open spec fn extension_of(icon: IconImage) -> Seq<char> {
    match icon.extension {
        Some(e) => e@,
        None => "png"@,
    }
}

/// The file name of the home screen icon of an idiom.
pub open spec fn loose_name(
    name: Seq<char>,
    size: u32,
    idiom: Seq<char>,
    icon: IconImage,
) -> Seq<char> {
    sized_name(name, size) + "@2x"@ + (if idiom == "ipad"@ {
        "~ipad"@
    } else {
        Seq::empty()
    }) + "."@ + extension_of(icon)
}

/// An icon file, with texts.
pub struct LooseModel {
    pub filename: Seq<char>,
    pub src: Seq<char>,
    pub point_w: u32,
    pub scale: u32,
}

impl View for LooseIcon {
    type V = LooseModel;

    open spec fn view(&self) -> LooseModel {
        LooseModel {
            filename: self.filename@,
            src: self.src@,
            point_w: self.point_w,
            scale: self.scale,
        }
    }
}

/// The icon file of an idiom, if it has one.
pub open spec fn loose_icon(icons: Seq<IconImage>, name: Seq<char>, idiom: Seq<char>) -> Seq<
    LooseModel,
> {
    let at = first_primary(icons, idiom, 0);
    if at < icons.len() {
        let size = primary_size(idiom)->0;
        seq![
            LooseModel {
                filename: loose_name(name, size, idiom, icons[at]),
                src: icons[at].path@,
                point_w: size,
                scale: 2,
            },
        ]
    } else {
        Seq::empty()
    }
}

/// The icon files that stand beside an iOS archive: the home screen icons of
/// phone and pad.
pub open spec fn loose_icons(icons: Seq<IconImage>, name: Seq<char>) -> Seq<LooseModel> {
    loose_icon(icons, name, "iphone"@) + loose_icon(icons, name, "ipad"@)
}

/// Icon files, with texts.
pub open spec fn loose_views(icons: Seq<LooseIcon>) -> Seq<LooseModel> {
    Seq::new(icons.len(), |i: int| icons[i]@)
}

/// Appends the icon file of an idiom, if it has one.
fn add_loose_icon(out: &mut Vec<LooseIcon>, icons: &[IconImage], name: &str, idiom: &str)
    requires
        primary_size(idiom@) is Some,
    ensures
        loose_views(final(out)@) == loose_views(old(out)@) + loose_icon(icons@, name@, idiom@),
{
    let size: u32 = match ios_primary_size(idiom) {
        Some(size) => size,
        None => 0,
    };
    let mut at: usize = 0;
    while at < icons.len()
        invariant
            at <= icons@.len(),
            primary_size(idiom@) == Some(size),
            *out == *old(out),
            first_primary(icons@, idiom@, 0) == first_primary(icons@, idiom@, at as int),
        decreases icons.len() - at,
    {
        let icon = &icons[at];
        if same_text(icon.idiom.as_str(), idiom) && icon.point_w == size && icon.scale == 2 {
            let mut filename = name.to_owned();
            put_decimal(&mut filename, size as u128);
            put_str(&mut filename, "x");
            put_decimal(&mut filename, size as u128);
            put_str(&mut filename, "@2x");
            if same_text(idiom, "ipad") {
                put_str(&mut filename, "~ipad");
            }
            put_str(&mut filename, ".");
            match &icon.extension {
                Some(e) => put_str(&mut filename, e.as_str()),
                None => put_str(&mut filename, "png"),
            }
            proof {
                let base = sized_name(name@, size) + "@2x"@;
                assert(base + Seq::<char>::empty() =~= base);
                assert(filename@ =~= loose_name(name@, size, idiom@, *icon));
            }
            let src = icon.path.as_str().to_owned();
            out.push(LooseIcon { filename, src, point_w: size, scale: 2 });
            assert(loose_views(out@) =~= loose_views(old(out)@) + loose_icon(
                icons@,
                name@,
                idiom@,
            ));
            return;
        }
        at = at + 1;
    }
    assert(loose_views(out@) =~= loose_views(old(out)@) + loose_icon(icons@, name@, idiom@));
}

/// The icon files that stand beside an iOS archive.
pub fn ios_loose_icons(icons: &[IconImage], name: &str) -> (out: Vec<LooseIcon>)
    ensures
        loose_views(out@) == loose_icons(icons@, name@),
{
    let mut out: Vec<LooseIcon> = Vec::new();
    proof {
        reveal_strlit("iphone");
        reveal_strlit("ipad");
        assert("iphone"@.len() != "ipad"@.len());
    }
    add_loose_icon(&mut out, icons, name, "iphone");
    add_loose_icon(&mut out, icons, name, "ipad");
    assert(loose_views(out@) =~= loose_icons(icons@, name@));
    out
}

/// Whether a catalog has an icon of the home screen size of an idiom.
pub open spec fn has_icon_size(icons: Seq<IconImage>, idiom: Seq<char>) -> bool {
    exists|i: int|
        0 <= i < icons.len() && (#[trigger] icons[i]).idiom@ == idiom && Some(icons[i].point_w)
            == primary_size(idiom)
}

/// The icon files that a property list names for an idiom.
pub open spec fn icon_files(icons: Seq<IconImage>, name: Seq<char>, idiom: Seq<char>) -> Seq<
    Seq<char>,
> {
    if primary_size(idiom) is Some && has_icon_size(icons, idiom) {
        seq![sized_name(name, primary_size(idiom)->0)]
    } else {
        Seq::empty()
    }
}

/// The icon files that a property list names for an idiom.
pub fn ios_icon_files(icons: &[IconImage], name: &str, idiom: &str) -> (files: Vec<String>)
    ensures
        texts(files@) == icon_files(icons@, name@, idiom@),
{
    let mut files: Vec<String> = Vec::new();
    match ios_primary_size(idiom) {
        Some(size) => {
            let mut i: usize = 0;
            while i < icons.len()
                invariant
                    i <= icons@.len(),
                    primary_size(idiom@) == Some(size),
                    files@.len() == 0,
                    forall|j: int|
                        0 <= j < i ==> !((#[trigger] icons@[j]).idiom@ == idiom@ && icons@[j].point_w
                            == size),
                decreases icons.len() - i,
            {
                if same_text(icons[i].idiom.as_str(), idiom) && icons[i].point_w == size {
                    let mut file = name.to_owned();
                    put_decimal(&mut file, size as u128);
                    put_str(&mut file, "x");
                    put_decimal(&mut file, size as u128);
                    files.push(file);
                    assert(icons@[i as int].idiom@ == idiom@);
                    assert(texts(files@) =~= icon_files(icons@, name@, idiom@));
                    return files;
                }
                i = i + 1;
            }
        },
        None => {},
    }
    assert(texts(files@) =~= icon_files(icons@, name@, idiom@));
    files
}

/// The icons of one device family: files, if there are any, and the name.
pub open spec fn primary_icon(key: Seq<char>, files: Seq<Seq<char>>, name: Seq<char>) -> Seq<char> {
    key_line("\t"@, key) + "\t<dict>\n"@ + key_line("\t\t"@, "CFBundlePrimaryIcon"@)
        + "\t\t<dict>\n"@ + array_lines("\t\t\t"@, "\t\t\t\t"@, "CFBundleIconFiles"@, files)
        + key_line("\t\t\t"@, "CFBundleIconName"@) + string_line("\t\t\t"@, name)
        + "\t\t</dict>\n"@ + "\t</dict>\n"@
}

fn put_primary_icon(out: &mut String, key: &str, files: &[String], name: &str)
    ensures
        final(out)@ == old(out)@ + primary_icon(key@, texts(files@), name@),
{
    let ghost before = out@;
    put_key(out, "\t", key);
    put_str(out, "\t<dict>\n");
    put_key(out, "\t\t", "CFBundlePrimaryIcon");
    put_str(out, "\t\t<dict>\n");
    put_array(out, "\t\t\t", "\t\t\t\t", "CFBundleIconFiles", files);
    put_key(out, "\t\t\t", "CFBundleIconName");
    put_string(out, "\t\t\t", name);
    put_str(out, "\t\t</dict>\n");
    put_str(out, "\t</dict>\n");
    assert(out@ =~= before + primary_icon(key@, texts(files@), name@));
}

/// The property list of an iOS app icon.  A pad falls back on the phone's icon, so
/// its list names that one too, but only where it has one of its own.
pub open spec fn ios_icon_plist(icons: Seq<IconImage>, name: Seq<char>) -> Seq<char> {
    let phone = icon_files(icons, name, "iphone"@);
    let pad = icon_files(icons, name, "ipad"@);
    plist_start() + primary_icon("CFBundleIcons"@, phone, name) + primary_icon(
        "CFBundleIcons~ipad"@,
        if pad.len() == 0 {
            pad
        } else {
            phone + pad
        },
        name,
    ) + plist_end()
}

/// The property list of an iOS app icon.
pub fn make_ios_icon_plist(name: &str, icons: &[IconImage]) -> (out: String)
    ensures
        out@ == ios_icon_plist(icons@, name@),
{
    let phone = ios_icon_files(icons, name, "iphone");
    let mut pad = ios_icon_files(icons, name, "ipad");
    let mut out = new_plist();
    put_primary_icon(&mut out, "CFBundleIcons", phone.as_slice(), name);
    if pad.len() == 0 {
        assert(texts(pad@).len() == 0);
        put_primary_icon(&mut out, "CFBundleIcons~ipad", pad.as_slice(), name);
    } else {
        assert(texts(pad@).len() > 0);
        let ghost first = texts(phone@);
        let ghost second = texts(pad@);
        let mut both: Vec<String> = phone;
        both.append(&mut pad);
        assert(texts(both@) =~= first + second);
        put_primary_icon(&mut out, "CFBundleIcons~ipad", both.as_slice(), name);
    }
    put_str(&mut out, "</dict>\n</plist>\n");
    out
}

/// The property list of a tvOS app icon, which names the icon and no files.
pub open spec fn tvos_icon_plist(name: Seq<char>) -> Seq<char> {
    plist_start() + key_line("\t"@, "CFBundleIcons"@) + "\t<dict>\n"@ + key_line(
        "\t\t"@,
        "CFBundlePrimaryIcon"@,
    ) + string_line("\t\t"@, name) + "\t</dict>\n"@ + plist_end()
}

/// The property list of a tvOS app icon.
pub fn make_tvos_icon_plist(name: &str) -> (out: String)
    ensures
        out@ == tvos_icon_plist(name@),
{
    let mut out = new_plist();
    put_key(&mut out, "\t", "CFBundleIcons");
    put_str(&mut out, "\t<dict>\n");
    put_key(&mut out, "\t\t", "CFBundlePrimaryIcon");
    put_string(&mut out, "\t\t", name);
    put_str(&mut out, "\t</dict>\n");
    put_str(&mut out, "</dict>\n</plist>\n");
    out
}

/// The property list that goes with the archive of an icon: it names the icon, if
/// the app has that icon.
pub open spec fn icon_plist(icon_name: Option<Seq<char>>) -> Seq<char> {
    match icon_name {
        Some(name) => plist_start() + optional_lines("CFBundleIconFile"@, Some(name))
            + optional_lines("CFBundleIconName"@, Some(name)) + plist_end(),
        None => "<?xml version=\"1.0\" encoding=\"UTF-8\"?>\n<!DOCTYPE plist PUBLIC \"-//Apple//DTD PLIST 1.0//EN\" \"http://www.apple.com/DTDs/PropertyList-1.0.dtd\">\n<plist version=\"1.0\">\n<dict/>\n</plist>\n"@,
    }
}

/// The property list that goes with the archive of an icon.
pub fn make_icon_plist(icon_name: Option<&str>) -> (out: String)
    ensures
        out@ == icon_plist(text_view(icon_name)),
{
    match icon_name {
        Some(name) => {
            let mut out = new_plist();
            put_optional(&mut out, "CFBundleIconFile", Some(name));
            put_optional(&mut out, "CFBundleIconName", Some(name));
            put_str(&mut out, "</dict>\n</plist>\n");
            out
        },
        None => "<?xml version=\"1.0\" encoding=\"UTF-8\"?>\n<!DOCTYPE plist PUBLIC \"-//Apple//DTD PLIST 1.0//EN\" \"http://www.apple.com/DTDs/PropertyList-1.0.dtd\">\n<plist version=\"1.0\">\n<dict/>\n</plist>\n".to_owned(),
    }
}

} // verus!
