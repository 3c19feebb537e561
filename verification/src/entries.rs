//! The entries of a set: what the JSON objects in a `Contents.json` say about one
//! image or color.

use vstd::prelude::*;
use vstd::string::StrSliceExecFns;

use crate::car::{DIRECTION_DEFAULT, DIRECTION_LTR, DIRECTION_RTL};
use crate::json::{items_of, text_member, text_or, Json};
use crate::platform::{find_char, parse_number, parsed_number, position};
use crate::platform::{
    idiom_number, idiom_platform, idiom_value, ios_platform, is_idiom_platform, is_ios_platform,
};
use crate::text::same_text;

verus! {

/// A text without the letters `x` at its end.
pub open spec fn without_x(s: Seq<char>) -> Seq<char>
    decreases s.len(),
{
    if s.len() > 0 && s.last() == 'x' {
        without_x(s.drop_last())
    } else {
        s
    }
}

/// A number, or one.
pub open spec fn number_or_one(number: Option<u32>) -> u32 {
    match number {
        Some(n) => n,
        None => 1,
    }
}

/// The scale of an image, such as `2x`; one if there is none.
pub open spec fn scale_of(info: Json) -> u32 {
    number_or_one(parsed_number(without_x(text_or(info, "scale"@, "1x"@))))
}

/// The scale of an image.
pub fn parse_scale(info: &Json) -> (scale: u32)
    ensures
        scale == scale_of(*info),
{
    let text = info.get_text_or("scale", "1x");
    let mut end: usize = text.unicode_len();
    assert(text@.take(end as int) =~= text@);
    while end > 0 && text.get_char(end - 1) == 'x'
        invariant
            end <= text@.len(),
            without_x(text@) == without_x(text@.take(end as int)),
        decreases end,
    {
        assert(text@.take(end as int).drop_last() =~= text@.take(end - 1));
        end = end - 1;
    }
    assert(text@.subrange(0, end as int) =~= text@.take(end as int));
    match parse_number(text, 0, end) {
        Some(n) => n,
        None => 1,
    }
}

/// What the size of an icon says before its `x`, as in `16x16`.
pub open spec fn point_text(info: Json) -> Option<Seq<char>> {
    let size = text_or(info, "size"@, ""@);
    let x = find_char(size, 'x', 0);
    if x < size.len() {
        Some(size.take(x))
    } else {
        None
    }
}

/// The width of an icon in points; `None` if its size has no `x`, and zero if
/// what stands before it is no number.
pub open spec fn point_width(info: Json) -> Option<u32> {
    match point_text(info) {
        Some(text) => Some(
            match parsed_number(text) {
                Some(n) => n,
                None => 0,
            },
        ),
        None => None,
    }
}

/// The width of an icon in points.
pub fn parse_point_width(info: &Json) -> (width: Option<u32>)
    ensures
        width == point_width(*info),
{
    let size = info.get_text_or("size", "");
    let len: usize = size.unicode_len();
    let x = position(size, 'x', 0, len);
    if x < len {
        assert(size@.subrange(0, x as int) =~= size@.take(x as int));
        match parse_number(size, 0, x) {
            Some(n) => Some(n),
            None => Some(0),
        }
    } else {
        None
    }
}

/// Whether an appearance is the dark one.
pub open spec fn is_dark(appearance: Json) -> bool {
    text_member(appearance, "appearance"@) == Some("luminosity"@) && text_member(
        appearance,
        "value"@,
    ) == Some("dark"@)
}

/// The appearance of an entry: 1 for the dark one, 0 for any other.
pub open spec fn appearance_of(info: Json) -> u16 {
    if exists|i: int|
        0 <= i < items_of(info, "appearances"@).len() && is_dark(
            #[trigger] items_of(info, "appearances"@)[i],
        ) {
        1
    } else {
        0
    }
}

/// Whether an object holds a given text under a key.
fn says(info: &Json, key: &str, text: &str) -> (answer: bool)
    ensures
        answer == (text_member(*info, key@) == Some(text@)),
{
    match info.get_text(key) {
        Some(found) => same_text(found, text),
        None => false,
    }
}

/// The appearance of an entry.
pub fn appearance_from_json(info: &Json) -> (appearance: u16)
    ensures
        appearance == appearance_of(*info),
{
    match info.get_list("appearances") {
        Some(items) => {
            let mut i: usize = 0;
            while i < items.len()
                invariant
                    i <= items@.len(),
                    items@ == items_of(*info, "appearances"@),
                    forall|j: int| 0 <= j < i ==> !is_dark(#[trigger] items@[j]),
                decreases items.len() - i,
            {
                if says(&items[i], "appearance", "luminosity") && says(&items[i], "value", "dark") {
                    assert(is_dark(items_of(*info, "appearances"@)[i as int]));
                    return 1;
                }
                i = i + 1;
            }
            0
        },
        None => 0,
    }
}

/// The layout direction of an image.
pub open spec fn direction_of(info: Json) -> u16 {
    match text_member(info, "language-direction"@) {
        Some(text) => if text == "left-to-right"@ {
            DIRECTION_LTR
        } else if text == "right-to-left"@ {
            DIRECTION_RTL
        } else {
            DIRECTION_DEFAULT
        },
        None => DIRECTION_DEFAULT,
    }
}

/// The layout direction of an image.
pub fn direction_from_json(info: &Json) -> (direction: u16)
    ensures
        direction == direction_of(*info),
{
    match info.get_text("language-direction") {
        Some(text) => if same_text(text, "left-to-right") {
            DIRECTION_LTR
        } else if same_text(text, "right-to-left") {
            DIRECTION_RTL
        } else {
            DIRECTION_DEFAULT
        },
        None => DIRECTION_DEFAULT,
    }
}

/// Whether an image is for the platform: on the Mac only those for the Mac and
/// for all devices.
pub open spec fn idiom_matches(info: Json, platform: Seq<char>) -> bool {
    let idiom = text_or(info, "idiom"@, "universal"@);
    platform == "macosx"@ ==> idiom == "mac"@ || idiom == "universal"@
}

/// Whether an image is for the platform.
pub fn check_idiom(info: &Json, platform: &str) -> (answer: bool)
    ensures
        answer == idiom_matches(*info, platform@),
{
    let idiom = info.get_text_or("idiom", "universal");
    !same_text(platform, "macosx") || same_text(idiom, "mac") || same_text(idiom, "universal")
}

/// Whether an image of an image set is for the platform: iOS leaves out those for
/// the Mac and those for the store.
pub open spec fn set_idiom_matches(info: Json, platform: Seq<char>) -> bool {
    let idiom = text_or(info, "idiom"@, "universal"@);
    &&& idiom_matches(info, platform)
    &&& ios_platform(platform) ==> idiom != "mac"@ && idiom != "ios-marketing"@
}

/// Whether an image of an image set is for the platform.
pub fn check_set_idiom(info: &Json, platform: &str) -> (answer: bool)
    ensures
        answer == set_idiom_matches(*info, platform@),
{
    let idiom = info.get_text_or("idiom", "universal");
    let kept_out = same_text(idiom, "mac") || same_text(idiom, "ios-marketing");
    check_idiom(info, platform) && !(is_ios_platform(platform) && kept_out)
}

/// The number of the device that an image is for; 0 on platforms without device
/// families.
pub open spec fn idiom_of(info: Json, platform: Seq<char>) -> u16 {
    if idiom_platform(platform) {
        idiom_number(text_or(info, "idiom"@, "universal"@))
    } else {
        0
    }
}

/// The number of the device that an image is for.
pub fn find_idiom(info: &Json, platform: &str) -> (idiom: u16)
    ensures
        idiom == idiom_of(*info, platform@),
{
    if is_idiom_platform(platform) {
        idiom_value(info.get_text_or("idiom", "universal"))
    } else {
        0
    }
}

/// How a template image is drawn: 0 as the original, 2 as a template, 4 as the
/// system decides.
pub open spec fn rendering_intent(contents: Json) -> i32 {
    match crate::json::member(contents, "properties"@) {
        Some(properties) => if text_member(properties, "template-rendering-intent"@) == Some(
            "original"@,
        ) {
            0
        } else if text_member(properties, "template-rendering-intent"@) == Some("template"@) {
            2
        } else {
            4
        },
        None => 4,
    }
}

/// How a template image is drawn.
pub fn parse_rendering_intent(contents: &Json) -> (intent: i32)
    ensures
        intent == rendering_intent(*contents),
{
    match contents.get("properties") {
        Some(properties) => if says(properties, "template-rendering-intent", "original") {
            0
        } else if says(properties, "template-rendering-intent", "template") {
            2
        } else {
            4
        },
        None => 4,
    }
}

/// Whether the names in a group of a catalog are prefixed by the group's name.
pub open spec fn provides_namespace(contents: Json) -> bool {
    match crate::json::member(contents, "properties"@) {
        Some(properties) => crate::json::is_set(properties, "provides-namespace"@),
        None => false,
    }
}

/// Whether the names in a group of a catalog are prefixed by the group's name.
pub fn check_namespace(contents: &Json) -> (answer: bool)
    ensures
        answer == provides_namespace(*contents),
{
    match contents.get("properties") {
        Some(properties) => properties.has_set("provides-namespace"),
        None => false,
    }
}

/// A color space by its name; sRGB if the name is unknown.
pub open spec fn colorspace_named(name: Seq<char>) -> u32 {
    if name == "display-p3"@ {
        3
    } else if name == "extended-srgb"@ {
        4
    } else if name == "extended-linear-srgb"@ {
        7
    } else if name == "gray-gamma-22"@ {
        2
    } else {
        1
    }
}

/// A color space by its name.
pub fn colorspace_id_for_name(name: &str) -> (id: u32)
    ensures
        id == colorspace_named(name@),
{
    if same_text(name, "display-p3") {
        3
    } else if same_text(name, "extended-srgb") {
        4
    } else if same_text(name, "extended-linear-srgb") {
        7
    } else if same_text(name, "gray-gamma-22") {
        2
    } else {
        1
    }
}

/// An ASCII letter in lower case; any other character as it is.
pub open spec fn lower(c: char) -> char {
    if 'A' <= c <= 'Z' {
        (c as u8 + 32) as char
    } else {
        c
    }
}

/// Whether a name ends in a suffix, whatever the case of its letters.
pub open spec fn ends_in(name: Seq<char>, suffix: Seq<char>) -> bool {
    suffix.len() <= name.len() && forall|i: int|
        0 <= i < suffix.len() ==> #[trigger] suffix[i] == lower(
            name[name.len() - suffix.len() + i],
        )
}

/// Whether a name ends in a suffix.
pub fn check_ending(name: &str, suffix: &str) -> (answer: bool)
    ensures
        answer == ends_in(name@, suffix@),
{
    let len: usize = name.unicode_len();
    let n: usize = suffix.unicode_len();
    if n > len {
        return false;
    }
    let mut i: usize = 0;
    while i < n
        invariant
            i <= n == suffix@.len(),
            n <= len == name@.len(),
            forall|j: int|
                0 <= j < i ==> #[trigger] suffix@[j] == lower(
                    name@[name@.len() - suffix@.len() + j],
                ),
        decreases n - i,
    {
        let c = name.get_char(len - n + i);
        let small = if 'A' <= c && c <= 'Z' {
            (c as u8 + 32) as char
        } else {
            c
        };
        if suffix.get_char(i) != small {
            assert(suffix@[i as int] != lower(name@[name@.len() - suffix@.len() + i]));
            return false;
        }
        i = i + 1;
    }
    true
}

/// The kinds of images that a set may hold.
#[derive(Debug, Clone, Copy, PartialEq, Eq, Structural)]
pub enum ImageKind {
    Pdf,
    Jpeg,
    Svg,
    Bitmap,
}

/// The kind of an image file, by its name.
pub open spec fn kind_of(filename: Seq<char>) -> ImageKind {
    if ends_in(filename, ".pdf"@) {
        ImageKind::Pdf
    } else if ends_in(filename, ".jpg"@) || ends_in(filename, ".jpeg"@) {
        ImageKind::Jpeg
    } else if ends_in(filename, ".svg"@) {
        ImageKind::Svg
    } else {
        ImageKind::Bitmap
    }
}

/// The kind of an image file.
pub fn image_kind(filename: &str) -> (kind: ImageKind)
    ensures
        kind == kind_of(filename@),
{
    if check_ending(filename, ".pdf") {
        ImageKind::Pdf
    } else if check_ending(filename, ".jpg") || check_ending(filename, ".jpeg") {
        ImageKind::Jpeg
    } else if check_ending(filename, ".svg") {
        ImageKind::Svg
    } else {
        ImageKind::Bitmap
    }
}

/// The number of an icon's size, for the sizes that have one.
pub open spec fn icon_size_number(point_w: u32) -> u16 {
    if point_w == 16 {
        1
    } else if point_w == 32 {
        2
    } else if point_w == 128 {
        3
    } else if point_w == 256 {
        4
    } else if point_w == 512 {
        5
    } else {
        0
    }
}

/// The number of an icon's size.
pub fn icon_dim2(point_w: u32) -> (dim2: u16)
    ensures
        dim2 == icon_size_number(point_w),
{
    if point_w == 16 {
        1
    } else if point_w == 32 {
        2
    } else if point_w == 128 {
        3
    } else if point_w == 256 {
        4
    } else if point_w == 512 {
        5
    } else {
        0
    }
}

} // verus!
