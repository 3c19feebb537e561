//! What the fills of an icon make of its palette and its backgrounds.

use vstd::prelude::*;

use crate::icon_bundle::{
    backgrounds, color_named, gradient_background, solid_rgb, BackgroundModel,
};
use crate::icon_json::IconJson;
use crate::json::{list_member, member, text_member, Json};
use crate::naming::value_of;
use crate::palette::{
    automatic_gradient_palette, automatic_palette, color_spec, keyword_grays, linear_palette,
    orientation_of, solid_palette, spec_components, spec_space, structured_palette,
    system_dark_palette, texts_among, ColorModel, GradientModel, PaletteModel,
};
use crate::platform::find_char;

verus! {

/// The color spaces that manifests name have numbers; others are not known.
pub proof fn manifest_spaces_have_numbers(name: Seq<char>)
    ensures
        spec_space(name) == Some(1u32) <==> name == "srgb"@,
        spec_space(name) == Some(2u32) <==> name == "gray"@,
        spec_space(name) == Some(3u32) <==> name == "display-p3"@,
        spec_space(name) == Some(4u32) <==> name == "extended-srgb"@,
        spec_space(name) == Some(6u32) <==> name == "extended-gray"@,
        name != "srgb"@ && name != "gray"@ && name != "display-p3"@ && name != "extended-srgb"@
            && name != "extended-gray"@ ==> spec_space(name) is None,
{
    reveal_strlit("srgb");
    reveal_strlit("gray");
    reveal_strlit("display-p3");
    reveal_strlit("extended-srgb");
    reveal_strlit("extended-gray");
    assert("srgb"@.len() == 4 && "gray"@.len() == 4 && "display-p3"@.len() == 10);
    assert("extended-srgb"@.len() == 13 && "extended-gray"@.len() == 13);
    assert("srgb"@[0] == 's' && "gray"@[0] == 'g');
    assert("extended-srgb"@[9] == 's' && "extended-gray"@[9] == 'g');
}

/// Texts with commas between them.
pub open spec fn with_commas(parts: Seq<Seq<char>>) -> Seq<char>
    decreases parts.len(),
{
    if parts.len() == 0 {
        Seq::empty()
    } else if parts.len() == 1 {
        parts[0]
    } else {
        parts[0] + seq![','] + with_commas(parts.skip(1))
    }
}

/// Whether a text does not hold a character.
pub open spec fn lacks(text: Seq<char>, c: char) -> bool {
    forall|i: int| 0 <= i < text.len() ==> #[trigger] text[i] != c
}

proof fn lemma_found(s: Seq<char>, c: char, from: int, at: int)
    requires
        0 <= from <= at <= s.len(),
        forall|i: int| from <= i < at ==> #[trigger] s[i] != c,
        at < s.len() ==> s[at] == c,
    ensures
        find_char(s, c, from) == at,
    decreases at - from,
{
    if from < at {
        lemma_found(s, c, from + 1, at);
    }
}

proof fn lemma_components<C: Fn(&str) -> Option<u64>>(
    component: C,
    parts: Seq<Seq<char>>,
    values: Seq<u64>,
)
    requires
        parts.len() == values.len() > 0,
        forall|i: int| 0 <= i < parts.len() ==> lacks(#[trigger] parts[i], ','),
        forall|i: int|
            0 <= i < parts.len() ==> value_of(component, #[trigger] parts[i]) == Some(values[i]),
    ensures
        spec_components(component, with_commas(parts)) == Some(values),
    decreases parts.len(),
{
    let text = with_commas(parts);
    let first = parts[0];
    assert(lacks(first, ','));
    assert(value_of(component, parts[0]) == Some(values[0]));
    if parts.len() == 1 {
        lemma_found(text, ',', 0, text.len() as int);
        assert(seq![values[0]] =~= values);
    } else {
        let rest = parts.skip(1);
        let more = values.skip(1);
        assert forall|i: int| 0 <= i < text.len() && i < first.len() implies #[trigger] text[i]
            != ',' by {
            assert(first[i] != ',');
        }
        lemma_found(text, ',', 0, first.len() as int);
        assert(text.take(first.len() as int) =~= first);
        assert(text.skip(first.len() as int + 1) =~= with_commas(rest));
        assert forall|i: int| 0 <= i < rest.len() implies lacks(#[trigger] rest[i], ',')
            && value_of(component, rest[i]) == Some(more[i]) by {
            assert(rest[i] == parts[i + 1]);
        }
        lemma_components(component, rest, more);
        assert(seq![values[0]] + more =~= values);
    }
}

/// A color of a manifest reads back as its space and its components, in their order;
/// one of an unknown space as nothing.
pub proof fn manifest_colors_read_back<C: Fn(&str) -> Option<u64>>(
    component: C,
    space: Seq<char>,
    parts: Seq<Seq<char>>,
    values: Seq<u64>,
)
    requires
        lacks(space, ':'),
        parts.len() == values.len() > 0,
        forall|i: int| 0 <= i < parts.len() ==> lacks(#[trigger] parts[i], ','),
        forall|i: int|
            0 <= i < parts.len() ==> value_of(component, #[trigger] parts[i]) == Some(values[i]),
    ensures
        color_spec(component, space + seq![':'] + with_commas(parts)) == (match spec_space(space) {
            Some(number) => Some((number, values)),
            None => None,
        }),
{
    let text = space + seq![':'] + with_commas(parts);
    assert forall|i: int| 0 <= i < space.len() implies #[trigger] text[i] != ':' by {
        assert(space[i] != ':');
    }
    lemma_found(text, ':', 0, space.len() as int);
    assert(text.take(space.len() as int) =~= space);
    assert(text.skip(space.len() as int + 1) =~= with_commas(parts));
    lemma_components(component, parts, values);
}

/// Whether a color is a gray of a level, opaque.
pub open spec fn is_gray(color: ColorModel, space: u32, level: u64) -> bool {
    &&& color.space == space
    &&& color.components.len() == 2
    &&& color.components[0] == level
    &&& color.components[1] == 0x3ff0_0000_0000_0000
}

/// Whether a gradient runs from the top to the bottom, from one color to another.
pub open spec fn runs_down(gradient: GradientModel, first: ColorModel, second: ColorModel) -> bool {
    &&& gradient.kind == 1
    &&& gradient.geometry.len() == 4
    &&& gradient.geometry[0] == 0x3f00_0000
    &&& gradient.geometry[1] == 0
    &&& gradient.geometry[2] == 0x3f00_0000
    &&& gradient.geometry[3] == 0x3f80_0000
    &&& gradient.stops.len() == 2
    &&& gradient.stops[0].0 == 0
    &&& gradient.stops[0].1 == first.name
    &&& gradient.stops[1].0 == 0x3f80_0000
    &&& gradient.stops[1].1 == second.name
}

/// Whether two colors are those of the dark background.
pub open spec fn are_dark(top: ColorModel, bottom: ColorModel) -> bool {
    is_gray(top, 2, 0x3fc8_9374_c000_0000) && is_gray(bottom, 2, 0x3fb3_f7ce_e000_0000)
}

/// The palette of a solid color holds the color behind a white anchor, and a dark
/// background.
pub proof fn solid_fills_keep_their_color(prefix: Seq<char>, space: u32, components: Seq<u64>)
    ensures
        ({
            let p = solid_palette(prefix, (space, components));
            &&& p.colors.len() == 4
            &&& is_gray(p.colors[0], 6, 0x3ff0_0000_0000_0000)
            &&& p.colors[1].space == space
            &&& p.colors[1].components == components
            &&& are_dark(p.colors[2], p.colors[3])
            &&& p.gradients.len() == 1
            &&& runs_down(p.gradients[0], p.colors[2], p.colors[3])
        }),
{
}

/// The palette of a gradient of two colors holds both, in their order, a gradient from
/// the first down to the second, and a dark background.
pub proof fn linear_fills_keep_their_colors(
    prefix: Seq<char>,
    first: (u32, Seq<u64>),
    second: (u32, Seq<u64>),
)
    ensures
        ({
            let p = linear_palette(prefix, first, second);
            &&& p.colors.len() == 5
            &&& is_gray(p.colors[0], 6, 0x3ff0_0000_0000_0000)
            &&& p.colors[1].space == first.0
            &&& p.colors[1].components == first.1
            &&& p.colors[2].space == second.0
            &&& p.colors[2].components == second.1
            &&& are_dark(p.colors[3], p.colors[4])
            &&& p.gradients.len() == 2
            &&& runs_down(p.gradients[0], p.colors[1], p.colors[2])
            &&& runs_down(p.gradients[1], p.colors[3], p.colors[4])
        }),
{
}

/// The palettes of the keywords: a light background and a dark one, or the dark one for
/// both appearances; and that of a gradient that the system makes of one color.
pub proof fn keyword_fills_have_backgrounds(prefix: Seq<char>, space: u32, components: Seq<u64>)
    ensures
        ({
            let p = automatic_palette(prefix);
            &&& p.colors.len() == 5
            &&& is_gray(p.colors[1], 2, 0x3ff0_0000_0000_0000)
            &&& is_gray(p.colors[2], 2, 0x3fed_9999_a000_0000)
            &&& are_dark(p.colors[3], p.colors[4])
            &&& p.gradients.len() == 2
            &&& runs_down(p.gradients[0], p.colors[1], p.colors[2])
            &&& runs_down(p.gradients[1], p.colors[3], p.colors[4])
        }),
        ({
            let p = system_dark_palette(prefix);
            &&& p.colors.len() == 3
            &&& are_dark(p.colors[1], p.colors[2])
            &&& p.gradients.len() == 2
            &&& runs_down(p.gradients[0], p.colors[1], p.colors[2])
            &&& runs_down(p.gradients[1], p.colors[1], p.colors[2])
        }),
        ({
            let p = automatic_gradient_palette(prefix, (space, components));
            &&& p.colors.len() == 4
            &&& p.colors[1].space == space
            &&& p.colors[1].components == components
            &&& are_dark(p.colors[2], p.colors[3])
            &&& p.gradients.len() == 2
            &&& p.gradients[0].kind == 0
            &&& p.gradients[0].stops.len() == 1
            &&& p.gradients[0].stops[0].1 == p.colors[1].name
            &&& runs_down(p.gradients[1], p.colors[2], p.colors[3])
        }),
{
}

/// A fill given as an object is a solid color, or else a gradient of one color, or else
/// one between the first two colors of a list.
pub proof fn structured_fills_are_told_apart<C: Fn(&str) -> Option<u64>>(
    component: C,
    value: Json,
    prefix: Seq<char>,
)
    ensures
        match text_member(value, "solid"@) {
            Some(text) => match color_spec(component, text) {
                Some(color) => structured_palette(component, value, prefix) == Some(
                    solid_palette(prefix, color),
                ),
                None => structured_palette(component, value, prefix) is None,
            },
            None => match text_member(value, "automatic-gradient"@) {
                Some(text) => match color_spec(component, text) {
                    Some(color) => structured_palette(component, value, prefix) == Some(
                        automatic_gradient_palette(prefix, color),
                    ),
                    None => structured_palette(component, value, prefix) is None,
                },
                None => match list_member(value, "linear-gradient"@) {
                    Some(items) => items.len() == 2 && items[0] is Text && items[1] is Text ==> (
                    match (
                        color_spec(component, items[0]->Text_0@),
                        color_spec(component, items[1]->Text_0@),
                    ) {
                        (Some(first), Some(second)) => structured_palette(component, value, prefix)
                            == Some(linear_palette(prefix, first, second)),
                        _ => structured_palette(component, value, prefix) is None,
                    }),
                    None => structured_palette(component, value, prefix) is None,
                },
            },
        },
{
    match list_member(value, "linear-gradient"@) {
        Some(items) => {
            if items.len() == 2 && items[0] is Text && items[1] is Text {
                reveal_with_fuel(texts_among, 3);
            }
        },
        None => {},
    }
}

/// The number under an axis of an end of a gradient, or else a default.
pub open spec fn number_at(value: Json, end: Seq<char>, axis: Seq<char>, other: u32) -> u32 {
    match member(value, end) {
        Some(point) => match member(point, axis) {
            Some(Json::Number(n)) => n.single,
            _ => other,
        },
        None => other,
    }
}

/// A gradient starts and stops where its orientation says: start before stop, each with
/// x before y; from the middle of the top to that of the bottom where it says nothing.
pub proof fn orientations_read_back(value: Json)
    ensures
        orientation_of(value).len() == 4,
        match member(value, "orientation"@) {
            Some(o) => {
                &&& orientation_of(value)[0] == number_at(o, "start"@, "x"@, 0x3f00_0000)
                &&& orientation_of(value)[1] == number_at(o, "start"@, "y"@, 0)
                &&& orientation_of(value)[2] == number_at(o, "stop"@, "x"@, 0x3f00_0000)
                &&& orientation_of(value)[3] == number_at(o, "stop"@, "y"@, 0x3f80_0000)
            },
            None => {
                &&& orientation_of(value)[0] == 0x3f00_0000
                &&& orientation_of(value)[1] == 0
                &&& orientation_of(value)[2] == 0x3f00_0000
                &&& orientation_of(value)[3] == 0x3f80_0000
            },
        },
{
}

/// The keywords stand for the light or the dark background; `automatic` follows the
/// appearance.
pub proof fn keywords_stand_for_grays(keyword: Seq<char>, appearance: Option<Seq<char>>)
    ensures
        ({
            let light = Some((0x3ff0_0000_0000_0000u64, 0x3fed_9999_a000_0000u64));
            let dark = Some((0x3fc8_9374_c000_0000u64, 0x3fb3_f7ce_e000_0000u64));
            let found = keyword_grays(keyword, appearance);
            &&& keyword == "system-light"@ ==> found == light
            &&& keyword == "system-dark"@ ==> found == dark
            &&& keyword == "automatic"@ && appearance == Some("dark"@) ==> found == dark
            &&& keyword == "automatic"@ && appearance != Some("dark"@) ==> found == light
            &&& keyword != "system-light"@ && keyword != "system-dark"@ && keyword != "automatic"@
                ==> found is None
        }),
{
    reveal_strlit("system-light");
    reveal_strlit("system-dark");
    reveal_strlit("automatic");
    assert("system-light"@.len() == 12 && "system-dark"@.len() == 11 && "automatic"@.len() == 9);
}

proof fn lemma_color_named(colors: Seq<ColorModel>, i: int, from: int)
    requires
        0 <= from <= i < colors.len(),
        forall|j: int| 0 <= j < i ==> (#[trigger] colors[j]).name != colors[i].name,
    ensures
        color_named(colors, colors[i].name, from) == Some(colors[i]),
    decreases i - from,
{
    if from < i {
        assert(colors[from].name != colors[i].name);
        lemma_color_named(colors, i, from + 1);
    }
}

/// Red, green and blue of a color: of a gray its level three times, of others its first
/// three components.
pub open spec fn is_rgb(rgb: Seq<u64>, color: ColorModel) -> bool {
    &&& rgb.len() == 3
    &&& color.components.len() == 2 ==> rgb[0] == color.components[0] && rgb[1]
        == color.components[0] && rgb[2] == color.components[0]
    &&& color.components.len() == 4 ==> rgb[0] == color.components[0] && rgb[1]
        == color.components[1] && rgb[2] == color.components[2]
}

/// The background that a gradient makes runs from its first color to its last, along its
/// geometry.
pub proof fn gradients_make_backgrounds(
    gradient: GradientModel,
    colors: Seq<ColorModel>,
    i: int,
    j: int,
)
    requires
        gradient.stops.len() > 0,
        0 <= i < colors.len(),
        0 <= j < colors.len(),
        gradient.stops[0].1 == colors[i].name,
        gradient.stops.last().1 == colors[j].name,
        forall|k: int| 0 <= k < i ==> (#[trigger] colors[k]).name != colors[i].name,
        forall|k: int| 0 <= k < j ==> (#[trigger] colors[k]).name != colors[j].name,
    ensures
        match gradient_background(gradient, colors) {
            Some(BackgroundModel::Gradient(first, last, geometry)) => {
                &&& is_rgb(first, colors[i])
                &&& is_rgb(last, colors[j])
                &&& geometry == gradient.geometry
            },
            _ => false,
        },
{
    lemma_color_named(colors, i, 0);
    lemma_color_named(colors, j, 0);
}

/// An icon with a solid fill has that color in the light appearance and the first
/// gradient in the dark one; others have the first and the second gradient.
pub proof fn backgrounds_follow_the_fill<C: Fn(&str) -> Option<u64>>(
    component: C,
    icon: IconJson,
    p: PaletteModel,
)
    requires
        p.gradients.len() >= 2,
    ensures
        match solid_rgb(component, icon) {
            Some(rgb) => backgrounds(component, icon, p) == (
                Some(BackgroundModel::Flat(rgb)),
                gradient_background(p.gradients[0], p.colors),
            ),
            None => backgrounds(component, icon, p) == (
                gradient_background(p.gradients[0], p.colors),
                gradient_background(p.gradients[1], p.colors),
            ),
        },
{
}

} // verus!
