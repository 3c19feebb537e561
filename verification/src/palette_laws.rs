//! What holds of every palette.

use vstd::prelude::*;

use crate::icon_json::{layers_of, Fill, IconJson};
use crate::json::{list_member, member, text_member, Json};
use crate::palette::{
    anchored, automatic_gradient_palette, color_name, color_spec, downwards, even_stops,
    find_color, gradient_name, gray, has_gradient, icon_palette, is_gradient, keyword_grays,
    layer_count, linear_palette, orientation_of, plus_color, plus_gradient, single_fill_palette,
    solid_palette, texts_among, two_stops, with_color, with_colors, with_dark_colors, with_fill,
    with_fills, with_gradient, with_gradient_at, with_layer_fills, DARK_BOTTOM, DARK_TOP,
    EXTENDED_GRAY, GRAY, LIGHT_BOTTOM, ONE, PaletteModel,
};
use crate::text::{decimal, decimal_is_injective};

verus! {

/// Whether a name is that of a color of the palette.
pub open spec fn names_color(p: PaletteModel, name: Seq<char>) -> bool {
    exists|k: int| 0 <= k < p.colors.len() && #[trigger] p.colors[k].name == name
}

/// Colors and gradients are numbered from one on, and gradients run between colors
/// of the palette.
pub open spec fn well_named(p: PaletteModel, prefix: Seq<char>) -> bool {
    &&& forall|i: int|
        0 <= i < p.colors.len() ==> (#[trigger] p.colors[i]).name == color_name(
            prefix,
            (i + 1) as nat,
        )
    &&& forall|i: int|
        0 <= i < p.gradients.len() ==> (#[trigger] p.gradients[i]).name == gradient_name(
            prefix,
            (i + 1) as nat,
        )
    &&& forall|i: int, j: int|
        #![trigger p.gradients[i].stops[j]]
        0 <= i < p.gradients.len() && 0 <= j < p.gradients[i].stops.len() ==> names_color(
            p,
            p.gradients[i].stops[j].1,
        )
}

/// The colors and gradients of every icon are numbered from one on, and its
/// gradients run between its colors.
pub proof fn palettes_are_well_named<C: Fn(&str) -> Option<u64>>(
    component: C,
    icon: IconJson,
    prefix: Seq<char>,
)
    ensures
        icon_palette(component, icon, prefix) matches Some(p) ==> well_named(p, prefix),
{
    if icon.fill_specializations is Some && icon.fill_specializations->0@.len() > 0 {
        lemma_anchored(prefix);
        let specs = icon.fill_specializations->0@;
        lemma_fills(component, anchored(prefix), specs, specs.len(), prefix, 0);
        lemma_layer_fills(
            component,
            with_fills(component, anchored(prefix), specs, specs.len(), prefix, 0),
            icon,
            layer_count(icon),
            prefix,
            0,
        );
    } else {
        lemma_single_fill(component, icon.fill, prefix);
        match single_fill_palette(component, icon.fill, prefix) {
            None => {},
            Some(p) => {
                lemma_layer_fills(
                    component,
                    p,
                    icon,
                    layer_count(icon),
                    prefix,
                    p.colors.len() as int,
                );
            },
        }
    }
}

/// No two colors and no two gradients of an icon have the same name.
pub proof fn palette_names_differ(p: PaletteModel, prefix: Seq<char>)
    requires
        well_named(p, prefix),
    ensures
        forall|i: int, j: int|
            0 <= i < j < p.colors.len() ==> (#[trigger] p.colors[i]).name != (
            #[trigger] p.colors[j]).name,
        forall|i: int, j: int|
            0 <= i < j < p.gradients.len() ==> (#[trigger] p.gradients[i]).name != (
            #[trigger] p.gradients[j]).name,
{
    assert forall|i: int, j: int| 0 <= i < j < p.colors.len() implies (#[trigger] p.colors[i]).name
        != (#[trigger] p.colors[j]).name by {
        let head = prefix + "_Assets/Color-"@;
        if p.colors[i].name == p.colors[j].name {
            lemma_same_tail(head, decimal((i + 1) as nat), decimal((j + 1) as nat));
            decimal_is_injective((i + 1) as nat, (j + 1) as nat);
        }
    }
    assert forall|i: int, j: int| 0 <= i < j < p.gradients.len() implies (
    #[trigger] p.gradients[i]).name != (#[trigger] p.gradients[j]).name by {
        let head = prefix + "_Assets/Gradient-"@;
        if p.gradients[i].name == p.gradients[j].name {
            lemma_same_tail(head, decimal((i + 1) as nat), decimal((j + 1) as nat));
            decimal_is_injective((i + 1) as nat, (j + 1) as nat);
        }
    }
}

/// Adding a gradient a second time changes nothing.
pub proof fn gradients_are_added_once(
    p: PaletteModel,
    prefix: Seq<char>,
    geometry: Seq<u32>,
    stops: Seq<(u32, Seq<char>)>,
)
    requires
        forall|i: int|
            0 <= i < geometry.len() ==> crate::palette::same_single(
                #[trigger] geometry[i],
                geometry[i],
            ),
        forall|i: int|
            0 <= i < stops.len() ==> crate::palette::same_single(
                (#[trigger] stops[i]).0,
                stops[i].0,
            ),
    ensures
        with_gradient(with_gradient(p, prefix, geometry, stops), prefix, geometry, stops)
            == with_gradient(p, prefix, geometry, stops),
{
    let q = with_gradient(p, prefix, geometry, stops);
    if !has_gradient(p, geometry, stops) {
        assert(is_gradient(q.gradients[q.gradients.len() - 1], geometry, stops));
    }
}

/// Adding a color a second time changes nothing, and gives the same name.
pub proof fn colors_are_added_once(
    p: PaletteModel,
    prefix: Seq<char>,
    space: u32,
    components: Seq<u64>,
    floor: int,
)
    requires
        0 <= floor <= p.colors.len(),
        forall|i: int|
            0 <= i < components.len() ==> crate::palette::same_double(
                #[trigger] components[i],
                components[i],
            ),
    ensures
        with_color(
            with_color(p, prefix, space, components, floor).0,
            prefix,
            space,
            components,
            floor,
        ) == with_color(p, prefix, space, components, floor),
{
    let (q, name) = with_color(p, prefix, space, components, floor);
    if find_color(p.colors, space, components, floor) is None {
        lemma_find_last(p.colors, q.colors, space, components, floor);
    }
}

proof fn lemma_find_last(
    before: Seq<crate::palette::ColorModel>,
    after: Seq<crate::palette::ColorModel>,
    space: u32,
    components: Seq<u64>,
    from: int,
)
    requires
        0 <= from <= before.len(),
        after.len() == before.len() + 1,
        forall|i: int| 0 <= i < before.len() ==> #[trigger] after[i] == before[i],
        crate::palette::is_color(after.last(), space, components),
        find_color(before, space, components, from) is None,
    ensures
        find_color(after, space, components, from) == Some(before.len() as int),
    decreases before.len() - from,
{
    if from < before.len() {
        assert(after[from] == before[from]);
        lemma_find_last(before, after, space, components, from + 1);
    }
}

proof fn lemma_same_tail(head: Seq<char>, a: Seq<char>, b: Seq<char>)
    requires
        head + a == head + b,
    ensures
        a == b,
{
    assert(a =~= (head + a).skip(head.len() as int));
    assert(b =~= (head + b).skip(head.len() as int));
}

proof fn lemma_kept_names(p: PaletteModel, q: PaletteModel, name: Seq<char>)
    requires
        names_color(p, name),
        p.colors.len() <= q.colors.len(),
        forall|i: int| 0 <= i < p.colors.len() ==> #[trigger] q.colors[i] == p.colors[i],
    ensures
        names_color(q, name),
{
    let k = choose|k: int| 0 <= k < p.colors.len() && #[trigger] p.colors[k].name == name;
    assert(q.colors[k].name == name);
}

proof fn lemma_plus_color(p: PaletteModel, prefix: Seq<char>, space: u32, components: Seq<u64>)
    requires
        well_named(p, prefix),
    ensures
        well_named(plus_color(p, prefix, space, components), prefix),
        names_color(
            plus_color(p, prefix, space, components),
            color_name(prefix, p.colors.len() + 1),
        ),
{
    let q = plus_color(p, prefix, space, components);
    assert(q.colors[p.colors.len() as int].name == color_name(prefix, p.colors.len() + 1));
    assert forall|i: int| 0 <= i < q.colors.len() implies (#[trigger] q.colors[i]).name
        == color_name(prefix, (i + 1) as nat) by {
        if i < p.colors.len() {
            assert(q.colors[i] == p.colors[i]);
        }
    }
    assert forall|i: int, j: int|
        #![trigger q.gradients[i].stops[j]]
        0 <= i < q.gradients.len() && 0 <= j < q.gradients[i].stops.len() implies names_color(
        q,
        q.gradients[i].stops[j].1,
    ) by {
        assert(names_color(p, p.gradients[i].stops[j].1));
        lemma_kept_names(p, q, q.gradients[i].stops[j].1);
    }
}

proof fn lemma_plus_gradient(
    p: PaletteModel,
    prefix: Seq<char>,
    geometry: Seq<u32>,
    stops: Seq<(u32, Seq<char>)>,
    kind: u32,
)
    requires
        well_named(p, prefix),
        forall|j: int| 0 <= j < stops.len() ==> names_color(p, (#[trigger] stops[j]).1),
    ensures
        well_named(plus_gradient(p, prefix, geometry, stops, kind), prefix),
{
    let q = plus_gradient(p, prefix, geometry, stops, kind);
    assert forall|i: int| 0 <= i < q.gradients.len() implies (#[trigger] q.gradients[i]).name
        == gradient_name(prefix, (i + 1) as nat) by {
        if i < p.gradients.len() {
            assert(q.gradients[i] == p.gradients[i]);
        }
    }
    assert forall|i: int, j: int|
        #![trigger q.gradients[i].stops[j]]
        0 <= i < q.gradients.len() && 0 <= j < q.gradients[i].stops.len() implies names_color(
        q,
        q.gradients[i].stops[j].1,
    ) by {
        if i < p.gradients.len() {
            assert(q.gradients[i] == p.gradients[i]);
            assert(names_color(p, p.gradients[i].stops[j].1));
            lemma_kept_names(p, q, p.gradients[i].stops[j].1);
        } else {
            assert(names_color(p, stops[j].1));
            lemma_kept_names(p, q, stops[j].1);
        }
    }
}

proof fn lemma_find_color(
    colors: Seq<crate::palette::ColorModel>,
    space: u32,
    components: Seq<u64>,
    from: int,
)
    ensures
        find_color(colors, space, components, from) matches Some(i) ==> 0 <= i < colors.len(),
    decreases colors.len() - from,
{
    if 0 <= from < colors.len() {
        lemma_find_color(colors, space, components, from + 1);
    }
}

proof fn lemma_with_color(
    p: PaletteModel,
    prefix: Seq<char>,
    space: u32,
    components: Seq<u64>,
    floor: int,
)
    requires
        well_named(p, prefix),
    ensures
        ({
            let (q, name) = with_color(p, prefix, space, components, floor);
            &&& well_named(q, prefix)
            &&& names_color(q, name)
            &&& p.colors.len() <= q.colors.len()
            &&& forall|i: int| 0 <= i < p.colors.len() ==> #[trigger] q.colors[i] == p.colors[i]
        }),
{
    lemma_find_color(p.colors, space, components, floor);
    match find_color(p.colors, space, components, floor) {
        Some(i) => {
            assert(p.colors[i].name == p.colors[i].name);
        },
        None => {
            lemma_plus_color(p, prefix, space, components);
        },
    }
}

proof fn lemma_with_gradient(
    p: PaletteModel,
    prefix: Seq<char>,
    geometry: Seq<u32>,
    stops: Seq<(u32, Seq<char>)>,
)
    requires
        well_named(p, prefix),
        forall|j: int| 0 <= j < stops.len() ==> names_color(p, (#[trigger] stops[j]).1),
    ensures
        well_named(with_gradient(p, prefix, geometry, stops), prefix),
{
    lemma_plus_gradient(p, prefix, geometry, stops, 1);
}

proof fn lemma_anchored(prefix: Seq<char>)
    ensures
        well_named(anchored(prefix), prefix),
        anchored(prefix).colors.len() == 1,
        anchored(prefix).gradients.len() == 0,
{
    let none = PaletteModel { colors: Seq::empty(), gradients: Seq::empty() };
    assert(well_named(none, prefix));
    lemma_plus_color(none, prefix, EXTENDED_GRAY, gray(ONE));
}

proof fn lemma_dark_colors(p: PaletteModel, prefix: Seq<char>)
    requires
        well_named(p, prefix),
    ensures
        well_named(with_dark_colors(p, prefix), prefix),
        with_dark_colors(p, prefix).colors.len() == p.colors.len() + 2,
        with_dark_colors(p, prefix).gradients == p.gradients,
{
    lemma_plus_color(p, prefix, GRAY, gray(DARK_TOP));
    lemma_plus_color(
        plus_color(p, prefix, GRAY, gray(DARK_TOP)),
        prefix,
        GRAY,
        gray(DARK_BOTTOM),
    );
}

proof fn lemma_gradient_at(p: PaletteModel, prefix: Seq<char>, n: nat)
    requires
        well_named(p, prefix),
        1 <= n < p.colors.len(),
    ensures
        well_named(with_gradient_at(p, prefix, n), prefix),
        with_gradient_at(p, prefix, n).colors == p.colors,
{
    let stops = two_stops(color_name(prefix, n), color_name(prefix, n + 1));
    assert(p.colors[n - 1].name == stops[0].1);
    assert(p.colors[n as int].name == stops[1].1);
    assert forall|j: int| 0 <= j < stops.len() implies names_color(p, (#[trigger] stops[j]).1) by {
    }
    lemma_plus_gradient(p, prefix, downwards(), stops, 1);
}

proof fn lemma_linear(prefix: Seq<char>, first: (u32, Seq<u64>), second: (u32, Seq<u64>))
    ensures
        well_named(linear_palette(prefix, first, second), prefix),
{
    lemma_anchored(prefix);
    let p = plus_color(anchored(prefix), prefix, first.0, first.1);
    lemma_plus_color(anchored(prefix), prefix, first.0, first.1);
    let q = plus_color(p, prefix, second.0, second.1);
    lemma_plus_color(p, prefix, second.0, second.1);
    lemma_dark_colors(q, prefix);
    let r = with_dark_colors(q, prefix);
    lemma_gradient_at(r, prefix, 2);
    lemma_gradient_at(with_gradient_at(r, prefix, 2), prefix, 4);
}

proof fn lemma_single_fill<C: Fn(&str) -> Option<u64>>(
    component: C,
    fill: Option<Fill>,
    prefix: Seq<char>,
)
    ensures
        single_fill_palette(component, fill, prefix) matches Some(p) ==> well_named(p, prefix),
{
    lemma_anchored(prefix);
    lemma_linear(prefix, (GRAY, gray(ONE)), (GRAY, gray(LIGHT_BOTTOM)));
    lemma_dark_colors(anchored(prefix), prefix);
    let dark = with_dark_colors(anchored(prefix), prefix);
    lemma_gradient_at(dark, prefix, 2);
    lemma_gradient_at(with_gradient_at(dark, prefix, 2), prefix, 2);
    match fill {
        Some(Fill::Structured(value)) => {
            match text_member(value, "solid"@) {
                Some(spec) => {
                    lemma_user_color(component, spec, prefix);
                },
                None => match text_member(value, "automatic-gradient"@) {
                    Some(spec) => {
                        lemma_user_color(component, spec, prefix);
                    },
                    None => match list_member(value, "linear-gradient"@) {
                        Some(items) => {
                            let specs = texts_among(items, items.len());
                            if specs.len() >= 2 {
                                match (
                                    color_spec(component, specs[0]),
                                    color_spec(component, specs[1]),
                                ) {
                                    (Some(first), Some(second)) => {
                                        lemma_linear(prefix, first, second);
                                    },
                                    _ => {},
                                }
                            }
                        },
                        None => {},
                    },
                },
            }
        },
        _ => {},
    }
}

proof fn lemma_user_color<C: Fn(&str) -> Option<u64>>(
    component: C,
    spec: Seq<char>,
    prefix: Seq<char>,
)
    ensures
        color_spec(component, spec) matches Some(color) ==> well_named(
            solid_palette(prefix, color),
            prefix,
        ) && well_named(automatic_gradient_palette(prefix, color), prefix),
{
    match color_spec(component, spec) {
        None => {},
        Some(color) => {
            lemma_anchored(prefix);
            let p = plus_color(anchored(prefix), prefix, color.0, color.1);
            lemma_plus_color(anchored(prefix), prefix, color.0, color.1);
            lemma_dark_colors(p, prefix);
            let q = with_dark_colors(p, prefix);
            lemma_gradient_at(q, prefix, 3);
            let stops = seq![(0u32, color_name(prefix, 2))];
            assert(q.colors[1].name == stops[0].1);
            lemma_plus_gradient(q, prefix, downwards(), stops, 0);
            let r = plus_gradient(q, prefix, downwards(), stops, 0);
            lemma_gradient_at(r, prefix, 3);
        },
    }
}

proof fn lemma_colors<C: Fn(&str) -> Option<u64>>(
    component: C,
    p: PaletteModel,
    prefix: Seq<char>,
    specs: Seq<Seq<char>>,
    n: nat,
    floor: int,
)
    requires
        well_named(p, prefix),
    ensures
        ({
            let (q, names) = with_colors(component, p, prefix, specs, n, floor);
            &&& well_named(q, prefix)
            &&& names matches Some(names) ==> names.len() == n && forall|j: int|
                0 <= j < names.len() ==> names_color(q, #[trigger] names[j])
        }),
    decreases n,
{
    if n > 0 {
        let m = (n - 1) as nat;
        lemma_colors(component, p, prefix, specs, m, floor);
        let (q, names) = with_colors(component, p, prefix, specs, m, floor);
        match (names, color_spec(component, specs[n - 1])) {
            (Some(names), Some((space, components))) => {
                lemma_with_color(q, prefix, space, components, floor);
                let (r, name) = with_color(q, prefix, space, components, floor);
                let all = names.push(name);
                assert forall|j: int| 0 <= j < all.len() implies names_color(
                    r,
                    #[trigger] all[j],
                ) by {
                    if j < names.len() {
                        assert(names_color(q, names[j]));
                        lemma_kept_names(q, r, names[j]);
                    }
                }
            },
            _ => {},
        }
    }
}

proof fn lemma_fill<C: Fn(&str) -> Option<u64>>(
    component: C,
    p: PaletteModel,
    value: Json,
    appearance: Option<Seq<char>>,
    prefix: Seq<char>,
    floor: int,
)
    requires
        well_named(p, prefix),
    ensures
        well_named(with_fill(component, p, value, appearance, prefix, floor), prefix),
{
    match value {
        Json::Text(keyword) => match keyword_grays(keyword@, appearance) {
            None => {},
            Some((top, bottom)) => {
                let (q, first) = with_color(p, prefix, GRAY, gray(top), floor);
                lemma_with_color(p, prefix, GRAY, gray(top), floor);
                let (r, second) = with_color(q, prefix, GRAY, gray(bottom), floor);
                lemma_with_color(q, prefix, GRAY, gray(bottom), floor);
                lemma_kept_names(q, r, first);
                let stops = two_stops(first, second);
                assert forall|j: int| 0 <= j < stops.len() implies names_color(
                    r,
                    (#[trigger] stops[j]).1,
                ) by {
                }
                lemma_with_gradient(r, prefix, downwards(), stops);
            },
        },
        _ => match list_member(value, "linear-gradient"@) {
            Some(items) => {
                let specs = texts_among(items, items.len());
                if specs.len() >= 2 {
                    lemma_colors(component, p, prefix, specs, specs.len(), floor);
                    let (q, names) = with_colors(
                        component,
                        p,
                        prefix,
                        specs,
                        specs.len(),
                        floor,
                    );
                    match names {
                        None => {},
                        Some(names) => {
                            let stops = even_stops(names);
                            assert forall|j: int| 0 <= j < stops.len() implies names_color(
                                q,
                                (#[trigger] stops[j]).1,
                            ) by {
                                assert(names_color(q, names[j]));
                            }
                            lemma_with_gradient(q, prefix, orientation_of(value), stops);
                        },
                    }
                }
            },
            None => match text_member(value, "solid"@) {
                None => {},
                Some(spec) => match color_spec(component, spec) {
                    None => {},
                    Some((space, components)) => {
                        lemma_with_color(p, prefix, space, components, 0);
                    },
                },
            },
        },
    }
}

proof fn lemma_fills<C: Fn(&str) -> Option<u64>>(
    component: C,
    p: PaletteModel,
    specs: Seq<Json>,
    n: nat,
    prefix: Seq<char>,
    floor: int,
)
    requires
        well_named(p, prefix),
    ensures
        well_named(with_fills(component, p, specs, n, prefix, floor), prefix),
    decreases n,
{
    if n > 0 {
        let m = (n - 1) as nat;
        lemma_fills(component, p, specs, m, prefix, floor);
        match member(specs[n - 1], "value"@) {
            None => {},
            Some(value) => {
                lemma_fill(
                    component,
                    with_fills(component, p, specs, m, prefix, floor),
                    value,
                    text_member(specs[n - 1], "appearance"@),
                    prefix,
                    floor,
                );
            },
        }
    }
}

proof fn lemma_layer_fills<C: Fn(&str) -> Option<u64>>(
    component: C,
    p: PaletteModel,
    icon: IconJson,
    n: nat,
    prefix: Seq<char>,
    floor: int,
)
    requires
        well_named(p, prefix),
    ensures
        well_named(with_layer_fills(component, p, icon, n, prefix, floor), prefix),
    decreases n,
{
    if n > 0 {
        let m = (n - 1) as nat;
        lemma_layer_fills(component, p, icon, m, prefix, floor);
        let q = with_layer_fills(component, p, icon, m, prefix, floor);
        let layer = layers_of(icon.groups@, icon.groups@.len())[n - 1].1;
        let r = match layer.fill {
            Some(Fill::Structured(value)) => {
                lemma_fill(component, q, value, None, prefix, floor);
                with_fill(component, q, value, None, prefix, floor)
            },
            _ => q,
        };
        match layer.fill_specializations {
            Some(specs) => {
                lemma_fills(component, r, specs@, specs@.len(), prefix, floor);
            },
            None => {},
        }
    }
}

} // verus!
