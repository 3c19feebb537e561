//! What the effects of an icon owe to its manifest.

use vstd::prelude::*;

use crate::files::Item;
use crate::icon_bundle::{drawn_layer, drawn_layers, located, native_size, StackModel};
use crate::icon_effects::{
    appearance_name, are_effects, are_layer_effects, blend_named, bool_of, default_entry, entry_for,
    plain_bool, resolved, shadow_of, specialized, Appearance, IconEffects, LayerEffects, ShadowKind,
    ShadowSpec,
};
use crate::icon_json::{Group, Layer};
use crate::json::{member, text_member, Json};

verus! {

/// Whether an entry is the first that names an appearance.
pub open spec fn names_first(specs: Seq<Json>, name: Seq<char>, i: int) -> bool {
    &&& 0 <= i < specs.len()
    &&& text_member(specs[i], "appearance"@) == Some(name)
    &&& forall|j: int| 0 <= j < i ==> text_member(#[trigger] specs[j], "appearance"@) != Some(name)
}

/// Whether an entry is the first that is meant for no appearance.
pub open spec fn is_default(specs: Seq<Json>, i: int) -> bool {
    &&& 0 <= i < specs.len()
    &&& member(specs[i], "appearance"@) is None
    &&& forall|j: int| 0 <= j < i ==> member(#[trigger] specs[j], "appearance"@) is Some
}

/// Whether an entry applies to an appearance: it is the first that names it, or no entry
/// names it and this is the first that is meant for none.
pub open spec fn applies(specs: Seq<Json>, name: Seq<char>, i: int) -> bool {
    names_first(specs, name, i) || is_default(specs, i) && forall|j: int|
        0 <= j < specs.len() ==> text_member(#[trigger] specs[j], "appearance"@) != Some(name)
}

/// What an appearance is called.
pub open spec fn called(appearance: Appearance) -> Seq<char> {
    match appearance {
        Appearance::Light => "light"@,
        Appearance::Dark => "dark"@,
        Appearance::Tinted => "tinted"@,
    }
}

/// Whether `value` is what a list of specializations gives an appearance: the value of
/// the entry that applies to it, or nothing where none does.
pub open spec fn gives(
    specs: Option<Vec<Json>>,
    appearance: Appearance,
    value: Option<Json>,
) -> bool {
    match specs {
        None => value is None,
        Some(list) => {
            &&& forall|i: int| #[trigger]
                applies(list@, called(appearance), i) ==> value == member(list@[i], "value"@)
            &&& (forall|i: int| !#[trigger] applies(list@, called(appearance), i)) ==> value is None
        },
    }
}

proof fn lemma_entry_for(specs: Seq<Json>, name: Seq<char>, from: int)
    requires
        0 <= from <= specs.len(),
        forall|j: int|
            0 <= j < from ==> text_member(#[trigger] specs[j], "appearance"@) != Some(name),
    ensures
        match entry_for(specs, name, from) {
            Some(entry) => exists|i: int| #[trigger]
                names_first(specs, name, i) && specs[i] == entry,
            None => forall|j: int|
                0 <= j < specs.len() ==> text_member(#[trigger] specs[j], "appearance"@) != Some(
                    name,
                ),
        },
    decreases specs.len() - from,
{
    if from < specs.len() {
        if text_member(specs[from], "appearance"@) == Some(name) {
            assert(names_first(specs, name, from));
        } else {
            lemma_entry_for(specs, name, from + 1);
        }
    }
}

proof fn lemma_default_entry(specs: Seq<Json>, from: int)
    requires
        0 <= from <= specs.len(),
        forall|j: int| 0 <= j < from ==> member(#[trigger] specs[j], "appearance"@) is Some,
    ensures
        match default_entry(specs, from) {
            Some(entry) => exists|i: int| #[trigger] is_default(specs, i) && specs[i] == entry,
            None => forall|j: int|
                0 <= j < specs.len() ==> member(#[trigger] specs[j], "appearance"@) is Some,
        },
    decreases specs.len() - from,
{
    if from < specs.len() {
        if member(specs[from], "appearance"@) is None {
            assert(is_default(specs, from));
        } else {
            lemma_default_entry(specs, from + 1);
        }
    }
}

proof fn lemma_one_applies(specs: Seq<Json>, name: Seq<char>, i: int, j: int)
    requires
        applies(specs, name, i),
        applies(specs, name, j),
    ensures
        i == j,
{
    if i < j {
        assert(text_member(specs[i], "appearance"@) != Some(name) || !names_first(specs, name, j));
    }
    if j < i {
        assert(text_member(specs[j], "appearance"@) != Some(name) || !names_first(specs, name, i));
    }
}

/// A list of specializations gives an appearance the value of the entry that applies to
/// it; where that has no value, or none applies, the plain field is left.
pub proof fn specializations_come_first(
    specs: Option<Vec<Json>>,
    plain: Option<Json>,
    appearance: Appearance,
    value: Option<Json>,
)
    requires
        gives(specs, appearance, value),
    ensures
        resolved(specs, plain, appearance) == (if value is Some {
            value
        } else {
            plain
        }),
{
    match specs {
        None => {},
        Some(list) => {
            let name = called(appearance);
            assert(name == appearance_name(appearance));
            lemma_entry_for(list@, name, 0);
            lemma_default_entry(list@, 0);
            match entry_for(list@, name, 0) {
                Some(entry) => {
                    let i = choose|i: int| #[trigger]
                        names_first(list@, name, i) && list@[i] == entry;
                    assert(applies(list@, name, i));
                },
                None => match default_entry(list@, 0) {
                    Some(entry) => {
                        let i = choose|i: int| #[trigger]
                            is_default(list@, i) && list@[i] == entry;
                        assert(applies(list@, name, i));
                    },
                    None => {
                        assert forall|i: int| !#[trigger] applies(list@, name, i) by {}
                    },
                },
            }
            assert(specialized(list@, appearance) == value);
        },
    }
}

/// There is one value that a list of specializations gives an appearance.
pub proof fn specializations_give_one_value(
    specs: Option<Vec<Json>>,
    appearance: Appearance,
) -> (value: Option<Json>)
    ensures
        gives(specs, appearance, value),
        forall|other: Option<Json>| gives(specs, appearance, other) ==> other == value,
{
    match specs {
        None => None,
        Some(list) => {
            let name = called(appearance);
            if exists|i: int| #[trigger] applies(list@, name, i) {
                let i = choose|i: int| #[trigger] applies(list@, name, i);
                let value = member(list@[i], "value"@);
                assert forall|j: int| #[trigger] applies(list@, name, j) implies value == member(
                    list@[j],
                    "value"@,
                ) by {
                    lemma_one_applies(list@, name, i, j);
                }
                value
            } else {
                None
            }
        },
    }
}

/// A truth value that a list gives; what is none counts as false, and without a list the
/// plain field counts.
pub open spec fn truth(value: Option<Json>, plain: Option<bool>) -> bool {
    match value {
        Some(Json::Bool(b)) => b,
        Some(_) => false,
        None => plain == Some(true),
    }
}

proof fn lemma_truth(
    specs: Option<Vec<Json>>,
    plain: Option<bool>,
    appearance: Appearance,
    value: Option<Json>,
)
    requires
        gives(specs, appearance, value),
    ensures
        bool_of(resolved(specs, plain_bool(plain), appearance)) == truth(value, plain),
{
    specializations_come_first(specs, plain_bool(plain), appearance, value);
}

/// A layer has the opacity, the blend mode, the glass and the visibility that its
/// manifest gives it for an appearance: 1.0 only where no number is given, and normal
/// blending only where no name is.
pub proof fn layers_follow_their_manifest(
    effects: LayerEffects,
    layer: Layer,
    appearance: Appearance,
    opacity: Option<Json>,
    blend: Option<Json>,
    glass: Option<Json>,
    hidden: Option<Json>,
)
    requires
        are_layer_effects(effects, layer, appearance),
        gives(layer.opacity_specializations, appearance, opacity),
        gives(layer.blend_mode_specializations, appearance, blend),
        gives(layer.glass_specializations, appearance, glass),
        gives(layer.hidden_specializations, appearance, hidden),
    ensures
        match opacity {
            Some(Json::Number(n)) => effects.opacity == n.single,
            _ => effects.opacity == 0x3f80_0000,
        },
        match blend {
            Some(Json::Text(name)) => effects.blend_mode@ == name@,
            _ => effects.blend_mode@ == "normal"@,
        },
        effects.glass == truth(glass, layer.glass),
        effects.hidden == truth(hidden, layer.hidden),
{
    specializations_come_first(layer.opacity_specializations, None, appearance, opacity);
    specializations_come_first(layer.blend_mode_specializations, None, appearance, blend);
    lemma_truth(layer.glass_specializations, layer.glass, appearance, glass);
    lemma_truth(layer.hidden_specializations, layer.hidden, appearance, hidden);
}

/// Where the list of opacities of a layer has a number for an appearance, that is the
/// opacity of the layer, whatever other entries there are.
pub proof fn listed_opacities_count(
    effects: LayerEffects,
    layer: Layer,
    appearance: Appearance,
    i: int,
)
    requires
        are_layer_effects(effects, layer, appearance),
        layer.opacity_specializations is Some,
        applies(layer.opacity_specializations->0@, called(appearance), i),
    ensures
        match member(layer.opacity_specializations->0@[i], "value"@) {
            Some(Json::Number(n)) => effects.opacity == n.single,
            _ => effects.opacity == 0x3f80_0000,
        },
{
    let list = layer.opacity_specializations->0;
    let value = member(list@[i], "value"@);
    assert forall|j: int| #[trigger] applies(list@, called(appearance), j) implies value == member(
        list@[j],
        "value"@,
    ) by {
        lemma_one_applies(list@, called(appearance), i, j);
    }
    specializations_come_first(layer.opacity_specializations, None, appearance, value);
}

/// The number under a key, if there is one.
pub open spec fn number_under(value: Json, key: Seq<char>) -> Option<u32> {
    match member(value, key) {
        Some(Json::Number(n)) => Some(n.single),
        _ => None,
    }
}

/// A group has the shadow, the sheen, the translucency, the blur, the lighting and the
/// blend mode that its manifest gives it for an appearance, and its layers theirs.
pub proof fn groups_follow_their_manifest(
    effects: IconEffects,
    group: Group,
    appearance: Appearance,
    shadow: Option<Json>,
    specular: Option<Json>,
    translucency: Option<Json>,
    blur: Option<Json>,
    lighting: Option<Json>,
    blend: Option<Json>,
)
    requires
        are_effects(effects, group, appearance),
        gives(group.shadow_specializations, appearance, shadow),
        gives(group.specular_specializations, appearance, specular),
        gives(group.translucency_specializations, appearance, translucency),
        gives(group.blur_material_specializations, appearance, blur),
        gives(group.lighting_specializations, appearance, lighting),
        gives(group.blend_mode_specializations, appearance, blend),
    ensures
        match shadow {
            Some(value) => casts(effects.shadow, value),
            None => match group.shadow {
                Some(plain) => {
                    &&& names_kind(effects.shadow.kind, Some(plain.kind@))
                    &&& effects.shadow.opacity == (match plain.opacity {
                        Some(opacity) => opacity,
                        None => 0x3f80_0000,
                    })
                },
                None => effects.shadow.kind is Absent,
            },
        },
        effects.specular == truth(specular, group.specular),
        match translucency {
            Some(value) => {
                &&& effects.translucency.enabled <==> member(value, "enabled"@) == Some(
                    Json::Bool(true),
                )
                &&& effects.translucency.value == (match number_under(value, "value"@) {
                    Some(n) => n,
                    None => 0,
                })
            },
            None => match group.translucency {
                Some(plain) => {
                    &&& effects.translucency.enabled <==> plain.enabled == Some(true)
                    &&& effects.translucency.value == (match plain.value {
                        Some(n) => n,
                        None => 0,
                    })
                },
                None => !effects.translucency.enabled && effects.translucency.value == 0,
            },
        },
        ({
            let value = if blur is Some {
                blur
            } else {
                group.blur_material
            };
            effects.blur_material == (match value {
                Some(Json::Number(n)) => Some(n.single),
                Some(other) => number_under(other, "value"@),
                None => None,
            })
        }),
        effects.lighting is Combined <==> (lighting matches Some(Json::Text(name)) && name@
            == "combined"@),
        match blend {
            Some(Json::Text(name)) => effects.blend_mode@ == name@,
            _ => effects.blend_mode@ == "normal"@,
        },
        effects.layers@.len() == group.layers@.len(),
{
    specializations_come_first(group.shadow_specializations, None, appearance, shadow);
    lemma_truth(group.specular_specializations, group.specular, appearance, specular);
    specializations_come_first(group.translucency_specializations, None, appearance, translucency);
    specializations_come_first(
        group.blur_material_specializations,
        group.blur_material,
        appearance,
        blur,
    );
    specializations_come_first(group.lighting_specializations, None, appearance, lighting);
    specializations_come_first(group.blend_mode_specializations, None, appearance, blend);
    match shadow {
        Some(value) => shadows_read_back(value),
        None => {},
    }
    reveal_strlit("none");
    reveal_strlit("layer-color");
    assert("none"@.len() == 4 && "layer-color"@.len() == 11);
}

/// Whether a kind of shadow has a name: nothing for `none`, the color of the layer for
/// `layer-color`, and gray for all else.
pub open spec fn names_kind(kind: ShadowKind, name: Option<Seq<char>>) -> bool {
    match kind {
        ShadowKind::Absent => name == Some("none"@),
        ShadowKind::LayerColor => name == Some("layer-color"@),
        ShadowKind::Neutral => name != Some("none"@) && name != Some("layer-color"@),
    }
}

/// Whether a shadow is the one that a value asks for: a word asks for one in gray at
/// full strength, but for `none`; an object names its kind and its strength.
pub open spec fn casts(shadow: ShadowSpec, value: Json) -> bool {
    match value {
        Json::Text(word) => {
            &&& shadow.opacity == 0x3f80_0000
            &&& shadow.kind is Absent <==> word@ == "none"@
            &&& !(shadow.kind is LayerColor)
        },
        _ => {
            &&& names_kind(shadow.kind, text_member(value, "kind"@))
            &&& shadow.opacity == (match number_under(value, "opacity"@) {
                Some(n) => n,
                None => 0x3f80_0000,
            })
        },
    }
}

/// A shadow is the one that its value asks for.
pub proof fn shadows_read_back(value: Json)
    ensures
        casts(shadow_of(value), value),
{
    reveal_strlit("none");
    reveal_strlit("layer-color");
    assert("none"@.len() == 4 && "layer-color"@.len() == 11);
}

/// Each blend mode has its name, and all other names blend normally.
pub proof fn blend_modes_have_names(name: Seq<char>)
    ensures
        blend_named(name) is Multiply <==> name == "multiply"@,
        blend_named(name) is Screen <==> name == "screen"@,
        blend_named(name) is Overlay <==> name == "overlay"@,
        blend_named(name) is SoftLight <==> name == "soft-light"@,
        blend_named(name) is HardLight <==> name == "hard-light"@,
        blend_named(name) is Darken <==> name == "darken"@,
        blend_named(name) is Lighten <==> name == "lighten"@,
{
    reveal_strlit("multiply");
    reveal_strlit("screen");
    reveal_strlit("overlay");
    reveal_strlit("soft-light");
    reveal_strlit("hard-light");
    reveal_strlit("darken");
    reveal_strlit("lighten");
    assert("multiply"@.len() == 8 && "screen"@.len() == 6 && "darken"@.len() == 6);
    assert("overlay"@.len() == 7 && "lighten"@.len() == 7);
    assert("soft-light"@.len() == 10 && "hard-light"@.len() == 10);
    assert("screen"@[0] == 's' && "darken"@[0] == 'd');
    assert("overlay"@[0] == 'o' && "lighten"@[0] == 'l');
    assert("soft-light"@[0] == 's' && "hard-light"@[0] == 'h');
}

/// A layer that is drawn has its image, its own size, the positions of its group and
/// its own, and the opacity and blend mode that its manifest gives it.  One that is
/// hidden, or whose image is not there, is not drawn.
pub proof fn drawn_layers_follow_their_manifest(
    bundle: Item,
    group: Group,
    layer: Layer,
    appearance: Appearance,
    opacity: Option<Json>,
    blend: Option<Json>,
)
    requires
        gives(layer.opacity_specializations, appearance, opacity),
        gives(layer.blend_mode_specializations, appearance, blend),
    ensures
        match drawn_layer(bundle, group, layer, appearance) {
            None => layer.hidden == Some(true) || layer.image_name is None || located(
                bundle,
                layer.image_name->0@,
            ) is None,
            Some(drawn) => {
                &&& layer.hidden != Some(true)
                &&& layer.image_name is Some
                &&& located(bundle, layer.image_name->0@) == Some(drawn.source)
                &&& drawn.native == native_size(bundle, drawn.source)
                &&& drawn.group_position == group.position
                &&& drawn.layer_position == layer.position
                &&& match opacity {
                    Some(Json::Number(n)) => drawn.opacity == n.single,
                    _ => drawn.opacity == 0x3f80_0000,
                }
                &&& match blend {
                    Some(Json::Text(name)) => drawn.blend == blend_named(name@),
                    _ => drawn.blend is Normal,
                }
            },
        },
{
    specializations_come_first(layer.opacity_specializations, None, appearance, opacity);
    specializations_come_first(layer.blend_mode_specializations, None, appearance, blend);
    reveal_strlit("normal");
    blend_modes_have_names("normal"@);
    reveal_strlit("multiply");
    reveal_strlit("screen");
    reveal_strlit("overlay");
    reveal_strlit("soft-light");
    reveal_strlit("hard-light");
    reveal_strlit("darken");
    reveal_strlit("lighten");
    assert("normal"@.len() == 6 && "normal"@[0] == 'n');
    assert("screen"@[0] == 's' && "darken"@[0] == 'd');
    assert("multiply"@.len() == 8 && "overlay"@.len() == 7 && "lighten"@.len() == 7);
    assert("soft-light"@.len() == 10 && "hard-light"@.len() == 10);
}

/// Whether a group turns its layers into glass for an appearance, by its effects.
pub open spec fn turns_to_glass(effects: IconEffects) -> bool {
    effects.translucency.enabled || effects.blur_material is Some || exists|i: int|
        0 <= i < effects.layers@.len() && (#[trigger] effects.layers@[i]).glass
}

/// How a layer of glass is drawn: where its group lets the background through it is
/// frosted, and tints it if its shadow has its color; elsewhere it has the sheen of its
/// group.  Only glass casts a shadow, and that of its group.
pub proof fn glass_follows_the_group(
    bundle: Item,
    group: Group,
    layer: Layer,
    appearance: Appearance,
    effects: IconEffects,
    own: LayerEffects,
)
    requires
        are_effects(effects, group, appearance),
        are_layer_effects(own, layer, appearance),
    ensures
        match drawn_layer(bundle, group, layer, appearance) {
            None => true,
            Some(drawn) => {
                let refuses = layer.glass == Some(false) && layer.glass_specializations is None;
                let glass = own.glass || turns_to_glass(effects) && !refuses;
                &&& drawn.frosted <==> glass && effects.translucency.enabled
                &&& drawn.tinted <==> drawn.frosted && effects.shadow.kind is LayerColor
                &&& drawn.specular <==> glass && !effects.translucency.enabled && effects.specular
                &&& drawn.shadow is Some <==> glass && !(effects.shadow.kind is Absent)
                &&& drawn.shadow is Some ==> drawn.shadow->0 == effects.shadow
            },
        },
{
    if turns_to_glass(effects) && !effects.translucency.enabled && effects.blur_material is None {
        let i = choose|i: int|
            0 <= i < effects.layers@.len() && (#[trigger] effects.layers@[i]).glass;
        assert(are_layer_effects(effects.layers@[i], group.layers@[i], appearance));
        assert(crate::icon_bundle::declared_glass(group.layers@[i], appearance));
    }
    if crate::icon_bundle::glass_group(group, appearance) && !effects.translucency.enabled
        && effects.blur_material is None {
        let i = choose|i: int|
            0 <= i < group.layers@.len() && crate::icon_bundle::declared_glass(
                #[trigger] group.layers@[i],
                appearance,
            );
        assert(are_layer_effects(effects.layers@[i], group.layers@[i], appearance));
        assert(effects.layers@[i].glass);
    }
}

/// Layers are drawn from the back to the front, and listed from the front to the back:
/// what is listed behind some layers is drawn before all of them.
pub proof fn later_layers_are_drawn_first(
    bundle: Item,
    front: Seq<(Group, Layer)>,
    back: Seq<(Group, Layer)>,
    appearance: Appearance,
)
    ensures
        drawn_layers(bundle, front + back, (front + back).len(), appearance) == drawn_layers(
            bundle,
            back,
            back.len(),
            appearance,
        ) + drawn_layers(bundle, front, front.len(), appearance),
{
    lemma_drawn_behind(bundle, front, back, back.len(), appearance);
}

proof fn lemma_drawn_behind(
    bundle: Item,
    front: Seq<(Group, Layer)>,
    back: Seq<(Group, Layer)>,
    n: nat,
    appearance: Appearance,
)
    requires
        n <= back.len(),
    ensures
        drawn_layers(bundle, front + back, front.len() + n, appearance) == drawn_layers(
            bundle,
            back,
            n,
            appearance,
        ) + drawn_layers(bundle, front, front.len(), appearance),
    decreases n,
{
    let all = front + back;
    let first = drawn_layers(bundle, front, front.len(), appearance);
    if n == 0 {
        lemma_drawn_prefix(bundle, front, back, front.len(), appearance);
        assert(Seq::<StackModel>::empty() + first =~= first);
    } else {
        lemma_drawn_behind(bundle, front, back, (n - 1) as nat, appearance);
        assert(all[front.len() + n - 1] == back[n - 1]);
        let rest = drawn_layers(bundle, back, (n - 1) as nat, appearance);
        match drawn_layer(bundle, back[n - 1].0, back[n - 1].1, appearance) {
            Some(layer) => {
                assert(seq![layer] + (rest + first) =~= seq![layer] + rest + first);
            },
            None => {},
        }
    }
}

proof fn lemma_drawn_prefix(
    bundle: Item,
    front: Seq<(Group, Layer)>,
    back: Seq<(Group, Layer)>,
    n: nat,
    appearance: Appearance,
)
    requires
        n <= front.len(),
    ensures
        drawn_layers(bundle, front + back, n, appearance) == drawn_layers(
            bundle,
            front,
            n,
            appearance,
        ),
    decreases n,
{
    if n > 0 {
        lemma_drawn_prefix(bundle, front, back, (n - 1) as nat, appearance);
        assert((front + back)[n - 1] == front[n - 1]);
    }
}

/// A single layer is drawn as it is, or not at all.
pub proof fn one_layer_is_drawn_alone(bundle: Item, layer: (Group, Layer), appearance: Appearance)
    ensures
        drawn_layers(bundle, seq![layer], 1, appearance) == (match drawn_layer(
            bundle,
            layer.0,
            layer.1,
            appearance,
        ) {
            Some(drawn) => seq![drawn],
            None => Seq::<StackModel>::empty(),
        }),
{
    let none = Seq::<StackModel>::empty();
    reveal_with_fuel(drawn_layers, 2);
    assert(seq![layer][0] == layer);
    match drawn_layer(bundle, layer.0, layer.1, appearance) {
        Some(drawn) => {
            assert(seq![drawn] + none =~= seq![drawn]);
        },
        None => {},
    }
}

} // verus!
