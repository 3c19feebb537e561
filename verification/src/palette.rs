//! The palette of an icon: the colors and gradients that its fills ask for.
//! Floating-point numbers are given by their bits.

use vstd::prelude::*;
use vstd::string::StrSliceExecFns;

use crate::csi::{stop_views, GradientStop};
use crate::icon_effects::{single_or, SINGLE_ONE};
use crate::icon_json::{layer_views, layers_of, Fill, IconJson, Layer};
use crate::json::{list_member, member, text_member, Json};
use crate::naming::{ask, is_text_function, value_of};
use crate::platform::{find_char, position};
use crate::text::{decimal, put_decimal, put_str, same_text};

verus! {

/// 1.0 in double precision.
pub const ONE: u64 = 0x3ff0_0000_0000_0000;

/// 0.925 in single precision, as a double.
pub const LIGHT_BOTTOM: u64 = 0x3fed_9999_a000_0000;

/// 0.192 in single precision, as a double.
pub const DARK_TOP: u64 = 0x3fc8_9374_c000_0000;

/// 0.078 in single precision, as a double.
pub const DARK_BOTTOM: u64 = 0x3fb3_f7ce_e000_0000;

/// 0.5 in single precision.
pub const SINGLE_HALF: u32 = 0x3f00_0000;

/// A color space with an extended gray axis.
pub const EXTENDED_GRAY: u32 = 6;

/// A color space with a gray axis.
pub const GRAY: u32 = 2;

/// A color: as many components as its space has.
#[derive(Debug)]
pub struct ColorAsset {
    pub facet_name: String,
    pub colorspace_id: u32,
    pub components: Vec<u64>,
}

/// A gradient between colors of the palette.
#[derive(Debug)]
pub struct GradientAsset {
    pub facet_name: String,
    /// Start and stop, each with x and y.
    pub geometry: [u32; 4],
    pub stops: Vec<GradientStop>,
    /// 0 for one color of the user, 1 for a linear gradient.
    pub kind: u32,
}

/// A palette.
#[derive(Debug)]
pub struct Palette {
    pub colors: Vec<ColorAsset>,
    pub gradients: Vec<GradientAsset>,
}

/// A color as a mathematical value.
#[verifier::ext_equal]
pub struct ColorModel {
    pub name: Seq<char>,
    pub space: u32,
    pub components: Seq<u64>,
}

/// A gradient as a mathematical value.
#[verifier::ext_equal]
pub struct GradientModel {
    pub name: Seq<char>,
    pub geometry: Seq<u32>,
    pub stops: Seq<(u32, Seq<char>)>,
    pub kind: u32,
}

/// A palette as a mathematical value.
#[verifier::ext_equal]
pub struct PaletteModel {
    pub colors: Seq<ColorModel>,
    pub gradients: Seq<GradientModel>,
}

impl View for ColorAsset {
    type V = ColorModel;

    open spec fn view(&self) -> ColorModel {
        ColorModel {
            name: self.facet_name@,
            space: self.colorspace_id,
            components: self.components@,
        }
    }
}

impl View for GradientAsset {
    type V = GradientModel;

    open spec fn view(&self) -> GradientModel {
        GradientModel {
            name: self.facet_name@,
            geometry: self.geometry@,
            stops: stop_views(self.stops@),
            kind: self.kind,
        }
    }
}

/// The colors of a list.
pub open spec fn color_views(colors: Seq<ColorAsset>) -> Seq<ColorModel> {
    Seq::new(colors.len(), |i: int| colors[i]@)
}

/// The gradients of a list.
pub open spec fn gradient_views(gradients: Seq<GradientAsset>) -> Seq<GradientModel> {
    Seq::new(gradients.len(), |i: int| gradients[i]@)
}

impl View for Palette {
    type V = PaletteModel;

    open spec fn view(&self) -> PaletteModel {
        PaletteModel {
            colors: color_views(self.colors@),
            gradients: gradient_views(self.gradients@),
        }
    }
}

/// The name of the `n`th color.
pub open spec fn color_name(prefix: Seq<char>, n: nat) -> Seq<char> {
    prefix + "_Assets/Color-"@ + decimal(n)
}

/// The name of the `n`th gradient.
pub open spec fn gradient_name(prefix: Seq<char>, n: nat) -> Seq<char> {
    prefix + "_Assets/Gradient-"@ + decimal(n)
}

fn make_color_name(prefix: &str, n: u128) -> (name: String)
    ensures
        name@ == color_name(prefix@, n as nat),
{
    let mut name = prefix.to_owned();
    put_str(&mut name, "_Assets/Color-");
    put_decimal(&mut name, n);
    name
}

fn make_gradient_name(prefix: &str, n: u128) -> (name: String)
    ensures
        name@ == gradient_name(prefix@, n as nat),
{
    let mut name = prefix.to_owned();
    put_str(&mut name, "_Assets/Gradient-");
    put_decimal(&mut name, n);
    name
}

/// A palette with one more color, under the next name.
pub open spec fn plus_color(
    p: PaletteModel,
    prefix: Seq<char>,
    space: u32,
    components: Seq<u64>,
) -> PaletteModel {
    PaletteModel {
        colors: p.colors.push(
            ColorModel { name: color_name(prefix, p.colors.len() + 1), space, components },
        ),
        ..p
    }
}

/// A palette with one more gradient, under the next name.
pub open spec fn plus_gradient(
    p: PaletteModel,
    prefix: Seq<char>,
    geometry: Seq<u32>,
    stops: Seq<(u32, Seq<char>)>,
    kind: u32,
) -> PaletteModel {
    PaletteModel {
        gradients: p.gradients.push(
            GradientModel {
                name: gradient_name(prefix, p.gradients.len() + 1),
                geometry,
                stops,
                kind,
            },
        ),
        ..p
    }
}

/// From the top to the bottom.
pub open spec fn downwards() -> Seq<u32> {
    seq![SINGLE_HALF, 0, SINGLE_HALF, SINGLE_ONE]
}

/// From one color to another.
pub open spec fn two_stops(first: Seq<char>, second: Seq<char>) -> Seq<(u32, Seq<char>)> {
    seq![(0u32, first), (SINGLE_ONE, second)]
}

/// A gray and its alpha.
pub open spec fn gray(level: u64) -> Seq<u64> {
    seq![level, ONE]
}

impl Palette {
    fn new() -> (p: Self)
        ensures
            p@.colors.len() == 0,
            p@.gradients.len() == 0,
    {
        Palette { colors: Vec::new(), gradients: Vec::new() }
    }

    fn push_color(&mut self, prefix: &str, space: u32, components: Vec<u64>)
        ensures
            final(self)@ == plus_color(old(self)@, prefix@, space, components@),
    {
        let name = make_color_name(prefix, self.colors.len() as u128 + 1);
        self.colors.push(ColorAsset { facet_name: name, colorspace_id: space, components });
        assert(self@ =~= plus_color(old(self)@, prefix@, space, components@));
    }

    fn push_gradient(
        &mut self,
        prefix: &str,
        geometry: [u32; 4],
        stops: Vec<GradientStop>,
        kind: u32,
    )
        ensures
            final(self)@ == plus_gradient(
                old(self)@,
                prefix@,
                geometry@,
                stop_views(stops@),
                kind,
            ),
    {
        let name = make_gradient_name(prefix, self.gradients.len() as u128 + 1);
        self.gradients.push(GradientAsset { facet_name: name, geometry, stops, kind });
        assert(self@ =~= plus_gradient(
            old(self)@,
            prefix@,
            geometry@,
            stop_views(stops@),
            kind,
        ));
    }
}

fn make_gray(level: u64) -> (components: Vec<u64>)
    ensures
        components@ == gray(level),
{
    let mut components: Vec<u64> = Vec::new();
    components.push(level);
    components.push(ONE);
    assert(components@ =~= gray(level));
    components
}

fn make_downwards() -> (geometry: [u32; 4])
    ensures
        geometry@ == downwards(),
{
    let geometry: [u32; 4] = [SINGLE_HALF, 0, SINGLE_HALF, SINGLE_ONE];
    assert(geometry@ =~= downwards());
    geometry
}

fn make_two_stops(first: String, second: String) -> (stops: Vec<GradientStop>)
    ensures
        stop_views(stops@) == two_stops(first@, second@),
{
    let mut stops: Vec<GradientStop> = Vec::new();
    stops.push(GradientStop { position: 0, color: first });
    stops.push(GradientStop { position: SINGLE_ONE, color: second });
    assert(stop_views(stops@) =~= two_stops(first@, second@));
    stops
}

/// A palette that holds the white anchor alone.
pub open spec fn anchored(prefix: Seq<char>) -> PaletteModel {
    plus_color(
        PaletteModel { colors: Seq::empty(), gradients: Seq::empty() },
        prefix,
        EXTENDED_GRAY,
        gray(ONE),
    )
}

/// A palette with the two colors of the dark background.
pub open spec fn with_dark_colors(p: PaletteModel, prefix: Seq<char>) -> PaletteModel {
    plus_color(plus_color(p, prefix, GRAY, gray(DARK_TOP)), prefix, GRAY, gray(DARK_BOTTOM))
}

/// A palette with a gradient from color `n` downwards to the next.
pub open spec fn with_gradient_at(p: PaletteModel, prefix: Seq<char>, n: nat) -> PaletteModel {
    plus_gradient(
        p,
        prefix,
        downwards(),
        two_stops(color_name(prefix, n), color_name(prefix, n + 1)),
        1,
    )
}

/// The palette of the `automatic` fill: the anchor, a light background and a dark
/// one.
pub open spec fn automatic_palette(prefix: Seq<char>) -> PaletteModel {
    linear_palette(prefix, (GRAY, gray(ONE)), (GRAY, gray(LIGHT_BOTTOM)))
}

/// The palette of a gradient of the user: the anchor, the gradient and a dark
/// background.
pub open spec fn linear_palette(
    prefix: Seq<char>,
    first: (u32, Seq<u64>),
    second: (u32, Seq<u64>),
) -> PaletteModel {
    let p = plus_color(anchored(prefix), prefix, first.0, first.1);
    let p = plus_color(p, prefix, second.0, second.1);
    let p = with_dark_colors(p, prefix);
    with_gradient_at(with_gradient_at(p, prefix, 2), prefix, 4)
}

/// The palette of a solid color of the user: the anchor, the color and a dark
/// background.
pub open spec fn solid_palette(prefix: Seq<char>, color: (u32, Seq<u64>)) -> PaletteModel {
    let p = plus_color(anchored(prefix), prefix, color.0, color.1);
    with_gradient_at(with_dark_colors(p, prefix), prefix, 3)
}

/// The palette of a gradient that the system makes of a color of the user.
pub open spec fn automatic_gradient_palette(
    prefix: Seq<char>,
    color: (u32, Seq<u64>),
) -> PaletteModel {
    let p = plus_color(anchored(prefix), prefix, color.0, color.1);
    let p = with_dark_colors(p, prefix);
    let p = plus_gradient(p, prefix, downwards(), seq![(0u32, color_name(prefix, 2))], 0);
    with_gradient_at(p, prefix, 3)
}

/// The palette of the `system-dark` fill: the anchor and a dark background, which
/// both appearances use.
pub open spec fn system_dark_palette(prefix: Seq<char>) -> PaletteModel {
    let p = with_dark_colors(anchored(prefix), prefix);
    with_gradient_at(with_gradient_at(p, prefix, 2), prefix, 2)
}

fn make_anchored(prefix: &str) -> (p: Palette)
    ensures
        p@ == anchored(prefix@),
{
    let mut p = Palette::new();
    assert(p@ =~= (PaletteModel { colors: Seq::empty(), gradients: Seq::empty() }));
    p.push_color(prefix, EXTENDED_GRAY, make_gray(ONE));
    p
}

fn add_dark_colors(p: &mut Palette, prefix: &str)
    ensures
        final(p)@ == with_dark_colors(old(p)@, prefix@),
{
    p.push_color(prefix, GRAY, make_gray(DARK_TOP));
    p.push_color(prefix, GRAY, make_gray(DARK_BOTTOM));
}

fn add_gradient_at(p: &mut Palette, prefix: &str, n: u8)
    ensures
        final(p)@ == with_gradient_at(old(p)@, prefix@, n as nat),
{
    let stops = make_two_stops(
        make_color_name(prefix, n as u128),
        make_color_name(prefix, n as u128 + 1),
    );
    p.push_gradient(prefix, make_downwards(), stops, 1);
}

/// The palette of the `automatic` fill.
pub fn automatic_fill_assets(prefix: &str) -> (p: Palette)
    ensures
        p@ == automatic_palette(prefix@),
{
    make_linear(prefix, GRAY, make_gray(ONE), GRAY, make_gray(LIGHT_BOTTOM))
}

fn make_linear(
    prefix: &str,
    first_space: u32,
    first: Vec<u64>,
    second_space: u32,
    second: Vec<u64>,
) -> (p: Palette)
    ensures
        p@ == linear_palette(prefix@, (first_space, first@), (second_space, second@)),
{
    let mut p = make_anchored(prefix);
    p.push_color(prefix, first_space, first);
    p.push_color(prefix, second_space, second);
    add_dark_colors(&mut p, prefix);
    add_gradient_at(&mut p, prefix, 2);
    add_gradient_at(&mut p, prefix, 4);
    p
}

/// The palette of the `system-dark` fill.
pub fn system_dark_fill_assets(prefix: &str) -> (p: Palette)
    ensures
        p@ == system_dark_palette(prefix@),
{
    let mut p = make_anchored(prefix);
    add_dark_colors(&mut p, prefix);
    add_gradient_at(&mut p, prefix, 2);
    add_gradient_at(&mut p, prefix, 2);
    p
}

/// A color space by the name that color specifications use.
pub open spec fn spec_space(name: Seq<char>) -> Option<u32> {
    if name == "srgb"@ {
        Some(1)
    } else if name == "gray"@ {
        Some(2)
    } else if name == "display-p3"@ {
        Some(3)
    } else if name == "extended-srgb"@ {
        Some(4)
    } else if name == "extended-gray"@ {
        Some(6)
    } else {
        None
    }
}

/// The components between commas, as `component` reads them; `None` if it cannot
/// read one.
pub open spec fn spec_components<C: Fn(&str) -> Option<u64>>(
    component: C,
    text: Seq<char>,
) -> Option<Seq<u64>>
    decreases text.len(),
{
    let comma = find_char(text, ',', 0);
    if comma < 0 || comma >= text.len() {
        match value_of(component, text) {
            Some(v) => Some(seq![v]),
            None => None,
        }
    } else {
        match (
            value_of(component, text.take(comma)),
            spec_components(component, text.skip(comma + 1)),
        ) {
            (Some(v), Some(rest)) => Some(seq![v] + rest),
            _ => None,
        }
    }
}

/// A color such as `srgb:0.5,0.5,0.5,1.0`: its space and components.
pub open spec fn color_spec<C: Fn(&str) -> Option<u64>>(component: C, spec: Seq<char>) -> Option<
    (u32, Seq<u64>),
> {
    let colon = find_char(spec, ':', 0);
    if colon >= spec.len() {
        None
    } else {
        match (spec_space(spec.take(colon)), spec_components(component, spec.skip(colon + 1))) {
            (Some(space), Some(components)) => Some((space, components)),
            _ => None,
        }
    }
}

/// Components behind others.
spec fn behind(out: Seq<u64>, rest: Option<Seq<u64>>) -> Option<Seq<u64>> {
    match rest {
        Some(r) => Some(out + r),
        None => None,
    }
}

proof fn lemma_find_char(s: Seq<char>, c: char, from: int, lead: Seq<char>)
    requires
        0 <= from <= s.len(),
    ensures
        find_char(lead + s, c, lead.len() + from) == lead.len() + find_char(s, c, from),
    decreases s.len() - from,
{
    if from < s.len() {
        assert((lead + s)[lead.len() + from] == s[from]);
        if s[from] != c {
            lemma_find_char(s, c, from + 1, lead);
        }
    }
}

fn read_components<C: Fn(&str) -> Option<u64>>(
    text: &str,
    start: usize,
    len: usize,
    component: &C,
) -> (out: Option<Vec<u64>>)
    requires
        start <= len == text@.len(),
        is_text_function(*component),
    ensures
        match out {
            Some(values) => spec_components(*component, text@.skip(start as int)) == Some(values@),
            None => spec_components(*component, text@.skip(start as int)) is None,
        },
{
    let mut values: Vec<u64> = Vec::new();
    let mut from: usize = start;
    let ghost whole = spec_components(*component, text@.skip(start as int));
    proof {
        if whole is Some {
            assert(Seq::<u64>::empty() + whole->0 =~= whole->0);
        }
    }
    loop
        invariant
            start <= from <= len == text@.len(),
            is_text_function(*component),
            whole == spec_components(*component, text@.skip(start as int)),
            whole == behind(values@, spec_components(*component, text@.skip(from as int))),
        decreases len - from,
    {
        let ghost left = text@.skip(from as int);
        let comma = position(text, ',', from, len);
        proof {
            lemma_find_char(left, ',', 0, text@.take(from as int));
            assert(text@.take(from as int) + left =~= text@);
        }
        let piece = text.substring_char(from, comma);
        assert(piece@ =~= left.take(comma - from));
        let ghost before = values@;
        match ask(component, piece) {
            None => {
                proof {
                    if comma == len {
                        assert(piece@ =~= left);
                    }
                }
                return None;
            },
            Some(v) => {
                values.push(v);
                if comma == len {
                    proof {
                        assert(piece@ =~= left);
                        assert(values@ =~= before + seq![v]);
                    }
                    return Some(values);
                }
                proof {
                    let rest = spec_components(*component, left.skip(comma - from + 1));
                    assert(left.skip(comma - from + 1) =~= text@.skip(comma + 1));
                    if rest is Some {
                        assert(before + (seq![v] + rest->0) =~= values@ + rest->0);
                    }
                }
                from = comma + 1;
            },
        }
    }
}

/// Reads a color.
pub fn parse_color_spec<C: Fn(&str) -> Option<u64>>(spec: &str, component: &C) -> (color: Option<
    (u32, Vec<u64>),
>)
    requires
        is_text_function(*component),
    ensures
        match color {
            Some((space, components)) => color_spec(*component, spec@) == Some(
                (space, components@),
            ),
            None => color_spec(*component, spec@) is None,
        },
{
    let len: usize = spec.unicode_len();
    let colon = position(spec, ':', 0, len);
    if colon >= len {
        return None;
    }
    let name = spec.substring_char(0, colon);
    assert(name@ =~= spec@.take(colon as int));
    let components = match read_components(spec, colon + 1, len, component) {
        None => {
            return None;
        },
        Some(components) => components,
    };
    let space: u32 = if same_text(name, "srgb") {
        1
    } else if same_text(name, "gray") {
        2
    } else if same_text(name, "display-p3") {
        3
    } else if same_text(name, "extended-srgb") {
        4
    } else if same_text(name, "extended-gray") {
        6
    } else {
        return None;
    };
    Some((space, components))
}

/// Whether two double-precision numbers are equal: zeros are, whatever their sign,
/// and what is no number equals nothing.
pub open spec fn same_double(a: u64, b: u64) -> bool {
    let sign = 0x8000_0000_0000_0000u64;
    let infinity = 0x7ff0_0000_0000_0000u64;
    a % sign <= infinity && b % sign <= infinity && (a == b || a % sign == 0 && b % sign == 0)
}

/// Whether two single-precision numbers are equal.
pub open spec fn same_single(a: u32, b: u32) -> bool {
    let sign = 0x8000_0000u32;
    let infinity = 0x7f80_0000u32;
    a % sign <= infinity && b % sign <= infinity && (a == b || a % sign == 0 && b % sign == 0)
}

fn check_double(a: u64, b: u64) -> (answer: bool)
    ensures
        answer == same_double(a, b),
{
    let sign: u64 = 0x8000_0000_0000_0000;
    let infinity: u64 = 0x7ff0_0000_0000_0000;
    a % sign <= infinity && b % sign <= infinity && (a == b || a % sign == 0 && b % sign == 0)
}

fn check_single(a: u32, b: u32) -> (answer: bool)
    ensures
        answer == same_single(a, b),
{
    let sign: u32 = 0x8000_0000;
    let infinity: u32 = 0x7f80_0000;
    a % sign <= infinity && b % sign <= infinity && (a == b || a % sign == 0 && b % sign == 0)
}

/// Whether a color has this space and these components.
pub open spec fn is_color(color: ColorModel, space: u32, components: Seq<u64>) -> bool {
    &&& color.space == space
    &&& color.components.len() == components.len()
    &&& forall|i: int|
        0 <= i < components.len() ==> same_double(#[trigger] color.components[i], components[i])
}

/// The first color from `from` on that has this space and these components.
pub open spec fn find_color(
    colors: Seq<ColorModel>,
    space: u32,
    components: Seq<u64>,
    from: int,
) -> Option<int>
    decreases colors.len() - from,
{
    if from < 0 || from >= colors.len() {
        None
    } else if is_color(colors[from], space, components) {
        Some(from)
    } else {
        find_color(colors, space, components, from + 1)
    }
}

/// A palette with a color, and the color's name.  A color that is already there,
/// at `floor` or later, is not added again.
pub open spec fn with_color(
    p: PaletteModel,
    prefix: Seq<char>,
    space: u32,
    components: Seq<u64>,
    floor: int,
) -> (PaletteModel, Seq<char>) {
    match find_color(p.colors, space, components, floor) {
        Some(i) => (p, p.colors[i].name),
        None => (
            plus_color(p, prefix, space, components),
            color_name(prefix, p.colors.len() + 1),
        ),
    }
}

fn check_color(color: &ColorAsset, space: u32, components: &Vec<u64>) -> (answer: bool)
    ensures
        answer == is_color(color@, space, components@),
{
    if color.colorspace_id != space || color.components.len() != components.len() {
        return false;
    }
    let mut i: usize = 0;
    while i < components.len()
        invariant
            i <= components@.len() == color.components@.len(),
            forall|j: int|
                0 <= j < i ==> same_double(#[trigger] color.components@[j], components@[j]),
        decreases components.len() - i,
    {
        if !check_double(color.components[i], components[i]) {
            assert(!same_double(color@.components[i as int], components@[i as int]));
            return false;
        }
        i = i + 1;
    }
    true
}

/// Adds a color, unless it is there, and gives its name.
pub fn palette_add_color(
    p: &mut Palette,
    prefix: &str,
    space: u32,
    components: Vec<u64>,
    floor: usize,
) -> (name: String)
    ensures
        (final(p)@, name@) == with_color(old(p)@, prefix@, space, components@, floor as int),
{
    let mut i: usize = floor;
    while i < p.colors.len()
        invariant
            *p == *old(p),
            find_color(p@.colors, space, components@, floor as int) == find_color(
                p@.colors,
                space,
                components@,
                i as int,
            ),
        decreases p.colors.len() - i,
    {
        if check_color(&p.colors[i], space, &components) {
            return p.colors[i].facet_name.as_str().to_owned();
        }
        i = i + 1;
    }
    let name = make_color_name(prefix, p.colors.len() as u128 + 1);
    p.push_color(prefix, space, components);
    name
}

/// Whether a gradient is linear with this geometry and these stops.
pub open spec fn is_gradient(
    gradient: GradientModel,
    geometry: Seq<u32>,
    stops: Seq<(u32, Seq<char>)>,
) -> bool {
    &&& gradient.kind == 1
    &&& gradient.geometry.len() == geometry.len()
    &&& forall|i: int|
        0 <= i < geometry.len() ==> same_single(#[trigger] gradient.geometry[i], geometry[i])
    &&& gradient.stops.len() == stops.len()
    &&& forall|i: int|
        0 <= i < stops.len() ==> same_single((#[trigger] gradient.stops[i]).0, stops[i].0)
            && gradient.stops[i].1 == stops[i].1
}

/// Whether a palette holds a linear gradient with this geometry and these stops.
pub open spec fn has_gradient(
    p: PaletteModel,
    geometry: Seq<u32>,
    stops: Seq<(u32, Seq<char>)>,
) -> bool {
    exists|i: int|
        0 <= i < p.gradients.len() && is_gradient(#[trigger] p.gradients[i], geometry, stops)
}

/// A palette with a linear gradient; one that is already there is not added again.
pub open spec fn with_gradient(
    p: PaletteModel,
    prefix: Seq<char>,
    geometry: Seq<u32>,
    stops: Seq<(u32, Seq<char>)>,
) -> PaletteModel {
    if has_gradient(p, geometry, stops) {
        p
    } else {
        plus_gradient(p, prefix, geometry, stops, 1)
    }
}

fn check_gradient(
    gradient: &GradientAsset,
    geometry: [u32; 4],
    stops: &Vec<GradientStop>,
) -> (answer: bool)
    ensures
        answer == is_gradient(gradient@, geometry@, stop_views(stops@)),
{
    if gradient.kind != 1 || gradient.stops.len() != stops.len() {
        return false;
    }
    let mut i: usize = 0;
    while i < 4
        invariant
            i <= 4,
            forall|j: int|
                0 <= j < i ==> same_single(#[trigger] gradient.geometry@[j], geometry@[j]),
        decreases 4 - i,
    {
        if !check_single(gradient.geometry[i], geometry[i]) {
            assert(!same_single(gradient@.geometry[i as int], geometry@[i as int]));
            return false;
        }
        i = i + 1;
    }
    let mut k: usize = 0;
    let ghost have = stop_views(gradient.stops@);
    let ghost want = stop_views(stops@);
    while k < stops.len()
        invariant
            k <= stops@.len() == gradient.stops@.len(),
            have == stop_views(gradient.stops@),
            want == stop_views(stops@),
            forall|j: int|
                0 <= j < k ==> same_single((#[trigger] have[j]).0, want[j].0) && have[j].1
                    == want[j].1,
        decreases stops.len() - k,
    {
        if !check_single(gradient.stops[k].position, stops[k].position) || !same_text(
            gradient.stops[k].color.as_str(),
            stops[k].color.as_str(),
        ) {
            assert(!(same_single(have[k as int].0, want[k as int].0) && have[k as int].1
                == want[k as int].1));
            return false;
        }
        k = k + 1;
    }
    true
}

/// Adds a linear gradient, unless it is there.
pub fn palette_add_gradient(
    p: &mut Palette,
    prefix: &str,
    geometry: [u32; 4],
    stops: Vec<GradientStop>,
)
    ensures
        final(p)@ == with_gradient(old(p)@, prefix@, geometry@, stop_views(stops@)),
{
    let mut i: usize = 0;
    while i < p.gradients.len()
        invariant
            i <= p.gradients@.len(),
            *p == *old(p),
            forall|j: int|
                0 <= j < i ==> !is_gradient(
                    #[trigger] p@.gradients[j],
                    geometry@,
                    stop_views(stops@),
                ),
        decreases p.gradients.len() - i,
    {
        if check_gradient(&p.gradients[i], geometry, &stops) {
            assert(is_gradient(p@.gradients[i as int], geometry@, stop_views(stops@)));
            return;
        }
        i = i + 1;
    }
    p.push_gradient(prefix, geometry, stops, 1);
}

/// A quotient rounded to the nearest number; halves go to the even one.
pub open spec fn rounded_quotient(a: nat, b: nat) -> nat {
    let q = a / b;
    let r = a % b;
    if 2 * r > b || 2 * r == b && q % 2 == 1 {
        q + 1
    } else {
        q
    }
}

/// The distance of the single-precision numbers around an integer.
pub open spec fn spacing(n: nat) -> nat
    decreases n,
{
    if n < 0x100_0000 {
        1
    } else {
        2 * spacing(n / 2)
    }
}

/// An integer in single precision.
pub open spec fn rounded_integer(n: nat) -> nat {
    rounded_quotient(n, spacing(n)) * spacing(n)
}

/// How far `a` is from having 24 binary digits more than `b`, or one less.
pub open spec fn lacking(a: nat, b: nat) -> nat {
    if a >= b * 0x80_0000 {
        0
    } else {
        (b * 0x80_0000 - a) as nat
    }
}

/// How often `a` is doubled until it has 24 binary digits more than `b`, or one
/// less.
pub open spec fn doublings(a: nat, b: nat) -> nat
    decreases lacking(a, b),
{
    if a == 0 || a >= b * 0x80_0000 {
        0
    } else {
        1 + doublings(2 * a, b)
    }
}

/// `a`, doubled until it has 24 binary digits more than `b`, or one less.
pub open spec fn doubled(a: nat, b: nat) -> nat
    decreases lacking(a, b),
{
    if a == 0 || a >= b * 0x80_0000 {
        a
    } else {
        doubled(2 * a, b)
    }
}

/// The bits of `i / n` in single precision, for `i` up to `n`.
pub open spec fn single_quotient(i: nat, n: nat) -> u32 {
    if i == 0 {
        0
    } else {
        let a = rounded_integer(i);
        let b = rounded_integer(n);
        ((149 - doublings(a, b)) * 0x80_0000 + rounded_quotient(doubled(a, b), b)) as u32
    }
}

fn compute_rounded_quotient(a: u128, b: u128) -> (q: u128)
    requires
        0 < b < 0x1_0000_0000_0000_0000_0000_0000,
        a < u128::MAX,
    ensures
        q == rounded_quotient(a as nat, b as nat),
{
    let q: u128 = a / b;
    let r: u128 = a % b;
    proof {
        assert(q <= a) by (nonlinear_arith)
            requires
                q == a / b,
                b >= 1,
                a >= 0,
        ;
    }
    if 2 * r > b || 2 * r == b && q % 2 == 1 {
        q + 1
    } else {
        q
    }
}

fn compute_spacing(n: u64) -> (s: u64)
    ensures
        s == spacing(n as nat),
        1 <= s,
        s <= n || s == 1,
    decreases n,
{
    if n < 0x100_0000 {
        1
    } else {
        let half: u64 = compute_spacing(n / 2);
        2 * half
    }
}

fn round_integer(n: u64) -> (r: u128)
    ensures
        r == rounded_integer(n as nat),
        r <= 2 * n + 2,
        n >= 1 ==> r >= 1,
{
    let s: u64 = compute_spacing(n);
    let q: u128 = compute_rounded_quotient(n as u128, s as u128);
    proof {
        let floor = n as nat / s as nat;
        assert(floor * s <= n && n < floor * s + s) by (nonlinear_arith)
            requires
                floor == n as nat / s as nat,
                s >= 1,
        ;
        assert(q <= floor + 1 && q >= floor);
        assert(q * s <= floor * s + s && q * s >= floor * s) by (nonlinear_arith)
            requires
                floor <= q <= floor + 1,
                s >= 1,
        ;
        if n >= 1 {
            assert(floor >= 1) by (nonlinear_arith)
                requires
                    floor == n as nat / s as nat,
                    1 <= s <= n,
            ;
            assert(q * s >= 1) by (nonlinear_arith)
                requires
                    q >= 1,
                    s >= 1,
            ;
        }
    }
    q * s as u128
}

/// The bits of `i / n` in single precision.
pub fn divide_single(i: usize, n: usize) -> (bits: u32)
    requires
        n >= 1,
        i <= n,
    ensures
        bits == single_quotient(i as nat, n as nat),
{
    if i == 0 {
        return 0;
    }
    let a: u128 = round_integer(i as u64);
    let b: u128 = round_integer(n as u64);
    let mut scaled: u128 = a;
    let mut count: u128 = 0;
    while scaled < b * 0x80_0000
        invariant
            1 <= a,
            1 <= b <= 0x2_0000_0000_0000_0002,
            a <= 0x2_0000_0000_0000_0002,
            a <= scaled <= a || scaled < b * 0x100_0000,
            count < scaled,
            count + doublings(scaled as nat, b as nat) == doublings(a as nat, b as nat),
            doubled(scaled as nat, b as nat) == doubled(a as nat, b as nat),
        decreases lacking(scaled as nat, b as nat),
    {
        scaled = 2 * scaled;
        count = count + 1;
    }
    let q: u128 = compute_rounded_quotient(scaled, b);
    proof {
        let floor = scaled as nat / b as nat;
        assert(floor <= scaled) by (nonlinear_arith)
            requires
                floor == scaled as nat / b as nat,
                b >= 1,
        ;
    }
    ((149 - count as i128) * 0x80_0000 + q as i128) as u32
}

/// The grays of the background that a keyword stands for, at the top and at the
/// bottom.
pub open spec fn keyword_grays(keyword: Seq<char>, appearance: Option<Seq<char>>) -> Option<
    (u64, u64),
> {
    if keyword == "system-light"@ {
        Some((ONE, LIGHT_BOTTOM))
    } else if keyword == "system-dark"@ {
        Some((DARK_TOP, DARK_BOTTOM))
    } else if keyword == "automatic"@ {
        if appearance == Some("dark"@) {
            Some((DARK_TOP, DARK_BOTTOM))
        } else {
            Some((ONE, LIGHT_BOTTOM))
        }
    } else {
        None
    }
}

/// The text behind a reference.
pub open spec fn str_view(text: Option<&str>) -> Option<Seq<char>> {
    match text {
        Some(t) => Some(t@),
        None => None,
    }
}

/// The grays of the background that a keyword stands for.
pub fn keyword_bg_pair(keyword: &str, appearance: Option<&str>) -> (grays: Option<(u64, u64)>)
    ensures
        grays == keyword_grays(keyword@, str_view(appearance)),
{
    if same_text(keyword, "system-light") {
        Some((ONE, LIGHT_BOTTOM))
    } else if same_text(keyword, "system-dark") {
        Some((DARK_TOP, DARK_BOTTOM))
    } else if same_text(keyword, "automatic") {
        let dark = match appearance {
            Some(name) => same_text(name, "dark"),
            None => false,
        };
        if dark {
            Some((DARK_TOP, DARK_BOTTOM))
        } else {
            Some((ONE, LIGHT_BOTTOM))
        }
    } else {
        None
    }
}

/// A coordinate of an end of a gradient, or else a default.
pub open spec fn coordinate(
    orientation: Json,
    end: Seq<char>,
    axis: Seq<char>,
    default: u32,
) -> u32 {
    match member(orientation, end) {
        Some(point) => single_or(point, axis, default),
        None => default,
    }
}

/// Where a gradient starts and stops; from the top to the bottom if it does not
/// say.
pub open spec fn orientation_of(value: Json) -> Seq<u32> {
    match member(value, "orientation"@) {
        None => downwards(),
        Some(orientation) => seq![
            coordinate(orientation, "start"@, "x"@, SINGLE_HALF),
            coordinate(orientation, "start"@, "y"@, 0),
            coordinate(orientation, "stop"@, "x"@, SINGLE_HALF),
            coordinate(orientation, "stop"@, "y"@, SINGLE_ONE),
        ],
    }
}

fn read_coordinate(orientation: &Json, end: &str, axis: &str, default: u32) -> (value: u32)
    ensures
        value == coordinate(*orientation, end@, axis@, default),
{
    match orientation.get(end) {
        Some(point) => match point.get(axis) {
            Some(Json::Number(n)) => n.single,
            _ => default,
        },
        None => default,
    }
}

/// Where a gradient starts and stops.
pub fn parse_orientation(value: &Json) -> (geometry: [u32; 4])
    ensures
        geometry@ == orientation_of(*value),
{
    match value.get("orientation") {
        None => make_downwards(),
        Some(orientation) => {
            let geometry: [u32; 4] = [
                read_coordinate(orientation, "start", "x", SINGLE_HALF),
                read_coordinate(orientation, "start", "y", 0),
                read_coordinate(orientation, "stop", "x", SINGLE_HALF),
                read_coordinate(orientation, "stop", "y", SINGLE_ONE),
            ];
            assert(geometry@ =~= orientation_of(*value));
            geometry
        },
    }
}

/// The texts among the first `n` items of a list.
pub open spec fn texts_among(items: Seq<Json>, n: nat) -> Seq<Seq<char>>
    decreases n,
{
    if n == 0 {
        Seq::empty()
    } else {
        match items[n - 1] {
            Json::Text(text) => texts_among(items, (n - 1) as nat).push(text@),
            _ => texts_among(items, (n - 1) as nat),
        }
    }
}

/// Texts behind references.
pub open spec fn str_views(list: Seq<&str>) -> Seq<Seq<char>> {
    Seq::new(list.len(), |i: int| list[i]@)
}

fn find_texts(items: &Vec<Json>) -> (list: Vec<&str>)
    ensures
        str_views(list@) == texts_among(items@, items@.len()),
{
    let mut list: Vec<&str> = Vec::new();
    let mut i: usize = 0;
    assert(str_views(list@) =~= Seq::empty());
    while i < items.len()
        invariant
            i <= items@.len(),
            str_views(list@) == texts_among(items@, i as nat),
        decreases items.len() - i,
    {
        match &items[i] {
            Json::Text(text) => {
                let ghost before = list@;
                list.push(text.as_str());
                assert(str_views(list@) =~= str_views(before).push(text@));
            },
            _ => {},
        }
        i = i + 1;
    }
    list
}

/// A palette with the colors of the first `n` specifications, and their names;
/// colors behind one that cannot be read are left out, and names then too.
pub open spec fn with_colors<C: Fn(&str) -> Option<u64>>(
    component: C,
    p: PaletteModel,
    prefix: Seq<char>,
    specs: Seq<Seq<char>>,
    n: nat,
    floor: int,
) -> (PaletteModel, Option<Seq<Seq<char>>>)
    decreases n,
{
    if n == 0 {
        (p, Some(Seq::empty()))
    } else {
        let (q, names) = with_colors(component, p, prefix, specs, (n - 1) as nat, floor);
        match (names, color_spec(component, specs[n - 1])) {
            (Some(names), Some((space, components))) => {
                let (r, name) = with_color(q, prefix, space, components, floor);
                (r, Some(names.push(name)))
            },
            _ => (q, None),
        }
    }
}

/// Stops at equal distances.
pub open spec fn even_stops(names: Seq<Seq<char>>) -> Seq<(u32, Seq<char>)> {
    Seq::new(
        names.len(),
        |i: int| (single_quotient(i as nat, (names.len() - 1) as nat), names[i]),
    )
}

/// A palette with a gradient between the colors of specifications, if they can all
/// be read.
pub open spec fn with_spec_gradient<C: Fn(&str) -> Option<u64>>(
    component: C,
    p: PaletteModel,
    prefix: Seq<char>,
    specs: Seq<Seq<char>>,
    geometry: Seq<u32>,
    floor: int,
) -> PaletteModel {
    if specs.len() < 2 {
        p
    } else {
        let (q, names) = with_colors(component, p, prefix, specs, specs.len(), floor);
        match names {
            None => q,
            Some(names) => with_gradient(q, prefix, geometry, even_stops(names)),
        }
    }
}

/// A palette with what a fill asks for: a keyword for a background, a gradient, or
/// a solid color.  Solid colors are looked for in the whole palette, others from
/// `floor` on.
pub open spec fn with_fill<C: Fn(&str) -> Option<u64>>(
    component: C,
    p: PaletteModel,
    value: Json,
    appearance: Option<Seq<char>>,
    prefix: Seq<char>,
    floor: int,
) -> PaletteModel {
    match value {
        Json::Text(keyword) => match keyword_grays(keyword@, appearance) {
            None => p,
            Some((top, bottom)) => {
                let (q, first) = with_color(p, prefix, GRAY, gray(top), floor);
                let (r, second) = with_color(q, prefix, GRAY, gray(bottom), floor);
                with_gradient(r, prefix, downwards(), two_stops(first, second))
            },
        },
        _ => match list_member(value, "linear-gradient"@) {
            Some(items) => with_spec_gradient(
                component,
                p,
                prefix,
                texts_among(items, items.len()),
                orientation_of(value),
                floor,
            ),
            None => match text_member(value, "solid"@) {
                None => p,
                Some(spec) => match color_spec(component, spec) {
                    None => p,
                    Some((space, components)) => with_color(p, prefix, space, components, 0).0,
                },
            },
        },
    }
}

fn add_spec_gradient<C: Fn(&str) -> Option<u64>>(
    p: &mut Palette,
    prefix: &str,
    specs: &Vec<&str>,
    geometry: [u32; 4],
    floor: usize,
    component: &C,
)
    requires
        is_text_function(*component),
    ensures
        final(p)@ == with_spec_gradient(
            *component,
            old(p)@,
            prefix@,
            str_views(specs@),
            geometry@,
            floor as int,
        ),
{
    let count: usize = specs.len();
    if count < 2 {
        return;
    }
    let ghost views = str_views(specs@);
    let mut stops: Vec<GradientStop> = Vec::new();
    let ghost mut names: Seq<Seq<char>> = Seq::empty();
    let mut i: usize = 0;
    while i < count
        invariant
            i <= count == specs@.len(),
            count >= 2,
            is_text_function(*component),
            views == str_views(specs@),
            stops@.len() == i == names.len(),
            (p@, Some(names)) == with_colors(
                *component,
                old(p)@,
                prefix@,
                views,
                i as nat,
                floor as int,
            ),
            forall|j: int|
                0 <= j < i ==> (#[trigger] stops@[j]).position == single_quotient(
                    j as nat,
                    (count - 1) as nat,
                ) && stops@[j].color@ == names[j],
        decreases count - i,
    {
        match parse_color_spec(specs[i], component) {
            None => {
                proof {
                    lemma_with_colors_stop(
                        *component,
                        old(p)@,
                        prefix@,
                        views,
                        (i + 1) as nat,
                        count as nat,
                        floor as int,
                    );
                }
                return;
            },
            Some((space, components)) => {
                let name = palette_add_color(p, prefix, space, components, floor);
                proof {
                    names = names.push(name@);
                }
                stops.push(GradientStop { position: divide_single(i, count - 1), color: name });
            },
        }
        i = i + 1;
    }
    assert(stop_views(stops@) =~= even_stops(names));
    palette_add_gradient(p, prefix, geometry, stops);
}

proof fn lemma_with_colors_stop<C: Fn(&str) -> Option<u64>>(
    component: C,
    p: PaletteModel,
    prefix: Seq<char>,
    specs: Seq<Seq<char>>,
    m: nat,
    n: nat,
    floor: int,
)
    requires
        m <= n,
        with_colors(component, p, prefix, specs, m, floor).1 is None,
    ensures
        with_colors(component, p, prefix, specs, n, floor) == with_colors(
            component,
            p,
            prefix,
            specs,
            m,
            floor,
        ),
    decreases n,
{
    if m < n {
        lemma_with_colors_stop(component, p, prefix, specs, m, (n - 1) as nat, floor);
    }
}

/// Adds what a fill asks for to a palette.
pub fn process_fill_value<C: Fn(&str) -> Option<u64>>(
    value: &Json,
    appearance: Option<&str>,
    prefix: &str,
    p: &mut Palette,
    floor: usize,
    component: &C,
)
    requires
        is_text_function(*component),
    ensures
        final(p)@ == with_fill(
            *component,
            old(p)@,
            *value,
            str_view(appearance),
            prefix@,
            floor as int,
        ),
{
    match value {
        Json::Text(keyword) => {
            match keyword_bg_pair(keyword.as_str(), appearance) {
                None => {},
                Some((top, bottom)) => {
                    let first = palette_add_color(p, prefix, GRAY, make_gray(top), floor);
                    let second = palette_add_color(p, prefix, GRAY, make_gray(bottom), floor);
                    let stops = make_two_stops(first, second);
                    palette_add_gradient(p, prefix, make_downwards(), stops);
                },
            }
        },
        _ => {
            match value.get_list("linear-gradient") {
                Some(items) => {
                    let specs = find_texts(items);
                    let geometry = parse_orientation(value);
                    add_spec_gradient(p, prefix, &specs, geometry, floor, component);
                },
                None => {
                    match value.get_text("solid") {
                        None => {},
                        Some(spec) => {
                            match parse_color_spec(spec, component) {
                                None => {},
                                Some((space, components)) => {
                                    let _ = palette_add_color(p, prefix, space, components, 0);
                                },
                            }
                        },
                    }
                },
            }
        },
    }
}

/// A palette with what the first `n` entries of a list of fills ask for.
pub open spec fn with_fills<C: Fn(&str) -> Option<u64>>(
    component: C,
    p: PaletteModel,
    specs: Seq<Json>,
    n: nat,
    prefix: Seq<char>,
    floor: int,
) -> PaletteModel
    decreases n,
{
    if n == 0 {
        p
    } else {
        let q = with_fills(component, p, specs, (n - 1) as nat, prefix, floor);
        match member(specs[n - 1], "value"@) {
            None => q,
            Some(value) => with_fill(
                component,
                q,
                value,
                text_member(specs[n - 1], "appearance"@),
                prefix,
                floor,
            ),
        }
    }
}

fn add_fills<C: Fn(&str) -> Option<u64>>(
    p: &mut Palette,
    specs: &Vec<Json>,
    prefix: &str,
    floor: usize,
    component: &C,
)
    requires
        is_text_function(*component),
    ensures
        final(p)@ == with_fills(
            *component,
            old(p)@,
            specs@,
            specs@.len(),
            prefix@,
            floor as int,
        ),
{
    let mut i: usize = 0;
    while i < specs.len()
        invariant
            i <= specs@.len(),
            is_text_function(*component),
            p@ == with_fills(*component, old(p)@, specs@, i as nat, prefix@, floor as int),
        decreases specs.len() - i,
    {
        match specs[i].get("value") {
            None => {},
            Some(value) => {
                let appearance = specs[i].get_text("appearance");
                process_fill_value(value, appearance, prefix, p, floor, component);
            },
        }
        i = i + 1;
    }
}

/// A palette with what the fills of a layer ask for.
pub open spec fn with_layer_fill<C: Fn(&str) -> Option<u64>>(
    component: C,
    p: PaletteModel,
    layer: Layer,
    prefix: Seq<char>,
    floor: int,
) -> PaletteModel {
    let q = match layer.fill {
        Some(Fill::Structured(value)) => with_fill(component, p, value, None, prefix, floor),
        _ => p,
    };
    match layer.fill_specializations {
        Some(specs) => with_fills(component, q, specs@, specs@.len(), prefix, floor),
        None => q,
    }
}

/// A palette with what the fills of the first `n` layers of an icon ask for.
pub open spec fn with_layer_fills<C: Fn(&str) -> Option<u64>>(
    component: C,
    p: PaletteModel,
    icon: IconJson,
    n: nat,
    prefix: Seq<char>,
    floor: int,
) -> PaletteModel
    decreases n,
{
    if n == 0 {
        p
    } else {
        with_layer_fill(
            component,
            with_layer_fills(component, p, icon, (n - 1) as nat, prefix, floor),
            layers_of(icon.groups@, icon.groups@.len())[n - 1].1,
            prefix,
            floor,
        )
    }
}

/// How many layers an icon has.
pub open spec fn layer_count(icon: IconJson) -> nat {
    layers_of(icon.groups@, icon.groups@.len()).len()
}

/// Adds what the fills of the layers of an icon ask for.
pub fn append_layer_fills<C: Fn(&str) -> Option<u64>>(
    prefix: &str,
    icon: &IconJson,
    p: &mut Palette,
    floor: usize,
    component: &C,
)
    requires
        is_text_function(*component),
    ensures
        final(p)@ == with_layer_fills(
            *component,
            old(p)@,
            *icon,
            layer_count(*icon),
            prefix@,
            floor as int,
        ),
{
    let layers = icon.iter_layers();
    let mut i: usize = 0;
    while i < layers.len()
        invariant
            i <= layers@.len(),
            is_text_function(*component),
            layer_views(layers@) == layers_of(icon.groups@, icon.groups@.len()),
            p@ == with_layer_fills(
                *component,
                old(p)@,
                *icon,
                i as nat,
                prefix@,
                floor as int,
            ),
        decreases layers.len() - i,
    {
        let layer = layers[i].1;
        assert(layer_views(layers@)[i as int].1 == *layer);
        match &layer.fill {
            Some(fill) => match fill {
                Fill::Structured(value) => {
                    process_fill_value(value, None, prefix, p, floor, component);
                },
                Fill::Keyword(_) => {},
            },
            None => {},
        }
        match &layer.fill_specializations {
            Some(specs) => {
                add_fills(p, specs, prefix, floor, component);
            },
            None => {},
        }
        i = i + 1;
    }
}

/// The palette of an icon whose fill differs between appearances.
pub open spec fn specialized_palette<C: Fn(&str) -> Option<u64>>(
    component: C,
    icon: IconJson,
    prefix: Seq<char>,
) -> PaletteModel {
    let p = match icon.fill_specializations {
        Some(specs) => with_fills(component, anchored(prefix), specs@, specs@.len(), prefix, 0),
        None => anchored(prefix),
    };
    with_layer_fills(component, p, icon, layer_count(icon), prefix, 0)
}

/// The palette of an icon whose fill differs between appearances.
pub fn fill_specializations_assets<C: Fn(&str) -> Option<u64>>(
    prefix: &str,
    icon: &IconJson,
    component: &C,
) -> (p: Palette)
    requires
        is_text_function(*component),
    ensures
        p@ == specialized_palette(*component, *icon, prefix@),
{
    let mut p = make_anchored(prefix);
    match &icon.fill_specializations {
        Some(specs) => {
            add_fills(&mut p, specs, prefix, 0, component);
        },
        None => {},
    }
    append_layer_fills(prefix, icon, &mut p, 0, component);
    p
}

/// The palette of a single fill; `None` if the fill is unknown or cannot be read.
pub open spec fn single_fill_palette<C: Fn(&str) -> Option<u64>>(
    component: C,
    fill: Option<Fill>,
    prefix: Seq<char>,
) -> Option<PaletteModel> {
    match fill {
        None => Some(automatic_palette(prefix)),
        Some(Fill::Keyword(word)) => if word@ == "automatic"@ {
            Some(automatic_palette(prefix))
        } else if word@ == "system-dark"@ {
            Some(system_dark_palette(prefix))
        } else {
            None
        },
        Some(Fill::Structured(value)) => structured_palette(component, value, prefix),
    }
}

/// The palette of a fill that is given as an object.
pub open spec fn structured_palette<C: Fn(&str) -> Option<u64>>(
    component: C,
    value: Json,
    prefix: Seq<char>,
) -> Option<PaletteModel> {
    match text_member(value, "solid"@) {
        Some(spec) => match color_spec(component, spec) {
            Some(color) => Some(solid_palette(prefix, color)),
            None => None,
        },
        None => match text_member(value, "automatic-gradient"@) {
            Some(spec) => match color_spec(component, spec) {
                Some(color) => Some(automatic_gradient_palette(prefix, color)),
                None => None,
            },
            None => match list_member(value, "linear-gradient"@) {
                Some(items) => {
                    let specs = texts_among(items, items.len());
                    if specs.len() < 2 {
                        None
                    } else {
                        match (color_spec(component, specs[0]), color_spec(component, specs[1])) {
                            (Some(first), Some(second)) => Some(
                                linear_palette(prefix, first, second),
                            ),
                            _ => None,
                        }
                    }
                },
                None => None,
            },
        },
    }
}

/// The palette of an icon: that of its fill, and what the fills of its layers add.
/// `None` if its fill is unknown or cannot be read.
pub open spec fn icon_palette<C: Fn(&str) -> Option<u64>>(
    component: C,
    icon: IconJson,
    prefix: Seq<char>,
) -> Option<PaletteModel> {
    if icon.fill_specializations is Some && icon.fill_specializations->0@.len() > 0 {
        Some(specialized_palette(component, icon, prefix))
    } else {
        match single_fill_palette(component, icon.fill, prefix) {
            None => None,
            Some(p) => Some(
                with_layer_fills(
                    component,
                    p,
                    icon,
                    layer_count(icon),
                    prefix,
                    p.colors.len() as int,
                ),
            ),
        }
    }
}

/// A palette behind an option.
pub open spec fn palette_view(p: Option<Palette>) -> Option<PaletteModel> {
    match p {
        Some(palette) => Some(palette@),
        None => None,
    }
}

/// The palette of a solid color.
pub fn solid_fill_assets<C: Fn(&str) -> Option<u64>>(
    prefix: &str,
    spec: &str,
    component: &C,
) -> (p: Option<Palette>)
    requires
        is_text_function(*component),
    ensures
        palette_view(p) == (match color_spec(*component, spec@) {
            Some(color) => Some(solid_palette(prefix@, color)),
            None => None,
        }),
{
    match parse_color_spec(spec, component) {
        None => None,
        Some((space, components)) => {
            let mut p = make_anchored(prefix);
            p.push_color(prefix, space, components);
            add_dark_colors(&mut p, prefix);
            add_gradient_at(&mut p, prefix, 3);
            Some(p)
        },
    }
}

/// The palette of a gradient that the system makes of a color.
pub fn automatic_gradient_fill_assets<C: Fn(&str) -> Option<u64>>(
    prefix: &str,
    spec: &str,
    component: &C,
) -> (p: Option<Palette>)
    requires
        is_text_function(*component),
    ensures
        palette_view(p) == (match color_spec(*component, spec@) {
            Some(color) => Some(automatic_gradient_palette(prefix@, color)),
            None => None,
        }),
{
    match parse_color_spec(spec, component) {
        None => None,
        Some((space, components)) => {
            let mut p = make_anchored(prefix);
            p.push_color(prefix, space, components);
            add_dark_colors(&mut p, prefix);
            let mut stops: Vec<GradientStop> = Vec::new();
            stops.push(GradientStop { position: 0, color: make_color_name(prefix, 2) });
            assert(stop_views(stops@) =~= seq![(0u32, color_name(prefix@, 2))]);
            p.push_gradient(prefix, make_downwards(), stops, 0);
            add_gradient_at(&mut p, prefix, 3);
            Some(p)
        },
    }
}

/// The palette of a gradient between the first two of some colors.
pub fn linear_gradient_fill_assets<C: Fn(&str) -> Option<u64>>(
    prefix: &str,
    specs: &Vec<&str>,
    component: &C,
) -> (p: Option<Palette>)
    requires
        is_text_function(*component),
    ensures
        palette_view(p) == (if specs@.len() < 2 {
            None
        } else {
            match (color_spec(*component, specs@[0]@), color_spec(*component, specs@[1]@)) {
                (Some(first), Some(second)) => Some(linear_palette(prefix@, first, second)),
                _ => None,
            }
        }),
{
    if specs.len() < 2 {
        return None;
    }
    match (parse_color_spec(specs[0], component), parse_color_spec(specs[1], component)) {
        (Some((first_space, first)), Some((second_space, second))) => Some(
            make_linear(prefix, first_space, first, second_space, second),
        ),
        _ => None,
    }
}

fn make_single_fill<C: Fn(&str) -> Option<u64>>(
    prefix: &str,
    fill: &Option<Fill>,
    component: &C,
) -> (p: Option<Palette>)
    requires
        is_text_function(*component),
    ensures
        palette_view(p) == single_fill_palette(*component, *fill, prefix@),
{
    match fill {
        None => Some(automatic_fill_assets(prefix)),
        Some(fill) => match fill {
            Fill::Keyword(word) => if same_text(word.as_str(), "automatic") {
                Some(automatic_fill_assets(prefix))
            } else if same_text(word.as_str(), "system-dark") {
                Some(system_dark_fill_assets(prefix))
            } else {
                None
            },
            Fill::Structured(value) => match value.get_text("solid") {
                Some(spec) => solid_fill_assets(prefix, spec, component),
                None => match value.get_text("automatic-gradient") {
                    Some(spec) => automatic_gradient_fill_assets(prefix, spec, component),
                    None => match value.get_list("linear-gradient") {
                        Some(items) => {
                            let specs = find_texts(items);
                            proof {
                                if specs@.len() >= 2 {
                                    assert(str_views(specs@)[0] == specs@[0]@);
                                    assert(str_views(specs@)[1] == specs@[1]@);
                                }
                            }
                            linear_gradient_fill_assets(prefix, &specs, component)
                        },
                        None => None,
                    },
                },
            },
        },
    }
}

/// The palette of an icon.
pub fn fill_assets<C: Fn(&str) -> Option<u64>>(
    prefix: &str,
    icon: &IconJson,
    component: &C,
) -> (p: Option<Palette>)
    requires
        is_text_function(*component),
    ensures
        palette_view(p) == icon_palette(*component, *icon, prefix@),
{
    match &icon.fill_specializations {
        Some(specs) => {
            if specs.len() > 0 {
                return Some(fill_specializations_assets(prefix, icon, component));
            }
        },
        None => {},
    }
    match make_single_fill(prefix, &icon.fill, component) {
        None => None,
        Some(mut p) => {
            let floor: usize = p.colors.len();
            append_layer_fills(prefix, icon, &mut p, floor, component);
            Some(p)
        },
    }
}

} // verus!
