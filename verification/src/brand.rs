//! The icon of an Apple TV: layers that are drawn over each other, and for each of
//! their scales two pictures of them all.

use vstd::prelude::*;

use crate::car::{ELEMENT_UNIVERSAL, PART_TVOS_FLATTENED, PART_TVOS_RADIOSITY};
use crate::catalog::{begun, brand_set, models, CatalogError, Gathering, Settings};
use crate::facets::{with_new_facet, Facet, FacetTable};
use crate::files::Item;
use crate::formats::{ga8_name, is_ga8};
use crate::naming::{ask, is_text_function, value_of};
use crate::project::{Options, Project, ProjectModel};
use crate::rendition::{plain_rendition, Rendition, RenditionModel};
use crate::text::{decimal, put_decimal, put_str};

verus! {

/// The number of the television among the devices.
pub const TELEVISION: u16 = 3;

/// Reads the layers of an icon: none, if it is not the icon that was asked for.
pub fn read_brand<H: Fn(&str) -> u16>(
    brand: &Item,
    name: &str,
    options: &Options,
    hash: &H,
) -> (layers: Result<Vec<Rendition>, CatalogError>)
    requires
        is_text_function(*hash),
    ensures
        ({
            let out = brand_set(
                options@,
                *hash,
                begun(Seq::empty(), Seq::empty()),
                *brand,
                name@,
            );
            match layers {
                Ok(rs) => out.error is None && models(rs@) == out.state.renditions,
                Err(e) => out.error == Some(e),
            }
        }),
{
    let catalog = options.catalog("");
    let mut g = Gathering {
        renditions: Vec::new(),
        facets: FacetTable::new(),
        locales: Vec::new(),
        loose_jpegs: Vec::new(),
    };
    assert(g@ =~= begun(Seq::empty(), Seq::empty()));
    match catalog.parse_brandassets(&mut g, brand, name, hash) {
        Ok(()) => Ok(g.renditions),
        Err(e) => Err(e),
    }
}

/// The scales of the first `n` layers, each once.
pub open spec fn scales_of(layers: Seq<RenditionModel>, n: nat) -> Seq<u16>
    decreases n,
{
    if n == 0 {
        Seq::empty()
    } else {
        let before = scales_of(layers, (n - 1) as nat);
        if before.contains(layers[n - 1].scale) {
            before
        } else {
            before.push(layers[n - 1].scale)
        }
    }
}

/// Every scale is listed once, and no other is.
pub proof fn scales_are_listed_once(layers: Seq<RenditionModel>, n: nat)
    requires
        n <= layers.len(),
    ensures
        scales_of(layers, n).no_duplicates(),
        forall|scale: u16| #[trigger]
            scales_of(layers, n).contains(scale) <==> exists|i: int|
                0 <= i < n && (#[trigger] layers[i]).scale == scale,
    decreases n,
{
    if n > 0 {
        let m = (n - 1) as nat;
        let before = scales_of(layers, m);
        let last = layers[n - 1].scale;
        scales_are_listed_once(layers, m);
        assert(before.push(last)[before.len() as int] == last);
        assert forall|scale: u16| #[trigger]
            scales_of(layers, n).contains(scale) implies exists|i: int|
            0 <= i < n && (#[trigger] layers[i]).scale == scale by {
            if scale == last {
                assert(layers[n - 1].scale == scale);
            } else {
                assert(before.contains(scale)) by {
                    let all = scales_of(layers, n);
                    let k = choose|k: int| 0 <= k < all.len() && all[k] == scale;
                    assert(before[k] == scale);
                }
                let i = choose|i: int| 0 <= i < m && (#[trigger] layers[i]).scale == scale;
                assert(layers[i].scale == scale);
            }
        }
        assert forall|scale: u16|
            (exists|i: int| 0 <= i < n && (#[trigger] layers[i]).scale == scale) implies #[trigger]
            scales_of(layers, n).contains(scale) by {
            let i = choose|i: int| 0 <= i < n && (#[trigger] layers[i]).scale == scale;
            if i < m {
                assert(before.contains(scale));
                let k = choose|k: int| 0 <= k < before.len() && before[k] == scale;
                assert(scales_of(layers, n)[k] == scale);
            }
        }
    }
}

/// Lists the scales of layers, each once.
pub fn list_scales(layers: &Vec<Rendition>) -> (scales: Vec<u16>)
    ensures
        scales@ == scales_of(models(layers@), layers@.len()),
{
    let mut scales: Vec<u16> = Vec::new();
    let mut i: usize = 0;
    assert(scales@ =~= scales_of(models(layers@), 0));
    while i < layers.len()
        invariant
            i <= layers@.len(),
            scales@ == scales_of(models(layers@), i as nat),
        decreases layers.len() - i,
    {
        let scale: u16 = layers[i].scale;
        let mut seen = false;
        let mut j: usize = 0;
        while j < scales.len()
            invariant
                j <= scales@.len(),
                seen == scales@.take(j as int).contains(scale),
            decreases scales.len() - j,
        {
            proof {
                let next = scales@.take(j + 1);
                assert(next =~= scales@.take(j as int).push(scales@[j as int]));
                assert(next[j as int] == scales@[j as int]);
                if scales@.take(j as int).contains(scale) {
                    let k = choose|k: int|
                        0 <= k < j && scales@.take(j as int)[k] == scale;
                    assert(next[k] == scale);
                }
                if next.contains(scale) && scales@[j as int] != scale {
                    let k = choose|k: int| 0 <= k < next.len() && next[k] == scale;
                    assert(scales@.take(j as int)[k] == scale);
                }
            }
            if scales[j] == scale {
                seen = true;
            }
            j = j + 1;
        }
        assert(scales@.take(scales@.len() as int) =~= scales@);
        assert(models(layers@)[i as int].scale == scale);
        if !seen {
            scales.push(scale);
        }
        i = i + 1;
    }
    scales
}

/// Pixels of blue, green, red and alpha: gray ones have their gray in all three colors.
pub open spec fn in_color(pixels: Seq<u8>, format: Seq<u8>) -> Seq<u8> {
    if format == ga8_name() {
        Seq::new(
            4 * (pixels.len() / 2),
            |i: int|
                if i % 4 == 3 {
                    pixels[i / 4 * 2 + 1]
                } else {
                    pixels[i / 4 * 2]
                },
        )
    } else {
        pixels
    }
}

/// The pixels of a layer in color.
fn make_colored(layer: &Rendition) -> (pixels: Vec<u8>)
    ensures
        pixels@ == in_color(layer.pixel_data@, layer.pixel_format@),
{
    if !is_ga8(&layer.pixel_format) {
        return layer.pixel_data.clone();
    }
    let len: usize = layer.pixel_data.len();
    let n: usize = len / 2;
    let mut pixels: Vec<u8> = Vec::new();
    let ghost all = in_color(layer.pixel_data@, layer.pixel_format@);
    let mut k: usize = 0;
    assert(pixels@ =~= all.take(0));
    while k < n
        invariant
            k <= n,
            n == len / 2,
            len == layer.pixel_data@.len(),
            layer.pixel_format@ == ga8_name(),
            all == in_color(layer.pixel_data@, layer.pixel_format@),
            pixels@ == all.take(4 * k),
        decreases n - k,
    {
        let gray: u8 = layer.pixel_data[2 * k];
        pixels.push(gray);
        pixels.push(gray);
        pixels.push(gray);
        pixels.push(layer.pixel_data[2 * k + 1]);
        k = k + 1;
        assert(pixels@ =~= all.take(4 * k));
    }
    assert(all.take(4 * n) =~= all);
    pixels
}

/// A channel of a pixel over one of another, with the alpha of the upper one, which is
/// multiplied in.
pub open spec fn blended(above: u8, below: u8, alpha: u8) -> u8 {
    let sum = above + (below * (255 - alpha) + 127) / 255;
    if sum > 255 {
        255
    } else {
        sum as u8
    }
}

fn blend(above: u8, below: u8, alpha: u8) -> (c: u8)
    ensures
        c == blended(above, below, alpha),
{
    proof {
        assert(0 <= below * (255 - alpha) <= 255 * 255) by (nonlinear_arith)
            requires
                0 <= below <= 255,
                0 <= alpha <= 255,
        ;
    }
    let sum: u32 = above as u32 + (below as u32 * (255 - alpha as u32) + 127) / 255;
    if sum > 255 {
        255
    } else {
        sum as u8
    }
}

/// Pixels with others over them; the upper ones end where either do.
pub open spec fn laid_over(below: Seq<u8>, above: Seq<u8>) -> Seq<u8> {
    Seq::new(
        below.len(),
        |i: int|
            if i / 4 * 4 + 3 < below.len() && i / 4 * 4 + 3 < above.len() {
                blended(above[i], below[i], above[i / 4 * 4 + 3])
            } else {
                below[i]
            },
    )
}

/// Lays pixels over others.
fn lay_over(below: &Vec<u8>, above: &Vec<u8>) -> (out: Vec<u8>)
    ensures
        out@ == laid_over(below@, above@),
{
    let mut out: Vec<u8> = Vec::new();
    let mut i: usize = 0;
    assert(out@ =~= laid_over(below@, above@).take(0));
    while i < below.len()
        invariant
            i <= below@.len(),
            out@ == laid_over(below@, above@).take(i as int),
        decreases below.len() - i,
    {
        let start: usize = i / 4 * 4;
        let c: u8 = if below.len() - start > 3 && above.len() > start && above.len() - start > 3 {
            blend(above[i], below[i], above[start + 3])
        } else {
            below[i]
        };
        out.push(c);
        i = i + 1;
        assert(out@ =~= laid_over(below@, above@).take(i as int));
    }
    assert(laid_over(below@, above@).take(i as int) =~= laid_over(below@, above@));
    out
}

/// The first `n` layers of a scale drawn over each other, from the first to the last:
/// width, height and pixels.  The first layer sets the size, and layers of another
/// size are left out.
pub open spec fn flattened(layers: Seq<RenditionModel>, scale: u16, n: nat) -> Option<
    (u32, u32, Seq<u8>),
>
    decreases n,
{
    if n == 0 {
        None
    } else {
        let layer = layers[n - 1];
        let pixels = in_color(layer.pixel_data, layer.pixel_format);
        match flattened(layers, scale, (n - 1) as nat) {
            None => if layer.scale == scale {
                Some((layer.width, layer.height, pixels))
            } else {
                None
            },
            Some((width, height, below)) => if layer.scale == scale && layer.width == width
                && layer.height == height {
                Some((width, height, laid_over(below, pixels)))
            } else {
                Some((width, height, below))
            },
        }
    }
}

/// Layers drawn over each other.
pub struct FlatPicture {
    pub width: u32,
    pub height: u32,
    pub pixels: Vec<u8>,
}

/// A picture with the sequence of its pixels.
pub open spec fn flat_view(picture: Option<FlatPicture>) -> Option<(u32, u32, Seq<u8>)> {
    match picture {
        Some(p) => Some((p.width, p.height, p.pixels@)),
        None => None,
    }
}

/// Draws the layers of a scale over each other; `None` if there are none.
pub fn flatten_layers(layers: &Vec<Rendition>, scale: u16) -> (picture: Option<FlatPicture>)
    ensures
        flat_view(picture) == flattened(models(layers@), scale, layers@.len()),
{
    let mut picture: Option<FlatPicture> = None;
    let mut i: usize = 0;
    while i < layers.len()
        invariant
            i <= layers@.len(),
            flat_view(picture) == flattened(models(layers@), scale, i as nat),
        decreases layers.len() - i,
    {
        let layer = &layers[i];
        assert(models(layers@)[i as int] == layer@);
        if layer.scale == scale {
            picture = match picture {
                None => Some(
                    FlatPicture {
                        width: layer.width,
                        height: layer.height,
                        pixels: make_colored(layer),
                    },
                ),
                Some(p) => {
                    if layer.width == p.width && layer.height == p.height {
                        let above = make_colored(layer);
                        let pixels = lay_over(&p.pixels, &above);
                        Some(FlatPicture { width: p.width, height: p.height, pixels })
                    } else {
                        Some(p)
                    }
                },
            };
        }
        i = i + 1;
    }
    picture
}

/// An opaque layer hides what is below it.
pub proof fn opaque_layers_hide_others(below: Seq<u8>, above: Seq<u8>)
    requires
        below.len() == above.len(),
        above.len() % 4 == 0,
        forall|k: int| 0 <= k < above.len() / 4 ==> #[trigger] above[4 * k + 3] == 255,
    ensures
        laid_over(below, above) == above,
{
    let out = laid_over(below, above);
    assert forall|i: int| 0 <= i < above.len() implies out[i] == above[i] by {
        let k = i / 4;
        assert(above[4 * k + 3] == 255);
        assert(i / 4 * 4 + 3 == 4 * k + 3 && 4 * k + 3 < above.len());
        assert(below[i] * (255 - 255) == 0) by (nonlinear_arith);
    }
    assert(out =~= above);
}

/// Two pictures of an icon at one scale: its layers drawn over each other, and the
/// light that they cast around them.
pub struct BrandPicture {
    pub scale: u16,
    pub width: u32,
    pub height: u32,
    pub flattened: Vec<u8>,
    pub radiosity: Vec<u8>,
}

/// The name of a picture.
pub open spec fn picture_name(prefix: Seq<char>, scale: u16) -> Seq<char> {
    prefix + decimal(scale as nat) + ".0.0"@
}

/// The rendition of a picture.
pub open spec fn picture_rendition(
    s: Settings,
    picture: BrandPicture,
    identifier: u16,
    part: u16,
) -> RenditionModel {
    let flat = part == PART_TVOS_FLATTENED;
    RenditionModel {
        name: if flat {
            picture_name("ZZZZFlattenedImage-"@, picture.scale)
        } else {
            picture_name("ZZZZRadiosityImage-"@, picture.scale)
        },
        identifier,
        part,
        scale: picture.scale,
        width: picture.width,
        height: picture.height,
        pixel_data: if flat {
            picture.flattened@
        } else {
            picture.radiosity@
        },
        idiom: TELEVISION,
        min_deploy: s.min_deploy,
        platform: s.platform,
        ..plain_rendition()
    }
}

/// The renditions of the first `n` pairs of pictures.
pub open spec fn picture_renditions(
    s: Settings,
    pictures: Seq<BrandPicture>,
    n: nat,
    identifier: u16,
) -> Seq<RenditionModel>
    decreases n,
{
    if n == 0 {
        Seq::empty()
    } else {
        let picture = pictures[n - 1];
        picture_renditions(s, pictures, (n - 1) as nat, identifier).push(
            picture_rendition(s, picture, identifier, PART_TVOS_FLATTENED),
        ).push(picture_rendition(s, picture, identifier, PART_TVOS_RADIOSITY))
    }
}

/// A project with the pictures of its icon, which bears their name.
pub open spec fn with_pictures(
    p: ProjectModel,
    s: Settings,
    name: Seq<char>,
    identifier: u16,
    pictures: Seq<BrandPicture>,
) -> ProjectModel {
    if pictures.len() == 0 {
        p
    } else {
        ProjectModel {
            renditions: p.renditions + picture_renditions(s, pictures, pictures.len(), identifier),
            facets: with_new_facet(
                p.facets,
                name,
                (Facet { element: ELEMENT_UNIVERSAL, part: Some(PART_TVOS_FLATTENED), identifier }),
            ),
            ..p
        }
    }
}

fn make_name(prefix: &str, scale: u16) -> (name: String)
    ensures
        name@ == picture_name(prefix@, scale),
{
    let mut name = prefix.to_owned();
    put_decimal(&mut name, scale as u128);
    put_str(&mut name, ".0.0");
    name
}

fn make_picture(
    name: String,
    identifier: u16,
    part: u16,
    scale: u16,
    width: u32,
    height: u32,
    pixels: Vec<u8>,
    options: &Options,
) -> (r: Rendition)
    ensures
        r@ == (RenditionModel {
            name: name@,
            identifier,
            part,
            scale,
            width,
            height,
            pixel_data: pixels@,
            idiom: TELEVISION,
            min_deploy: options@.min_deploy,
            platform: options@.platform,
            ..plain_rendition()
        }),
{
    let mut r = Rendition::default();
    r.name = name;
    r.identifier = identifier;
    r.part = part;
    r.scale = scale;
    r.width = width;
    r.height = height;
    r.pixel_data = pixels;
    r.idiom = TELEVISION;
    r.min_deploy = options.min_deploy.as_str().to_owned();
    r.platform = options.platform.as_str().to_owned();
    r
}

/// Adds the pictures of an icon to a project.
pub fn add_brand_pictures<H: Fn(&str) -> u16>(
    project: &mut Project,
    name: &str,
    pictures: Vec<BrandPicture>,
    options: &Options,
    hash: &H,
)
    requires
        old(project).facets.wf(),
        is_text_function(*hash),
    ensures
        final(project).facets.wf(),
        final(project)@ == with_pictures(
            old(project)@,
            options@,
            name@,
            value_of(*hash, name@),
            pictures@,
        ),
{
    if pictures.len() == 0 {
        return;
    }
    let identifier: u16 = ask(hash, name);
    let facet = Facet { element: ELEMENT_UNIVERSAL, part: Some(PART_TVOS_FLATTENED), identifier };
    project.facets.insert_new(name, facet);
    let ghost before = models(project.renditions@);
    let ghost start = project@;
    let mut i: usize = 0;
    assert(before =~= before + picture_renditions(options@, pictures@, 0, identifier));
    while i < pictures.len()
        invariant
            i <= pictures@.len(),
            project.facets.wf(),
            project@ == (ProjectModel { renditions: models(project.renditions@), ..start }),
            models(project.renditions@) == before + picture_renditions(
                options@,
                pictures@,
                i as nat,
                identifier,
            ),
        decreases pictures.len() - i,
    {
        let picture = &pictures[i];
        let ghost done = project.renditions@;
        let flattened = make_picture(
            make_name("ZZZZFlattenedImage-", picture.scale),
            identifier,
            PART_TVOS_FLATTENED,
            picture.scale,
            picture.width,
            picture.height,
            picture.flattened.clone(),
            options,
        );
        let radiosity = make_picture(
            make_name("ZZZZRadiosityImage-", picture.scale),
            identifier,
            PART_TVOS_RADIOSITY,
            picture.scale,
            picture.width,
            picture.height,
            picture.radiosity.clone(),
            options,
        );
        let ghost flat = flattened@;
        let ghost light = radiosity@;
        project.renditions.push(flattened);
        project.renditions.push(radiosity);
        proof {
            let picture = pictures@[i as int];
            assert(flat =~= picture_rendition(
                options@,
                picture,
                identifier,
                PART_TVOS_FLATTENED,
            ));
            assert(light =~= picture_rendition(
                options@,
                picture,
                identifier,
                PART_TVOS_RADIOSITY,
            ));
            assert(models(project.renditions@) =~= models(done).push(flat).push(light));
            assert(models(project.renditions@) =~= before + picture_renditions(
                options@,
                pictures@,
                (i + 1) as nat,
                identifier,
            ));
        }
        i = i + 1;
    }
}

} // verus!
