//! Renditions: one image, color or piece of data of an archive, with everything
//! that its key and its stored form depend on.

use vstd::prelude::*;
use vstd::slice::slice_subrange;
use vstd::string::StrSliceExecFns;

use crate::bytes::{
    be32, copy_of, get_le32, le32, lemma_empty_prefix, put_be32, put_bytes, put_le32, put_zeros,
    read_le32, zeros,
};
use crate::car::{
    make_rendition_key, rendition_key, ELEMENT_UNIVERSAL, KeyformatRendition,
    LAYOUT_MULTISIZE_IMAGE, LAYOUT_ONE_PART_SCALE, PART_ICON, PART_ICON_MULTISIZE, PART_REGULAR,
    PART_TVOS_FLATTENED, PART_TVOS_RADIOSITY, RenditionKeyParts,
};
use crate::compress::{
    allows_deepmap, bytes_view, compress_data, compress_kcbc, compressed, compressed_names_method,
    gzip_stream, kcbc_chunks, rle_applies, uses_runs, GZIP_PIXELS, LZFSE_SLACK, METHOD_DEEPMAP,
    SMALL_PIXELS,
};
use crate::csi::{
    aligned_bytes_per_row, aligned_row, build_csi, color_csi, csi, make_blend_opacity_tlv,
    make_exif_orientation_tlv, make_metrics_tlv, make_slices_tlv, metrics_tlv, opacity_tlv,
    orientation_tlv, percent, row_length_tlv, slices_tlv, ONE,
};
use crate::formats::{bgra, bgra_name, ga8_name, is_bgra, is_ga8};
use crate::packer::align32;
use crate::platform::{
    lzfse_since, min_dmp2_version, min_lzfse_version, parse_version, reaches, version_of,
    version_reaches,
};

verus! {

broadcast use lemma_empty_prefix;

/// A rendition.
#[derive(Debug, Clone)]
pub struct Rendition {
    pub name: String,
    pub identifier: u16,
    pub element: u16,
    pub part: u16,
    pub scale: u16,
    pub width: u32,
    pub height: u32,
    pub pixel_data: Vec<u8>,
    pub pixel_format: [u8; 4],
    pub layout: u16,
    pub dim1: u16,
    pub dim2: u16,
    pub appearance: u16,
    pub direction: u16,
    /// The device idiom, 0 for all devices.
    pub idiom: u16,
    /// The idiom subtype, 0 unless the asset declares one.
    pub subtype: u16,
    pub is_template: bool,
    /// How the bitmap is encoded: -1 to decide by `is_template`, 0 for original,
    /// 2 for template, 4 for automatic.
    pub template_rendering_intent: i32,
    pub colorspace_id: u32,
    pub locale: String,
    /// The hashed name of the locale; unused without a locale.
    pub locale_id: u16,
    pub sprite_atlas_id: u16,
    pub is_svg_rasterization: bool,
    pub has_icon: bool,
    pub keyformat: Vec<u16>,
    pub min_deploy: String,
    pub platform: String,
    /// The stored form, where it is not made from the pixels.
    pub csi_override: Option<Vec<u8>>,
    /// Marks the pixels as not opaque, whatever their alpha is.
    pub force_non_opaque: bool,
    /// 0 for the primary appearance, 1 for its alternative.
    pub variant: u16,
    /// What the deepmap encoder of the platform has made of
    /// [`Rendition::deepmap_input`].
    pub deepmap: Option<Vec<u8>>,
}

/// A rendition as a mathematical value.
#[verifier::ext_equal]
pub struct RenditionModel {
    pub name: Seq<char>,
    pub identifier: u16,
    pub element: u16,
    pub part: u16,
    pub scale: u16,
    pub width: u32,
    pub height: u32,
    pub pixel_data: Seq<u8>,
    pub pixel_format: Seq<u8>,
    pub layout: u16,
    pub dim1: u16,
    pub dim2: u16,
    pub appearance: u16,
    pub direction: u16,
    pub idiom: u16,
    pub subtype: u16,
    pub is_template: bool,
    pub template_rendering_intent: i32,
    pub colorspace_id: u32,
    pub locale: Seq<char>,
    pub locale_id: u16,
    pub sprite_atlas_id: u16,
    pub is_svg_rasterization: bool,
    pub has_icon: bool,
    pub keyformat: Seq<u16>,
    pub min_deploy: Seq<char>,
    pub platform: Seq<char>,
    pub csi_override: Option<Seq<u8>>,
    pub force_non_opaque: bool,
    pub variant: u16,
    pub deepmap: Option<Seq<u8>>,
}

/// The bytes of an optional block.
pub open spec fn block_view(block: Option<Vec<u8>>) -> Option<Seq<u8>> {
    match block {
        Some(b) => Some(b@),
        None => None,
    }
}

impl View for Rendition {
    type V = RenditionModel;

    open spec fn view(&self) -> RenditionModel {
        RenditionModel {
            name: self.name@,
            identifier: self.identifier,
            element: self.element,
            part: self.part,
            scale: self.scale,
            width: self.width,
            height: self.height,
            pixel_data: self.pixel_data@,
            pixel_format: self.pixel_format@,
            layout: self.layout,
            dim1: self.dim1,
            dim2: self.dim2,
            appearance: self.appearance,
            direction: self.direction,
            idiom: self.idiom,
            subtype: self.subtype,
            is_template: self.is_template,
            template_rendering_intent: self.template_rendering_intent,
            colorspace_id: self.colorspace_id,
            locale: self.locale@,
            locale_id: self.locale_id,
            sprite_atlas_id: self.sprite_atlas_id,
            is_svg_rasterization: self.is_svg_rasterization,
            has_icon: self.has_icon,
            keyformat: self.keyformat@,
            min_deploy: self.min_deploy@,
            platform: self.platform@,
            csi_override: block_view(self.csi_override),
            force_non_opaque: self.force_non_opaque,
            variant: self.variant,
            deepmap: block_view(self.deepmap),
        }
    }
}

/// Copies an optional block.
fn copy_block(block: &Option<Vec<u8>>) -> (copy: Option<Vec<u8>>)
    ensures
        block_view(copy) == block_view(*block),
{
    match block {
        Some(b) => Some(copy_of(b.as_slice())),
        None => None,
    }
}

impl Rendition {
    /// Another rendition like this one.
    pub fn copy(&self) -> (r: Rendition)
        ensures
            r@ == self@,
    {
        let r = Rendition {
            name: self.name.as_str().to_owned(),
            identifier: self.identifier,
            element: self.element,
            part: self.part,
            scale: self.scale,
            width: self.width,
            height: self.height,
            pixel_data: copy_of(self.pixel_data.as_slice()),
            pixel_format: self.pixel_format,
            layout: self.layout,
            dim1: self.dim1,
            dim2: self.dim2,
            appearance: self.appearance,
            direction: self.direction,
            idiom: self.idiom,
            subtype: self.subtype,
            is_template: self.is_template,
            template_rendering_intent: self.template_rendering_intent,
            colorspace_id: self.colorspace_id,
            locale: self.locale.as_str().to_owned(),
            locale_id: self.locale_id,
            sprite_atlas_id: self.sprite_atlas_id,
            is_svg_rasterization: self.is_svg_rasterization,
            has_icon: self.has_icon,
            keyformat: vstd::slice::slice_to_vec(self.keyformat.as_slice()),
            min_deploy: self.min_deploy.as_str().to_owned(),
            platform: self.platform.as_str().to_owned(),
            csi_override: copy_block(&self.csi_override),
            force_non_opaque: self.force_non_opaque,
            variant: self.variant,
            deepmap: copy_block(&self.deepmap),
        };
        assert(r@ =~= self@);
        r
    }
}

/// An ordinary image without pixels.
pub open spec fn plain_rendition() -> RenditionModel {
    RenditionModel {
        name: Seq::empty(),
        identifier: 0,
        element: ELEMENT_UNIVERSAL,
        part: PART_REGULAR,
        scale: 1,
        width: 0,
        height: 0,
        pixel_data: Seq::empty(),
        pixel_format: bgra_name(),
        layout: LAYOUT_ONE_PART_SCALE,
        dim1: 0,
        dim2: 0,
        appearance: 0,
        direction: 0,
        idiom: 0,
        subtype: 0,
        is_template: false,
        template_rendering_intent: (-1) as i32,
        colorspace_id: 1,
        locale: Seq::empty(),
        locale_id: 0,
        sprite_atlas_id: 0,
        is_svg_rasterization: false,
        has_icon: true,
        keyformat: Seq::empty(),
        min_deploy: "10.11"@,
        platform: "macosx"@,
        csi_override: None,
        force_non_opaque: false,
        variant: 0,
        deepmap: None,
    }
}

impl Default for Rendition {
    /// An ordinary image without pixels.
    fn default() -> (r: Self)
        ensures
            r@ == plain_rendition(),
            r.deepmap is None,
            r.csi_override is None,
    {
        let r = Rendition {
            name: String::new(),
            identifier: 0,
            element: ELEMENT_UNIVERSAL,
            part: PART_REGULAR,
            scale: 1,
            width: 0,
            height: 0,
            pixel_data: Vec::new(),
            pixel_format: bgra(),
            layout: LAYOUT_ONE_PART_SCALE,
            dim1: 0,
            dim2: 0,
            appearance: 0,
            direction: 0,
            idiom: 0,
            subtype: 0,
            is_template: false,
            template_rendering_intent: -1,
            colorspace_id: 1,
            locale: String::new(),
            locale_id: 0,
            sprite_atlas_id: 0,
            is_svg_rasterization: false,
            has_icon: true,
            keyformat: Vec::new(),
            min_deploy: "10.11".to_owned(),
            platform: "macosx".to_owned(),
            csi_override: None,
            force_non_opaque: false,
            variant: 0,
            deepmap: None,
        };
        assert(r@ =~= plain_rendition());
        r
    }
}

impl KeyformatRendition for Rendition {
    fn direction(&self) -> (v: u32)
        ensures
            v == self.direction,
    {
        self.direction as u32
    }

    fn dim1(&self) -> (v: u32)
        ensures
            v == self.dim1,
    {
        self.dim1 as u32
    }

    fn dim2(&self) -> (v: u32)
        ensures
            v == self.dim2,
    {
        self.dim2 as u32
    }

    fn variant(&self) -> (v: u32)
        ensures
            v == self.variant,
    {
        self.variant as u32
    }
}

/// The bytes of one pixel, four in `BGRA` and two otherwise.
pub open spec fn pixel_size(format: Seq<u8>) -> nat {
    if format == bgra_name() {
        4
    } else {
        2
    }
}

/// The alpha byte of pixel `col` in row `row`: the last byte of the pixel.
pub open spec fn alpha_at(pixels: Seq<u8>, size: nat, width: u32, row: int, col: int) -> u8 {
    pixels[row * (width * size) + col * size + size - 1]
}

/// Whether every pixel is opaque.  Only formats with an alpha channel of eight
/// bits can tell.
pub open spec fn opaque(pixels: Seq<u8>, format: Seq<u8>, width: u32, height: u32) -> bool {
    (format == bgra_name() || format == ga8_name()) && forall|row: int, col: int|
        0 <= row < height && 0 <= col < width ==> #[trigger] alpha_at(
            pixels,
            pixel_size(format),
            width,
            row,
            col,
        ) == 255
}

/// Byte `size - 1` of pixel `col` in row `row` lies within complete pixels.
proof fn lemma_pixel_inside(size: nat, width: u32, height: u32, row: int, col: int)
    requires
        0 <= row < height,
        0 <= col < width,
        1 <= size,
    ensures
        0 <= row * (width * size),
        0 <= col * size,
        row * (width * size) + col * size + size <= height as nat * (width * size),
{
    let stride = width * size;
    assert(0 <= stride) by (nonlinear_arith)
        requires
            stride == width * size,
            width >= 0,
            size >= 0,
    ;
    assert(row * stride + stride <= height as nat * stride && 0 <= row * stride)
        by (nonlinear_arith)
        requires
            0 <= row,
            row + 1 <= height,
            stride >= 0,
    ;
    assert(0 <= col * size && col * size + size <= stride) by (nonlinear_arith)
        requires
            0 <= col,
            col + 1 <= width,
            stride == width * size,
            size >= 0,
    ;
}

/// Whether a pixel is there and is not opaque.
pub open spec fn clear_at(
    pixels: Seq<u8>,
    size: nat,
    width: u32,
    height: u32,
    row: int,
    col: int,
) -> bool {
    &&& 0 <= row < height
    &&& 0 <= col < width
    &&& row * (width * size) + col * size + size <= pixels.len()
    &&& alpha_at(pixels, size, width, row, col) != 255
}

/// Whether the pixels suffice to tell if all are opaque: they are complete, or one
/// that is there is not opaque.
pub open spec fn opacity_shows(pixels: Seq<u8>, format: Seq<u8>, width: u32, height: u32) -> bool {
    let size = pixel_size(format);
    (format == bgra_name() || format == ga8_name()) ==> {
        ||| height as nat * (width * size) <= pixels.len()
        ||| exists|row: int, col: int|
            #[trigger] clear_at(pixels, size, width, height, row, col)
    }
}

/// Pixels lie one behind the other.
proof fn lemma_pixel_place(size: nat, width: u32, row: int, col: int)
    ensures
        row * (width * size) + col * size == (row * width + col) * size,
{
    assert(row * (width * size) + col * size == (row * width + col) * size) by (nonlinear_arith);
}

/// A pixel that does not come before another begins no earlier.
proof fn lemma_later_pixel(size: nat, width: u32, row: int, col: int, r: int, c: int)
    requires
        0 <= row <= r,
        row == r ==> col <= c,
        0 <= col < width,
        0 <= c < width,
    ensures
        0 <= row * (width * size),
        0 <= col * size,
        row * (width * size) + col * size <= r * (width * size) + c * size,
{
    lemma_pixel_place(size, width, row, col);
    lemma_pixel_place(size, width, r, c);
    if row < r {
        assert(row * width + width <= r * width) by (nonlinear_arith)
            requires
                row + 1 <= r,
                width >= 0,
        ;
    }
    let a = row * width + col;
    let b = r * width + c;
    assert(a * size <= b * size) by (nonlinear_arith)
        requires
            a <= b,
            size >= 0,
    ;
    assert(0 <= row * (width * size) && 0 <= col * size) by (nonlinear_arith)
        requires
            row >= 0,
            col >= 0,
            width >= 0,
            size >= 0,
    ;
}

/// Whether the pixels suffice to tell if all are opaque.
fn check_opacity_shows(pixels: &[u8], format: &[u8], width: u32, height: u32) -> (answer: bool)
    ensures
        answer == opacity_shows(pixels@, format@, width, height),
{
    let is_color = is_bgra(format);
    if !is_color && !is_ga8(format) {
        return true;
    }
    let size: usize = if is_color {
        4
    } else {
        2
    };
    let len: usize = pixels.len();
    proof {
        lemma_count(width, height, size as u128);
    }
    let count: u64 = width as u64 * height as u64;
    let needed: u128 = count as u128 * size as u128;
    proof {
        assert(height as nat * (width * size as nat) == needed) by (nonlinear_arith)
            requires
                needed == (width * height) * size,
        ;
    }
    if needed <= len as u128 {
        return true;
    }
    let there: usize = len / size;
    let mut k: usize = 0;
    while k < there
        invariant
            k <= there,
            there == len / size,
            len == pixels@.len(),
            size == 4 || size == 2,
            size == pixel_size(format@),
            format@ == bgra_name() || format@ == ga8_name(),
            width * height * size > len,
            forall|j: int| 0 <= j < k ==> pixels@[#[trigger] (j * size) + size - 1] == 255,
        decreases there - k,
    {
        proof {
            vstd::arithmetic::div_mod::lemma_fundamental_div_mod(len as int, size as int);
            vstd::arithmetic::div_mod::lemma_mod_bound(len as int, size as int);
            assert(0 <= k * size && k * size + size <= size * there) by (nonlinear_arith)
                requires
                    0 <= k,
                    k + 1 <= there,
                    size >= 0,
            ;
        }
        if pixels[k * size + (size - 1)] != 255 {
            proof {
                let w = width as int;
                assert(w > 0) by (nonlinear_arith)
                    requires
                        w * height * size > len,
                        len >= 0,
                        w >= 0,
                ;
                let row = k as int / w;
                let col = k as int % w;
                vstd::arithmetic::div_mod::lemma_fundamental_div_mod(k as int, w);
                vstd::arithmetic::div_mod::lemma_mod_bound(k as int, w);
                assert(row * w + col == k) by (nonlinear_arith)
                    requires
                        k == w * row + col,
                ;
                assert(k < w * height) by (nonlinear_arith)
                    requires
                        k * size + size <= len,
                        w * height * size > len,
                        size > 0,
                ;
                assert(0 <= row < height) by (nonlinear_arith)
                    requires
                        row * w + col == k,
                        0 <= k < w * height,
                        0 <= col < w,
                ;
                lemma_pixel_place(size as nat, width, row, col);
                assert(clear_at(pixels@, size as nat, width, height, row, col));
            }
            return true;
        }
        k = k + 1;
    }
    proof {
        assert forall|row: int, col: int| !#[trigger] clear_at(
            pixels@,
            size as nat,
            width,
            height,
            row,
            col,
        ) by {
            if 0 <= row < height && 0 <= col < width {
                lemma_pixel_place(size as nat, width, row, col);
                lemma_later_pixel(size as nat, width, row, col, row, col);
                let j = row * width + col;
                if j * size + size <= len {
                    assert(0 <= j) by (nonlinear_arith)
                        requires
                            j == row * width + col,
                            row >= 0,
                            col >= 0,
                            width >= 0,
                    ;
                    assert(j < there);
                    assert(pixels@[(j * size) + size - 1] == 255);
                }
            }
        }
    }
    false
}

proof fn lemma_count(width: u32, height: u32, size: u128)
    requires
        size <= 4,
    ensures
        0 <= width * height <= u64::MAX,
        0 <= width * height * size <= u128::MAX,
{
    let count = width * height;
    assert(0 <= count <= 0xffff_ffff * 0xffff_ffff) by (nonlinear_arith)
        requires
            count == width * height,
            0 <= width <= 0xffff_ffff,
            0 <= height <= 0xffff_ffff,
    ;
    assert(0 <= count * size <= 0xffff_ffff * 0xffff_ffff * 4) by (nonlinear_arith)
        requires
            0 <= count <= 0xffff_ffff * 0xffff_ffff,
            0 <= size <= 4,
    ;
}

/// Whether every pixel is opaque.
pub fn check_opaque(pixel_data: &[u8], pixel_format: &[u8], width: u32, height: u32) -> (answer:
    bool)
    requires
        opacity_shows(pixel_data@, pixel_format@, width, height),
    ensures
        answer == opaque(pixel_data@, pixel_format@, width, height),
{
    let is_bgra = is_bgra(pixel_format);
    if !is_bgra && !is_ga8(pixel_format) {
        return false;
    }
    let size: usize = if is_bgra {
        4
    } else {
        2
    };
    let len: usize = pixel_data.len();
    let mut row: u32 = 0;
    while row < height
        invariant
            row <= height,
            len == pixel_data@.len(),
            size == pixel_size(pixel_format@),
            size >= 1,
            opacity_shows(pixel_data@, pixel_format@, width, height),
            pixel_format@ == bgra_name() || pixel_format@ == ga8_name(),
            forall|r: int, c: int|
                0 <= r < row && 0 <= c < width ==> #[trigger] alpha_at(
                    pixel_data@,
                    size as nat,
                    width,
                    r,
                    c,
                ) == 255,
        decreases height - row,
    {
        let mut col: u32 = 0;
        while col < width
            invariant
                col <= width,
                row < height,
                len == pixel_data@.len(),
                size == pixel_size(pixel_format@),
                size >= 1,
                opacity_shows(pixel_data@, pixel_format@, width, height),
                pixel_format@ == bgra_name() || pixel_format@ == ga8_name(),
                forall|r: int, c: int|
                    0 <= r < row && 0 <= c < width ==> #[trigger] alpha_at(
                        pixel_data@,
                        size as nat,
                        width,
                        r,
                        c,
                    ) == 255,
                forall|c: int|
                    0 <= c < col ==> #[trigger] alpha_at(
                        pixel_data@,
                        size as nat,
                        width,
                        row as int,
                        c,
                    ) == 255,
            decreases width - col,
        {
            proof {
                if height as nat * (width * size as nat) <= len {
                    lemma_pixel_inside(size as nat, width, height, row as int, col as int);
                } else {
                    let (r, c) = choose|r: int, c: int|
                        #[trigger] clear_at(pixel_data@, size as nat, width, height, r, c);
                    if r < row || r == row && c < col {
                        assert(alpha_at(pixel_data@, size as nat, width, r, c) == 255);
                    }
                    lemma_later_pixel(size as nat, width, row as int, col as int, r, c);
                }
                assert(width * size <= usize::MAX || row == 0) by (nonlinear_arith)
                    requires
                        row * (width * size) <= len,
                        len <= usize::MAX,
                ;
                assert(row == 0 ==> row * (width * size) == 0) by (nonlinear_arith);
            }
            let before: usize = if row == 0 {
                0
            } else {
                row as usize * (width as usize * size)
            };
            let at: usize = before + col as usize * size + (size - 1);
            assert(pixel_data@[at as int] == alpha_at(
                pixel_data@,
                size as nat,
                width,
                row as int,
                col as int,
            ));
            if pixel_data[at] != 255 {
                return false;
            }
            col = col + 1;
        }
        row = row + 1;
    }
    true
}

/// The first `n` rows of pixels, each padded from `exact` to `wide` bytes.
pub open spec fn widened_rows(pixels: Seq<u8>, exact: nat, wide: nat, n: nat) -> Seq<u8>
    decreases n,
{
    if n == 0 {
        Seq::empty()
    } else {
        widened_rows(pixels, exact, wide, (n - 1) as nat) + (pixels.subrange(
            (n - 1) * exact,
            (n - 1) * exact + exact,
        ) + zeros((wide - exact) as nat))
    }
}

proof fn lemma_widened_len(pixels: Seq<u8>, exact: nat, wide: nat, n: nat)
    requires
        n * exact <= pixels.len(),
        exact <= wide,
    ensures
        widened_rows(pixels, exact, wide, n).len() == n * wide,
    decreases n,
{
    if n > 0 {
        let m = (n - 1) as nat;
        assert(n * exact == m * exact + exact && 0 <= m * exact) by (nonlinear_arith)
            requires
                n == m + 1,
                m >= 0,
                exact >= 0,
        ;
        assert(n * wide == m * wide + wide) by (nonlinear_arith)
            requires
                n == m + 1,
        ;
        lemma_widened_len(pixels, exact, wide, m);
    } else {
        assert(0 * wide == 0);
    }
}

/// Pads each row of pixels.
fn widen_rows(pixels: &[u8], exact: usize, wide: usize, height: u32) -> (out: Vec<u8>)
    requires
        exact <= wide,
        height as nat * exact as nat <= pixels@.len(),
    ensures
        out@ == widened_rows(pixels@, exact as nat, wide as nat, height as nat),
{
    let len: usize = pixels.len();
    let mut out: Vec<u8> = Vec::new();
    let mut row: u32 = 0;
    while row < height
        invariant
            row <= height,
            len == pixels@.len(),
            exact <= wide,
            height as nat * exact as nat <= len,
            out@ == widened_rows(pixels@, exact as nat, wide as nat, row as nat),
        decreases height - row,
    {
        proof {
            assert(0 <= row * exact && row * exact + exact <= height as nat * exact as nat)
                by (nonlinear_arith)
                requires
                    0 <= row,
                    row + 1 <= height,
                    exact >= 0,
            ;
        }
        let start: usize = row as usize * exact;
        let ghost before = out@;
        put_bytes(&mut out, slice_subrange(pixels, start, start + exact));
        put_zeros(&mut out, wide - exact);
        assert(out@ =~= before + (pixels@.subrange(start as int, start + exact) + zeros(
            (wide - exact) as nat,
        )));
        row = row + 1;
    }
    out
}

/// The products of sizes fit in 64 bits.
proof fn lemma_products(wide: u32, height: u32, exact: u32, width: u32, size: u32)
    requires
        size == 2 || size == 4,
    ensures
        wide * height <= u64::MAX,
        height * exact <= u64::MAX,
        0 <= width * (4 + size) <= 0xffff_ffff * 8,
        height * (width * (4 + size)) <= 0xffff_ffff * (0xffff_ffff * 8),
        height * (width * (4 + size)) >= 0,
        height as nat * exact as nat == height * exact,
        wide as nat * height as nat == wide * height,
        height as nat * (width as nat * (4 + size as nat)) == height * (width * (4 + size)),
{
    assert(wide * height <= 0xffff_ffff * 0xffff_ffff) by (nonlinear_arith)
        requires
            wide <= 0xffff_ffff,
            height <= 0xffff_ffff,
    ;
    assert(height * exact <= 0xffff_ffff * 0xffff_ffff) by (nonlinear_arith)
        requires
            exact <= 0xffff_ffff,
            height <= 0xffff_ffff,
    ;
    let row = width * (4 + size);
    assert(0 <= row <= 0xffff_ffff * 8) by (nonlinear_arith)
        requires
            row == width * (4 + size),
            size <= 4,
            size >= 0,
            0 <= width <= 0xffff_ffff,
    ;
    assert(0 <= height * row <= 0xffff_ffff * (0xffff_ffff * 8)) by (nonlinear_arith)
        requires
            0 <= row <= 0xffff_ffff * 8,
            0 <= height <= 0xffff_ffff,
    ;
}

impl Rendition {
    /// The values of the columns of the key.
    pub open spec fn key_parts(&self) -> RenditionKeyParts {
        RenditionKeyParts {
            appearance: self.appearance,
            unknown13: if self.locale@.len() == 0 {
                0
            } else {
                self.locale_id
            },
            element: self.element,
            part: self.part,
            size: 0,
            direction: self.direction,
            identifier: self.identifier,
            dim1: self.dim1,
            dim2: self.dim2,
            layer: 0,
            scale: self.scale,
            idiom: self.idiom,
            subtype: self.subtype,
            variant: self.variant,
        }
    }

    /// The key of the rendition, in the columns of its key format.
    pub fn build_rendition_key(&self) -> (key: Vec<u8>)
        ensures
            key@ == rendition_key(self.key_parts(), self.keyformat@),
    {
        let locale: u16 = if self.locale.as_str().unicode_len() == 0 {
            0
        } else {
            self.locale_id
        };
        let parts = RenditionKeyParts {
            appearance: self.appearance,
            unknown13: locale,
            element: self.element,
            part: self.part,
            size: 0,
            direction: self.direction,
            identifier: self.identifier,
            dim1: self.dim1,
            dim2: self.dim2,
            layer: 0,
            scale: self.scale,
            idiom: self.idiom,
            subtype: self.subtype,
            variant: self.variant,
        };
        make_rendition_key(parts, self.keyformat.as_slice())
    }

    /// Images of tvOS brand assets.
    pub open spec fn is_tvos(&self) -> bool {
        self.part == PART_TVOS_FLATTENED || self.part == PART_TVOS_RADIOSITY
    }

    /// Whether the deployment target wants rows padded to a multiple of 32 bytes.
    pub open spec fn aligns_rows(&self) -> bool {
        version_reaches(version_of(self.min_deploy@), lzfse_since(self.platform@))
    }

    /// Whether the deepmap encoder may be used: not for icons, nor for the images
    /// of tvOS brand assets.
    pub open spec fn may_use_deepmap(&self) -> bool {
        self.part != PART_ICON && !self.is_tvos() && (self.pixel_format@ == bgra_name()
            || self.pixel_format@ == ga8_name())
    }

    /// Whether the pixels are offered to the deepmap encoder for a deployment target.
    pub open spec fn offers_deepmap(&self, min_deploy: Seq<char>, platform: Seq<char>) -> bool {
        self.may_use_deepmap() && allows_deepmap(self.pixel_data@, min_deploy, platform)
    }

    /// The length of a row of pixels.
    pub open spec fn exact_row(&self) -> nat {
        self.width as nat * pixel_size(self.pixel_format@)
    }

    /// The length of a row of pixels as it is compressed: rows that are offered to
    /// the deepmap encoder have room for four bytes in each pixel.
    pub open spec fn stored_row(&self, min_deploy: Seq<char>, platform: Seq<char>) -> nat {
        if self.offers_deepmap(min_deploy, platform) {
            aligned_row(self.width) as nat
        } else {
            align32(self.exact_row())
        }
    }

    /// Whether rows have to be padded.
    pub open spec fn pads_rows(&self, min_deploy: Seq<char>, platform: Seq<char>) -> bool {
        &&& version_reaches(version_of(min_deploy), lzfse_since(platform))
        &&& self.stored_row(min_deploy, platform) != self.exact_row()
        &&& self.height > 0
    }

    /// The pixels as they are compressed for a deployment target.
    pub open spec fn stored_pixels_for(&self, min_deploy: Seq<char>, platform: Seq<char>) -> Seq<
        u8,
    > {
        if self.pads_rows(min_deploy, platform) {
            widened_rows(
                self.pixel_data@,
                self.exact_row(),
                self.stored_row(min_deploy, platform),
                self.height as nat,
            )
        } else {
            self.pixel_data@
        }
    }

    /// The pixels as they are compressed.
    pub open spec fn stored_pixels(&self) -> Seq<u8> {
        self.stored_pixels_for(self.min_deploy@, self.platform@)
    }

    /// Rows can be padded for a deployment target: they are complete, if they have to
    /// be, and sizes fit their fields.
    pub open spec fn paddable_for(&self, min_deploy: Seq<char>, platform: Seq<char>) -> bool {
        &&& self.width * 4 + 31 <= u32::MAX
        &&& self.pixel_data@.len() + LZFSE_SLACK <= u32::MAX
        &&& self.stored_row(min_deploy, platform) * self.height as nat + LZFSE_SLACK <= u32::MAX
        &&& self.pads_rows(min_deploy, platform) ==> self.height as nat * self.exact_row()
            <= self.pixel_data@.len()
    }

    /// Rows can be padded.
    pub open spec fn paddable(&self) -> bool {
        self.paddable_for(self.min_deploy@, self.platform@)
    }

    /// What the deepmap encoder has made of the pixels, where it may be used.
    pub open spec fn usable_deepmap(&self) -> Option<Seq<u8>> {
        if self.may_use_deepmap() {
            self.deepmap_view()
        } else {
            None
        }
    }

    /// There are as many pixels as the steps to the form that is stored for a deployment
    /// target look at, and sizes fit their fields.
    pub open spec fn storable_for(&self, min_deploy: Seq<char>, platform: Seq<char>) -> bool {
        &&& self.paddable_for(min_deploy, platform)
        &&& !self.force_non_opaque ==> opacity_shows(
            self.pixel_data@,
            self.pixel_format@,
            self.width,
            self.height,
        )
        &&& uses_runs(
            self.stored_pixels_for(min_deploy, platform),
            self.height,
            min_deploy,
            platform,
            self.usable_deepmap(),
        ) ==> rle_applies(
            self.stored_pixels_for(min_deploy, platform),
            self.pixel_format@,
            self.width,
            self.height,
        )
        &&& self.deepmap matches Some(d) ==> 16 + d@.len() <= u32::MAX
    }

    /// There are as many pixels as the steps to the stored form look at, and sizes fit
    /// their fields.
    pub open spec fn storable(&self) -> bool {
        self.storable_for(self.min_deploy@, self.platform@)
    }

    /// Whether rows can be padded for a deployment target.
    fn is_paddable_for(&self, min_deploy: &str, platform: &str) -> (answer: bool)
        ensures
            answer == self.paddable_for(min_deploy@, platform@),
    {
        if self.width as u64 * 4 + 31 > u32::MAX as u64 || self.pixel_data.len() as u128
            + LZFSE_SLACK as u128 > u32::MAX as u128 {
            return false;
        }
        let version = parse_version(min_deploy);
        let is_color = is_bgra(&self.pixel_format);
        let may = self.part != PART_ICON && !(self.part == PART_TVOS_FLATTENED || self.part
            == PART_TVOS_RADIOSITY) && (is_color || is_ga8(&self.pixel_format));
        let offers = may && reaches(version, min_dmp2_version(platform))
            && self.pixel_data.len() > SMALL_PIXELS;
        let size: u32 = if is_color {
            4
        } else {
            2
        };
        let exact: u32 = self.width * size;
        let wide: u32 = if offers {
            aligned_bytes_per_row(self.width, &self.pixel_format)
        } else {
            (exact + 31) / 32 * 32
        };
        assert(wide == self.stored_row(min_deploy@, platform@) && exact == self.exact_row());
        let pads = reaches(version, min_lzfse_version(platform)) && wide != exact
            && self.height > 0;
        proof {
            lemma_products(wide, self.height, exact, self.width, size);
        }
        let stored: u64 = wide as u64 * self.height as u64;
        let complete: u64 = self.height as u64 * exact as u64;
        stored as u128 + LZFSE_SLACK as u128 <= u32::MAX as u128 && (!pads || complete
            <= self.pixel_data.len() as u64)
    }

    /// Whether rows can be padded.
    pub fn is_paddable(&self) -> (answer: bool)
        ensures
            answer == self.paddable(),
    {
        self.is_paddable_for(self.min_deploy.as_str(), self.platform.as_str())
    }

    /// Whether the run-length encoder can be given pixels of the size of the image.
    fn check_runs(&self, pixels: &[u8]) -> (answer: bool)
        requires
            self.width * 4 + 31 <= u32::MAX,
        ensures
            answer == rle_applies(pixels@, self.pixel_format@, self.width, self.height),
    {
        let size: u32 = if is_bgra(&self.pixel_format) {
            4
        } else {
            2
        };
        let exact: u32 = self.width * size;
        proof {
            lemma_products(0, self.height, exact, self.width, size);
            assert(exact as nat == self.width as nat * size as nat);
        }
        let complete: u64 = self.height as u64 * exact as u64;
        let runs: u128 = self.height as u128 * (self.width as u128 * (4 + size as u128));
        complete <= pixels.len() as u64 && 12 + 4 * self.height as u128 + runs
            <= usize::MAX as u128
    }

    /// Whether there are as many pixels as the steps to the form that is stored for a
    /// deployment target look at, and sizes fit their fields.
    pub fn is_storable_for(&self, min_deploy: &str, platform: &str) -> (answer: bool)
        ensures
            answer == self.storable_for(min_deploy@, platform@),
    {
        if !self.is_paddable_for(min_deploy, platform) {
            return false;
        }
        match &self.deepmap {
            Some(d) => {
                if d.len() as u128 + 16 > u32::MAX as u128 {
                    return false;
                }
            },
            None => {},
        }
        if !self.force_non_opaque && !check_opacity_shows(
            self.pixel_data.as_slice(),
            &self.pixel_format,
            self.width,
            self.height,
        ) {
            return false;
        }
        let pixels = self.make_stored_pixels_for(min_deploy, platform);
        if self.height == 0 || pixels.len() >= GZIP_PIXELS || self.check_runs(pixels.as_slice()) {
            return true;
        }
        let may = self.part != PART_ICON && !(self.part == PART_TVOS_FLATTENED || self.part
            == PART_TVOS_RADIOSITY) && (is_bgra(&self.pixel_format) || is_ga8(&self.pixel_format));
        let version = parse_version(min_deploy);
        let large = pixels.len() > SMALL_PIXELS;
        if may && self.deepmap.is_some() && large && reaches(
            version,
            min_dmp2_version(platform),
        ) {
            return true;
        }
        large && reaches(version, min_lzfse_version(platform)) && compress_kcbc(
            pixels.as_slice(),
            self.height,
        ).is_some()
    }

    /// Whether there are as many pixels as the steps to the stored form look at, and
    /// sizes fit their fields.
    pub fn is_storable(&self) -> (answer: bool)
        ensures
            answer == self.storable(),
    {
        self.is_storable_for(self.min_deploy.as_str(), self.platform.as_str())
    }

    /// The pixels as they are compressed for a deployment target.
    fn make_stored_pixels_for(&self, min_deploy: &str, platform: &str) -> (pixels: Vec<u8>)
        requires
            self.paddable_for(min_deploy@, platform@),
        ensures
            pixels@ == self.stored_pixels_for(min_deploy@, platform@),
            pixels@.len() + LZFSE_SLACK <= u32::MAX,
    {
        let version = parse_version(min_deploy);
        if reaches(version, min_lzfse_version(platform)) {
            let is_color = is_bgra(&self.pixel_format);
            let may = self.part != PART_ICON && !(self.part == PART_TVOS_FLATTENED || self.part
                == PART_TVOS_RADIOSITY) && (is_color || is_ga8(&self.pixel_format));
            let offers = may && reaches(version, min_dmp2_version(platform))
                && self.pixel_data.len() > SMALL_PIXELS;
            let size: u32 = if is_color {
                4
            } else {
                2
            };
            let exact: u32 = self.width * size;
            let wide: u32 = if offers {
                aligned_bytes_per_row(self.width, &self.pixel_format)
            } else {
                (exact + 31) / 32 * 32
            };
            assert(wide == self.stored_row(min_deploy@, platform@) && exact == self.exact_row());
            if wide != exact && self.height > 0 {
                proof {
                    lemma_widened_len(
                        self.pixel_data@,
                        exact as nat,
                        wide as nat,
                        self.height as nat,
                    );
                    assert(self.height as nat * wide as nat == wide as nat * self.height as nat)
                        by (nonlinear_arith);
                }
                return widen_rows(
                    self.pixel_data.as_slice(),
                    exact as usize,
                    wide as usize,
                    self.height,
                );
            }
        }
        copy_of(self.pixel_data.as_slice())
    }

    /// The pixels as they are compressed.
    fn make_stored_pixels(&self) -> (pixels: Vec<u8>)
        requires
            self.paddable(),
        ensures
            pixels@ == self.stored_pixels(),
            pixels@.len() + LZFSE_SLACK <= u32::MAX,
    {
        self.make_stored_pixels_for(self.min_deploy.as_str(), self.platform.as_str())
    }

    /// The pixels to hand to the deepmap encoder of the platform; `None` where it
    /// is not used.
    pub fn deepmap_input(&self) -> (pixels: Option<Vec<u8>>)
        requires
            self.pixel_data@.len() > 0 ==> self.paddable(),
        ensures
            match pixels {
                Some(p) => self.pixel_data@.len() > 0 && self.csi_override is None
                    && self.may_use_deepmap() && allows_deepmap(
                    self.stored_pixels(),
                    self.min_deploy@,
                    self.platform@,
                ) && p@ == self.stored_pixels(),
                None => !(self.pixel_data@.len() > 0 && self.csi_override is None
                    && self.may_use_deepmap() && allows_deepmap(
                    self.stored_pixels(),
                    self.min_deploy@,
                    self.platform@,
                )),
            },
    {
        if self.pixel_data.len() == 0 || self.csi_override.is_some() {
            return None;
        }
        let may = self.part != PART_ICON && !(self.part == PART_TVOS_FLATTENED || self.part
            == PART_TVOS_RADIOSITY) && (is_bgra(&self.pixel_format) || is_ga8(&self.pixel_format));
        let version = parse_version(self.min_deploy.as_str());
        let pixels = self.make_stored_pixels();
        if may && reaches(version, min_dmp2_version(self.platform.as_str())) && pixels.len()
            > SMALL_PIXELS {
            Some(pixels)
        } else {
            None
        }
    }

    /// The pixels as they are stored.
    pub open spec fn stored_data(&self) -> Seq<u8> {
        let pixels = self.stored_pixels();
        compressed(
            pixels,
            self.pixel_format@,
            self.width,
            self.height,
            self.min_deploy@,
            self.platform@,
            self.usable_deepmap(),
            false,
            !self.force_non_opaque && opaque(
                self.pixel_data@,
                self.pixel_format@,
                self.width,
                self.height,
            ),
            kcbc_chunks(pixels, self.height),
            gzip_stream(pixels),
        )
    }

    pub open spec fn deepmap_view(&self) -> Option<Seq<u8>> {
        match self.deepmap {
            Some(d) => Some(d@),
            None => None,
        }
    }

    /// The length of a row, as the tagged values give it.
    pub open spec fn named_row(&self) -> u32 {
        if read_le32(self.stored_data(), 8) == METHOD_DEEPMAP {
            aligned_row(self.width) as u32
        } else if self.aligns_rows() {
            align32(self.exact_row()) as u32
        } else {
            (self.width * 4) as u32
        }
    }

    /// The tagged values: images have a slice, those of ordinary layout metrics
    /// too, and all that have pixels the length of their rows.
    pub open spec fn tagged_values(&self) -> Seq<u8> {
        let first = if self.is_tvos() {
            slices_tlv(self.width, self.height) + opacity_tlv(ONE) + orientation_tlv(1)
        } else if self.layout == LAYOUT_ONE_PART_SCALE {
            slices_tlv(self.width, self.height) + metrics_tlv(self.width, self.height)
                + opacity_tlv(ONE) + orientation_tlv(1)
        } else {
            Seq::empty()
        };
        if self.pixel_data@.len() > 0 {
            first + row_length_tlv(self.named_row())
        } else {
            first
        }
    }

    /// The flags: the rendering intent, and whether the image was drawn from a
    /// vector image.
    pub open spec fn flags(&self) -> u32 {
        let intent: i32 = if self.template_rendering_intent >= 0 {
            self.template_rendering_intent
        } else if self.is_template {
            2
        } else {
            4
        };
        let flags = (intent as u32) << 2u32;
        if self.is_svg_rasterization {
            flags | 4
        } else {
            flags
        }
    }

    /// The rendition as it is stored.
    pub open spec fn stored(&self) -> Seq<u8> {
        match self.csi_override {
            Some(bytes) => bytes@,
            None => csi(
                self.width,
                self.height,
                percent(self.scale),
                self.pixel_format@,
                self.layout,
                self.name@,
                self.tagged_values(),
                if self.pixel_data@.len() > 0 {
                    self.stored_data()
                } else {
                    Seq::empty()
                },
                self.flags(),
                self.colorspace_id,
                if self.pixel_data@.len() > 0 {
                    1
                } else {
                    0
                },
            ),
        }
    }

    /// The compressed pixels.
    fn make_stored_data(&self) -> (data: Vec<u8>)
        requires
            self.pixel_data@.len() > 0,
            self.storable(),
        ensures
            data@ == self.stored_data(),
            data@.len() >= 16,
    {
        let pixels = self.make_stored_pixels();
        let is_opaque = !self.force_non_opaque && check_opaque(
            self.pixel_data.as_slice(),
            &self.pixel_format,
            self.width,
            self.height,
        );
        let may = self.part != PART_ICON && !(self.part == PART_TVOS_FLATTENED || self.part
            == PART_TVOS_RADIOSITY) && (is_bgra(&self.pixel_format) || is_ga8(&self.pixel_format));
        let deepmap: Option<&[u8]> = if may {
            match &self.deepmap {
                Some(d) => Some(d.as_slice()),
                None => None,
            }
        } else {
            None
        };
        proof {
            compressed_names_method(
                pixels@,
                self.pixel_format@,
                self.width,
                self.height,
                self.min_deploy@,
                self.platform@,
                bytes_view(deepmap),
                false,
                is_opaque,
                kcbc_chunks(pixels@, self.height),
                gzip_stream(pixels@),
            );
        }
        compress_data(
            pixels.as_slice(),
            &self.pixel_format,
            self.width,
            self.height,
            self.min_deploy.as_str(),
            self.platform.as_str(),
            deepmap,
            false,
            is_opaque,
        )
    }

    /// The rendition as it is stored.
    pub fn build_csi(&self) -> (out: Vec<u8>)
        requires
            self.csi_override is None && self.pixel_data@.len() > 0 ==> self.storable(),
        ensures
            out@ == self.stored(),
    {
        match &self.csi_override {
            Some(bytes) => {
                return copy_of(bytes.as_slice());
            },
            None => {},
        }
        let is_tvos = self.part == PART_TVOS_FLATTENED || self.part == PART_TVOS_RADIOSITY;
        let mut tlv: Vec<u8> = Vec::new();
        if is_tvos || self.layout == LAYOUT_ONE_PART_SCALE {
            put_bytes(&mut tlv, make_slices_tlv(self.width, self.height).as_slice());
            if !is_tvos {
                put_bytes(&mut tlv, make_metrics_tlv(self.width, self.height).as_slice());
            }
            put_bytes(&mut tlv, make_blend_opacity_tlv().as_slice());
            put_bytes(&mut tlv, make_exif_orientation_tlv(1).as_slice());
        }
        let mut data: Vec<u8> = Vec::new();
        let mut bitmaps: u32 = 0;
        if self.pixel_data.len() > 0 {
            data = self.make_stored_data();
            let length: u32 = if get_le32(data.as_slice(), 8) == METHOD_DEEPMAP {
                aligned_bytes_per_row(self.width, &self.pixel_format)
            } else if reaches(
                parse_version(self.min_deploy.as_str()),
                min_lzfse_version(self.platform.as_str()),
            ) {
                let size: u32 = if is_bgra(&self.pixel_format) {
                    4
                } else {
                    2
                };
                (self.width * size + 31) / 32 * 32
            } else {
                self.width * 4
            };
            put_bytes(&mut tlv, crate::csi::make_row_length_tlv(length).as_slice());
            bitmaps = 1;
        }
        let intent: i32 = if self.template_rendering_intent >= 0 {
            self.template_rendering_intent
        } else if self.is_template {
            2
        } else {
            4
        };
        let mut flags: u32 = (intent as u32) << 2u32;
        if self.is_svg_rasterization {
            flags = flags | 4;
        }
        build_csi(
            self.width,
            self.height,
            self.scale as u32 * 100,
            &self.pixel_format,
            self.layout,
            self.name.as_str(),
            tlv.as_slice(),
            data.as_slice(),
            flags,
            self.colorspace_id,
            bitmaps,
        )
    }
}

/// One size of an icon.
#[derive(Debug, Clone, Copy)]
pub struct MultisizeImageEntry {
    pub width: u32,
    pub height: u32,
    pub index: u32,
}

/// The ASCII letters `SISM`.
pub const SIZES_MAGIC: u32 = 0x5349_534d;

/// The sizes of an icon.
pub open spec fn size_entries(entries: Seq<MultisizeImageEntry>) -> Seq<u8>
    decreases entries.len(),
{
    if entries.len() == 0 {
        Seq::empty()
    } else {
        size_entries(entries.drop_last()) + (le32(entries.last().width) + le32(
            entries.last().height,
        ) + le32(entries.last().index))
    }
}

/// The list of the sizes of an icon.
pub open spec fn sizes_data(entries: Seq<MultisizeImageEntry>) -> Seq<u8> {
    be32(SIZES_MAGIC) + le32(1) + le32(entries.len() as u32) + size_entries(entries)
}

/// The rendition that lists the sizes of an icon.
pub open spec fn sizes_rendition(
    name: Seq<char>,
    identifier: u16,
    entries: Seq<MultisizeImageEntry>,
) -> RenditionModel {
    RenditionModel {
        name,
        identifier,
        part: PART_ICON_MULTISIZE,
        layout: LAYOUT_MULTISIZE_IMAGE,
        pixel_format: be32(0),
        colorspace_id: 0,
        template_rendering_intent: 0,
        csi_override: Some(color_csi(LAYOUT_MULTISIZE_IMAGE, name, sizes_data(entries))),
        ..plain_rendition()
    }
}

/// The rendition that lists the sizes of an icon.
pub fn build_multisize_rendition(
    name: &str,
    identifier: u16,
    entries: &[MultisizeImageEntry],
) -> (r: Rendition)
    ensures
        r@ == sizes_rendition(name@, identifier, entries@),
{
    let mut data: Vec<u8> = Vec::new();
    put_be32(&mut data, SIZES_MAGIC);
    put_le32(&mut data, 1);
    put_le32(&mut data, entries.len() as u32);
    let ghost head = data@;
    let mut i: usize = 0;
    assert(data@ =~= head + size_entries(entries@.take(0)));
    while i < entries.len()
        invariant
            i <= entries@.len(),
            data@ == head + size_entries(entries@.take(i as int)),
        decreases entries.len() - i,
    {
        let ghost before = data@;
        let entry = &entries[i];
        put_le32(&mut data, entry.width);
        put_le32(&mut data, entry.height);
        put_le32(&mut data, entry.index);
        assert(data@ =~= before + (le32(entry.width) + le32(entry.height) + le32(entry.index)));
        i = i + 1;
        assert(entries@.take(i as int).drop_last() =~= entries@.take(i - 1));
        assert(data@ =~= head + size_entries(entries@.take(i as int)));
    }
    assert(entries@.take(i as int) =~= entries@);
    let stored = crate::csi::build_color_like_csi(LAYOUT_MULTISIZE_IMAGE, name, data.as_slice());
    let mut r = Rendition::default();
    r.name = name.to_owned();
    r.identifier = identifier;
    r.part = PART_ICON_MULTISIZE;
    r.layout = LAYOUT_MULTISIZE_IMAGE;
    r.pixel_format = [0, 0, 0, 0];
    r.colorspace_id = 0;
    r.template_rendering_intent = 0;
    r.csi_override = Some(stored);
    assert(r@ =~= sizes_rendition(name@, identifier, entries@));
    r
}

} // verus!
