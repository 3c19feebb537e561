//! Renditions as they are stored: a header, a list of tagged values, and data.

use vstd::prelude::*;
use vstd::slice::slice_subrange;
use vstd::utf8::encode_utf8;

use crate::bytes::{
    be32, copy_of, get_be16, get_le32, le16, le32, le64, lemma_appended_le16, lemma_appended_le32,
    lemma_empty_prefix, pad, padded, put_be32, put_bytes, put_le16, put_le32, put_le64, put_zeros,
    read_be16, read_le16, read_le32, zeros,
};
use crate::car::{
    colorspace_for_pixel_format, colorspace_of_format, ATTR_DIM1, ATTR_ELEMENT, ATTR_IDENTIFIER,
    ATTR_IDIOM, ATTR_PART, ATTR_SCALE, ELEMENT_PACKED, ELEMENT_UNIVERSAL, LAYOUT_COLOR,
    LAYOUT_GRADIENT, LAYOUT_ICONSTACK, LAYOUT_ICON_GROUP, LAYOUT_METADATA, LAYOUT_NAME_LIST,
    LAYOUT_ONE_PART_SCALE, LAYOUT_PACKED_IMAGE, LAYOUT_PDF, LAYOUT_RAW_DATA, PART_ICON_GROUP,
    PART_REGULAR,
};
use crate::order::texts;
use crate::compress::{
    allows_deepmap, bytes_view, compress_data, compressed, compressed_names_method, deepmap_fits,
    gzip_stream, kcbc_chunks, lzfse_compress, lzfse_stream, rle_applies, uses_runs, LZFSE_SLACK,
    METHOD_DEEPMAP,
};

verus! {

broadcast use lemma_empty_prefix;

/// The ASCII letters `ISTC`.
pub const CSI_MAGIC: u32 = 0x4953_5443;

/// The ASCII letters `KLNI`.
pub const LINK_MAGIC: u32 = 0x4b4c_4e49;

/// The ASCII letters `DWAR`.
pub const RAW_MAGIC: u32 = 0x4457_4152;

/// The ASCII letters `RLOC`.
pub const COLOR_MAGIC: u32 = 0x524c_4f43;

/// The ASCII letters `ARGG`.
pub const GRADIENT_MAGIC: u32 = 0x4152_4747;

/// The ASCII letters `ATAD`, the pixel format of plain data.
pub const PIXELFMT_DATA: u32 = 0x4154_4144;

/// The ASCII letters ` FDP`, the pixel format of PDF pages.
pub const PIXELFMT_PDF: u32 = 0x2046_4450;

/// The ASCII letters ` GVS`, the pixel format of SVG drawings.
pub const PIXELFMT_SVG: u32 = 0x2047_5653;

/// The ASCII letters `GEPJ`, the pixel format of JPEG data.
pub const PIXELFMT_JPEG: u32 = 0x4745_504a;

/// 1.0 as a floating-point number of 32 bits.
pub const ONE: u32 = 0x3f80_0000;

/// 0.5 as a floating-point number of 32 bits.
pub const HALF: u32 = 0x3f00_0000;

/// The longest name, in bytes, that a header keeps.
pub const MAX_NAME: usize = 127;

/// The beginning of a stored name.
pub open spec fn name_field(name: Seq<char>) -> Seq<u8> {
    let bytes = encode_utf8(name);
    padded(
        bytes.take(
            if bytes.len() < MAX_NAME {
                bytes.len() as int
            } else {
                MAX_NAME as int
            },
        ),
        128,
    )
}

/// The first 168 bytes of a rendition.
pub open spec fn csi_start(
    width: u32,
    height: u32,
    scale_factor: u32,
    format: Seq<u8>,
    layout: u16,
    name: Seq<char>,
    flags: u32,
    colorspace: u32,
) -> Seq<u8> {
    be32(CSI_MAGIC) + le32(1) + le32(flags) + le32(width) + le32(height) + le32(scale_factor)
        + format + le32(colorspace & 0xf) + le32(0) + le16(layout) + le16(0) + name_field(name)
}

fn put_name(out: &mut Vec<u8>, name: &str)
    ensures
        final(out)@ == old(out)@ + name_field(name@),
{
    let bytes = name.as_bytes();
    let n: usize = if bytes.len() < MAX_NAME {
        bytes.len()
    } else {
        MAX_NAME
    };
    let mut field: Vec<u8> = copy_of(slice_subrange(bytes, 0, n));
    pad(&mut field, 128);
    put_bytes(out, field.as_slice());
}

fn make_csi_start(
    width: u32,
    height: u32,
    scale_factor: u32,
    pixel_format: &[u8],
    layout: u16,
    name: &str,
    rendition_flags: u32,
    colorspace_id: u32,
) -> (out: Vec<u8>)
    ensures
        out@ == csi_start(
            width,
            height,
            scale_factor,
            pixel_format@,
            layout,
            name@,
            rendition_flags,
            colorspace_id,
        ),
{
    let mut out: Vec<u8> = Vec::new();
    put_be32(&mut out, CSI_MAGIC);
    put_le32(&mut out, 1);
    put_le32(&mut out, rendition_flags);
    put_le32(&mut out, width);
    put_le32(&mut out, height);
    put_le32(&mut out, scale_factor);
    put_bytes(&mut out, pixel_format);
    put_le32(&mut out, colorspace_id & 0xf);
    put_le32(&mut out, 0);
    put_le16(&mut out, layout);
    put_le16(&mut out, 0);
    put_name(&mut out, name);
    out
}

/// The header of a rendition without tagged values and data.
pub fn make_csi_header(
    width: u32,
    height: u32,
    scale_factor: u32,
    pixel_format: &[u8],
    layout: u16,
    name: &str,
    rendition_flags: u32,
    colorspace_id: u32,
) -> (header: Vec<u8>)
    requires
        pixel_format@.len() == 4,
    ensures
        header@ == csi_start(
            width,
            height,
            scale_factor,
            pixel_format@,
            layout,
            name@,
            rendition_flags,
            colorspace_id,
        ) + zeros(16),
{
    let mut header = make_csi_start(
        width,
        height,
        scale_factor,
        pixel_format,
        layout,
        name,
        rendition_flags,
        colorspace_id,
    );
    put_zeros(&mut header, 16);
    header
}

/// A stored rendition: the header, which tells how long the two parts behind it
/// are, the tagged values, and the data.
pub open spec fn csi(
    width: u32,
    height: u32,
    scale_factor: u32,
    format: Seq<u8>,
    layout: u16,
    name: Seq<char>,
    tlv: Seq<u8>,
    data: Seq<u8>,
    flags: u32,
    colorspace: u32,
    bitmaps: u32,
) -> Seq<u8> {
    csi_start(width, height, scale_factor, format, layout, name, flags, colorspace) + le32(
        tlv.len() as u32,
    ) + le32(bitmaps) + le32(0) + le32(data.len() as u32) + tlv + data
}

/// A stored rendition.
pub fn build_csi(
    width: u32,
    height: u32,
    scale_factor: u32,
    pixel_format: &[u8],
    layout: u16,
    name: &str,
    tlv_data: &[u8],
    rendition_data: &[u8],
    rendition_flags: u32,
    colorspace_id: u32,
    bitmaplist_unknown: u32,
) -> (out: Vec<u8>)
    requires
        pixel_format@.len() == 4,
    ensures
        out@ == csi(
            width,
            height,
            scale_factor,
            pixel_format@,
            layout,
            name@,
            tlv_data@,
            rendition_data@,
            rendition_flags,
            colorspace_id,
            bitmaplist_unknown,
        ),
{
    let mut out = make_csi_start(
        width,
        height,
        scale_factor,
        pixel_format,
        layout,
        name,
        rendition_flags,
        colorspace_id,
    );
    put_le32(&mut out, tlv_data.len() as u32);
    put_le32(&mut out, bitmaplist_unknown);
    put_le32(&mut out, 0);
    put_le32(&mut out, rendition_data.len() as u32);
    put_bytes(&mut out, tlv_data);
    put_bytes(&mut out, rendition_data);
    out
}

/// A stored rendition can be taken apart: the header has 184 bytes and tells the
/// layout and the lengths of the tagged values and of the data, which follow it.
pub proof fn csi_reads_back(
    width: u32,
    height: u32,
    scale_factor: u32,
    format: Seq<u8>,
    layout: u16,
    name: Seq<char>,
    tlv: Seq<u8>,
    data: Seq<u8>,
    flags: u32,
    colorspace: u32,
    bitmaps: u32,
)
    requires
        format.len() == 4,
        tlv.len() <= u32::MAX,
        data.len() <= u32::MAX,
    ensures
        ({
            let s = csi(
                width,
                height,
                scale_factor,
                format,
                layout,
                name,
                tlv,
                data,
                flags,
                colorspace,
                bitmaps,
            );
            let tlv_len = read_le32(s, 168) as int;
            let data_len = read_le32(s, 180) as int;
            &&& s.subrange(0, 4) == be32(CSI_MAGIC)
            &&& read_le32(s, 12) == width
            &&& read_le32(s, 16) == height
            &&& read_le16(s, 36) == layout
            &&& s.len() == 184 + tlv_len + data_len
            &&& s.subrange(184, 184 + tlv_len) == tlv
            &&& s.subrange(184 + tlv_len, 184 + tlv_len + data_len) == data
        }),
{
    let start = csi_start(width, height, scale_factor, format, layout, name, flags, colorspace);
    lemma_csi_start(width, height, scale_factor, format, layout, name, flags, colorspace);
    let a = start + le32(tlv.len() as u32);
    let b = a + le32(bitmaps) + le32(0);
    let c = b + le32(data.len() as u32);
    let s = c + tlv + data;
    lemma_appended_le32(start, tlv.len() as u32);
    lemma_appended_le32(b, data.len() as u32);
    assert(read_le32(s, 168) == read_le32(a, 168));
    assert(read_le32(s, 180) == read_le32(c, 180));
    assert(read_le32(s, 12) == read_le32(start, 12));
    assert(read_le32(s, 16) == read_le32(start, 16));
    assert(read_le16(s, 36) == read_le16(start, 36));
    assert(s.subrange(0, 4) =~= start.subrange(0, 4));
    assert(s.subrange(184, 184int + tlv.len()) =~= tlv);
    assert(s.subrange(184int + tlv.len(), 184int + tlv.len() + data.len()) =~= data);
}

/// The fields of the first 168 bytes.
proof fn lemma_csi_start(
    width: u32,
    height: u32,
    scale_factor: u32,
    format: Seq<u8>,
    layout: u16,
    name: Seq<char>,
    flags: u32,
    colorspace: u32,
)
    requires
        format.len() == 4,
    ensures
        ({
            let s = csi_start(
                width,
                height,
                scale_factor,
                format,
                layout,
                name,
                flags,
                colorspace,
            );
            &&& s.len() == 168
            &&& s.subrange(0, 4) == be32(CSI_MAGIC)
            &&& read_le32(s, 12) == width
            &&& read_le32(s, 16) == height
            &&& read_le16(s, 36) == layout
        }),
{
    let s = csi_start(width, height, scale_factor, format, layout, name, flags, colorspace);
    let a = be32(CSI_MAGIC) + le32(1) + le32(flags);
    let b = a + le32(width);
    let c = b + le32(height);
    let d = c + le32(scale_factor) + format + le32(colorspace & 0xf) + le32(0);
    let e = d + le16(layout);
    let name_part = name_field(name);
    assert(name_part.len() == 128);
    assert(d.len() == 36);
    lemma_appended_le32(a, width);
    lemma_appended_le32(b, height);
    lemma_appended_le16(d, layout);
    assert(s == e + le16(0) + name_part);
    assert(b =~= s.take(16));
    assert(c =~= s.take(20));
    assert(e =~= s.take(38));
    assert(b.subrange(0, 4) =~= be32(CSI_MAGIC));
    lemma_csi_fields(s, b, c, e);
}

/// The fields of a header are those of its beginnings.
proof fn lemma_csi_fields(s: Seq<u8>, b: Seq<u8>, c: Seq<u8>, e: Seq<u8>)
    requires
        s.len() == 168,
        b.len() == 16,
        c.len() == 20,
        e.len() == 38,
        b == s.take(16),
        c == s.take(20),
        e == s.take(38),
        b.subrange(0, 4) == be32(CSI_MAGIC),
    ensures
        read_le32(s, 12) == read_le32(b, 12),
        read_le32(s, 16) == read_le32(c, 16),
        read_le16(s, 36) == read_le16(e, 36),
        s.subrange(0, 4) == be32(CSI_MAGIC),
{
    assert(s.subrange(0, 4) =~= b.subrange(0, 4));
}

/// A tagged value: the tag, the length of the value, and the value.
pub open spec fn tlv(tag: u32, body: Seq<u8>) -> Seq<u8> {
    le32(tag) + le32(body.len() as u32) + body
}

/// Appends a tagged value.
fn put_tlv(out: &mut Vec<u8>, tag: u32, body: &[u8])
    ensures
        final(out)@ == old(out)@ + tlv(tag, body@),
{
    let ghost before = out@;
    put_le32(out, tag);
    put_le32(out, body.len() as u32);
    put_bytes(out, body);
    assert(out@ =~= before + tlv(tag, body@));
}

/// A tagged value.
fn make_tlv(tag: u32, body: &[u8]) -> (out: Vec<u8>)
    ensures
        out@ == tlv(tag, body@),
{
    let mut out: Vec<u8> = Vec::new();
    put_tlv(&mut out, tag, body);
    out
}

/// Four letters.
fn letters(tag: u32) -> (out: Vec<u8>)
    ensures
        out@ == be32(tag),
        out@.len() == 4,
{
    let mut out: Vec<u8> = Vec::new();
    put_be32(&mut out, tag);
    out
}

/// The one slice that an image consists of.
pub open spec fn slices_tlv(width: u32, height: u32) -> Seq<u8> {
    tlv(0x03e9, le32(1) + le32(0) + le32(0) + le32(width) + le32(height))
}

/// The one slice that an image consists of.
pub fn make_slices_tlv(width: u32, height: u32) -> (out: Vec<u8>)
    ensures
        out@ == slices_tlv(width, height),
{
    let mut body: Vec<u8> = Vec::new();
    put_le32(&mut body, 1);
    put_le32(&mut body, 0);
    put_le32(&mut body, 0);
    put_le32(&mut body, width);
    put_le32(&mut body, height);
    make_tlv(0x03e9, body.as_slice())
}

/// The metrics of an image: no insets, and its size.
pub open spec fn metrics_tlv(width: u32, height: u32) -> Seq<u8> {
    tlv(
        0x03eb,
        le32(1) + le32(0) + le32(0) + le32(0) + le32(0) + le32(width) + le32(height),
    )
}

/// The metrics of an image.
pub fn make_metrics_tlv(width: u32, height: u32) -> (out: Vec<u8>)
    ensures
        out@ == metrics_tlv(width, height),
{
    let mut body: Vec<u8> = Vec::new();
    put_le32(&mut body, 1);
    put_le32(&mut body, 0);
    put_le32(&mut body, 0);
    put_le32(&mut body, 0);
    put_le32(&mut body, 0);
    put_le32(&mut body, width);
    put_le32(&mut body, height);
    make_tlv(0x03eb, body.as_slice())
}

/// Normal blending at an opacity, given as the bits of a floating-point number.
pub open spec fn opacity_tlv(opacity: u32) -> Seq<u8> {
    tlv(0x03ec, le32(0) + le32(opacity))
}

fn make_opacity_tlv(opacity: u32) -> (out: Vec<u8>)
    ensures
        out@ == opacity_tlv(opacity),
{
    let mut body: Vec<u8> = Vec::new();
    put_le32(&mut body, 0);
    put_le32(&mut body, opacity);
    make_tlv(0x03ec, body.as_slice())
}

/// Normal blending at full opacity, as images have it.
pub fn make_blend_opacity_tlv() -> (out: Vec<u8>)
    ensures
        out@ == opacity_tlv(ONE),
{
    make_opacity_tlv(ONE)
}

/// Normal blending at zero opacity, as colors have it.
pub fn make_color_blend_opacity_tlv() -> (out: Vec<u8>)
    ensures
        out@ == opacity_tlv(0),
{
    make_opacity_tlv(0)
}

/// The orientation of an image.
pub open spec fn orientation_tlv(orientation: u32) -> Seq<u8> {
    tlv(0x03ee, le32(orientation))
}

/// The orientation of an image.
pub fn make_exif_orientation_tlv(orientation: u32) -> (out: Vec<u8>)
    ensures
        out@ == orientation_tlv(orientation),
{
    let mut body: Vec<u8> = Vec::new();
    put_le32(&mut body, orientation);
    make_tlv(0x03ee, body.as_slice())
}

/// The length of a row of pixels of four bytes, padded to a multiple of 32.
pub open spec fn aligned_row(width: u32) -> int {
    (width * 4 + 31) / 32 * 32
}

/// The length of a row of pixels of four bytes, padded to a multiple of 32,
/// whatever the format.
pub fn aligned_bytes_per_row(width: u32, _pixel_format: &[u8]) -> (n: u32)
    requires
        width * 4 + 31 <= u32::MAX,
    ensures
        n == aligned_row(width),
{
    (width * 4 + 31) / 32 * 32
}

/// The length of a row of pixels.
pub open spec fn row_length_tlv(length: u32) -> Seq<u8> {
    tlv(0x03ef, le32(length))
}

pub(crate) fn make_row_length_tlv(length: u32) -> (out: Vec<u8>)
    ensures
        out@ == row_length_tlv(length),
{
    let mut body: Vec<u8> = Vec::new();
    put_le32(&mut body, length);
    make_tlv(0x03ef, body.as_slice())
}

/// The length of a row of pixels of four bytes, padded or not.
pub fn make_bytes_per_row_tlv(width: u32, pixel_format: &[u8], aligned: bool) -> (out: Vec<u8>)
    requires
        width * 4 + 31 <= u32::MAX,
    ensures
        out@ == row_length_tlv(
            if aligned {
                aligned_row(width) as u32
            } else {
                (width * 4) as u32
            },
        ),
{
    let length: u32 = if aligned {
        aligned_bytes_per_row(width, pixel_format)
    } else {
        width * 4
    };
    make_row_length_tlv(length)
}

/// A column of a key and its value, if it is not zero.
pub open spec fn optional_column(attr: u16, value: u16) -> Seq<u8> {
    if value != 0 {
        le16(attr) + le16(value)
    } else {
        Seq::empty()
    }
}

fn put_optional_column(out: &mut Vec<u8>, attr: u16, value: u16)
    ensures
        final(out)@ == old(out)@ + optional_column(attr, value),
{
    let ghost before = out@;
    if value != 0 {
        put_le16(out, attr);
        put_le16(out, value);
    }
    assert(out@ =~= before + optional_column(attr, value));
}

/// The key of an atlas, as a packed image names it.
pub open spec fn atlas_key(scale: u16, identifier: u16, dim1: u16, idiom: u16) -> Seq<u8> {
    le16(0) + le16(ATTR_ELEMENT) + le16(ELEMENT_PACKED) + le16(ATTR_PART) + le16(PART_REGULAR)
        + optional_column(ATTR_DIM1, dim1) + optional_column(ATTR_IDENTIFIER, identifier) + le16(
        ATTR_SCALE,
    ) + le16(scale) + optional_column(ATTR_IDIOM, idiom) + le16(0)
}

/// The link from a packed image to its place in an atlas.
pub open spec fn link_tlv(
    x: u32,
    y: u32,
    width: u32,
    height: u32,
    scale: u16,
    identifier: u16,
    dim1: u16,
    idiom: u16,
) -> Seq<u8> {
    let key = atlas_key(scale, identifier, dim1, idiom);
    tlv(
        0x03f2,
        be32(LINK_MAGIC) + le32(0) + le32(x) + le32(y) + le32(width) + le32(height) + le16(12)
            + le16(key.len() as u16) + key,
    )
}

/// The link from a packed image to its place in an atlas.  Atlases of platforms
/// with idioms are told apart by idiom, so the link names it.
pub fn make_inlk_tlv(
    x: u32,
    y: u32,
    width: u32,
    height: u32,
    scale: u16,
    atlas_identifier: u16,
    atlas_dim1: u16,
    idiom: u16,
) -> (out: Vec<u8>)
    ensures
        out@ == link_tlv(x, y, width, height, scale, atlas_identifier, atlas_dim1, idiom),
{
    let mut key: Vec<u8> = Vec::new();
    put_le16(&mut key, 0);
    put_le16(&mut key, ATTR_ELEMENT);
    put_le16(&mut key, ELEMENT_PACKED);
    put_le16(&mut key, ATTR_PART);
    put_le16(&mut key, PART_REGULAR);
    put_optional_column(&mut key, ATTR_DIM1, atlas_dim1);
    put_optional_column(&mut key, ATTR_IDENTIFIER, atlas_identifier);
    put_le16(&mut key, ATTR_SCALE);
    put_le16(&mut key, scale);
    put_optional_column(&mut key, ATTR_IDIOM, idiom);
    put_le16(&mut key, 0);
    let mut link: Vec<u8> = Vec::new();
    put_be32(&mut link, LINK_MAGIC);
    put_le32(&mut link, 0);
    put_le32(&mut link, x);
    put_le32(&mut link, y);
    put_le32(&mut link, width);
    put_le32(&mut link, height);
    put_le16(&mut link, 12);
    put_le16(&mut link, key.len() as u16);
    put_bytes(&mut link, key.as_slice());
    make_tlv(0x03f2, link.as_slice())
}

/// The tagged values of a packed image.
pub open spec fn packed_image_tlv(
    width: u32,
    height: u32,
    scale: u16,
    x: u32,
    y: u32,
    identifier: u16,
    dim1: u16,
    idiom: u16,
) -> Seq<u8> {
    slices_tlv(width, height) + metrics_tlv(width, height) + link_tlv(
        x,
        y,
        width,
        height,
        scale,
        identifier,
        dim1,
        idiom,
    ) + opacity_tlv(ONE) + orientation_tlv(1)
}

/// The scale of a rendition in percent.
pub open spec fn percent(scale: u16) -> u32 {
    (scale * 100) as u32
}

/// A packed image: no data of its own, but a link into an atlas.
pub fn build_packed_image_csi(
    name: &str,
    width: u32,
    height: u32,
    scale: u16,
    pixel_format: &[u8],
    x: u32,
    y: u32,
    atlas_identifier: u16,
    atlas_dim1: u16,
    rendition_flags: u32,
    idiom: u16,
) -> (out: Vec<u8>)
    requires
        pixel_format@.len() == 4,
    ensures
        out@ == csi(
            width,
            height,
            percent(scale),
            pixel_format@,
            LAYOUT_PACKED_IMAGE,
            name@,
            packed_image_tlv(width, height, scale, x, y, atlas_identifier, atlas_dim1, idiom),
            Seq::empty(),
            rendition_flags,
            colorspace_of_format(pixel_format@),
            1,
        ),
{
    let mut tlv: Vec<u8> = make_slices_tlv(width, height);
    put_bytes(&mut tlv, make_metrics_tlv(width, height).as_slice());
    put_bytes(
        &mut tlv,
        make_inlk_tlv(
            x,
            y,
            width,
            height,
            scale,
            atlas_identifier,
            atlas_dim1,
            idiom,
        ).as_slice(),
    );
    put_bytes(&mut tlv, make_blend_opacity_tlv().as_slice());
    put_bytes(&mut tlv, make_exif_orientation_tlv(1).as_slice());
    let none: Vec<u8> = Vec::new();
    build_csi(
        width,
        height,
        scale as u32 * 100,
        pixel_format,
        LAYOUT_PACKED_IMAGE,
        name,
        tlv.as_slice(),
        none.as_slice(),
        rendition_flags,
        colorspace_for_pixel_format(pixel_format),
        1,
    )
}

/// The length of a row of an atlas, as its tagged values give it.
pub open spec fn asset_row_length(width: u32, height: u32, pixels: nat, method: nat) -> u32 {
    if method == METHOD_DEEPMAP {
        aligned_row(width) as u32
    } else if height > 0 {
        (pixels / height as nat) as u32
    } else {
        (width * 4) as u32
    }
}

/// An atlas.
pub open spec fn packed_asset(
    name: Seq<char>,
    width: u32,
    height: u32,
    scale: u16,
    format: Seq<u8>,
    pixels: Seq<u8>,
    data: Seq<u8>,
) -> Seq<u8> {
    csi(
        width,
        height,
        percent(scale),
        format,
        LAYOUT_NAME_LIST,
        name,
        slices_tlv(0, 0) + opacity_tlv(ONE) + orientation_tlv(1) + row_length_tlv(
            asset_row_length(width, height, pixels.len(), read_le32(data, 8)),
        ),
        data,
        0,
        colorspace_of_format(format),
        1,
    )
}

/// An atlas whose pixels were compressed to `data`.
pub fn build_compressed_asset_csi(
    name: &str,
    width: u32,
    height: u32,
    scale: u16,
    pixel_format: &[u8],
    pixel_data: &[u8],
    data: &[u8],
) -> (out: Vec<u8>)
    requires
        pixel_format@.len() == 4,
        width * 4 + 31 <= u32::MAX,
        data@.len() >= 12,
    ensures
        out@ == packed_asset(name@, width, height, scale, pixel_format@, pixel_data@, data@),
{
    let method: u32 = get_le32(data, 8);
    let length: u32 = if method == METHOD_DEEPMAP {
        aligned_bytes_per_row(width, pixel_format)
    } else if height > 0 {
        (pixel_data.len() / height as usize) as u32
    } else {
        width * 4
    };
    let mut tlv: Vec<u8> = make_slices_tlv(0, 0);
    put_bytes(&mut tlv, make_blend_opacity_tlv().as_slice());
    put_bytes(&mut tlv, make_exif_orientation_tlv(1).as_slice());
    put_bytes(&mut tlv, make_row_length_tlv(length).as_slice());
    build_csi(
        width,
        height,
        scale as u32 * 100,
        pixel_format,
        LAYOUT_NAME_LIST,
        name,
        tlv.as_slice(),
        data,
        0,
        colorspace_for_pixel_format(pixel_format),
        1,
    )
}

/// An atlas.  `deepmap` is what the deepmap encoder of the platform has made of
/// its pixels, where there is one; `force_lzfse` leaves it unused.
pub fn build_packed_asset_csi(
    name: &str,
    width: u32,
    height: u32,
    scale: u16,
    pixel_format: &[u8],
    pixel_data: &[u8],
    min_deploy: &str,
    platform: &str,
    force_lzfse: bool,
    deepmap: Option<&[u8]>,
) -> (out: Vec<u8>)
    requires
        pixel_format@.len() == 4,
        width * 4 + 31 <= u32::MAX,
        pixel_data@.len() + LZFSE_SLACK <= usize::MAX,
        pixel_data@.len() <= u32::MAX,
        !force_lzfse && deepmap is Some && allows_deepmap(pixel_data@, min_deploy@, platform@)
            ==> deepmap_fits(deepmap->0@, false),
        uses_runs(
            pixel_data@,
            height,
            min_deploy@,
            platform@,
            if force_lzfse {
                None
            } else {
                bytes_view(deepmap)
            },
        ) ==> rle_applies(pixel_data@, pixel_format@, width, height),
    ensures
        out@ == packed_asset(
            name@,
            width,
            height,
            scale,
            pixel_format@,
            pixel_data@,
            compressed(
                pixel_data@,
                pixel_format@,
                width,
                height,
                min_deploy@,
                platform@,
                if force_lzfse {
                    None
                } else {
                    bytes_view(deepmap)
                },
                false,
                false,
                kcbc_chunks(pixel_data@, height),
                gzip_stream(pixel_data@),
            ),
        ),
{
    let used: Option<&[u8]> = if force_lzfse {
        None
    } else {
        deepmap
    };
    let data = compress_data(
        pixel_data,
        pixel_format,
        width,
        height,
        min_deploy,
        platform,
        used,
        false,
        false,
    );
    proof {
        compressed_names_method(
            pixel_data@,
            pixel_format@,
            width,
            height,
            min_deploy@,
            platform@,
            bytes_view(used),
            false,
            false,
            kcbc_chunks(pixel_data@, height),
            gzip_stream(pixel_data@),
        );
    }
    build_compressed_asset_csi(
        name,
        width,
        height,
        scale,
        pixel_format,
        pixel_data,
        data.as_slice(),
    )
}

/// A layer of an icon, by the part and the identifier of its facet.
#[derive(Debug, Clone, Copy)]
pub struct LayerRef {
    pub part: u16,
    pub identifier: u16,
}

/// The key of a layer.
pub open spec fn layer_key(layer: LayerRef) -> Seq<u8> {
    le16(ATTR_ELEMENT) + le16(ELEMENT_UNIVERSAL) + le16(ATTR_PART) + le16(layer.part) + le16(
        ATTR_IDENTIFIER,
    ) + le16(layer.identifier)
}

fn write_layer_key_fragment(buf: &mut Vec<u8>, r: &LayerRef)
    ensures
        final(buf)@ == old(buf)@ + layer_key(*r),
{
    let ghost before = buf@;
    put_le16(buf, ATTR_ELEMENT);
    put_le16(buf, ELEMENT_UNIVERSAL);
    put_le16(buf, ATTR_PART);
    put_le16(buf, r.part);
    put_le16(buf, ATTR_IDENTIFIER);
    put_le16(buf, r.identifier);
    assert(buf@ =~= before + layer_key(*r));
}

/// Where a layer is drawn: at the origin, in a size (zero for its own), at full
/// opacity; and its key.
pub open spec fn layer_frame(layer: LayerRef, dim: u32) -> Seq<u8> {
    zeros(16) + le32(dim) + le32(dim) + le32(0) + le32(ONE) + le32(16) + layer_key(layer)
}

/// The frames of layers.
pub open spec fn layer_frames(layers: Seq<LayerRef>, dim: u32) -> Seq<u8>
    decreases layers.len(),
{
    if layers.len() == 0 {
        Seq::empty()
    } else {
        layer_frames(layers.drop_last(), dim) + layer_frame(layers.last(), dim)
    }
}

/// How layers are blended: in a stack all but the first have mode 2.
pub open spec fn layer_modes(n: nat, stacked: bool) -> Seq<u8>
    decreases n,
{
    if n == 0 {
        Seq::empty()
    } else {
        layer_modes((n - 1) as nat, stacked) + (le32(
            if stacked && n > 1 {
                2u32
            } else {
                0u32
            },
        ) + le32(0) + le32(1) + zeros(1))
    }
}

/// The shadows of layers: in a stack groups have half strength.
pub open spec fn layer_shadows(layers: Seq<LayerRef>, stacked: bool) -> Seq<u8>
    decreases layers.len(),
{
    if layers.len() == 0 {
        Seq::empty()
    } else {
        layer_shadows(layers.drop_last(), stacked) + (zeros(16) + le32(
            if stacked && layers.last().part == PART_ICON_GROUP {
                HALF
            } else {
                0u32
            },
        ))
    }
}

/// The tagged values that list layers.
pub open spec fn layers_tlv(layers: Seq<LayerRef>, dim: u32, stacked: bool) -> Seq<u8> {
    tlv(0x03f4, le32(layers.len() as u32) + layer_frames(layers, dim) + zeros(4)) + tlv(
        0x03fc,
        le32(layers.len() as u32) + le32(0) + layer_modes(layers.len(), stacked),
    ) + tlv(
        0x03fd,
        le32(layers.len() as u32) + layer_shadows(layers, stacked) + zeros(4),
    )
}

fn make_layers_tlv(layers: &[LayerRef], dim: u32, stacked: bool) -> (out: Vec<u8>)
    ensures
        out@ == layers_tlv(layers@, dim, stacked),
{
    let n: usize = layers.len();
    let mut frames: Vec<u8> = Vec::new();
    let mut modes: Vec<u8> = Vec::new();
    let mut shadows: Vec<u8> = Vec::new();
    put_le32(&mut frames, n as u32);
    put_le32(&mut modes, n as u32);
    put_le32(&mut modes, 0);
    put_le32(&mut shadows, n as u32);
    let ghost count = le32(n as u32);
    let ghost mode_head = le32(n as u32) + le32(0);
    let mut i: usize = 0;
    assert(frames@ =~= count + layer_frames(layers@.take(0), dim));
    assert(modes@ =~= mode_head + layer_modes(0, stacked));
    assert(shadows@ =~= count + layer_shadows(layers@.take(0), stacked));
    while i < n
        invariant
            i <= n == layers@.len(),
            frames@ == count + layer_frames(layers@.take(i as int), dim),
            modes@ == mode_head + layer_modes(i as nat, stacked),
            shadows@ == count + layer_shadows(layers@.take(i as int), stacked),
        decreases n - i,
    {
        let layer = &layers[i];
        let ghost frames_before = frames@;
        put_zeros(&mut frames, 16);
        put_le32(&mut frames, dim);
        put_le32(&mut frames, dim);
        put_le32(&mut frames, 0);
        put_le32(&mut frames, ONE);
        put_le32(&mut frames, 16);
        write_layer_key_fragment(&mut frames, layer);
        assert(frames@ =~= frames_before + layer_frame(*layer, dim));
        let mode: u32 = if stacked && i > 0 {
            2
        } else {
            0
        };
        let ghost modes_before = modes@;
        put_le32(&mut modes, mode);
        put_le32(&mut modes, 0);
        put_le32(&mut modes, 1);
        put_zeros(&mut modes, 1);
        assert(modes@ =~= modes_before + (le32(mode) + le32(0) + le32(1) + zeros(1)));
        let shadow: u32 = if stacked && layer.part == PART_ICON_GROUP {
            HALF
        } else {
            0
        };
        let ghost shadows_before = shadows@;
        put_zeros(&mut shadows, 16);
        put_le32(&mut shadows, shadow);
        assert(shadows@ =~= shadows_before + (zeros(16) + le32(shadow)));
        i = i + 1;
        proof {
            let now = layers@.take(i as int);
            assert(now.drop_last() =~= layers@.take(i - 1));
            assert(now.last() == *layer);
            assert(frames@ =~= count + layer_frames(now, dim));
            assert(modes@ =~= mode_head + layer_modes(i as nat, stacked));
            assert(shadows@ =~= count + layer_shadows(now, stacked));
        }
    }
    assert(layers@.take(i as int) =~= layers@);
    put_zeros(&mut frames, 4);
    put_zeros(&mut shadows, 4);
    let mut out: Vec<u8> = make_tlv(0x03f4, frames.as_slice());
    put_tlv(&mut out, 0x03fc, modes.as_slice());
    put_tlv(&mut out, 0x03fd, shadows.as_slice());
    out
}

/// The type identifier of layered images.
pub open spec fn layered_type() -> Seq<u8> {
    encode_utf8("public.layeredimage"@)
}

/// The type of a layered image.
pub open spec fn layered_type_tlv() -> Seq<u8> {
    tlv(
        0x03ed,
        le32((layered_type().len() + 1) as u32) + le32(0) + layered_type() + zeros(1),
    )
}

/// The type of a layered image.
fn make_layered_uti_tlv() -> (out: Vec<u8>)
    ensures
        out@ == layered_type_tlv(),
{
    proof {
        reveal_strlit("public.layeredimage");
        vstd::utf8::is_ascii_chars_encode_utf8("public.layeredimage"@);
    }
    let name = "public.layeredimage".as_bytes();
    let mut body: Vec<u8> = Vec::new();
    put_le32(&mut body, name.len() as u32 + 1);
    put_le32(&mut body, 0);
    put_bytes(&mut body, name);
    put_zeros(&mut body, 1);
    make_tlv(0x03ed, body.as_slice())
}

/// The data of a rendition that consists of tagged values alone.
pub open spec fn empty_data() -> Seq<u8> {
    be32(RAW_MAGIC) + zeros(8)
}

/// The data of a rendition that consists of tagged values alone.
fn make_dwar_trailer() -> (out: Vec<u8>)
    ensures
        out@ == empty_data(),
{
    let mut out: Vec<u8> = letters(RAW_MAGIC);
    put_zeros(&mut out, 8);
    out
}

/// An icon as a stack of layers, for one appearance.
pub fn build_iconstack_csi(name: &str, dim: u32, layers: &[LayerRef]) -> (out: Vec<u8>)
    ensures
        out@ == csi(
            dim,
            dim,
            100,
            be32(PIXELFMT_DATA),
            LAYOUT_ICONSTACK,
            name@,
            layers_tlv(layers@, 0, true) + opacity_tlv(ONE) + layered_type_tlv() + orientation_tlv(
                1,
            ),
            empty_data(),
            0,
            0,
            1,
        ),
{
    let mut tlv: Vec<u8> = make_layers_tlv(layers, 0, true);
    put_bytes(&mut tlv, make_blend_opacity_tlv().as_slice());
    put_bytes(&mut tlv, make_layered_uti_tlv().as_slice());
    put_bytes(&mut tlv, make_exif_orientation_tlv(1).as_slice());
    build_csi(
        dim,
        dim,
        100,
        letters(PIXELFMT_DATA).as_slice(),
        LAYOUT_ICONSTACK,
        name,
        tlv.as_slice(),
        make_dwar_trailer().as_slice(),
        0,
        0,
        1,
    )
}

/// A group of layers of an icon, for one appearance; `child_dim` is the size of
/// the images in it.
pub fn build_icongroup_csi(name: &str, child_dim: u32, layers: &[LayerRef]) -> (out: Vec<u8>)
    ensures
        out@ == csi(
            0,
            0,
            100,
            be32(PIXELFMT_DATA),
            LAYOUT_ICON_GROUP,
            name@,
            layers_tlv(layers@, child_dim, false) + opacity_tlv(ONE) + orientation_tlv(1),
            empty_data(),
            0,
            0,
            1,
        ),
{
    let mut tlv: Vec<u8> = make_layers_tlv(layers, child_dim, false);
    put_bytes(&mut tlv, make_blend_opacity_tlv().as_slice());
    put_bytes(&mut tlv, make_exif_orientation_tlv(1).as_slice());
    build_csi(
        0,
        0,
        100,
        letters(PIXELFMT_DATA).as_slice(),
        LAYOUT_ICON_GROUP,
        name,
        tlv.as_slice(),
        make_dwar_trailer().as_slice(),
        0,
        0,
        1,
    )
}

/// No pixel format.
pub open spec fn no_format() -> Seq<u8> {
    be32(0)
}

/// The tagged values of colors and gradients.
pub open spec fn color_tlv() -> Seq<u8> {
    opacity_tlv(0) + orientation_tlv(1)
}

fn make_color_tlv() -> (out: Vec<u8>)
    ensures
        out@ == color_tlv(),
{
    let mut tlv: Vec<u8> = make_color_blend_opacity_tlv();
    put_bytes(&mut tlv, make_exif_orientation_tlv(1).as_slice());
    tlv
}

/// A rendition of a color or a gradient.
pub open spec fn color_csi(layout: u16, name: Seq<char>, data: Seq<u8>) -> Seq<u8> {
    csi(0, 0, 0, no_format(), layout, name, color_tlv(), data, 0, 0, 1)
}

pub(crate) fn build_color_like_csi(layout: u16, name: &str, data: &[u8]) -> (out: Vec<u8>)
    ensures
        out@ == color_csi(layout, name@, data@),
{
    build_csi(
        0,
        0,
        0,
        letters(0).as_slice(),
        layout,
        name,
        make_color_tlv().as_slice(),
        data,
        0,
        0,
        1,
    )
}

/// Floating-point numbers of 64 bits, each given by its bits.
pub open spec fn doubles(values: Seq<u64>) -> Seq<u8>
    decreases values.len(),
{
    if values.len() == 0 {
        Seq::empty()
    } else {
        doubles(values.drop_last()) + le64(values.last())
    }
}

/// A color: its space and its components, each given by the bits of a
/// floating-point number.
pub open spec fn color_data(colorspace: u32, components: Seq<u64>) -> Seq<u8> {
    be32(COLOR_MAGIC) + le32(1) + le32(colorspace) + le32(components.len() as u32) + doubles(
        components,
    )
}

fn make_color_data(colorspace: u32, components: &[u64]) -> (out: Vec<u8>)
    ensures
        out@ == color_data(colorspace, components@),
{
    let mut out: Vec<u8> = letters(COLOR_MAGIC);
    put_le32(&mut out, 1);
    put_le32(&mut out, colorspace);
    put_le32(&mut out, components.len() as u32);
    let ghost head = out@;
    let mut i: usize = 0;
    assert(out@ =~= head + doubles(components@.take(0)));
    while i < components.len()
        invariant
            i <= components@.len(),
            out@ == head + doubles(components@.take(i as int)),
        decreases components.len() - i,
    {
        put_le64(&mut out, components[i]);
        i = i + 1;
        assert(components@.take(i as int).drop_last() =~= components@.take(i - 1));
        assert(out@ =~= head + doubles(components@.take(i as int)));
    }
    assert(components@.take(i as int) =~= components@);
    out
}

/// A color of an `.icon` bundle: as many components as its space has.
pub fn build_icon_color_csi(name: &str, colorspace_id: u32, components: &[u64]) -> (out: Vec<u8>)
    ensures
        out@ == color_csi(LAYOUT_COLOR, name@, color_data(colorspace_id, components@)),
{
    let data = make_color_data(colorspace_id, components);
    build_color_like_csi(LAYOUT_COLOR, name, data.as_slice())
}

/// A color of a catalog: red, green, blue and alpha.
pub fn build_color_csi(
    name: &str,
    red: u64,
    green: u64,
    blue: u64,
    alpha: u64,
    colorspace_id: u32,
) -> (out: Vec<u8>)
    ensures
        out@ == color_csi(
            LAYOUT_COLOR,
            name@,
            color_data(colorspace_id & 0xff, seq![red, green, blue, alpha]),
        ),
{
    let components: [u64; 4] = [red, green, blue, alpha];
    assert(components@ =~= seq![red, green, blue, alpha]);
    let data = make_color_data(colorspace_id & 0xff, &components);
    build_color_like_csi(LAYOUT_COLOR, name, data.as_slice())
}

/// A stop of a gradient: its position, given by the bits of a floating-point
/// number, and the name of its color.
#[derive(Debug)]
pub struct GradientStop {
    pub position: u32,
    pub color: String,
}

/// Positions and colors of stops.
pub open spec fn stop_views(stops: Seq<GradientStop>) -> Seq<(u32, Seq<char>)> {
    Seq::new(stops.len(), |i: int| (stops[i].position, stops[i].color@))
}

/// A stop of a gradient as it is stored.
pub open spec fn stop_data(stop: (u32, Seq<char>)) -> Seq<u8> {
    let name = encode_utf8(stop.1);
    le32(stop.0) + le32((name.len() + 1) as u32) + name + zeros(1)
}

/// The stops of a gradient as they are stored.
pub open spec fn stops_data(stops: Seq<(u32, Seq<char>)>) -> Seq<u8>
    decreases stops.len(),
{
    if stops.len() == 0 {
        Seq::empty()
    } else {
        stops_data(stops.drop_last()) + stop_data(stops.last())
    }
}

/// A gradient: kind, geometry and stops.
pub open spec fn gradient_data(
    geometry: Seq<u32>,
    stops: Seq<(u32, Seq<char>)>,
    kind: u32,
) -> Seq<u8> {
    be32(GRADIENT_MAGIC) + le32(stops.len() as u32) + le32(kind) + le32(0) + le32(geometry[0])
        + le32(geometry[1]) + le32(geometry[2]) + le32(geometry[3]) + stops_data(stops)
}

/// A gradient of an `.icon` bundle, from one point to another.  Kind 0 is made
/// of one color of the user, kind 1 runs between two.
pub fn build_icon_gradient_csi(
    name: &str,
    geom: [u32; 4],
    stops: &[GradientStop],
    kind: u32,
) -> (out: Vec<u8>)
    ensures
        out@ == color_csi(LAYOUT_GRADIENT, name@, gradient_data(geom@, stop_views(stops@), kind)),
{
    let mut data: Vec<u8> = letters(GRADIENT_MAGIC);
    put_le32(&mut data, stops.len() as u32);
    put_le32(&mut data, kind);
    put_le32(&mut data, 0);
    put_le32(&mut data, geom[0]);
    put_le32(&mut data, geom[1]);
    put_le32(&mut data, geom[2]);
    put_le32(&mut data, geom[3]);
    let ghost head = data@;
    let ghost views = stop_views(stops@);
    let mut i: usize = 0;
    assert(data@ =~= head + stops_data(views.take(0)));
    while i < stops.len()
        invariant
            i <= stops@.len(),
            views == stop_views(stops@),
            data@ == head + stops_data(views.take(i as int)),
        decreases stops.len() - i,
    {
        let ghost before = data@;
        let stop = &stops[i];
        let color = stop.color.as_str().as_bytes();
        put_le32(&mut data, stop.position);
        put_le32(&mut data, (color.len() as u128 + 1) as u32);
        put_bytes(&mut data, color);
        put_zeros(&mut data, 1);
        assert(data@ =~= before + stop_data(views[i as int]));
        i = i + 1;
        assert(views.take(i as int).drop_last() =~= views.take(i - 1));
        assert(data@ =~= head + stops_data(views.take(i as int)));
    }
    assert(views.take(i as int) =~= views);
    build_color_like_csi(LAYOUT_GRADIENT, name, data.as_slice())
}

/// The tagged values of plain data.
pub open spec fn data_tlv() -> Seq<u8> {
    opacity_tlv(ONE) + orientation_tlv(1)
}

fn make_data_tlv() -> (out: Vec<u8>)
    ensures
        out@ == data_tlv(),
{
    let mut tlv: Vec<u8> = make_blend_opacity_tlv();
    put_bytes(&mut tlv, make_exif_orientation_tlv(1).as_slice());
    tlv
}

/// Names, each with its length before it.
pub open spec fn name_list(names: Seq<Seq<char>>) -> Seq<u8>
    decreases names.len(),
{
    if names.len() == 0 {
        Seq::empty()
    } else {
        name_list(names.drop_last()) + (le32(encode_utf8(names.last()).len() as u32) + encode_utf8(
            names.last(),
        ))
    }
}

/// The tagged values of a sprite atlas: the names of its sprites, if it has any.
pub open spec fn sprites_tlv(names: Seq<Seq<char>>) -> Seq<u8> {
    if names.len() == 0 {
        data_tlv()
    } else {
        data_tlv() + tlv(0x03f5, le32(names.len() as u32) + le32(0) + name_list(names))
    }
}

/// A sprite atlas: the names of its sprites.
pub fn build_sprite_atlas_metadata_csi(sprite_names: &[String]) -> (out: Vec<u8>)
    ensures
        out@ == csi(
            0,
            0,
            100,
            no_format(),
            LAYOUT_METADATA,
            "CoreStructuredImage"@,
            sprites_tlv(texts(sprite_names@)),
            Seq::empty(),
            0,
            0,
            1,
        ),
{
    let ghost names = texts(sprite_names@);
    let mut tlv: Vec<u8> = make_data_tlv();
    if sprite_names.len() > 0 {
        let mut list: Vec<u8> = Vec::new();
        put_le32(&mut list, sprite_names.len() as u32);
        put_le32(&mut list, 0);
        let ghost head = list@;
        let mut i: usize = 0;
        assert(list@ =~= head + name_list(names.take(0)));
        while i < sprite_names.len()
            invariant
                i <= sprite_names@.len(),
                names == texts(sprite_names@),
                list@ == head + name_list(names.take(i as int)),
            decreases sprite_names.len() - i,
        {
            let ghost before = list@;
            let name = sprite_names[i].as_str().as_bytes();
            put_le32(&mut list, name.len() as u32);
            put_bytes(&mut list, name);
            assert(list@ =~= before + (le32(name@.len() as u32) + name@));
            i = i + 1;
            assert(names.take(i as int).drop_last() =~= names.take(i - 1));
            assert(list@ =~= head + name_list(names.take(i as int)));
        }
        assert(names.take(i as int) =~= names);
        put_tlv(&mut tlv, 0x03f5, list.as_slice());
    }
    let none: Vec<u8> = Vec::new();
    build_csi(
        0,
        0,
        100,
        letters(0).as_slice(),
        LAYOUT_METADATA,
        "CoreStructuredImage",
        tlv.as_slice(),
        none.as_slice(),
        0,
        0,
        1,
    )
}

/// Stored data: whether they are compressed, how long they are, and the data.
pub open spec fn raw_data(is_compressed: u32, data: Seq<u8>) -> Seq<u8> {
    be32(RAW_MAGIC) + le32(is_compressed) + le32(data.len() as u32) + data
}

fn make_raw_data(is_compressed: u32, data: &[u8]) -> (out: Vec<u8>)
    ensures
        out@ == raw_data(is_compressed, data@),
{
    let mut out: Vec<u8> = letters(RAW_MAGIC);
    put_le32(&mut out, is_compressed);
    put_le32(&mut out, data.len() as u32);
    put_bytes(&mut out, data);
    out
}

/// A data set.
pub fn build_data_csi(data: &[u8]) -> (out: Vec<u8>)
    ensures
        out@ == csi(
            0,
            0,
            0,
            be32(PIXELFMT_DATA),
            LAYOUT_RAW_DATA,
            "CoreStructuredImage"@,
            data_tlv(),
            raw_data(0, data@),
            0,
            1,
            1,
        ),
{
    build_csi(
        0,
        0,
        0,
        letters(PIXELFMT_DATA).as_slice(),
        LAYOUT_RAW_DATA,
        "CoreStructuredImage",
        make_data_tlv().as_slice(),
        make_raw_data(0, data).as_slice(),
        0,
        1,
        1,
    )
}

/// A PDF page.
pub fn build_pdf_csi(filename: &str, pdf_data: &[u8]) -> (out: Vec<u8>)
    ensures
        out@ == csi(
            0,
            0,
            0,
            be32(PIXELFMT_PDF),
            LAYOUT_PDF,
            filename@,
            data_tlv(),
            raw_data(0, pdf_data@),
            4,
            0,
            1,
        ),
{
    build_csi(
        0,
        0,
        0,
        letters(PIXELFMT_PDF).as_slice(),
        LAYOUT_PDF,
        filename,
        make_data_tlv().as_slice(),
        make_raw_data(0, pdf_data).as_slice(),
        4,
        0,
        1,
    )
}

/// An SVG drawing, given what `lzfse` made of it: compressed if that saves space.
pub open spec fn svg_data(svg: Seq<u8>, stream: Option<Seq<u8>>) -> Seq<u8> {
    if stream is Some && stream->0.len() < svg.len() {
        raw_data(1, stream->0)
    } else {
        raw_data(0, svg)
    }
}

/// Stores an SVG drawing, given what `lzfse` made of it.
pub fn make_svg_data(svg: &[u8], stream: Option<&[u8]>) -> (out: Vec<u8>)
    ensures
        out@ == svg_data(svg@, bytes_view(stream)),
{
    match stream {
        Some(bytes) => {
            if bytes.len() < svg.len() {
                return make_raw_data(1, bytes);
            }
        },
        None => {},
    }
    make_raw_data(0, svg)
}

/// An SVG drawing.
pub fn build_svg_csi(filename: &str, svg: &[u8]) -> (out: Vec<u8>)
    requires
        svg@.len() + LZFSE_SLACK <= usize::MAX,
    ensures
        out@ == csi(
            0,
            0,
            0,
            be32(PIXELFMT_SVG),
            LAYOUT_PDF,
            filename@,
            data_tlv(),
            svg_data(svg@, lzfse_stream(svg@, svg@.len() + LZFSE_SLACK as nat)),
            4,
            0,
            1,
        ),
{
    let data = match lzfse_compress(svg) {
        Some(stream) => make_svg_data(svg, Some(stream.as_slice())),
        None => make_svg_data(svg, None),
    };
    build_csi(
        0,
        0,
        0,
        letters(PIXELFMT_SVG).as_slice(),
        LAYOUT_PDF,
        filename,
        make_data_tlv().as_slice(),
        data.as_slice(),
        4,
        0,
        1,
    )
}

/// The first byte from `i` on that is no fill byte; the length of `data` if there
/// is none.
pub open spec fn skip_fill(data: Seq<u8>, i: int) -> int
    decreases data.len() - i,
{
    if i < data.len() && data[i] == 0xff {
        skip_fill(data, i + 1)
    } else {
        i
    }
}

/// Markers that stand alone, without a length behind them.
pub open spec fn stands_alone(marker: u8) -> bool {
    0xd0 <= marker <= 0xd9 || marker == 1
}

/// Markers of a frame header.
pub open spec fn is_frame(marker: u8) -> bool {
    0xc0 <= marker <= 0xcf && marker != 0xc4 && marker != 0xc8 && marker != 0xcc
}

/// Fill bytes end within the data.
pub proof fn lemma_skip_fill(data: Seq<u8>, i: int)
    ensures
        i <= skip_fill(data, i),
        i <= data.len() ==> skip_fill(data, i) <= data.len(),
    decreases data.len() - i,
{
    if i < data.len() && data[i] == 0xff {
        lemma_skip_fill(data, i + 1);
    }
}

/// Width and height in the first frame header among the segments from `i` on;
/// zero if the segments end, or are broken, before there is one.
pub open spec fn frame_size(data: Seq<u8>, i: int) -> (nat, nat)
    decreases data.len() - i,
{
    if i + 3 >= data.len() || data[i] != 0xff {
        (0, 0)
    } else {
        let at = skip_fill(data, i);
        let next = at + 1;
        proof {
            lemma_skip_fill(data, i);
        }
        if at >= data.len() {
            (0, 0)
        } else if stands_alone(data[at]) {
            frame_size(data, next)
        } else if next + 2 > data.len() {
            (0, 0)
        } else if is_frame(data[at]) {
            if next + 7 > data.len() {
                (0, 0)
            } else {
                (read_be16(data, next + 5), read_be16(data, next + 3))
            }
        } else if next + read_be16(data, next) > data.len() {
            (0, 0)
        } else {
            frame_size(data, next + read_be16(data, next))
        }
    }
}

/// Width and height of a JPEG image; zero for data that do not begin like one.
pub open spec fn jpeg_size(data: Seq<u8>) -> (nat, nat) {
    if data.len() < 4 || data[0] != 0xff || data[1] != 0xd8 {
        (0, 0)
    } else {
        frame_size(data, 2)
    }
}

/// Width and height of a JPEG image, from its frame header; zero if there is none.
pub fn jpeg_dimensions(data: &[u8]) -> (size: (u32, u32))
    ensures
        (size.0 as nat, size.1 as nat) == jpeg_size(data@),
{
    let len: usize = data.len();
    if len < 4 || data[0] != 0xff || data[1] != 0xd8 {
        return (0, 0);
    }
    let mut i: usize = 2;
    while i < len - 3
        invariant
            len == data@.len(),
            len >= 4,
            2 <= i <= len,
            jpeg_size(data@) == frame_size(data@, i as int),
        decreases len - i,
    {
        if data[i] != 0xff {
            return (0, 0);
        }
        let ghost start = i as int;
        proof {
            lemma_skip_fill(data@, start);
        }
        while i < len && data[i] == 0xff
            invariant
                start <= i <= len == data@.len(),
                skip_fill(data@, start) == skip_fill(data@, i as int),
            decreases len - i,
        {
            i = i + 1;
        }
        if i >= len {
            return (0, 0);
        }
        let marker: u8 = data[i];
        i = i + 1;
        if 0xd0 <= marker && marker <= 0xd9 || marker == 1 {
            continue;
        }
        if len - i < 2 {
            return (0, 0);
        }
        let segment: u32 = get_be16(data, i);
        if 0xc0 <= marker && marker <= 0xcf && marker != 0xc4 && marker != 0xc8 && marker != 0xcc {
            if len - i < 7 {
                return (0, 0);
            }
            return (get_be16(data, i + 5), get_be16(data, i + 3));
        }
        if segment as usize > len - i {
            return (0, 0);
        }
        i = i + segment as usize;
    }
    (0, 0)
}

/// A JPEG image, kept as it is.
pub fn build_jpeg_csi(filename: &str, jpeg_data: &[u8]) -> (out: Vec<u8>)
    ensures
        ({
            let width = jpeg_size(jpeg_data@).0 as u32;
            let height = jpeg_size(jpeg_data@).1 as u32;
            out@ == csi(
                0,
                0,
                100,
                be32(PIXELFMT_JPEG),
                LAYOUT_ONE_PART_SCALE,
                filename@,
                slices_tlv(width, height) + metrics_tlv(width, height) + opacity_tlv(ONE)
                    + orientation_tlv(1),
                raw_data(0, jpeg_data@),
                16,
                0,
                1,
            )
        }),
{
    let (width, height) = jpeg_dimensions(jpeg_data);
    let mut tlv: Vec<u8> = make_slices_tlv(width, height);
    put_bytes(&mut tlv, make_metrics_tlv(width, height).as_slice());
    put_bytes(&mut tlv, make_blend_opacity_tlv().as_slice());
    put_bytes(&mut tlv, make_exif_orientation_tlv(1).as_slice());
    build_csi(
        0,
        0,
        100,
        letters(PIXELFMT_JPEG).as_slice(),
        LAYOUT_ONE_PART_SCALE,
        filename,
        tlv.as_slice(),
        make_raw_data(0, jpeg_data).as_slice(),
        16,
        0,
        1,
    )
}

} // verus!
