//! The tables of a `.car` archive: header, metadata, key format, keys and facets.
//! Their numbers are little-endian, unlike those of the container.

use vstd::prelude::*;
use vstd::utf8::encode_utf8;

use crate::bytes::{
    be32, fit, fitted, le16, le32, lemma_appended_le32, lemma_empty_prefix, put_be32, put_bytes,
    put_le16, put_le32, put_zeros, read_le16, read_le32, write_at, written, zeros,
};
use crate::formats::{ga16_name, ga8_name, is_ga16, is_ga8};
use crate::platform::{deployment_platform_name, platform_family};
use crate::text::{decimal, put_decimal, put_str};

verus! {

broadcast use lemma_empty_prefix;

/// The size index of the only source image of an iOS icon that has one size.
pub const IOS_ICON_DIM2_SINGLE_SIZE_1024: u16 = 1;

pub const DIRECTION_DEFAULT: u16 = 0;

pub const DIRECTION_RTL: u16 = 4;

pub const DIRECTION_LTR: u16 = 5;

pub const ELEMENT_UNIVERSAL: u16 = 85;

pub const ELEMENT_PACKED: u16 = 9;

pub const PART_ICON: u16 = 220;

pub const PART_ICON_MULTISIZE: u16 = 218;

pub const PART_REGULAR: u16 = 181;

pub const PART_TVOS_FLATTENED: u16 = 208;

pub const PART_TVOS_RADIOSITY: u16 = 209;

pub const PART_COLOR: u16 = 217;

pub const PART_SPRITE_ATLAS: u16 = 127;

pub const PART_ICON_COMPOSER: u16 = 245;

pub const PART_ICON_GROUP: u16 = 246;

pub const PART_ICON_GRADIENT: u16 = 247;

pub const LAYOUT_PDF: u16 = 9;

pub const LAYOUT_ONE_PART_SCALE: u16 = 12;

pub const LAYOUT_RAW_DATA: u16 = 1000;

pub const LAYOUT_PACKED_IMAGE: u16 = 1003;

pub const LAYOUT_NAME_LIST: u16 = 1004;

pub const LAYOUT_METADATA: u16 = 1005;

pub const LAYOUT_COLOR: u16 = 1009;

pub const LAYOUT_MULTISIZE_IMAGE: u16 = 1010;

pub const LAYOUT_ICONSTACK: u16 = 1019;

pub const LAYOUT_ICON_GROUP: u16 = 1020;

pub const LAYOUT_GRADIENT: u16 = 1021;

/// The columns that a rendition key can have.
pub const ATTR_ELEMENT: u16 = 1;

pub const ATTR_PART: u16 = 2;

pub const ATTR_SIZE: u16 = 3;

pub const ATTR_DIRECTION: u16 = 4;

pub const ATTR_APPEARANCE: u16 = 7;

pub const ATTR_DIM1: u16 = 8;

pub const ATTR_DIM2: u16 = 9;

pub const ATTR_LAYER: u16 = 11;

pub const ATTR_SCALE: u16 = 12;

pub const ATTR_LOCALE: u16 = 13;

pub const ATTR_IDIOM: u16 = 15;

pub const ATTR_SUBTYPE: u16 = 16;

pub const ATTR_IDENTIFIER: u16 = 17;

pub const ATTR_VARIANT: u16 = 24;

/// The ASCII letters `RATC`.
pub const HEADER_MAGIC: u32 = 0x5241_5443;

/// The ASCII letters `META`.
pub const METADATA_MAGIC: u32 = 0x4d45_5441;

/// The ASCII letters `tmfk`.
pub const KEYFORMAT_MAGIC: u32 = 0x746d_666b;

/// The color space of a pixel format: 2 and 6 for the gray formats of eight and
/// sixteen bits, 1 for all others.
pub open spec fn colorspace_of_format(format: Seq<u8>) -> u32 {
    if format == ga8_name() {
        2
    } else if format == ga16_name() {
        6
    } else {
        1
    }
}

/// The color space of a pixel format.
pub fn colorspace_for_pixel_format(pixel_format: &[u8]) -> (id: u32)
    ensures
        id == colorspace_of_format(pixel_format@),
{
    if is_ga8(pixel_format) {
        2
    } else if is_ga16(pixel_format) {
        6
    } else {
        1
    }
}

/// What the key format depends on, in every kind of rendition.
pub trait KeyformatRendition {
    fn direction(&self) -> u32;

    fn dim1(&self) -> u32;

    fn dim2(&self) -> u32;

    fn variant(&self) -> u32 {
        0
    }
}

/// The columns of the keys of a macOS catalog: all those that every catalog has,
/// and of the others those in use.
pub open spec fn mac_columns(direction: bool, dim1: bool, dim2: bool, variant: bool) -> Seq<u16> {
    seq![ATTR_APPEARANCE, ATTR_LOCALE, ATTR_ELEMENT, ATTR_PART, ATTR_SIZE] + (if direction {
        seq![ATTR_DIRECTION]
    } else {
        seq![]
    }) + seq![ATTR_IDENTIFIER] + (if dim1 {
        seq![ATTR_DIM1]
    } else {
        seq![]
    }) + (if dim2 {
        seq![ATTR_DIM2]
    } else {
        seq![]
    }) + seq![ATTR_LAYER, ATTR_SCALE] + (if variant {
        seq![ATTR_VARIANT]
    } else {
        seq![]
    })
}

/// The columns of the keys of an iOS catalog, which carry idiom and subtype.
pub open spec fn ios_columns(dim1: bool, dim2: bool) -> Seq<u16> {
    seq![ATTR_APPEARANCE, ATTR_LOCALE, ATTR_SCALE, ATTR_IDIOM, ATTR_SUBTYPE] + (if dim2 {
        seq![ATTR_DIM2]
    } else {
        seq![]
    }) + (if dim1 {
        seq![ATTR_DIM1]
    } else {
        seq![]
    }) + seq![ATTR_IDENTIFIER, ATTR_ELEMENT, ATTR_PART]
}

/// The columns of the keys of a macOS catalog that uses the given ones.
pub fn mac_keyformat(direction: bool, dim1: bool, dim2: bool, variant: bool) -> (columns: Vec<u16>)
    ensures
        columns@ == mac_columns(direction, dim1, dim2, variant),
{
    let mut columns: Vec<u16> = Vec::new();
    columns.push(ATTR_APPEARANCE);
    columns.push(ATTR_LOCALE);
    columns.push(ATTR_ELEMENT);
    columns.push(ATTR_PART);
    columns.push(ATTR_SIZE);
    if direction {
        columns.push(ATTR_DIRECTION);
    }
    columns.push(ATTR_IDENTIFIER);
    if dim1 {
        columns.push(ATTR_DIM1);
    }
    if dim2 {
        columns.push(ATTR_DIM2);
    }
    columns.push(ATTR_LAYER);
    columns.push(ATTR_SCALE);
    if variant {
        columns.push(ATTR_VARIANT);
    }
    assert(columns@ =~= mac_columns(direction, dim1, dim2, variant));
    columns
}

/// The columns of the keys of an iOS catalog that uses the given ones.
pub fn ios_keyformat(dim1: bool, dim2: bool) -> (columns: Vec<u16>)
    ensures
        columns@ == ios_columns(dim1, dim2),
{
    let mut columns: Vec<u16> = Vec::new();
    columns.push(ATTR_APPEARANCE);
    columns.push(ATTR_LOCALE);
    columns.push(ATTR_SCALE);
    columns.push(ATTR_IDIOM);
    columns.push(ATTR_SUBTYPE);
    if dim2 {
        columns.push(ATTR_DIM2);
    }
    if dim1 {
        columns.push(ATTR_DIM1);
    }
    columns.push(ATTR_IDENTIFIER);
    columns.push(ATTR_ELEMENT);
    columns.push(ATTR_PART);
    assert(columns@ =~= ios_columns(dim1, dim2));
    columns
}

/// Whether `used` tells if some rendition answered other than zero when asked
/// for its direction.
pub open spec fn asked_direction<R: KeyformatRendition>(renditions: Seq<R>, used: bool) -> bool {
    if used {
        exists|i: int, v: u32|
            0 <= i < renditions.len() && v != 0 && #[trigger] call_ensures(
                R::direction,
                (&renditions[i],),
                v,
            )
    } else {
        forall|i: int|
            0 <= i < renditions.len() ==> #[trigger] call_ensures(
                R::direction,
                (&renditions[i],),
                0,
            )
    }
}

fn uses_direction<R: KeyformatRendition>(renditions: &[R]) -> (used: bool)
    ensures
        asked_direction(renditions@, used),
{
    let mut i: usize = 0;
    while i < renditions.len()
        invariant
            i <= renditions@.len(),
            forall|j: int|
                0 <= j < i ==> #[trigger] call_ensures(R::direction, (&renditions@[j],), 0),
        decreases renditions.len() - i,
    {
        let v: u32 = renditions[i].direction();
        if v != 0 {
            return true;
        }
        i = i + 1;
    }
    false
}

/// Whether `used` tells if some rendition answered other than zero when asked
/// for its first dimension.
pub open spec fn asked_dim1<R: KeyformatRendition>(renditions: Seq<R>, used: bool) -> bool {
    if used {
        exists|i: int, v: u32|
            0 <= i < renditions.len() && v != 0 && #[trigger] call_ensures(
                R::dim1,
                (&renditions[i],),
                v,
            )
    } else {
        forall|i: int|
            0 <= i < renditions.len() ==> #[trigger] call_ensures(
                R::dim1,
                (&renditions[i],),
                0,
            )
    }
}

fn uses_dim1<R: KeyformatRendition>(renditions: &[R]) -> (used: bool)
    ensures
        asked_dim1(renditions@, used),
{
    let mut i: usize = 0;
    while i < renditions.len()
        invariant
            i <= renditions@.len(),
            forall|j: int|
                0 <= j < i ==> #[trigger] call_ensures(R::dim1, (&renditions@[j],), 0),
        decreases renditions.len() - i,
    {
        let v: u32 = renditions[i].dim1();
        if v != 0 {
            return true;
        }
        i = i + 1;
    }
    false
}

/// Whether `used` tells if some rendition answered other than zero when asked
/// for its second dimension.
pub open spec fn asked_dim2<R: KeyformatRendition>(renditions: Seq<R>, used: bool) -> bool {
    if used {
        exists|i: int, v: u32|
            0 <= i < renditions.len() && v != 0 && #[trigger] call_ensures(
                R::dim2,
                (&renditions[i],),
                v,
            )
    } else {
        forall|i: int|
            0 <= i < renditions.len() ==> #[trigger] call_ensures(
                R::dim2,
                (&renditions[i],),
                0,
            )
    }
}

fn uses_dim2<R: KeyformatRendition>(renditions: &[R]) -> (used: bool)
    ensures
        asked_dim2(renditions@, used),
{
    let mut i: usize = 0;
    while i < renditions.len()
        invariant
            i <= renditions@.len(),
            forall|j: int|
                0 <= j < i ==> #[trigger] call_ensures(R::dim2, (&renditions@[j],), 0),
        decreases renditions.len() - i,
    {
        let v: u32 = renditions[i].dim2();
        if v != 0 {
            return true;
        }
        i = i + 1;
    }
    false
}

/// Whether `used` tells if some rendition answered other than zero when asked
/// for its variant.
pub open spec fn asked_variant<R: KeyformatRendition>(renditions: Seq<R>, used: bool) -> bool {
    if used {
        exists|i: int, v: u32|
            0 <= i < renditions.len() && v != 0 && #[trigger] call_ensures(
                R::variant,
                (&renditions[i],),
                v,
            )
    } else {
        forall|i: int|
            0 <= i < renditions.len() ==> #[trigger] call_ensures(
                R::variant,
                (&renditions[i],),
                0,
            )
    }
}

fn uses_variant<R: KeyformatRendition>(renditions: &[R]) -> (used: bool)
    ensures
        asked_variant(renditions@, used),
{
    let mut i: usize = 0;
    while i < renditions.len()
        invariant
            i <= renditions@.len(),
            forall|j: int|
                0 <= j < i ==> #[trigger] call_ensures(R::variant, (&renditions@[j],), 0),
        decreases renditions.len() - i,
    {
        let v: u32 = renditions[i].variant();
        if v != 0 {
            return true;
        }
        i = i + 1;
    }
    false
}

/// The columns of the keys of a macOS catalog: the optional ones are there only
/// if a rendition uses them, the first dimension also if `force_dim1` says so.
pub fn compute_keyformat<R: KeyformatRendition>(renditions: &[R], force_dim1: bool) -> (columns:
    Vec<u16>)
    ensures
        exists|direction: bool, dim1: bool, dim2: bool, variant: bool|
            {
                &&& #[trigger] asked_direction(renditions@, direction)
                &&& #[trigger] asked_dim1(renditions@, dim1)
                &&& #[trigger] asked_dim2(renditions@, dim2)
                &&& #[trigger] asked_variant(renditions@, variant)
                &&& columns@ == mac_columns(direction, force_dim1 || dim1, dim2, variant)
            },
{
    let direction = uses_direction(renditions);
    let dim1 = uses_dim1(renditions);
    let dim2 = uses_dim2(renditions);
    let variant = uses_variant(renditions);
    mac_keyformat(direction, force_dim1 || dim1, dim2, variant)
}

/// The columns of the keys of an iOS catalog: both dimensions are there only if
/// a rendition uses them, the first also if `force_dim1` says so.
pub fn compute_keyformat_ios<R: KeyformatRendition>(
    renditions: &[R],
    force_dim1: bool,
) -> (columns: Vec<u16>)
    ensures
        exists|dim1: bool, dim2: bool|
            {
                &&& #[trigger] asked_dim1(renditions@, dim1)
                &&& #[trigger] asked_dim2(renditions@, dim2)
                &&& columns@ == ios_columns(force_dim1 || dim1, dim2)
            },
{
    let dim1 = uses_dim1(renditions);
    let dim2 = uses_dim2(renditions);
    ios_keyformat(force_dim1 || dim1, dim2)
}

/// No column occurs twice in a key, and every key names element, part and
/// identifier.
pub proof fn key_columns_are_distinct(direction: bool, dim1: bool, dim2: bool, variant: bool)
    ensures
        mac_columns(direction, dim1, dim2, variant).no_duplicates(),
        ios_columns(dim1, dim2).no_duplicates(),
        mac_columns(direction, dim1, dim2, variant).contains(ATTR_IDENTIFIER),
        ios_columns(dim1, dim2).contains(ATTR_IDENTIFIER),
{
    let m = mac_columns(direction, dim1, dim2, variant);
    assert(m[if direction { 6 } else { 5 }] == ATTR_IDENTIFIER);
    let i = ios_columns(dim1, dim2);
    assert(i[i.len() - 3] == ATTR_IDENTIFIER);
}

/// The text that names the version of the framework an archive is made for.
pub open spec fn version_text(coreui_version: u32) -> Seq<char> {
    "@(#)PROGRAM:CoreUI  PROJECT:CoreUI-"@ + decimal(coreui_version as nat) + ".1\n"@
}

/// The text that names the tool.
pub open spec fn tool_text() -> Seq<char> {
    "IBCocoaTouchImageCatalogTool-17.0\n"@
}

/// The header of an archive: magic, versions, number of renditions, two texts in
/// fields of 128 and 256 bytes, an empty identifier and checksum, and how the
/// keys are to be read.
pub open spec fn car_header(renditions: u32, coreui_version: u32, key_semantics: u32) -> Seq<u8> {
    be32(HEADER_MAGIC) + le32(coreui_version) + le32(17) + le32(0) + le32(renditions) + fitted(
        encode_utf8(version_text(coreui_version)),
        128,
    ) + fitted(encode_utf8(tool_text()), 256) + zeros(20) + le32(2) + le32(1) + le32(key_semantics)
}

/// The header of a macOS archive.
pub fn make_carheader(rendition_count: u32) -> (header: Vec<u8>)
    ensures
        header@ == car_header(rendition_count, 972, 1),
{
    make_carheader_versioned(rendition_count, 972)
}

/// The header of an archive made for a given version of the framework.
pub fn make_carheader_versioned(rendition_count: u32, coreui_version: u32) -> (header: Vec<u8>)
    ensures
        header@ == car_header(rendition_count, coreui_version, 1),
{
    make_carheader_full(rendition_count, coreui_version, 1)
}

/// The header of an archive; `key_semantics` is 2 where keys carry an idiom, 1
/// elsewhere.
pub fn make_carheader_full(
    rendition_count: u32,
    coreui_version: u32,
    key_semantics: u32,
) -> (header: Vec<u8>)
    ensures
        header@ == car_header(rendition_count, coreui_version, key_semantics),
{
    let mut version = "@(#)PROGRAM:CoreUI  PROJECT:CoreUI-".to_owned();
    put_decimal(&mut version, coreui_version as u128);
    put_str(&mut version, ".1\n");
    let mut version_field: Vec<u8> = Vec::new();
    put_bytes(&mut version_field, version.as_str().as_bytes());
    fit(&mut version_field, 128);
    let mut tool_field: Vec<u8> = Vec::new();
    put_bytes(&mut tool_field, "IBCocoaTouchImageCatalogTool-17.0\n".as_bytes());
    fit(&mut tool_field, 256);
    let mut header: Vec<u8> = Vec::new();
    put_be32(&mut header, HEADER_MAGIC);
    put_le32(&mut header, coreui_version);
    put_le32(&mut header, 17);
    put_le32(&mut header, 0);
    put_le32(&mut header, rendition_count);
    put_bytes(&mut header, version_field.as_slice());
    put_bytes(&mut header, tool_field.as_slice());
    put_zeros(&mut header, 20);
    put_le32(&mut header, 2);
    put_le32(&mut header, 1);
    put_le32(&mut header, key_semantics);
    header
}

/// A header has 436 bytes; the number of renditions stands at 16, the key
/// semantics at 432.
pub proof fn header_fields(renditions: u32, coreui_version: u32, key_semantics: u32)
    ensures
        ({
            let header = car_header(renditions, coreui_version, key_semantics);
            &&& header.len() == 436
            &&& header.subrange(0, 4) == be32(HEADER_MAGIC)
            &&& read_le32(header, 4) == coreui_version
            &&& read_le32(header, 16) == renditions
            &&& read_le32(header, 424) == 2
            &&& read_le32(header, 428) == 1
            &&& read_le32(header, 432) == key_semantics
        }),
{
    let texts = fitted(encode_utf8(version_text(coreui_version)), 128);
    let tool = fitted(encode_utf8(tool_text()), 256);
    let a = be32(HEADER_MAGIC);
    let b = a + le32(coreui_version);
    let c = b + le32(17) + le32(0);
    let d = c + le32(renditions);
    let e = d + texts + tool + zeros(20);
    let f = e + le32(2);
    let g = f + le32(1);
    let header = g + le32(key_semantics);
    assert(e.len() == 424);
    lemma_appended_le32(a, coreui_version);
    lemma_appended_le32(c, renditions);
    lemma_appended_le32(e, 2);
    lemma_appended_le32(f, 1);
    lemma_appended_le32(g, key_semantics);
    assert(b =~= header.take(8));
    assert(d =~= header.take(20));
    assert(f =~= header.take(428));
    assert(g =~= header.take(432));
    assert(b.subrange(0, 4) =~= be32(HEADER_MAGIC));
    lemma_header_starts(b, d, f, g, header);
}

/// The fields of a header are those of its beginnings.
proof fn lemma_header_starts(
    b: Seq<u8>,
    d: Seq<u8>,
    f: Seq<u8>,
    g: Seq<u8>,
    header: Seq<u8>,
)
    requires
        b.len() == 8,
        b.subrange(0, 4) == be32(HEADER_MAGIC),
        d.len() == 20,
        f.len() == 428,
        g.len() == 432,
        header.len() == 436,
        b == header.take(8),
        d == header.take(20),
        f == header.take(428),
        g == header.take(432),
    ensures
        header.subrange(0, 4) == be32(HEADER_MAGIC),
        read_le32(header, 4) == read_le32(b, 4),
        read_le32(header, 16) == read_le32(d, 16),
        read_le32(header, 424) == read_le32(f, 424),
        read_le32(header, 428) == read_le32(g, 428),
{
    assert(header.subrange(0, 4) =~= b.subrange(0, 4));
}

/// The metadata of an archive: deployment target, platform family and tool, each
/// at its fixed place.
pub open spec fn extended_metadata(platform: Seq<char>, min_deploy: Seq<char>) -> Seq<u8> {
    written(
        written(
            written(
                written(zeros(1028), 0, be32(METADATA_MAGIC)),
                260,
                encode_utf8(min_deploy),
            ),
            516,
            encode_utf8(platform_family(platform)),
        ),
        772,
        encode_utf8("actool"@),
    )
}

/// The metadata of an archive.
pub fn make_extended_metadata(platform: &str, min_deploy: &str) -> (data: Vec<u8>)
    requires
        260 + encode_utf8(min_deploy@).len() <= 1028,
        516 + encode_utf8(platform_family(platform@)).len() <= 1028,
    ensures
        data@ == extended_metadata(platform@, min_deploy@),
{
    let mut data: Vec<u8> = Vec::new();
    put_zeros(&mut data, 1028);
    let mut magic: Vec<u8> = Vec::new();
    put_be32(&mut magic, METADATA_MAGIC);
    proof {
        reveal_strlit("actool");
        vstd::utf8::is_ascii_chars_encode_utf8("actool"@);
    }
    put_at(&mut data, 0, magic.as_slice());
    put_at(&mut data, 260, min_deploy.as_bytes());
    put_at(&mut data, 516, deployment_platform_name(platform).as_bytes());
    put_at(&mut data, 772, "actool".as_bytes());
    data
}

/// Copies `data` into `buf` at `at`.
fn put_at(buf: &mut Vec<u8>, at: usize, data: &[u8])
    requires
        at + data@.len() <= old(buf)@.len(),
    ensures
        final(buf)@ == written(old(buf)@, at as int, data@),
{
    assert(data@.subrange(0, data@.len() as int) =~= data@);
    write_at(buf, at, data, 0, data.len());
}

/// Sixteen-bit numbers, each in four bytes.
pub open spec fn wide_numbers(values: Seq<u16>) -> Seq<u8>
    decreases values.len(),
{
    if values.len() == 0 {
        Seq::empty()
    } else {
        wide_numbers(values.drop_last()) + le32(values.last() as u32)
    }
}

/// The table that lists the columns of the keys.
pub open spec fn keyformat_block(attrs: Seq<u16>) -> Seq<u8> {
    be32(KEYFORMAT_MAGIC) + le32(0) + le32(attrs.len() as u32) + wide_numbers(attrs)
}

/// The table that lists the columns of the keys.
pub fn make_keyformat(attrs: &[u16]) -> (block: Vec<u8>)
    ensures
        block@ == keyformat_block(attrs@),
{
    let mut block: Vec<u8> = Vec::new();
    put_be32(&mut block, KEYFORMAT_MAGIC);
    put_le32(&mut block, 0);
    put_le32(&mut block, attrs.len() as u32);
    let ghost head = block@;
    let mut i: usize = 0;
    assert(block@ =~= head + wide_numbers(attrs@.take(0)));
    while i < attrs.len()
        invariant
            i <= attrs@.len(),
            block@ == head + wide_numbers(attrs@.take(i as int)),
        decreases attrs.len() - i,
    {
        put_le32(&mut block, attrs[i] as u32);
        i = i + 1;
        assert(attrs@.take(i as int).drop_last() =~= attrs@.take(i - 1));
        assert(block@ =~= head + wide_numbers(attrs@.take(i as int)));
    }
    assert(attrs@.take(i as int) =~= attrs@);
    block
}

/// The values of the columns of a rendition key.
#[derive(Debug, Clone, Copy)]
pub struct RenditionKeyParts {
    pub appearance: u16,
    /// The hashed name of the locale.
    pub unknown13: u16,
    pub element: u16,
    pub part: u16,
    pub size: u16,
    pub direction: u16,
    pub identifier: u16,
    pub dim1: u16,
    pub dim2: u16,
    pub layer: u16,
    pub scale: u16,
    /// The device idiom, where the platform has any.
    pub idiom: u16,
    pub subtype: u16,
    /// 0 for the primary appearance, more for its alternatives.
    pub variant: u16,
}

impl Default for RenditionKeyParts {
    /// All columns zero.
    fn default() -> (parts: Self)
        ensures
            parts == (RenditionKeyParts {
                appearance: 0,
                unknown13: 0,
                element: 0,
                part: 0,
                size: 0,
                direction: 0,
                identifier: 0,
                dim1: 0,
                dim2: 0,
                layer: 0,
                scale: 0,
                idiom: 0,
                subtype: 0,
                variant: 0,
            }),
    {
        RenditionKeyParts {
            appearance: 0,
            unknown13: 0,
            element: 0,
            part: 0,
            size: 0,
            direction: 0,
            identifier: 0,
            dim1: 0,
            dim2: 0,
            layer: 0,
            scale: 0,
            idiom: 0,
            subtype: 0,
            variant: 0,
        }
    }
}

/// The value of a column; 0 for columns that are not known.
pub open spec fn column_value(parts: RenditionKeyParts, attr: u16) -> u16 {
    if attr == ATTR_APPEARANCE {
        parts.appearance
    } else if attr == ATTR_LOCALE {
        parts.unknown13
    } else if attr == ATTR_ELEMENT {
        parts.element
    } else if attr == ATTR_PART {
        parts.part
    } else if attr == ATTR_SIZE {
        parts.size
    } else if attr == ATTR_DIRECTION {
        parts.direction
    } else if attr == ATTR_IDENTIFIER {
        parts.identifier
    } else if attr == ATTR_DIM1 {
        parts.dim1
    } else if attr == ATTR_DIM2 {
        parts.dim2
    } else if attr == ATTR_LAYER {
        parts.layer
    } else if attr == ATTR_SCALE {
        parts.scale
    } else if attr == ATTR_IDIOM {
        parts.idiom
    } else if attr == ATTR_SUBTYPE {
        parts.subtype
    } else if attr == ATTR_VARIANT {
        parts.variant
    } else {
        0
    }
}

/// A rendition key: the values of the columns `format`, two bytes each.
pub open spec fn rendition_key(parts: RenditionKeyParts, format: Seq<u16>) -> Seq<u8>
    decreases format.len(),
{
    if format.len() == 0 {
        Seq::empty()
    } else {
        rendition_key(parts, format.drop_last()) + le16(column_value(parts, format.last()))
    }
}

/// The value of a column.
fn value_of(parts: &RenditionKeyParts, attr: u16) -> (value: u16)
    ensures
        value == column_value(*parts, attr),
{
    match attr {
        ATTR_APPEARANCE => parts.appearance,
        ATTR_LOCALE => parts.unknown13,
        ATTR_ELEMENT => parts.element,
        ATTR_PART => parts.part,
        ATTR_SIZE => parts.size,
        ATTR_DIRECTION => parts.direction,
        ATTR_IDENTIFIER => parts.identifier,
        ATTR_DIM1 => parts.dim1,
        ATTR_DIM2 => parts.dim2,
        ATTR_LAYER => parts.layer,
        ATTR_SCALE => parts.scale,
        ATTR_IDIOM => parts.idiom,
        ATTR_SUBTYPE => parts.subtype,
        ATTR_VARIANT => parts.variant,
        _ => 0,
    }
}

/// The key of a rendition: the values of its columns in the order of the format.
pub fn make_rendition_key(parts: RenditionKeyParts, keyformat: &[u16]) -> (key: Vec<u8>)
    ensures
        key@ == rendition_key(parts, keyformat@),
{
    let mut key: Vec<u8> = Vec::new();
    let mut i: usize = 0;
    assert(keyformat@.take(0) =~= Seq::empty());
    while i < keyformat.len()
        invariant
            i <= keyformat@.len(),
            key@ == rendition_key(parts, keyformat@.take(i as int)),
        decreases keyformat.len() - i,
    {
        put_le16(&mut key, value_of(&parts, keyformat[i]));
        i = i + 1;
        assert(keyformat@.take(i as int).drop_last() =~= keyformat@.take(i - 1));
    }
    assert(keyformat@.take(i as int) =~= keyformat@);
    key
}

/// A key has two bytes for each column, and they read back as its value.
pub proof fn key_reads_back(parts: RenditionKeyParts, format: Seq<u16>, i: int)
    requires
        0 <= i < format.len(),
    ensures
        rendition_key(parts, format).len() == 2 * format.len(),
        read_le16(rendition_key(parts, format), 2 * i) == column_value(parts, format[i]),
    decreases format.len(),
{
    let rest = rendition_key(parts, format.drop_last());
    let key = rendition_key(parts, format);
    if format.len() > 1 {
        key_reads_back(parts, format.drop_last(), if i < format.len() - 1 { i } else { 0 });
    }
    assert(key.take(rest.len() as int) =~= rest);
    if i < format.len() - 1 {
        assert(key[2 * i] == rest[2 * i] && key[2 * i + 1] == rest[2 * i + 1]);
    }
}

/// The appearances that `.icon` archives know, and their numbers in keys.
pub open spec fn appearance_entries() -> Seq<(Seq<u8>, Seq<u8>)> {
    seq![
        (encode_utf8("NSAppearanceNameSystem"@), le16(0)),
        (encode_utf8("NSAppearanceNameDarkAqua"@), le16(1)),
        (encode_utf8("NSAppearanceNameAqua"@), le16(8)),
        (encode_utf8("ISAppearanceTintable"@), le16(10)),
    ]
}

/// One entry of the table of appearances.
pub fn appearance_entry(name: &str, id: u16) -> (entry: (Vec<u8>, Vec<u8>))
    ensures
        entry.0@ == encode_utf8(name@),
        entry.1@ == le16(id),
{
    let mut key: Vec<u8> = Vec::new();
    put_bytes(&mut key, name.as_bytes());
    let mut value: Vec<u8> = Vec::new();
    put_le16(&mut value, id);
    (key, value)
}

/// The table of the appearances that `.icon` archives know.
pub fn make_appearancekeys_entries() -> (entries: Vec<(Vec<u8>, Vec<u8>)>)
    ensures
        crate::bytes::pair_contents(entries@) == appearance_entries(),
{
    let mut entries: Vec<(Vec<u8>, Vec<u8>)> = Vec::new();
    entries.push(appearance_entry("NSAppearanceNameSystem", 0));
    entries.push(appearance_entry("NSAppearanceNameDarkAqua", 1));
    entries.push(appearance_entry("NSAppearanceNameAqua", 8));
    entries.push(appearance_entry("ISAppearanceTintable", 10));
    assert(crate::bytes::pair_contents(entries@) =~= appearance_entries());
    entries
}

/// What a facet stands for: element, part if it has one, and identifier.
pub open spec fn facet_value(element: u16, part: Option<u16>, identifier: u16) -> Seq<u8> {
    match part {
        Some(p) => le16(0) + le16(0) + le16(3) + le16(ATTR_ELEMENT) + le16(element) + le16(
            ATTR_PART,
        ) + le16(p) + le16(ATTR_IDENTIFIER) + le16(identifier),
        None => le16(0) + le16(0) + le16(2) + le16(ATTR_ELEMENT) + le16(element) + le16(
            ATTR_IDENTIFIER,
        ) + le16(identifier),
    }
}

/// What a facet stands for.
pub fn make_facetkey_value(element: u16, part: Option<u16>, identifier: u16) -> (value: Vec<u8>)
    ensures
        value@ == facet_value(element, part, identifier),
{
    let mut value: Vec<u8> = Vec::new();
    put_le16(&mut value, 0);
    put_le16(&mut value, 0);
    match part {
        Some(p) => {
            put_le16(&mut value, 3);
            put_le16(&mut value, ATTR_ELEMENT);
            put_le16(&mut value, element);
            put_le16(&mut value, ATTR_PART);
            put_le16(&mut value, p);
        },
        None => {
            put_le16(&mut value, 2);
            put_le16(&mut value, ATTR_ELEMENT);
            put_le16(&mut value, element);
        },
    }
    put_le16(&mut value, ATTR_IDENTIFIER);
    put_le16(&mut value, identifier);
    value
}

} // verus!
