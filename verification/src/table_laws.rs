//! What keys, tables and the headers of an archive tell a reader.

use vstd::prelude::*;
use vstd::utf8::encode_utf8;

use crate::bytes::{be32, fitted, le32, read_le16, read_le32, written, zeros};
use crate::car::{
    appearance_entries, car_header, extended_metadata, ios_columns, key_reads_back, mac_columns,
    rendition_key, tool_text, version_text, RenditionKeyParts,
};
use crate::compiler::{image_flags, image_parts, sheet_parts};
use crate::csi::percent;
use crate::csi_laws::{
    body_of, headers_read_back, lemma_image_tags, lemma_parts_told, spells, tagged, tags_of,
    tell_opacity, tell_size, tells_image, tells_name,
};
use crate::packer::{align32, PackedImage};
use crate::platform::platform_family;
use crate::rendition::{pixel_size, widened_rows, Rendition};
use crate::sheets::Sheet;
use crate::text::decimal;

verus! {

/// Whether a key holds, in a column, the part that the number of the column stands for.
pub open spec fn column_holds(key: Seq<u8>, i: int, column: u16, parts: RenditionKeyParts) -> bool {
    let value = read_le16(key, 2 * i);
    &&& column == 1 ==> value == parts.element
    &&& column == 2 ==> value == parts.part
    &&& column == 3 ==> value == parts.size
    &&& column == 4 ==> value == parts.direction
    &&& column == 7 ==> value == parts.appearance
    &&& column == 8 ==> value == parts.dim1
    &&& column == 9 ==> value == parts.dim2
    &&& column == 11 ==> value == parts.layer
    &&& column == 12 ==> value == parts.scale
    &&& column == 13 ==> value == parts.unknown13
    &&& column == 15 ==> value == parts.idiom
    &&& column == 16 ==> value == parts.subtype
    &&& column == 17 ==> value == parts.identifier
    &&& column == 24 ==> value == parts.variant
}

/// A key holds in each of its columns the part that the column stands for.
pub proof fn keys_hold_their_parts(parts: RenditionKeyParts, format: Seq<u16>, i: int)
    requires
        0 <= i < format.len(),
    ensures
        rendition_key(parts, format).len() == 2 * format.len(),
        column_holds(rendition_key(parts, format), i, format[i], parts),
{
    key_reads_back(parts, format, i);
}

/// The key of a rendition has its appearance, its language, its element, part and
/// identifier, its direction, its sizes, its scale, its device and its variant.
pub proof fn keys_are_of_their_renditions(r: Rendition)
    ensures
        ({
            let parts = r.key_parts();
            &&& parts.appearance == r.appearance
            &&& parts.unknown13 == (if r.locale@.len() == 0 {
                0
            } else {
                r.locale_id
            })
            &&& parts.element == r.element
            &&& parts.part == r.part
            &&& parts.identifier == r.identifier
            &&& parts.direction == r.direction
            &&& parts.dim1 == r.dim1
            &&& parts.dim2 == r.dim2
            &&& parts.scale == r.scale
            &&& parts.idiom == r.idiom
            &&& parts.subtype == r.subtype
            &&& parts.variant == r.variant
            &&& parts.size == 0
            &&& parts.layer == 0
        }),
{
}

/// The key of a sheet is that of a packed element, which links name by sprite atlas,
/// number, scale and device; the key of an image on it is its own.
pub proof fn sheet_keys_are_told(sheet: Sheet, image: PackedImage)
    ensures
        ({
            let parts = sheet_parts(sheet);
            &&& parts.element == 9
            &&& parts.part == 181
            &&& parts.identifier == sheet.sprite_atlas_id
            &&& parts.dim1 == sheet.atlas.dim1 as u16
            &&& parts.scale == sheet.scale
            &&& parts.idiom == sheet.idiom
            &&& parts.appearance == 0 && parts.direction == 0 && parts.dim2 == 0
        }),
        ({
            let parts = image_parts(sheet, image);
            &&& parts.element == 85
            &&& parts.part == image.part as u16
            &&& parts.identifier == image.identifier as u16
            &&& parts.dim1 == 0
            &&& parts.dim2 == image.dim2 as u16
            &&& parts.appearance == image.appearance as u16
            &&& parts.direction == image.direction as u16
            &&& parts.scale == sheet.scale
            &&& parts.idiom == image.idiom as u16
        }),
{
}

/// Where a column stands among those of the Mac, if all are there.
pub open spec fn mac_place(column: u16) -> int {
    if column == 7 {
        0
    } else if column == 13 {
        1
    } else if column == 1 {
        2
    } else if column == 2 {
        3
    } else if column == 3 {
        4
    } else if column == 4 {
        5
    } else if column == 17 {
        6
    } else if column == 8 {
        7
    } else if column == 9 {
        8
    } else if column == 11 {
        9
    } else if column == 12 {
        10
    } else if column == 24 {
        11
    } else {
        -1
    }
}

/// Where a column stands among those of phones and pads, if all are there.
pub open spec fn ios_place(column: u16) -> int {
    if column == 7 {
        0
    } else if column == 13 {
        1
    } else if column == 12 {
        2
    } else if column == 15 {
        3
    } else if column == 16 {
        4
    } else if column == 9 {
        5
    } else if column == 8 {
        6
    } else if column == 17 {
        7
    } else if column == 1 {
        8
    } else if column == 2 {
        9
    } else {
        -1
    }
}

/// The keys of the Mac have the columns that every catalog has, and each other one where
/// it is used, in one order.
pub proof fn mac_columns_are_in_order(direction: bool, dim1: bool, dim2: bool, variant: bool)
    ensures
        ({
            let m = mac_columns(direction, dim1, dim2, variant);
            &&& m.len() == 8 + (if direction {
                1int
            } else {
                0
            }) + (if dim1 {
                1int
            } else {
                0
            }) + (if dim2 {
                1int
            } else {
                0
            }) + (if variant {
                1int
            } else {
                0
            })
            &&& forall|i: int|
                0 <= i < m.len() ==> {
                    let c = #[trigger] m[i];
                    &&& mac_place(c) >= 0
                    &&& c == 4 ==> direction
                    &&& c == 8 ==> dim1
                    &&& c == 9 ==> dim2
                    &&& c == 24 ==> variant
                }
            &&& forall|i: int, j: int|
                0 <= i < j < m.len() ==> mac_place(#[trigger] m[i]) < mac_place(#[trigger] m[j])
        }),
{
}

/// The keys of phones and pads have the columns that every catalog has, and the sizes
/// where they are used, in one order.
pub proof fn ios_columns_are_in_order(dim1: bool, dim2: bool)
    ensures
        ({
            let m = ios_columns(dim1, dim2);
            &&& m.len() == 8 + (if dim1 {
                1int
            } else {
                0
            }) + (if dim2 {
                1int
            } else {
                0
            })
            &&& forall|i: int|
                0 <= i < m.len() ==> {
                    let c = #[trigger] m[i];
                    &&& ios_place(c) >= 0
                    &&& c == 8 ==> dim1
                    &&& c == 9 ==> dim2
                }
            &&& forall|i: int, j: int|
                0 <= i < j < m.len() ==> ios_place(#[trigger] m[i]) < ios_place(#[trigger] m[j])
        }),
{
}

/// Whether a field holds a text, and zeros behind it.
pub open spec fn field_holds(data: Seq<u8>, at: int, size: int, text: Seq<char>) -> bool {
    let bytes = encode_utf8(text);
    bytes.len() <= size ==> data.subrange(at, at + bytes.len()) == bytes && forall|i: int|
        at + bytes.len() <= i < at + size ==> #[trigger] data[i] == 0
}

/// What metadata call a platform.
pub proof fn platforms_have_families(platform: Seq<char>)
    ensures
        platform == "iphoneos"@ || platform == "iphonesimulator"@ ==> platform_family(platform)
            == "ios"@,
        platform == "appletvos"@ || platform == "appletvsimulator"@ ==> platform_family(platform)
            == "atv"@,
        platform != "iphoneos"@ && platform != "iphonesimulator"@ && platform != "appletvos"@
            && platform != "appletvsimulator"@ ==> platform_family(platform) == platform,
{
    reveal_strlit("iphoneos");
    reveal_strlit("iphonesimulator");
    reveal_strlit("appletvos");
    reveal_strlit("appletvsimulator");
    assert("iphoneos"@[0] == 'i' && "iphonesimulator"@[0] == 'i');
    assert("appletvos"@[0] == 'a' && "appletvsimulator"@[0] == 'a');
}

/// The metadata of an archive hold the deployment target, the family of the platform and
/// the name of the tool, each in a field of 256 bytes.
pub proof fn metadata_read_back(platform: Seq<char>, min_deploy: Seq<char>)
    requires
        encode_utf8(min_deploy).len() <= 256,
        encode_utf8(platform_family(platform)).len() <= 256,
    ensures
        ({
            let data = extended_metadata(platform, min_deploy);
            &&& data.len() == 1028
            &&& spells(data, 0, 0x4d, 0x45, 0x54, 0x41)
            &&& field_holds(data, 260, 256, min_deploy)
            &&& field_holds(data, 516, 256, platform_family(platform))
            &&& field_holds(data, 772, 256, "actool"@)
        }),
{
    reveal_strlit("actool");
    vstd::utf8::is_ascii_chars_encode_utf8("actool"@);
    let mark = be32(crate::car::METADATA_MAGIC);
    assert(mark =~= seq![0x4du8, 0x45, 0x54, 0x41]);
    let target = encode_utf8(min_deploy);
    let family = encode_utf8(platform_family(platform));
    let tool = encode_utf8("actool"@);
    let a = written(zeros(1028), 0, mark);
    let b = written(a, 260, target);
    let c = written(b, 516, family);
    let data = written(c, 772, tool);
    assert(data.subrange(260, 260int + target.len()) =~= target);
    assert(data.subrange(516, 516int + family.len()) =~= family);
    assert(data.subrange(772, 772int + tool.len()) =~= tool);
}

/// The header of an archive names the version of the framework, twice, and the tool.
pub proof fn archive_headers_read_back(renditions: u32, version: u32, semantics: u32)
    requires
        encode_utf8(version_text(version)).len() <= 128,
    ensures
        ({
            let header = car_header(renditions, version, semantics);
            &&& spells(header, 0, 0x52, 0x41, 0x54, 0x43)
            &&& read_le32(header, 4) == version
            &&& read_le32(header, 8) == 17
            &&& read_le32(header, 12) == 0
            &&& read_le32(header, 16) == renditions
            &&& field_holds(
                header,
                20,
                128,
                "@(#)PROGRAM:CoreUI  PROJECT:CoreUI-"@ + decimal(version as nat) + ".1\n"@,
            )
            &&& field_holds(header, 148, 256, "IBCocoaTouchImageCatalogTool-17.0\n"@)
            &&& read_le32(header, 432) == semantics
        }),
{
    crate::car::header_fields(renditions, version, semantics);
    lemma_header_ranges(renditions, version, semantics);
    lemma_tool_len();
    lemma_header_told(
        car_header(renditions, version, semantics),
        version_text(version),
        tool_text(),
    );
}

proof fn lemma_tool_len()
    ensures
        encode_utf8("IBCocoaTouchImageCatalogTool-17.0\n"@).len() <= 256,
{
    reveal_strlit("IBCocoaTouchImageCatalogTool-17.0\n");
    vstd::utf8::is_ascii_chars_encode_utf8("IBCocoaTouchImageCatalogTool-17.0\n"@);
}

proof fn lemma_header_ranges(renditions: u32, version: u32, semantics: u32)
    ensures
        ({
            let header = car_header(renditions, version, semantics);
            &&& header.subrange(0, 4) == be32(crate::car::HEADER_MAGIC)
            &&& header.subrange(8, 12) == le32(17)
            &&& header.subrange(12, 16) == le32(0)
            &&& header.subrange(20, 148) == fitted(encode_utf8(version_text(version)), 128)
            &&& header.subrange(148, 404) == fitted(encode_utf8(tool_text()), 256)
        }),
{
    lemma_header_parts(
        be32(crate::car::HEADER_MAGIC),
        le32(version),
        le32(17),
        le32(0),
        le32(renditions),
        fitted(encode_utf8(version_text(version)), 128),
        fitted(encode_utf8(tool_text()), 256),
        zeros(20),
        le32(2),
        le32(1),
        le32(semantics),
    );
}

proof fn lemma_header_told(header: Seq<u8>, version: Seq<char>, tool: Seq<char>)
    requires
        header.len() == 436,
        encode_utf8(version).len() <= 128,
        encode_utf8(tool).len() <= 256,
        header.subrange(0, 4) == be32(crate::car::HEADER_MAGIC),
        header.subrange(8, 12) == le32(17),
        header.subrange(12, 16) == le32(0),
        header.subrange(20, 148) == fitted(encode_utf8(version), 128),
        header.subrange(148, 404) == fitted(encode_utf8(tool), 256),
    ensures
        spells(header, 0, 0x52, 0x41, 0x54, 0x43),
        read_le32(header, 8) == 17,
        read_le32(header, 12) == 0,
        field_holds(header, 20, 128, version),
        field_holds(header, 148, 256, tool),
{
    let mark = be32(crate::car::HEADER_MAGIC);
    assert(mark =~= seq![0x52u8, 0x41, 0x54, 0x43]);
    lemma_header_texts(header, encode_utf8(version), encode_utf8(tool));
    crate::bytes::le32_reads_back(header, 8, 17);
    crate::bytes::le32_reads_back(header, 12, 0);
    let start = header.subrange(0, 4);
    assert(start[0] == header[0] && start[1] == header[1] && start[2] == header[2] && start[3]
        == header[3]);
}

proof fn lemma_header_texts(header: Seq<u8>, version: Seq<u8>, tool: Seq<u8>)
    requires
        header.len() == 436,
        version.len() <= 128,
        tool.len() <= 256,
        header.subrange(20, 148) == fitted(version, 128),
        header.subrange(148, 404) == fitted(tool, 256),
    ensures
        header.subrange(20, 20int + version.len()) == version,
        forall|i: int| 20 + version.len() <= i < 148 ==> #[trigger] header[i] == 0,
        header.subrange(148, 148int + tool.len()) == tool,
        forall|i: int| 148 + tool.len() <= i < 404 ==> #[trigger] header[i] == 0,
{
    assert forall|i: int| 20 <= i < 148 implies #[trigger] header[i] == fitted(version, 128)[i
        - 20] by {
        assert(header.subrange(20, 148)[i - 20] == header[i]);
    }
    assert forall|i: int| 148 <= i < 404 implies #[trigger] header[i] == fitted(tool, 256)[i
        - 148] by {
        assert(header.subrange(148, 404)[i - 148] == header[i]);
    }
    assert(header.subrange(20, 20int + version.len()) =~= version);
    assert(header.subrange(148, 148int + tool.len()) =~= tool);
}

proof fn lemma_header_parts(
    a: Seq<u8>,
    b: Seq<u8>,
    c: Seq<u8>,
    d: Seq<u8>,
    e: Seq<u8>,
    f: Seq<u8>,
    g: Seq<u8>,
    h: Seq<u8>,
    i: Seq<u8>,
    j: Seq<u8>,
    k: Seq<u8>,
)
    requires
        a.len() == 4 && b.len() == 4 && c.len() == 4 && d.len() == 4 && e.len() == 4,
        f.len() == 128,
        g.len() == 256,
    ensures
        ({
            let all = a + b + c + d + e + f + g + h + i + j + k;
            &&& all.subrange(0, 4) == a
            &&& all.subrange(8, 12) == c
            &&& all.subrange(12, 16) == d
            &&& all.subrange(20, 148) == f
            &&& all.subrange(148, 404) == g
        }),
{
    let all = a + b + c + d + e + f + g + h + i + j + k;
    assert(all.subrange(0, 4) =~= a);
    assert(all.subrange(8, 12) =~= c);
    assert(all.subrange(12, 16) =~= d);
    assert(all.subrange(20, 148) =~= f);
    assert(all.subrange(148, 404) =~= g);
}

/// The appearances of icons have the numbers 0, 1, 8 and 10.
pub proof fn appearances_have_numbers()
    ensures
        appearance_entries().len() == 4,
        appearance_entries()[0].0 == encode_utf8("NSAppearanceNameSystem"@),
        read_le16(appearance_entries()[0].1, 0) == 0,
        appearance_entries()[1].0 == encode_utf8("NSAppearanceNameDarkAqua"@),
        read_le16(appearance_entries()[1].1, 0) == 1,
        appearance_entries()[2].0 == encode_utf8("NSAppearanceNameAqua"@),
        read_le16(appearance_entries()[2].1, 0) == 8,
        appearance_entries()[3].0 == encode_utf8("ISAppearanceTintable"@),
        read_le16(appearance_entries()[3].1, 0) == 10,
{
}

/// The intent of a rendition: as it is given, or else a template's, or the system's.
pub open spec fn intent(r: Rendition) -> int {
    if r.template_rendering_intent >= 0 {
        r.template_rendering_intent as int
    } else if r.is_template {
        2
    } else {
        4
    }
}

/// The flags of a rendition hold its intent from the third bit on; one that was drawn
/// from a document sets the third bit itself.
pub proof fn flags_hold_the_intent(r: Rendition)
    requires
        intent(r) < 0x2000_0000,
    ensures
        !r.is_svg_rasterization ==> r.flags() == 4 * intent(r),
        r.is_svg_rasterization && intent(r) % 2 == 0 ==> r.flags() == 4 * intent(r) + 4,
{
    let n = intent(r) as u32;
    lemma_flags(n);
}

proof fn lemma_flags(n: u32)
    requires
        n < 0x2000_0000,
    ensures
        n << 2u32 == 4 * n,
        n % 2 == 0 ==> (n << 2u32) | 4 == 4 * n + 4,
{
    assert(n << 2u32 == n * 4) by (bit_vector)
        requires
            n < 0x2000_0000,
    ;
    assert(n % 2 == 0 ==> (n << 2u32) | 4 == n * 4 + 4) by (bit_vector)
        requires
            n < 0x2000_0000,
    ;
}

/// The same of an image on a sheet.
pub proof fn image_flags_hold_the_intent(image: PackedImage)
    requires
        0 <= image.template_rendering_intent < 0x2000_0000,
    ensures
        !image.is_svg_rasterization ==> image_flags(image) == 4 * image.template_rendering_intent,
        image.is_svg_rasterization && image.template_rendering_intent % 2 == 0 ==> image_flags(image)
            == 4 * image.template_rendering_intent + 4,
{
    lemma_flags(image.template_rendering_intent as u32);
}

/// A rendition with pixels is stored under its name, in its size, scale, format, color
/// space and layout, with the length of its rows and its compressed pixels; an ordinary
/// image tells its size again.
pub proof fn renditions_read_back(r: Rendition)
    requires
        r.csi_override is None,
        r.pixel_data@.len() > 0,
        r.stored_data().len() <= u32::MAX,
    ensures
        ({
            let s = r.stored();
            &&& tells_image(
                s,
                r.width,
                r.height,
                (100 * r.scale) as u32,
                r.pixel_format@,
                r.flags(),
                r.colorspace_id,
            )
            &&& tells_name(s, r.layout, r.name@)
            &&& body_of(s) == r.stored_data()
            &&& match tagged(tags_of(s), 1007) {
                Some(row) => row.len() == 4 && read_le32(row, 0) == r.named_row(),
                None => false,
            }
            &&& r.layout == 12 && r.part != 208 && r.part != 209 ==> tell_size(
                tags_of(s),
                r.width as nat,
                r.height as nat,
            ) && tell_opacity(tags_of(s), 0x3f80_0000)
        }),
{
    let tags = r.tagged_values();
    let row = r.named_row();
    lemma_image_tags(r.width, r.height, row);
    assert(percent(r.scale) == (100 * r.scale) as u32);
    headers_read_back(
        r.width,
        r.height,
        percent(r.scale),
        r.pixel_format@,
        r.layout,
        r.name@,
        tags,
        r.stored_data(),
        r.flags(),
        r.colorspace_id,
        1,
    );
    lemma_parts_told(r.stored(), tags, r.stored_data(), 1);
}

/// The rows of an image are told with what they are padded to: a multiple of 32 that has
/// room for the pixels and no more than 31 bytes to spare, where the deployment target
/// wants it; four bytes for each pixel elsewhere.
#[verifier::rlimit(50)]
pub proof fn named_rows_have_room(r: Rendition)
    requires
        r.width * 4 + 31 <= u32::MAX,
        read_le32(r.stored_data(), 8) != 11,
    ensures
        r.aligns_rows() ==> r.named_row() % 32 == 0 && r.exact_row() <= r.named_row() < r.exact_row()
            + 32,
        !r.aligns_rows() ==> r.named_row() == 4 * r.width,
{
    let size = pixel_size(r.pixel_format@);
    lemma_row_length(r.width, size);
}

proof fn lemma_row_length(width: u32, size: nat)
    requires
        size == 2 || size == 4,
        width * 4 + 31 <= u32::MAX,
    ensures
        ({
            let exact = width as nat * size;
            &&& exact <= 4 * width
            &&& align32(exact) % 32 == 0
            &&& exact <= align32(exact) < exact + 32
            &&& align32(exact) <= u32::MAX
        }),
{
    assert(width as nat * size <= 4 * width) by (nonlinear_arith)
        requires
            size == 2 || size == 4,
    ;
}

/// Rows that are padded hold the pixels of the image, and zeros behind them.
pub proof fn padded_rows_hold_the_pixels(pixels: Seq<u8>, exact: nat, wide: nat, n: nat, y: int)
    requires
        n * exact <= pixels.len(),
        exact <= wide,
        0 <= y < n,
    ensures
        ({
            let out = widened_rows(pixels, exact, wide, n);
            &&& out.len() == n * wide
            &&& out.subrange(y * wide, y * wide + exact) == pixels.subrange(
                y * exact,
                y * exact + exact,
            )
            &&& forall|b: int| exact <= b < wide ==> #[trigger] out[y * wide + b] == 0
        }),
    decreases n,
{
    let m = (n - 1) as nat;
    let out = widened_rows(pixels, exact, wide, n);
    let before = widened_rows(pixels, exact, wide, m);
    assert(n * exact == m * exact + exact && n * wide == m * wide + wide && 0 <= m * exact && 0 <= m
        * wide) by (nonlinear_arith)
        requires
            n == m + 1,
            m >= 0,
            exact >= 0,
            wide >= 0,
    ;
    assert(0 <= y * wide && 0 <= y * exact && y * exact + exact <= n * exact) by (nonlinear_arith)
        requires
            0 <= y,
            y + 1 <= n,
            exact >= 0,
            wide >= 0,
    ;
    let from = (n - 1) * exact;
    let last = pixels.subrange(from, from + exact) + zeros((wide - exact) as nat);
    assert(out == before + last);
    if m > 0 {
        padded_rows_hold_the_pixels(pixels, exact, wide, m, if y < m {
            y
        } else {
            0
        });
    }
    assert(before.len() == m * wide);
    if y == m {
        assert(out.subrange(y * wide, y * wide + exact) =~= pixels.subrange(
            y * exact,
            y * exact + exact,
        ));
        assert forall|b: int| exact <= b < wide implies #[trigger] out[y * wide + b] == 0 by {
            assert(out[y * wide + b] == last[b]);
        }
    } else {
        assert(y * wide + wide <= m * wide) by (nonlinear_arith)
            requires
                y + 1 <= m,
                wide >= 0,
        ;
        assert(out.subrange(y * wide, y * wide + exact) =~= before.subrange(
            y * wide,
            y * wide + exact,
        ));
        assert forall|b: int| exact <= b < wide implies #[trigger] out[y * wide + b] == 0 by {
            assert(out[y * wide + b] == before[y * wide + b]);
        }
    }
}

} // verus!
