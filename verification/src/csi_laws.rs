//! What a reader finds in a stored rendition.

use vstd::prelude::*;
use vstd::utf8::encode_utf8;

use crate::bytes::{
    be32, le16, le16_reads_back, le32, le32_reads_back, le64, lemma_empty_prefix, padded,
    read_be16, read_le16, read_le32, zeros,
};
use crate::csi::{
    atlas_key, color_csi, color_data, color_tlv, csi, csi_start, doubles, frame_size, gradient_data,
    jpeg_size, layer_frame, layer_frames, layer_key, layer_modes, layer_shadows, layers_tlv,
    link_tlv, metrics_tlv, name_field, name_list, opacity_tlv, optional_column, orientation_tlv,
    packed_image_tlv, raw_data, row_length_tlv, skip_fill, slices_tlv, sprites_tlv, stop_data,
    stops_data, svg_data, tlv, LayerRef,
};

verus! {

broadcast use lemma_empty_prefix;

/// The sixty-four-bit number stored at `at`, least significant byte first.
pub open spec fn read_le64(s: Seq<u8>, at: int) -> nat {
    read_le32(s, at) + 0x1_0000_0000 * read_le32(s, at + 4)
}

/// Reading gives back what was written, for eight little-endian bytes.
pub proof fn le64_reads_back(s: Seq<u8>, at: int, n: u64)
    requires
        0 <= at,
        at + 8 <= s.len(),
        s.subrange(at, at + 8) == le64(n),
    ensures
        read_le64(s, at) == n,
{
    let w = s.subrange(at, at + 8);
    let low = (n % 0x1_0000_0000) as u32;
    let high = (n / 0x1_0000_0000) as u32;
    assert(s.subrange(at, at + 4) =~= w.subrange(0, 4));
    assert(s.subrange(at + 4, at + 8) =~= w.subrange(4, 8));
    assert(w.subrange(0, 4) =~= le32(low));
    assert(w.subrange(4, 8) =~= le32(high));
    le32_reads_back(s, at, low);
    le32_reads_back(s, at + 4, high);
}

/// Where eight parts stand one behind the other.
pub proof fn lemma_parts(
    a: Seq<u8>,
    b: Seq<u8>,
    c: Seq<u8>,
    d: Seq<u8>,
    e: Seq<u8>,
    f: Seq<u8>,
    g: Seq<u8>,
    h: Seq<u8>,
)
    ensures
        ({
            let all = a + b + c + d + e + f + g + h;
            let i = a.len() as int;
            let j = i + b.len();
            let k = j + c.len();
            let l = k + d.len();
            let m = l + e.len();
            let n = m + f.len();
            let o = n + g.len();
            let p = o + h.len();
            &&& all.len() == p
            &&& all.subrange(0, i) == a
            &&& all.subrange(i, j) == b
            &&& all.subrange(j, k) == c
            &&& all.subrange(k, l) == d
            &&& all.subrange(l, m) == e
            &&& all.subrange(m, n) == f
            &&& all.subrange(n, o) == g
            &&& all.subrange(o, p) == h
        }),
{
    let all = a + b + c + d + e + f + g + h;
    let i = a.len() as int;
    let j = i + b.len();
    let k = j + c.len();
    let l = k + d.len();
    let m = l + e.len();
    let n = m + f.len();
    let o = n + g.len();
    let p = o + h.len();
    assert(all.subrange(0, i) =~= a);
    assert(all.subrange(i, j) =~= b);
    assert(all.subrange(j, k) =~= c);
    assert(all.subrange(k, l) =~= d);
    assert(all.subrange(l, m) =~= e);
    assert(all.subrange(m, n) =~= f);
    assert(all.subrange(n, o) =~= g);
    assert(all.subrange(o, p) =~= h);
}

/// A part of a part.
pub proof fn lemma_inner(s: Seq<u8>, a: int, b: int, c: int, d: int)
    requires
        0 <= a <= b <= s.len(),
        0 <= c <= d <= b - a,
    ensures
        s.subrange(a, b).subrange(c, d) == s.subrange(a + c, a + d),
{
    assert(s.subrange(a, b).subrange(c, d) =~= s.subrange(a + c, a + d));
}

/// Numbers read inside a part are those read there in the whole.
pub proof fn lemma_reads_inside(s: Seq<u8>, a: int, b: int, at: int)
    requires
        0 <= a <= b <= s.len(),
        0 <= at,
    ensures
        at + 4 <= b - a ==> read_le32(s, a + at) == read_le32(s.subrange(a, b), at),
        at + 2 <= b - a ==> read_le16(s, a + at) == read_le16(s.subrange(a, b), at),
{
}

/// The letters that four bytes spell.
pub open spec fn spells(s: Seq<u8>, at: int, a: u8, b: u8, c: u8, d: u8) -> bool {
    s[at] == a && s[at + 1] == b && s[at + 2] == c && s[at + 3] == d
}

/// Whether the first bytes of a rendition tell its flags, width, height, scale, pixel
/// format and color space.
#[verifier::opaque]
pub open spec fn tells_image(
    s: Seq<u8>,
    width: u32,
    height: u32,
    scale_factor: u32,
    format: Seq<u8>,
    flags: u32,
    colorspace: u32,
) -> bool {
    &&& spells(s, 0, 0x49, 0x53, 0x54, 0x43)
    &&& read_le32(s, 4) == 1
    &&& read_le32(s, 8) == flags
    &&& read_le32(s, 12) == width
    &&& read_le32(s, 16) == height
    &&& read_le32(s, 20) == scale_factor
    &&& s.subrange(24, 28) == format
    &&& read_le32(s, 28) == colorspace & 0xf
}

/// Whether the header of a rendition tells its layout and its name, which ends in a
/// zero.
#[verifier::opaque]
pub open spec fn tells_name(s: Seq<u8>, layout: u16, name: Seq<char>) -> bool {
    let text = encode_utf8(name);
    &&& read_le32(s, 32) == 0
    &&& read_le16(s, 36) == layout
    &&& text.len() < 128 ==> s.subrange(40, 40int + text.len()) == text
    &&& text.len() < 128 ==> s[40int + text.len()] == 0
}

/// Whether the header of a rendition tells how long its two parts are.
#[verifier::opaque]
pub open spec fn tells_parts(s: Seq<u8>, tags: Seq<u8>, data: Seq<u8>, bitmaps: u32) -> bool {
    &&& s.len() == 184 + tags.len() + data.len()
    &&& read_le32(s, 172) == bitmaps
    &&& tags_of(s) == tags
    &&& body_of(s) == data
}

/// The header of a rendition tells all that the rendition was built from, each at its
/// place: the mark and the version, flags, width, height, scale, pixel format, color
/// space, layout, name, and the lengths of the two parts behind it.
pub proof fn headers_read_back(
    width: u32,
    height: u32,
    scale_factor: u32,
    format: Seq<u8>,
    layout: u16,
    name: Seq<char>,
    tags: Seq<u8>,
    data: Seq<u8>,
    flags: u32,
    colorspace: u32,
    bitmaps: u32,
)
    requires
        format.len() == 4,
        tags.len() <= u32::MAX,
        data.len() <= u32::MAX,
    ensures
        ({
            let s = csi(
                width,
                height,
                scale_factor,
                format,
                layout,
                name,
                tags,
                data,
                flags,
                colorspace,
                bitmaps,
            );
            &&& tells_image(s, width, height, scale_factor, format, flags, colorspace)
            &&& tells_name(s, layout, name)
            &&& tells_parts(s, tags, data, bitmaps)
        }),
{
    let start = csi_start(width, height, scale_factor, format, layout, name, flags, colorspace);
    let first = first_fields(width, height, scale_factor, format, flags, colorspace);
    lemma_first_fields(width, height, scale_factor, format, flags, colorspace);
    lemma_name_fields(first, layout, name);
    assert(start == first + le32(0) + le16(layout) + le16(0) + name_field(name));
    lemma_parts_fields(start, tags, data, bitmaps);
    let all = start + le32(tags.len() as u32) + le32(bitmaps) + le32(0) + le32(data.len() as u32)
        + tags + data;
    lemma_prefix_tells(
        all,
        start,
        first,
        width,
        height,
        scale_factor,
        format,
        layout,
        name,
        flags,
        colorspace,
    );
}

spec fn first_fields(
    width: u32,
    height: u32,
    scale_factor: u32,
    format: Seq<u8>,
    flags: u32,
    colorspace: u32,
) -> Seq<u8> {
    be32(crate::csi::CSI_MAGIC) + le32(1) + le32(flags) + le32(width) + le32(height) + le32(
        scale_factor,
    ) + format + le32(colorspace & 0xf)
}

proof fn lemma_first_fields(
    width: u32,
    height: u32,
    scale_factor: u32,
    format: Seq<u8>,
    flags: u32,
    colorspace: u32,
)
    requires
        format.len() == 4,
    ensures
        first_fields(width, height, scale_factor, format, flags, colorspace).len() == 32,
        tells_image(
            first_fields(width, height, scale_factor, format, flags, colorspace),
            width,
            height,
            scale_factor,
            format,
            flags,
            colorspace,
        ),
{
    let mark = be32(crate::csi::CSI_MAGIC);
    lemma_mark();
    lemma_words(
        mark,
        le32(1),
        le32(flags),
        le32(width),
        le32(height),
        le32(scale_factor),
        format,
        le32(colorspace & 0xf),
    );
    lemma_image_fields(
        first_fields(width, height, scale_factor, format, flags, colorspace),
        width,
        height,
        scale_factor,
        format,
        flags,
        colorspace,
    );
}

proof fn lemma_mark()
    ensures
        be32(crate::csi::CSI_MAGIC) == seq![0x49u8, 0x53, 0x54, 0x43],
{
    assert(be32(crate::csi::CSI_MAGIC) =~= seq![0x49u8, 0x53, 0x54, 0x43]);
}

/// Where eight words of four bytes stand one behind the other.
pub proof fn lemma_words(
    a: Seq<u8>,
    b: Seq<u8>,
    c: Seq<u8>,
    d: Seq<u8>,
    e: Seq<u8>,
    f: Seq<u8>,
    g: Seq<u8>,
    h: Seq<u8>,
)
    requires
        a.len() == 4 && b.len() == 4 && c.len() == 4 && d.len() == 4,
        e.len() == 4 && f.len() == 4 && g.len() == 4 && h.len() == 4,
    ensures
        ({
            let all = a + b + c + d + e + f + g + h;
            &&& all.len() == 32
            &&& all.subrange(0, 4) == a
            &&& all.subrange(4, 8) == b
            &&& all.subrange(8, 12) == c
            &&& all.subrange(12, 16) == d
            &&& all.subrange(16, 20) == e
            &&& all.subrange(20, 24) == f
            &&& all.subrange(24, 28) == g
            &&& all.subrange(28, 32) == h
        }),
{
    lemma_parts(a, b, c, d, e, f, g, h);
}

proof fn lemma_image_fields(
    s: Seq<u8>,
    width: u32,
    height: u32,
    scale_factor: u32,
    format: Seq<u8>,
    flags: u32,
    colorspace: u32,
)
    requires
        s.len() == 32,
        s.subrange(0, 4) == seq![0x49u8, 0x53, 0x54, 0x43],
        s.subrange(4, 8) == le32(1),
        s.subrange(8, 12) == le32(flags),
        s.subrange(12, 16) == le32(width),
        s.subrange(16, 20) == le32(height),
        s.subrange(20, 24) == le32(scale_factor),
        s.subrange(24, 28) == format,
        s.subrange(28, 32) == le32(colorspace & 0xf),
    ensures
        tells_image(s, width, height, scale_factor, format, flags, colorspace),
{
    reveal(tells_image);
    let mark = s.subrange(0, 4);
    assert(mark[0] == s[0] && mark[1] == s[1] && mark[2] == s[2] && mark[3] == s[3]);
    le32_reads_back(s, 4, 1);
    le32_reads_back(s, 8, flags);
    le32_reads_back(s, 12, width);
    le32_reads_back(s, 16, height);
    le32_reads_back(s, 20, scale_factor);
    le32_reads_back(s, 28, colorspace & 0xf);
}

proof fn lemma_name_fields(first: Seq<u8>, layout: u16, name: Seq<char>)
    requires
        first.len() == 32,
    ensures
        ({
            let s = first + le32(0) + le16(layout) + le16(0) + name_field(name);
            &&& s.len() == 168
            &&& s.subrange(0, 32) == first
            &&& tells_name(s, layout, name)
        }),
{
    reveal(tells_name);
    let s = first + le32(0) + le16(layout) + le16(0) + name_field(name);
    let field = name_field(name);
    let text = encode_utf8(name);
    assert(field.len() == 128);
    assert(s.subrange(0, 32) =~= first);
    assert(s.subrange(32, 36) =~= le32(0));
    assert(s.subrange(36, 38) =~= le16(layout));
    assert(s.subrange(40, 168) =~= field);
    le32_reads_back(s, 32, 0);
    le16_reads_back(s, 36, layout);
    if text.len() < 128 {
        assert(text.take(text.len() as int) =~= text);
        assert(field == padded(text, 128));
        lemma_inner(s, 40, 168, 0, text.len() as int);
        assert(field.subrange(0, text.len() as int) =~= text);
        assert(s.subrange(40, 168)[text.len() as int] == s[40int + text.len()]);
    }
}

proof fn lemma_parts_fields(start: Seq<u8>, tags: Seq<u8>, data: Seq<u8>, bitmaps: u32)
    requires
        start.len() == 168,
        tags.len() <= u32::MAX,
        data.len() <= u32::MAX,
    ensures
        ({
            let s = start + le32(tags.len() as u32) + le32(bitmaps) + le32(0) + le32(
                data.len() as u32,
            ) + tags + data;
            &&& s.subrange(0, 168) == start
            &&& tells_parts(s, tags, data, bitmaps)
        }),
{
    let s = start + le32(tags.len() as u32) + le32(bitmaps) + le32(0) + le32(data.len() as u32)
        + tags + data;
    let none = Seq::<u8>::empty();
    lemma_parts(
        start,
        le32(tags.len() as u32),
        le32(bitmaps),
        le32(0),
        le32(data.len() as u32),
        tags,
        data,
        none,
    );
    assert(s + none =~= s);
    lemma_lengths(s, tags, data, bitmaps);
}

proof fn lemma_lengths(s: Seq<u8>, tags: Seq<u8>, data: Seq<u8>, bitmaps: u32)
    requires
        tags.len() <= u32::MAX,
        data.len() <= u32::MAX,
        s.len() == 184 + tags.len() + data.len(),
        s.subrange(168, 172) == le32(tags.len() as u32),
        s.subrange(172, 176) == le32(bitmaps),
        s.subrange(180, 184) == le32(data.len() as u32),
        s.subrange(184, 184int + tags.len()) == tags,
        s.subrange(184int + tags.len(), 184int + tags.len() + data.len()) == data,
    ensures
        tells_parts(s, tags, data, bitmaps),
{
    reveal(tells_parts);
    le32_reads_back(s, 168, tags.len() as u32);
    le32_reads_back(s, 172, bitmaps);
    le32_reads_back(s, 180, data.len() as u32);
}

proof fn lemma_prefix_tells(
    s: Seq<u8>,
    start: Seq<u8>,
    first: Seq<u8>,
    width: u32,
    height: u32,
    scale_factor: u32,
    format: Seq<u8>,
    layout: u16,
    name: Seq<char>,
    flags: u32,
    colorspace: u32,
)
    requires
        s.len() >= 168,
        start.len() == 168,
        first.len() == 32,
        s.subrange(0, 168) == start,
        start.subrange(0, 32) == first,
        tells_image(first, width, height, scale_factor, format, flags, colorspace),
        tells_name(start, layout, name),
    ensures
        tells_image(s, width, height, scale_factor, format, flags, colorspace),
        tells_name(s, layout, name),
{
    reveal(tells_image);
    reveal(tells_name);
    assert forall|i: int| 0 <= i < 168 implies s[i] == start[i] by {
        assert(s.subrange(0, 168)[i] == s[i]);
    }
    assert forall|i: int| 0 <= i < 32 implies start[i] == first[i] by {
        assert(start.subrange(0, 32)[i] == start[i]);
    }
    assert(s.subrange(24, 28) =~= first.subrange(24, 28));
    let text = encode_utf8(name);
    if text.len() < 128 {
        assert(s.subrange(40, 40int + text.len()) =~= start.subrange(40, 40int + text.len()));
    }
}

/// The tagged values of a rendition, found by the lengths in its header.
pub open spec fn tags_of(s: Seq<u8>) -> Seq<u8> {
    s.subrange(184, 184int + read_le32(s, 168))
}

/// The data of a rendition, found by the lengths in its header.
pub open spec fn body_of(s: Seq<u8>) -> Seq<u8> {
    let at = 184int + read_le32(s, 168);
    s.subrange(at, at + read_le32(s, 180))
}

/// The first value with a tag: tags and lengths have four bytes each.
#[verifier::opaque]
pub open spec fn tagged(list: Seq<u8>, tag: nat) -> Option<Seq<u8>>
    decreases list.len(),
{
    if list.len() < 8 {
        None
    } else {
        let len = read_le32(list, 4) as int;
        if 8 + len > list.len() {
            None
        } else if read_le32(list, 0) == tag {
            Some(list.subrange(8, 8 + len))
        } else {
            tagged(list.skip(8 + len), tag)
        }
    }
}

/// A value in front of a list is found under its tag, and hides no other tag.
pub proof fn lemma_tagged(tag: u32, body: Seq<u8>, rest: Seq<u8>, wanted: nat)
    requires
        body.len() <= u32::MAX,
    ensures
        tagged(tlv(tag, body) + rest, wanted) == (if wanted == tag {
            Some(body)
        } else {
            tagged(rest, wanted)
        }),
{
    reveal(tagged);
    let list = tlv(tag, body) + rest;
    assert(list.subrange(0, 4) =~= le32(tag));
    assert(list.subrange(4, 8) =~= le32(body.len() as u32));
    le32_reads_back(list, 0, tag);
    le32_reads_back(list, 4, body.len() as u32);
    assert(list.subrange(8, 8 + body.len() as int) =~= body);
    assert(list.skip(8 + body.len() as int) =~= rest);
}

/// A single value is found under its tag.
pub proof fn lemma_tagged_last(tag: u32, body: Seq<u8>, wanted: nat)
    requires
        body.len() <= u32::MAX,
    ensures
        tagged(tlv(tag, body), wanted) == (if wanted == tag {
            Some(body)
        } else {
            None
        }),
{
    reveal(tagged);
    lemma_tagged(tag, body, Seq::empty(), wanted);
    assert(tlv(tag, body) + Seq::<u8>::empty() =~= tlv(tag, body));
}

/// Whether tagged values tell the size of an image: one slice over all of it, and no
/// insets.
pub open spec fn tell_size(tags: Seq<u8>, width: nat, height: nat) -> bool {
    &&& match tagged(tags, 1001) {
        Some(s) => {
            &&& s.len() == 20
            &&& read_le32(s, 0) == 1
            &&& read_le32(s, 4) == 0
            &&& read_le32(s, 8) == 0
            &&& read_le32(s, 12) == width
            &&& read_le32(s, 16) == height
        },
        None => false,
    }
    &&& match tagged(tags, 1003) {
        Some(m) => {
            &&& m.len() == 28
            &&& read_le32(m, 0) == 1
            &&& read_le32(m, 4) == 0
            &&& read_le32(m, 8) == 0
            &&& read_le32(m, 12) == 0
            &&& read_le32(m, 16) == 0
            &&& read_le32(m, 20) == width
            &&& read_le32(m, 24) == height
        },
        None => false,
    }
}

/// Whether tagged values ask for normal blending at an opacity, upright.
pub open spec fn tell_opacity(tags: Seq<u8>, opacity: nat) -> bool {
    &&& match tagged(tags, 1004) {
        Some(s) => s.len() == 8 && read_le32(s, 0) == 0 && read_le32(s, 4) == opacity,
        None => false,
    }
    &&& match tagged(tags, 1006) {
        Some(s) => s.len() == 4 && read_le32(s, 0) == 1,
        None => false,
    }
}

spec fn slices_body(width: u32, height: u32) -> Seq<u8> {
    le32(1) + le32(0) + le32(0) + le32(width) + le32(height)
}

spec fn metrics_body(width: u32, height: u32) -> Seq<u8> {
    le32(1) + le32(0) + le32(0) + le32(0) + le32(0) + le32(width) + le32(height)
}

proof fn lemma_size_bodies(width: u32, height: u32)
    ensures
        ({
            let s = slices_body(width, height);
            let m = metrics_body(width, height);
            &&& s.len() == 20
            &&& read_le32(s, 0) == 1
            &&& read_le32(s, 4) == 0
            &&& read_le32(s, 8) == 0
            &&& read_le32(s, 12) == width
            &&& read_le32(s, 16) == height
            &&& m.len() == 28
            &&& read_le32(m, 0) == 1
            &&& read_le32(m, 4) == 0
            &&& read_le32(m, 8) == 0
            &&& read_le32(m, 12) == 0
            &&& read_le32(m, 16) == 0
            &&& read_le32(m, 20) == width
            &&& read_le32(m, 24) == height
        }),
{
    let s = slices_body(width, height);
    let m = metrics_body(width, height);
    let none = Seq::<u8>::empty();
    lemma_parts(le32(1), le32(0), le32(0), le32(width), le32(height), none, none, none);
    assert(s + none + none + none =~= s);
    lemma_parts(
        le32(1),
        le32(0),
        le32(0),
        le32(0),
        le32(0),
        le32(width),
        le32(height),
        none,
    );
    assert(m + none =~= m);
    le32_reads_back(s, 0, 1);
    le32_reads_back(s, 4, 0);
    le32_reads_back(s, 8, 0);
    le32_reads_back(s, 12, width);
    le32_reads_back(s, 16, height);
    le32_reads_back(m, 0, 1);
    le32_reads_back(m, 4, 0);
    le32_reads_back(m, 8, 0);
    le32_reads_back(m, 12, 0);
    le32_reads_back(m, 16, 0);
    le32_reads_back(m, 20, width);
    le32_reads_back(m, 24, height);
}

proof fn lemma_opacity_bodies(opacity: u32)
    ensures
        (le32(0) + le32(opacity)).len() == 8,
        read_le32(le32(0) + le32(opacity), 0) == 0,
        read_le32(le32(0) + le32(opacity), 4) == opacity,
        le32(1).len() == 4,
        read_le32(le32(1), 0) == 1,
{
    let s = le32(0) + le32(opacity);
    assert(s.subrange(0, 4) =~= le32(0));
    assert(s.subrange(4, 8) =~= le32(opacity));
    le32_reads_back(s, 0, 0);
    le32_reads_back(s, 4, opacity);
    assert(le32(1).subrange(0, 4) =~= le32(1));
    le32_reads_back(le32(1), 0, 1);
}

/// What stands in front of a list in slices, metrics, opacity and orientation.
proof fn lemma_common_tags(width: u32, height: u32, opacity: u32, rest: Seq<u8>, wanted: nat)
    ensures
        tagged(slices_tlv(width, height) + rest, wanted) == (if wanted == 1001 {
            Some(slices_body(width, height))
        } else {
            tagged(rest, wanted)
        }),
        tagged(metrics_tlv(width, height) + rest, wanted) == (if wanted == 1003 {
            Some(metrics_body(width, height))
        } else {
            tagged(rest, wanted)
        }),
        tagged(opacity_tlv(opacity) + rest, wanted) == (if wanted == 1004 {
            Some(le32(0) + le32(opacity))
        } else {
            tagged(rest, wanted)
        }),
        tagged(orientation_tlv(1) + rest, wanted) == (if wanted == 1006 {
            Some(le32(1))
        } else {
            tagged(rest, wanted)
        }),
{
    lemma_tagged(0x03e9, slices_body(width, height), rest, wanted);
    lemma_tagged(0x03eb, metrics_body(width, height), rest, wanted);
    lemma_tagged(0x03ec, le32(0) + le32(opacity), rest, wanted);
    lemma_tagged(0x03ee, le32(1), rest, wanted);
}

/// The value of an attribute in a list of pairs, two bytes for each number.
#[verifier::opaque]
pub open spec fn attribute(pairs: Seq<u8>, attr: nat) -> Option<nat>
    decreases pairs.len(),
{
    if pairs.len() < 4 {
        None
    } else if read_le16(pairs, 0) == attr {
        Some(read_le16(pairs, 2))
    } else {
        attribute(pairs.skip(4), attr)
    }
}

/// A pair in front of others gives its attribute a value, and hides no other.
pub proof fn lemma_attribute(attr: u16, value: u16, rest: Seq<u8>, wanted: nat)
    ensures
        attribute(le16(attr) + le16(value) + rest, wanted) == (if wanted == attr {
            Some(value as nat)
        } else {
            attribute(rest, wanted)
        }),
{
    reveal(attribute);
    let pairs = le16(attr) + le16(value) + rest;
    assert(pairs.subrange(0, 2) =~= le16(attr));
    assert(pairs.subrange(2, 4) =~= le16(value));
    le16_reads_back(pairs, 0, attr);
    le16_reads_back(pairs, 2, value);
    assert(pairs.skip(4) =~= rest);
}

proof fn lemma_optional(attr: u16, value: u16, rest: Seq<u8>, wanted: nat)
    ensures
        attribute(optional_column(attr, value) + rest, wanted) == (if wanted == attr && value
            != 0 {
            Some(value as nat)
        } else {
            attribute(rest, wanted)
        }),
{
    lemma_attribute(attr, value, rest, wanted);
}

/// A value that is there only if it is not zero.
pub open spec fn unless_zero(value: u16) -> Option<nat> {
    if value != 0 {
        Some(value as nat)
    } else {
        None
    }
}

/// Whether pairs are those of the key of an atlas: a packed element, a regular part,
/// and the scale, with identifier, number and idiom where they are not zero.
#[verifier::opaque]
pub open spec fn tell_atlas(
    pairs: Seq<u8>,
    scale: u16,
    identifier: u16,
    dim1: u16,
    idiom: u16,
) -> bool {
    &&& attribute(pairs, 1) == Some(9nat)
    &&& attribute(pairs, 2) == Some(181nat)
    &&& attribute(pairs, 8) == unless_zero(dim1)
    &&& attribute(pairs, 12) == Some(scale as nat)
    &&& attribute(pairs, 15) == unless_zero(idiom)
    &&& attribute(pairs, 17) == unless_zero(identifier)
}

proof fn lemma_regroup(
    z: Seq<u8>,
    a: Seq<u8>,
    b: Seq<u8>,
    c: Seq<u8>,
    d: Seq<u8>,
    e: Seq<u8>,
    f: Seq<u8>,
    g: Seq<u8>,
    h: Seq<u8>,
    i: Seq<u8>,
    j: Seq<u8>,
)
    requires
        z.len() == 2,
    ensures
        (z + a + b + c + d + e + f + g + h + i + j).skip(2) == a + b + (c + d + (e + (f + (g + h
            + (i + j))))),
{
    assert((z + a + b + c + d + e + f + g + h + i + j).skip(2) =~= a + b + (c + d + (e + (f + (g + h
        + (i + j))))));
}

proof fn lemma_atlas_pairs(
    scale: u16,
    identifier: u16,
    dim1: u16,
    idiom: u16,
    wanted: nat,
) -> (found: Option<nat>)
    ensures
        found == attribute(atlas_key(scale, identifier, dim1, idiom).skip(2), wanted),
        found == (if wanted == 1 {
            Some(9nat)
        } else if wanted == 2 {
            Some(181nat)
        } else if wanted == 8 && dim1 != 0 {
            Some(dim1 as nat)
        } else if wanted == 17 && identifier != 0 {
            Some(identifier as nat)
        } else if wanted == 12 {
            Some(scale as nat)
        } else if wanted == 15 && idiom != 0 {
            Some(idiom as nat)
        } else {
            None
        }),
{
    let end = le16(0);
    assert(attribute(end, wanted) is None) by {
        reveal(attribute);
    }
    let last = optional_column(15, idiom) + end;
    let scaled = le16(12) + le16(scale) + last;
    let named = optional_column(17, identifier) + scaled;
    let numbered = optional_column(8, dim1) + named;
    let part = le16(2) + le16(181) + numbered;
    lemma_regroup(
        le16(0),
        le16(1),
        le16(9),
        le16(2),
        le16(181),
        optional_column(8, dim1),
        optional_column(17, identifier),
        le16(12),
        le16(scale),
        optional_column(15, idiom),
        end,
    );
    lemma_attribute(1, 9, part, wanted);
    lemma_attribute(2, 181, numbered, wanted);
    lemma_optional(8, dim1, named, wanted);
    lemma_optional(17, identifier, scaled, wanted);
    lemma_attribute(12, scale, last, wanted);
    lemma_optional(15, idiom, end, wanted);
    attribute(atlas_key(scale, identifier, dim1, idiom).skip(2), wanted)
}

proof fn lemma_atlas_key(scale: u16, identifier: u16, dim1: u16, idiom: u16)
    ensures
        tell_atlas(
            atlas_key(scale, identifier, dim1, idiom).skip(2),
            scale,
            identifier,
            dim1,
            idiom,
        ),
        16 <= atlas_key(scale, identifier, dim1, idiom).len() <= 28,
{
    reveal(tell_atlas);
    let a = lemma_atlas_pairs(scale, identifier, dim1, idiom, 1);
    let b = lemma_atlas_pairs(scale, identifier, dim1, idiom, 2);
    let c = lemma_atlas_pairs(scale, identifier, dim1, idiom, 8);
    let d = lemma_atlas_pairs(scale, identifier, dim1, idiom, 12);
    let e = lemma_atlas_pairs(scale, identifier, dim1, idiom, 15);
    let f = lemma_atlas_pairs(scale, identifier, dim1, idiom, 17);
}

/// Whether a link leads to a place in an atlas: where it begins from the left and from
/// the lower edge, its width and height, and the key of the atlas, whose length stands
/// in front of it.
#[verifier::opaque]
pub open spec fn leads_to(
    link: Seq<u8>,
    x: u32,
    y: u32,
    width: u32,
    height: u32,
    scale: u16,
    identifier: u16,
    dim1: u16,
    idiom: u16,
) -> bool {
    &&& spells(link, 0, 0x4b, 0x4c, 0x4e, 0x49)
    &&& read_le32(link, 4) == 0
    &&& read_le32(link, 8) == x
    &&& read_le32(link, 12) == y
    &&& read_le32(link, 16) == width
    &&& read_le32(link, 20) == height
    &&& read_le16(link, 24) == 12
    &&& link.len() == 28 + read_le16(link, 26)
    &&& tell_atlas(link.skip(30), scale, identifier, dim1, idiom)
}

spec fn link_body(
    x: u32,
    y: u32,
    width: u32,
    height: u32,
    scale: u16,
    identifier: u16,
    dim1: u16,
    idiom: u16,
) -> Seq<u8> {
    let key = atlas_key(scale, identifier, dim1, idiom);
    be32(crate::csi::LINK_MAGIC) + le32(0) + le32(x) + le32(y) + le32(width) + le32(height) + le16(
        12,
    ) + le16(key.len() as u16) + key
}

proof fn lemma_link_mark()
    ensures
        be32(crate::csi::LINK_MAGIC) == seq![0x4bu8, 0x4c, 0x4e, 0x49],
{
    assert(be32(crate::csi::LINK_MAGIC) =~= seq![0x4bu8, 0x4c, 0x4e, 0x49]);
}

proof fn lemma_link_fields(
    link: Seq<u8>,
    x: u32,
    y: u32,
    width: u32,
    height: u32,
    scale: u16,
    identifier: u16,
    dim1: u16,
    idiom: u16,
    key: Seq<u8>,
)
    requires
        key.len() <= u16::MAX,
        key.len() >= 2,
        tell_atlas(key.skip(2), scale, identifier, dim1, idiom),
        link.len() == 28 + key.len(),
        link.subrange(0, 4) == seq![0x4bu8, 0x4c, 0x4e, 0x49],
        link.subrange(4, 8) == le32(0),
        link.subrange(8, 12) == le32(x),
        link.subrange(12, 16) == le32(y),
        link.subrange(16, 20) == le32(width),
        link.subrange(20, 24) == le32(height),
        link.subrange(24, 26) == le16(12),
        link.subrange(26, 28) == le16(key.len() as u16),
        link.subrange(28, 28int + key.len()) == key,
    ensures
        leads_to(link, x, y, width, height, scale, identifier, dim1, idiom),
{
    reveal(leads_to);
    let mark = link.subrange(0, 4);
    assert(mark[0] == link[0] && mark[1] == link[1] && mark[2] == link[2] && mark[3] == link[3]);
    le32_reads_back(link, 4, 0);
    le32_reads_back(link, 8, x);
    le32_reads_back(link, 12, y);
    le32_reads_back(link, 16, width);
    le32_reads_back(link, 20, height);
    le16_reads_back(link, 24, 12);
    le16_reads_back(link, 26, key.len() as u16);
    assert(link.skip(30) =~= key.skip(2));
}

/// Where the parts of a link stand.
proof fn lemma_link_parts(
    a: Seq<u8>,
    b: Seq<u8>,
    c: Seq<u8>,
    d: Seq<u8>,
    e: Seq<u8>,
    f: Seq<u8>,
    g: Seq<u8>,
    h: Seq<u8>,
    key: Seq<u8>,
)
    requires
        a.len() == 4 && b.len() == 4 && c.len() == 4 && d.len() == 4,
        e.len() == 4 && f.len() == 4 && g.len() == 2 && h.len() == 2,
    ensures
        ({
            let all = a + b + c + d + e + f + g + h + key;
            &&& all.len() == 28 + key.len()
            &&& all.subrange(0, 4) == a
            &&& all.subrange(4, 8) == b
            &&& all.subrange(8, 12) == c
            &&& all.subrange(12, 16) == d
            &&& all.subrange(16, 20) == e
            &&& all.subrange(20, 24) == f
            &&& all.subrange(24, 26) == g
            &&& all.subrange(26, 28) == h
            &&& all.subrange(28, 28int + key.len()) == key
        }),
{
    let all = a + b + c + d + e + f + g + h + key;
    assert(all.subrange(0, 4) =~= a);
    assert(all.subrange(4, 8) =~= b);
    assert(all.subrange(8, 12) =~= c);
    assert(all.subrange(12, 16) =~= d);
    assert(all.subrange(16, 20) =~= e);
    assert(all.subrange(20, 24) =~= f);
    assert(all.subrange(24, 26) =~= g);
    assert(all.subrange(26, 28) =~= h);
    assert(all.subrange(28, 28int + key.len()) =~= key);
}

proof fn lemma_link_body(
    x: u32,
    y: u32,
    width: u32,
    height: u32,
    scale: u16,
    identifier: u16,
    dim1: u16,
    idiom: u16,
)
    ensures
        ({
            let link = link_body(x, y, width, height, scale, identifier, dim1, idiom);
            &&& 44 <= link.len() <= 56
            &&& leads_to(link, x, y, width, height, scale, identifier, dim1, idiom)
        }),
{
    let key = atlas_key(scale, identifier, dim1, idiom);
    lemma_atlas_key(scale, identifier, dim1, idiom);
    lemma_link_mark();
    lemma_link_parts(
        be32(crate::csi::LINK_MAGIC),
        le32(0),
        le32(x),
        le32(y),
        le32(width),
        le32(height),
        le16(12),
        le16(key.len() as u16),
        key,
    );
    lemma_link_fields(
        link_body(x, y, width, height, scale, identifier, dim1, idiom),
        x,
        y,
        width,
        height,
        scale,
        identifier,
        dim1,
        idiom,
        key,
    );
}

/// A link read back gives the place that it was made for, and the atlas.
pub proof fn links_read_back(
    x: u32,
    y: u32,
    width: u32,
    height: u32,
    scale: u16,
    identifier: u16,
    dim1: u16,
    idiom: u16,
)
    ensures
        ({
            let s = link_tlv(x, y, width, height, scale, identifier, dim1, idiom);
            &&& read_le32(s, 0) == 1010
            &&& s.len() == 8 + read_le32(s, 4)
            &&& read_le32(s, 16) == x
            &&& read_le32(s, 20) == y
            &&& read_le32(s, 24) == width
            &&& read_le32(s, 28) == height
            &&& leads_to(s.skip(8), x, y, width, height, scale, identifier, dim1, idiom)
        }),
{
    let link = link_body(x, y, width, height, scale, identifier, dim1, idiom);
    lemma_link_body(x, y, width, height, scale, identifier, dim1, idiom);
    lemma_value_behind(1010, link, x, y, width, height, scale, identifier, dim1, idiom);
}

proof fn lemma_value_behind(
    tag: u32,
    link: Seq<u8>,
    x: u32,
    y: u32,
    width: u32,
    height: u32,
    scale: u16,
    identifier: u16,
    dim1: u16,
    idiom: u16,
)
    requires
        44 <= link.len() <= 56,
        leads_to(link, x, y, width, height, scale, identifier, dim1, idiom),
    ensures
        ({
            let s = tlv(tag, link);
            &&& read_le32(s, 0) == tag
            &&& s.len() == 8 + read_le32(s, 4)
            &&& read_le32(s, 16) == x
            &&& read_le32(s, 20) == y
            &&& read_le32(s, 24) == width
            &&& read_le32(s, 28) == height
            &&& s.skip(8) == link
        }),
{
    reveal(leads_to);
    let s = tlv(tag, link);
    assert(s.subrange(0, 4) =~= le32(tag));
    assert(s.subrange(4, 8) =~= le32(link.len() as u32));
    le32_reads_back(s, 0, tag);
    le32_reads_back(s, 4, link.len() as u32);
    assert(s.skip(8) =~= link);
    assert forall|i: int| 0 <= i < link.len() implies s[8 + i] == link[i] by {}
    assert(read_le32(s, 16) == read_le32(link, 8));
    assert(read_le32(s, 20) == read_le32(link, 12));
    assert(read_le32(s, 24) == read_le32(link, 16));
    assert(read_le32(s, 28) == read_le32(link, 20));
}

/// The tagged values of a packed image give its size and lead to its place.
pub proof fn packed_tags_read_back(
    width: u32,
    height: u32,
    scale: u16,
    x: u32,
    y: u32,
    identifier: u16,
    dim1: u16,
    idiom: u16,
)
    ensures
        ({
            let tags = packed_image_tlv(width, height, scale, x, y, identifier, dim1, idiom);
            &&& tags.len() <= 500
            &&& tell_size(tags, width as nat, height as nat)
            &&& tell_opacity(tags, 0x3f80_0000)
            &&& match tagged(tags, 1010) {
                Some(link) => leads_to(
                    link,
                    x,
                    y,
                    width,
                    height,
                    scale,
                    identifier,
                    dim1,
                    idiom,
                ),
                None => false,
            }
        }),
{
    let tags = packed_image_tlv(width, height, scale, x, y, identifier, dim1, idiom);
    let link = link_body(x, y, width, height, scale, identifier, dim1, idiom);
    lemma_link_body(x, y, width, height, scale, identifier, dim1, idiom);
    let last = orientation_tlv(1);
    lemma_five(
        slices_tlv(width, height),
        metrics_tlv(width, height),
        tlv(1010, link),
        opacity_tlv(0x3f80_0000),
        last,
    );
    lemma_packed_tags(width, height, link, 1001);
    lemma_packed_tags(width, height, link, 1003);
    lemma_packed_tags(width, height, link, 1004);
    lemma_packed_tags(width, height, link, 1006);
    lemma_packed_tags(width, height, link, 1010);
    lemma_size_bodies(width, height);
    lemma_opacity_bodies(0x3f80_0000);
}

proof fn lemma_five(a: Seq<u8>, b: Seq<u8>, c: Seq<u8>, d: Seq<u8>, e: Seq<u8>)
    ensures
        a + b + c + d + e == a + (b + (c + (d + e))),
{
    assert(a + b + c + d + e =~= a + (b + (c + (d + e))));
}

proof fn lemma_packed_tags(width: u32, height: u32, link: Seq<u8>, wanted: nat)
    requires
        link.len() <= 56,
    ensures
        ({
            let tags = slices_tlv(width, height) + (metrics_tlv(width, height) + (tlv(1010, link) + (
            opacity_tlv(0x3f80_0000) + orientation_tlv(1))));
            &&& tags.len() <= 500
            &&& tagged(tags, wanted) == (if wanted == 1001 {
                Some(slices_body(width, height))
            } else if wanted == 1003 {
                Some(metrics_body(width, height))
            } else if wanted == 1010 {
                Some(link)
            } else if wanted == 1004 {
                Some(le32(0) + le32(0x3f80_0000))
            } else if wanted == 1006 {
                Some(le32(1))
            } else {
                None
            })
        }),
{
    let last = orientation_tlv(1);
    let fourth = opacity_tlv(0x3f80_0000) + last;
    let third = tlv(1010, link) + fourth;
    let second = metrics_tlv(width, height) + third;
    lemma_common_tags(width, height, 0x3f80_0000, second, wanted);
    lemma_common_tags(width, height, 0x3f80_0000, third, wanted);
    lemma_tagged(1010, link, fourth, wanted);
    lemma_common_tags(width, height, 0x3f80_0000, last, wanted);
    lemma_tagged_last(0x03ee, le32(1), wanted);
}

/// What the list behind a color, data, or layers says beside its own values.
pub proof fn lemma_plain_tags(opacity: u32)
    ensures
        ({
            let tags = opacity_tlv(opacity) + orientation_tlv(1);
            &&& tags.len() <= 100
            &&& tell_opacity(tags, opacity as nat)
        }),
{
    let last = orientation_tlv(1);
    lemma_common_tags(0, 0, opacity, last, 1004);
    lemma_common_tags(0, 0, opacity, last, 1006);
    lemma_tagged_last(0x03ee, le32(1), 1006);
    lemma_opacity_bodies(opacity);
}

/// Where four words and what follows them stand.
proof fn lemma_four_words(a: Seq<u8>, b: Seq<u8>, c: Seq<u8>, d: Seq<u8>, rest: Seq<u8>)
    requires
        a.len() == 4 && b.len() == 4 && c.len() == 4 && d.len() == 4,
    ensures
        ({
            let all = a + b + c + d + rest;
            &&& all.len() == 16 + rest.len()
            &&& all.subrange(0, 4) == a
            &&& all.subrange(4, 8) == b
            &&& all.subrange(8, 12) == c
            &&& all.subrange(12, 16) == d
            &&& all.skip(16) == rest
        }),
{
    let all = a + b + c + d + rest;
    assert(all.subrange(0, 4) =~= a);
    assert(all.subrange(4, 8) =~= b);
    assert(all.subrange(8, 12) =~= c);
    assert(all.subrange(12, 16) =~= d);
    assert(all.skip(16) =~= rest);
}

proof fn lemma_marks()
    ensures
        be32(crate::csi::COLOR_MAGIC) == seq![0x52u8, 0x4c, 0x4f, 0x43],
        be32(crate::csi::GRADIENT_MAGIC) == seq![0x41u8, 0x52, 0x47, 0x47],
        be32(crate::csi::RAW_MAGIC) == seq![0x44u8, 0x57, 0x41, 0x52],
{
    assert(be32(crate::csi::COLOR_MAGIC) =~= seq![0x52u8, 0x4c, 0x4f, 0x43]);
    assert(be32(crate::csi::GRADIENT_MAGIC) =~= seq![0x41u8, 0x52, 0x47, 0x47]);
    assert(be32(crate::csi::RAW_MAGIC) =~= seq![0x44u8, 0x57, 0x41, 0x52]);
}

proof fn lemma_doubles(values: Seq<u64>, i: int)
    requires
        0 <= i < values.len(),
    ensures
        doubles(values).len() == 8 * values.len(),
        doubles(values).subrange(8 * i, 8 * i + 8) == le64(values[i]),
    decreases values.len(),
{
    let all = doubles(values);
    let rest = doubles(values.drop_last());
    if values.len() > 1 {
        lemma_doubles(values.drop_last(), 0);
    }
    assert(rest.len() == 8 * (values.len() - 1));
    if i == values.len() - 1 {
        assert(all.subrange(8 * i, 8 * i + 8) =~= le64(values[i]));
    } else {
        lemma_doubles(values.drop_last(), i);
        assert(all.subrange(8 * i, 8 * i + 8) =~= rest.subrange(8 * i, 8 * i + 8));
    }
}

/// Whether the data of a color tell its space and how many components it has.
#[verifier::opaque]
pub open spec fn tells_color(data: Seq<u8>, space: u32, count: nat) -> bool {
    &&& spells(data, 0, 0x52, 0x4c, 0x4f, 0x43)
    &&& read_le32(data, 4) == 1
    &&& read_le32(data, 8) == space
    &&& read_le32(data, 12) == count
    &&& data.len() == 16 + 8 * count
}

/// The data of a color tell its space, how many components it has, and each of them in
/// order.
pub proof fn colors_read_back(space: u32, components: Seq<u64>)
    requires
        components.len() <= u32::MAX,
    ensures
        tells_color(color_data(space, components), space, components.len()),
        forall|i: int|
            0 <= i < components.len() ==> read_le64(color_data(space, components), 16 + 8 * i)
                == #[trigger] components[i],
{
    let data = color_data(space, components);
    let rest = doubles(components);
    lemma_marks();
    lemma_four_words(
        be32(crate::csi::COLOR_MAGIC),
        le32(1),
        le32(space),
        le32(components.len() as u32),
        rest,
    );
    if components.len() > 0 {
        lemma_doubles(components, 0);
    }
    lemma_color_fields(data, space, components.len());
    assert forall|i: int| 0 <= i < components.len() implies read_le64(data, 16 + 8 * i)
        == #[trigger] components[i] by {
        lemma_doubles(components, i);
        lemma_component(data, rest, components[i], i);
    }
}

proof fn lemma_component(data: Seq<u8>, rest: Seq<u8>, value: u64, i: int)
    requires
        data.len() == 16 + rest.len(),
        data.skip(16) == rest,
        0 <= i,
        8 * i + 8 <= rest.len(),
        rest.subrange(8 * i, 8 * i + 8) == le64(value),
    ensures
        read_le64(data, 16 + 8 * i) == value,
{
    assert(data.subrange(16 + 8 * i, 24 + 8 * i) =~= rest.subrange(8 * i, 8 * i + 8));
    le64_reads_back(data, 16 + 8 * i, value);
}

proof fn lemma_color_fields(data: Seq<u8>, space: u32, count: nat)
    requires
        count <= u32::MAX,
        data.len() == 16 + 8 * count,
        data.subrange(0, 4) == seq![0x52u8, 0x4c, 0x4f, 0x43],
        data.subrange(4, 8) == le32(1),
        data.subrange(8, 12) == le32(space),
        data.subrange(12, 16) == le32(count as u32),
    ensures
        tells_color(data, space, count),
{
    reveal(tells_color);
    let mark = data.subrange(0, 4);
    assert(mark[0] == data[0] && mark[1] == data[1] && mark[2] == data[2] && mark[3] == data[3]);
    le32_reads_back(data, 4, 1);
    le32_reads_back(data, 8, space);
    le32_reads_back(data, 12, count as u32);
}

/// A rendition of a color or a gradient: its layout, its name and its data.
pub proof fn color_renditions_read_back(layout: u16, name: Seq<char>, data: Seq<u8>)
    requires
        data.len() <= u32::MAX,
    ensures
        ({
            let s = color_csi(layout, name, data);
            &&& tells_image(s, 0, 0, 0, seq![0u8, 0, 0, 0], 0, 0)
            &&& tells_name(s, layout, name)
            &&& body_of(s) == data
            &&& tell_opacity(tags_of(s), 0)
        }),
{
    lemma_plain_tags(0);
    let none = crate::csi::no_format();
    assert(none =~= seq![0u8, 0, 0, 0]);
    headers_read_back(0, 0, 0, none, layout, name, color_tlv(), data, 0, 0, 1);
    lemma_parts_told(color_csi(layout, name, data), color_tlv(), data, 1);
}

pub proof fn lemma_parts_told(s: Seq<u8>, tags: Seq<u8>, data: Seq<u8>, bitmaps: u32)
    requires
        tells_parts(s, tags, data, bitmaps),
    ensures
        tags_of(s) == tags,
        body_of(s) == data,
{
    reveal(tells_parts);
}

/// The stops of a gradient in `n` records from `at` on: positions and names, each of
/// which ends in a zero.
pub open spec fn stops_at(data: Seq<u8>, at: int, n: nat) -> Seq<(nat, Seq<u8>)>
    decreases n,
{
    if n == 0 {
        Seq::empty()
    } else {
        let len = read_le32(data, at + 4) as int;
        seq![(read_le32(data, at), data.subrange(at + 8, at + 7 + len))] + stops_at(
            data,
            at + 8 + len,
            (n - 1) as nat,
        )
    }
}

/// Stops with their names in UTF-8.
pub open spec fn encoded_stops(stops: Seq<(u32, Seq<char>)>) -> Seq<(nat, Seq<u8>)> {
    Seq::new(stops.len(), |i: int| (stops[i].0 as nat, encode_utf8(stops[i].1)))
}

proof fn lemma_first_stop(stops: Seq<(u32, Seq<char>)>)
    requires
        stops.len() > 0,
    ensures
        stops_data(stops) == stop_data(stops[0]) + stops_data(stops.skip(1)),
    decreases stops.len(),
{
    if stops.len() == 1 {
        assert(stops.drop_last() =~= Seq::empty());
        assert(stops.skip(1) =~= Seq::empty());
        assert(stops_data(stops) =~= stop_data(stops[0]) + stops_data(stops.skip(1)));
    } else {
        lemma_first_stop(stops.drop_last());
        assert(stops.drop_last().skip(1) =~= stops.skip(1).drop_last());
        assert(stops.skip(1).last() == stops.last());
        assert(stops_data(stops) =~= stop_data(stops[0]) + stops_data(stops.skip(1)));
    }
}

proof fn lemma_stop_fields(data: Seq<u8>, at: int, stop: (u32, Seq<char>))
    requires
        0 <= at,
        encode_utf8(stop.1).len() < u32::MAX,
        at + stop_data(stop).len() <= data.len(),
        data.subrange(at, at + stop_data(stop).len()) == stop_data(stop),
    ensures
        stop_data(stop).len() == 9 + encode_utf8(stop.1).len(),
        read_le32(data, at) == stop.0,
        read_le32(data, at + 4) == encode_utf8(stop.1).len() + 1,
        data.subrange(at + 8, at + 8 + encode_utf8(stop.1).len()) == encode_utf8(stop.1),
{
    let name = encode_utf8(stop.1);
    let record = stop_data(stop);
    assert(data.subrange(at, at + 4) =~= record.subrange(0, 4));
    assert(data.subrange(at + 4, at + 8) =~= record.subrange(4, 8));
    assert(record.subrange(0, 4) =~= le32(stop.0));
    assert(record.subrange(4, 8) =~= le32((name.len() + 1) as u32));
    le32_reads_back(data, at, stop.0);
    le32_reads_back(data, at + 4, (name.len() + 1) as u32);
    assert(data.subrange(at + 8, at + 8 + name.len()) =~= record.subrange(
        8,
        8int + name.len(),
    ));
    assert(record.subrange(8, 8int + name.len()) =~= name);
}

proof fn lemma_stops_read_back(data: Seq<u8>, at: int, stops: Seq<(u32, Seq<char>)>)
    requires
        0 <= at,
        at + stops_data(stops).len() <= data.len(),
        data.subrange(at, at + stops_data(stops).len()) == stops_data(stops),
        forall|i: int|
            0 <= i < stops.len() ==> encode_utf8((#[trigger] stops[i]).1).len() < u32::MAX,
    ensures
        stops_at(data, at, stops.len()) == encoded_stops(stops),
    decreases stops.len(),
{
    if stops.len() == 0 {
        assert(stops_at(data, at, 0) =~= encoded_stops(stops));
    } else {
        let all = stops_data(stops);
        let record = stop_data(stops[0]);
        let rest = stops.skip(1);
        lemma_first_stop(stops);
        assert(data.subrange(at, at + record.len()) =~= all.subrange(0, record.len() as int));
        assert(all.subrange(0, record.len() as int) =~= record);
        lemma_stop_fields(data, at, stops[0]);
        let next = at + record.len();
        assert(data.subrange(next, next + stops_data(rest).len()) =~= all.subrange(
            record.len() as int,
            all.len() as int,
        ));
        assert(all.subrange(record.len() as int, all.len() as int) =~= stops_data(rest));
        assert forall|i: int| 0 <= i < rest.len() implies encode_utf8((#[trigger] rest[i]).1).len()
            < u32::MAX by {
            assert(rest[i] == stops[i + 1]);
        }
        lemma_stops_read_back(data, next, rest);
        assert(stops_at(data, at, stops.len()) =~= encoded_stops(stops));
    }
}

/// Whether the data of a gradient tell its kind, the two points it runs between, and
/// its stops in order.
#[verifier::opaque]
pub open spec fn tells_gradient(
    data: Seq<u8>,
    geometry: Seq<u32>,
    stops: Seq<(u32, Seq<char>)>,
    kind: u32,
) -> bool {
    &&& spells(data, 0, 0x41, 0x52, 0x47, 0x47)
    &&& read_le32(data, 4) == stops.len()
    &&& read_le32(data, 8) == kind
    &&& read_le32(data, 12) == 0
    &&& read_le32(data, 16) == geometry[0]
    &&& read_le32(data, 20) == geometry[1]
    &&& read_le32(data, 24) == geometry[2]
    &&& read_le32(data, 28) == geometry[3]
    &&& stops_at(data, 32, stops.len()) == encoded_stops(stops)
}

/// The data of a gradient tell its kind, the two points it runs between, and its stops
/// in order, each with its position and the name of its color.
pub proof fn gradients_read_back(geometry: Seq<u32>, stops: Seq<(u32, Seq<char>)>, kind: u32)
    requires
        geometry.len() == 4,
        stops.len() <= u32::MAX,
        forall|i: int|
            0 <= i < stops.len() ==> encode_utf8((#[trigger] stops[i]).1).len() < u32::MAX,
    ensures
        tells_gradient(gradient_data(geometry, stops, kind), geometry, stops, kind),
{
    lemma_marks();
    let head = be32(crate::csi::GRADIENT_MAGIC) + le32(stops.len() as u32) + le32(kind) + le32(0)
        + le32(geometry[0]) + le32(geometry[1]) + le32(geometry[2]) + le32(geometry[3]);
    lemma_words(
        be32(crate::csi::GRADIENT_MAGIC),
        le32(stops.len() as u32),
        le32(kind),
        le32(0),
        le32(geometry[0]),
        le32(geometry[1]),
        le32(geometry[2]),
        le32(geometry[3]),
    );
    lemma_gradient_fields(head, geometry, stops, kind);
}

proof fn lemma_gradient_fields(
    head: Seq<u8>,
    geometry: Seq<u32>,
    stops: Seq<(u32, Seq<char>)>,
    kind: u32,
)
    requires
        geometry.len() == 4,
        stops.len() <= u32::MAX,
        forall|i: int|
            0 <= i < stops.len() ==> encode_utf8((#[trigger] stops[i]).1).len() < u32::MAX,
        head.len() == 32,
        head.subrange(0, 4) == seq![0x41u8, 0x52, 0x47, 0x47],
        head.subrange(4, 8) == le32(stops.len() as u32),
        head.subrange(8, 12) == le32(kind),
        head.subrange(12, 16) == le32(0),
        head.subrange(16, 20) == le32(geometry[0]),
        head.subrange(20, 24) == le32(geometry[1]),
        head.subrange(24, 28) == le32(geometry[2]),
        head.subrange(28, 32) == le32(geometry[3]),
    ensures
        tells_gradient(head + stops_data(stops), geometry, stops, kind),
{
    reveal(tells_gradient);
    let data = head + stops_data(stops);
    let mark = head.subrange(0, 4);
    assert(mark[0] == head[0] && mark[1] == head[1] && mark[2] == head[2] && mark[3] == head[3]);
    le32_reads_back(head, 4, stops.len() as u32);
    le32_reads_back(head, 8, kind);
    le32_reads_back(head, 12, 0);
    le32_reads_back(head, 16, geometry[0]);
    le32_reads_back(head, 20, geometry[1]);
    le32_reads_back(head, 24, geometry[2]);
    le32_reads_back(head, 28, geometry[3]);
    assert(data.subrange(32, 32int + stops_data(stops).len()) =~= stops_data(stops));
    lemma_stops_read_back(data, 32, stops);
}

/// Stored data tell whether they are compressed and how long they are, and end the
/// rendition.
pub proof fn raw_data_read_back(is_compressed: u32, data: Seq<u8>)
    requires
        data.len() <= u32::MAX,
    ensures
        ({
            let s = raw_data(is_compressed, data);
            &&& spells(s, 0, 0x44, 0x57, 0x41, 0x52)
            &&& read_le32(s, 4) == is_compressed
            &&& read_le32(s, 8) == data.len()
            &&& s.skip(12) == data
        }),
{
    let s = raw_data(is_compressed, data);
    assert(s.subrange(4, 8) =~= le32(is_compressed));
    assert(s.subrange(8, 12) =~= le32(data.len() as u32));
    le32_reads_back(s, 4, is_compressed);
    le32_reads_back(s, 8, data.len() as u32);
    assert(s.skip(12) =~= data);
}

/// An SVG drawing is stored as it is, or as a stream that is shorter; a flag tells
/// which.
pub proof fn drawings_read_back(svg: Seq<u8>, stream: Option<Seq<u8>>)
    requires
        svg.len() <= u32::MAX,
    ensures
        ({
            let s = svg_data(svg, stream);
            let shorter = stream is Some && stream->0.len() < svg.len();
            &&& spells(s, 0, 0x44, 0x57, 0x41, 0x52)
            &&& read_le32(s, 8) == s.len() - 12
            &&& s.len() <= 12 + svg.len()
            &&& shorter ==> read_le32(s, 4) == 1 && s.skip(12) == stream->0
            &&& !shorter ==> read_le32(s, 4) == 0 && s.skip(12) == svg
        }),
{
    if stream is Some && stream->0.len() < svg.len() {
        raw_data_read_back(1, stream->0);
    } else {
        raw_data_read_back(0, svg);
    }
}

/// Names in `n` records from `at` on, each with its length before it.
pub open spec fn names_at(data: Seq<u8>, at: int, n: nat) -> Seq<Seq<u8>>
    decreases n,
{
    if n == 0 {
        Seq::empty()
    } else {
        let len = read_le32(data, at) as int;
        seq![data.subrange(at + 4, at + 4 + len)] + names_at(data, at + 4 + len, (n - 1) as nat)
    }
}

/// Names in UTF-8.
pub open spec fn encoded_texts(names: Seq<Seq<char>>) -> Seq<Seq<u8>> {
    Seq::new(names.len(), |i: int| encode_utf8(names[i]))
}

spec fn sprite_record(name: Seq<char>) -> Seq<u8> {
    le32(encode_utf8(name).len() as u32) + encode_utf8(name)
}

proof fn lemma_first_name(names: Seq<Seq<char>>)
    requires
        names.len() > 0,
    ensures
        name_list(names) == sprite_record(names[0]) + name_list(names.skip(1)),
    decreases names.len(),
{
    if names.len() == 1 {
        assert(names.drop_last() =~= Seq::empty());
        assert(names.skip(1) =~= Seq::empty());
        assert(name_list(names) =~= sprite_record(names[0]) + name_list(names.skip(1)));
    } else {
        lemma_first_name(names.drop_last());
        assert(names.drop_last().skip(1) =~= names.skip(1).drop_last());
        assert(names.skip(1).last() == names.last());
        assert(name_list(names) =~= sprite_record(names[0]) + name_list(names.skip(1)));
    }
}

proof fn lemma_names_read_back(data: Seq<u8>, at: int, names: Seq<Seq<char>>)
    requires
        0 <= at,
        at + name_list(names).len() <= data.len(),
        data.subrange(at, at + name_list(names).len()) == name_list(names),
        forall|i: int|
            0 <= i < names.len() ==> encode_utf8(#[trigger] names[i]).len() <= u32::MAX,
    ensures
        names_at(data, at, names.len()) == encoded_texts(names),
    decreases names.len(),
{
    if names.len() == 0 {
        assert(names_at(data, at, 0) =~= encoded_texts(names));
    } else {
        let all = name_list(names);
        let text = encode_utf8(names[0]);
        let record = sprite_record(names[0]);
        let rest = names.skip(1);
        lemma_first_name(names);
        assert(all.len() == 4 + text.len() + name_list(rest).len());
        assert(data.subrange(at, at + 4) =~= all.subrange(0, 4));
        assert(all.subrange(0, 4) =~= le32(text.len() as u32));
        le32_reads_back(data, at, text.len() as u32);
        assert(data.subrange(at + 4, at + 4 + text.len()) =~= all.subrange(
            4,
            4int + text.len(),
        ));
        assert(all.subrange(4, 4int + text.len()) =~= text);
        let next = at + 4 + text.len();
        assert(data.subrange(next, next + name_list(rest).len()) =~= all.subrange(
            record.len() as int,
            all.len() as int,
        ));
        assert(all.subrange(record.len() as int, all.len() as int) =~= name_list(rest));
        assert forall|i: int| 0 <= i < rest.len() implies encode_utf8(#[trigger] rest[i]).len()
            <= u32::MAX by {
            assert(rest[i] == names[i + 1]);
        }
        lemma_names_read_back(data, next, rest);
        assert(names_at(data, at, names.len()) =~= encoded_texts(names));
    }
}

/// A sprite atlas lists the names of its sprites in order; one without sprites has no
/// list.
pub proof fn sprite_names_read_back(names: Seq<Seq<char>>)
    requires
        names.len() <= u32::MAX,
        8 + name_list(names).len() <= u32::MAX,
    ensures
        tell_opacity(sprites_tlv(names), 0x3f80_0000),
        match tagged(sprites_tlv(names), 1013) {
            Some(list) => names.len() > 0 && read_le32(list, 0) == names.len() && names_at(
                list,
                8,
                names.len(),
            ) == encoded_texts(names),
            None => names.len() == 0,
        },
{
    let list = le32(names.len() as u32) + le32(0) + name_list(names);
    let last = tlv(0x03f5, list);
    let behind = orientation_tlv(1) + last;
    if names.len() > 0 {
        assert(sprites_tlv(names) =~= opacity_tlv(0x3f80_0000) + behind);
        lemma_common_tags(0, 0, 0x3f80_0000, behind, 1004);
        lemma_common_tags(0, 0, 0x3f80_0000, behind, 1006);
        lemma_common_tags(0, 0, 0x3f80_0000, behind, 1013);
        lemma_common_tags(0, 0, 0x3f80_0000, last, 1006);
        lemma_common_tags(0, 0, 0x3f80_0000, last, 1013);
        lemma_tagged_last(0x03f5, list, 1013);
        lemma_opacity_bodies(0x3f80_0000);
        assert(list.subrange(0, 4) =~= le32(names.len() as u32));
        le32_reads_back(list, 0, names.len() as u32);
        assert(list.subrange(8, 8int + name_list(names).len()) =~= name_list(names));
        lemma_short_names(names);
        lemma_names_read_back(list, 8, names);
    } else {
        lemma_plain_tags(0x3f80_0000);
        lemma_common_tags(0, 0, 0x3f80_0000, orientation_tlv(1), 1013);
        lemma_tagged_last(0x03ee, le32(1), 1013);
    }
}

proof fn lemma_short_names(names: Seq<Seq<char>>)
    requires
        8 + name_list(names).len() <= u32::MAX,
    ensures
        forall|i: int|
            0 <= i < names.len() ==> encode_utf8(#[trigger] names[i]).len() <= u32::MAX,
    decreases names.len(),
{
    if names.len() > 0 {
        lemma_short_names(names.drop_last());
        assert forall|i: int| 0 <= i < names.len() implies encode_utf8(#[trigger] names[i]).len()
            <= u32::MAX by {
            if i < names.len() - 1 {
                assert(names.drop_last()[i] == names[i]);
            }
        }
    }
}

proof fn lemma_frames(layers: Seq<LayerRef>, dim: u32, i: int)
    requires
        0 <= i < layers.len(),
    ensures
        layer_frames(layers, dim).len() == 48 * layers.len(),
        layer_frames(layers, dim).subrange(48 * i, 48 * i + 48) == layer_frame(layers[i], dim),
    decreases layers.len(),
{
    let all = layer_frames(layers, dim);
    let rest = layer_frames(layers.drop_last(), dim);
    let last = layer_frame(layers.last(), dim);
    assert(last.len() == 48);
    if layers.len() > 1 {
        lemma_frames(layers.drop_last(), dim, 0);
    }
    assert(rest.len() == 48 * (layers.len() - 1));
    if i == layers.len() - 1 {
        assert(all.subrange(48 * i, 48 * i + 48) =~= last);
    } else {
        lemma_frames(layers.drop_last(), dim, i);
        assert(all.subrange(48 * i, 48 * i + 48) =~= rest.subrange(48 * i, 48 * i + 48));
    }
}

spec fn mode_record(mode: u32) -> Seq<u8> {
    le32(mode) + le32(0) + le32(1) + zeros(1)
}

proof fn lemma_modes(n: nat, stacked: bool, i: int)
    requires
        0 <= i < n,
    ensures
        layer_modes(n, stacked).len() == 13 * n,
        layer_modes(n, stacked).subrange(13 * i, 13 * i + 13) == mode_record(
            if stacked && i > 0 {
                2
            } else {
                0
            },
        ),
    decreases n,
{
    let all = layer_modes(n, stacked);
    let rest = layer_modes((n - 1) as nat, stacked);
    let mode: u32 = if stacked && n > 1 {
        2
    } else {
        0
    };
    assert(mode_record(mode).len() == 13);
    if n > 1 {
        lemma_modes((n - 1) as nat, stacked, 0);
    }
    assert(rest.len() == 13 * (n - 1));
    if i == n - 1 {
        assert(all.subrange(13 * i, 13 * i + 13) =~= mode_record(mode));
    } else {
        lemma_modes((n - 1) as nat, stacked, i);
        assert(all.subrange(13 * i, 13 * i + 13) =~= rest.subrange(13 * i, 13 * i + 13));
    }
}

spec fn shadow_record(strength: u32) -> Seq<u8> {
    zeros(16) + le32(strength)
}

proof fn lemma_shadows(layers: Seq<LayerRef>, stacked: bool, i: int)
    requires
        0 <= i < layers.len(),
    ensures
        layer_shadows(layers, stacked).len() == 20 * layers.len(),
        layer_shadows(layers, stacked).subrange(20 * i, 20 * i + 20) == shadow_record(
            if stacked && layers[i].part == 246 {
                0x3f00_0000
            } else {
                0
            },
        ),
    decreases layers.len(),
{
    let all = layer_shadows(layers, stacked);
    let rest = layer_shadows(layers.drop_last(), stacked);
    let strength: u32 = if stacked && layers.last().part == 246 {
        0x3f00_0000
    } else {
        0
    };
    let last = shadow_record(strength);
    assert(last.len() == 20);
    assert(all == rest + last);
    if layers.len() > 1 {
        lemma_shadows(layers.drop_last(), stacked, 0);
    }
    assert(rest.len() == 20 * (layers.len() - 1));
    lemma_last_record(rest, last, i, layers.len() as int);
    if i < layers.len() - 1 {
        lemma_shadows(layers.drop_last(), stacked, i);
        assert(layers.drop_last()[i] == layers[i]);
    }
}

/// A record of twenty bytes behind others.
proof fn lemma_last_record(rest: Seq<u8>, last: Seq<u8>, i: int, n: int)
    requires
        0 <= i < n,
        rest.len() == 20 * (n - 1),
        last.len() == 20,
    ensures
        (rest + last).len() == 20 * n,
        i == n - 1 ==> (rest + last).subrange(20 * i, 20 * i + 20) == last,
        i < n - 1 ==> (rest + last).subrange(20 * i, 20 * i + 20) == rest.subrange(
            20 * i,
            20 * i + 20,
        ),
{
    if i == n - 1 {
        assert((rest + last).subrange(20 * i, 20 * i + 20) =~= last);
    } else {
        assert((rest + last).subrange(20 * i, 20 * i + 20) =~= rest.subrange(
            20 * i,
            20 * i + 20,
        ));
    }
}

/// Whether a frame draws a layer at the origin, in a size, at full opacity, and names
/// it by its element, its part and its identifier.
#[verifier::opaque]
pub open spec fn draws(frame: Seq<u8>, layer: LayerRef, dim: u32) -> bool {
    &&& frame.len() == 48
    &&& forall|b: int| 0 <= b < 16 ==> #[trigger] frame[b] == 0
    &&& read_le32(frame, 16) == dim
    &&& read_le32(frame, 20) == dim
    &&& read_le32(frame, 24) == 0
    &&& read_le32(frame, 28) == 0x3f80_0000
    &&& read_le32(frame, 32) == 16
    &&& attribute(frame.skip(36), 1) == Some(85nat)
    &&& attribute(frame.skip(36), 2) == Some(layer.part as nat)
    &&& attribute(frame.skip(36), 17) == Some(layer.identifier as nat)
}

proof fn lemma_layer_pairs(layer: LayerRef, wanted: nat)
    ensures
        layer_key(layer).len() == 12,
        attribute(layer_key(layer), wanted) == (if wanted == 1 {
            Some(85nat)
        } else if wanted == 2 {
            Some(layer.part as nat)
        } else if wanted == 17 {
            Some(layer.identifier as nat)
        } else {
            None
        }),
{
    let none = Seq::<u8>::empty();
    let third = le16(17) + le16(layer.identifier) + none;
    let second = le16(2) + le16(layer.part) + third;
    assert(attribute(none, wanted) is None) by {
        reveal(attribute);
    }
    lemma_attribute(17, layer.identifier, none, wanted);
    lemma_attribute(2, layer.part, third, wanted);
    lemma_attribute(1, 85, second, wanted);
    assert(layer_key(layer) =~= le16(1) + le16(85) + second);
}

proof fn lemma_frame_fields(
    frame: Seq<u8>,
    start: Seq<u8>,
    key: Seq<u8>,
    layer: LayerRef,
    dim: u32,
)
    requires
        start == zeros(16),
        key.len() == 12,
        attribute(key, 1) == Some(85nat),
        attribute(key, 2) == Some(layer.part as nat),
        attribute(key, 17) == Some(layer.identifier as nat),
        frame.len() == 48,
        frame.subrange(0, 16) == start,
        frame.subrange(16, 20) == le32(dim),
        frame.subrange(20, 24) == le32(dim),
        frame.subrange(24, 28) == le32(0),
        frame.subrange(28, 32) == le32(0x3f80_0000),
        frame.subrange(32, 36) == le32(16),
        frame.subrange(36, 48) == key,
    ensures
        draws(frame, layer, dim),
{
    reveal(draws);
    assert forall|b: int| 0 <= b < 16 implies #[trigger] frame[b] == 0 by {
        assert(frame.subrange(0, 16)[b] == frame[b]);
    }
    le32_reads_back(frame, 16, dim);
    le32_reads_back(frame, 20, dim);
    le32_reads_back(frame, 24, 0);
    le32_reads_back(frame, 28, 0x3f80_0000);
    le32_reads_back(frame, 32, 16);
    assert(frame.skip(36) =~= key);
}

proof fn lemma_frame(layer: LayerRef, dim: u32)
    ensures
        draws(layer_frame(layer, dim), layer, dim),
{
    let none = Seq::<u8>::empty();
    let key = layer_key(layer);
    lemma_layer_pairs(layer, 1);
    lemma_layer_pairs(layer, 2);
    lemma_layer_pairs(layer, 17);
    lemma_parts(
        zeros(16),
        le32(dim),
        le32(dim),
        le32(0),
        le32(0x3f80_0000),
        le32(16),
        key,
        none,
    );
    let frame = layer_frame(layer, dim);
    assert(frame + none =~= frame);
    lemma_frame_fields(frame, zeros(16), key, layer, dim);
}

/// The blend mode of layer `i`.
pub open spec fn mode_at(modes: Seq<u8>, i: int) -> nat {
    read_le32(modes, 8 + 13 * i)
}

/// The strength of the shadow of layer `i`.
pub open spec fn shadow_at(shadows: Seq<u8>, i: int) -> nat {
    read_le32(shadows, 20 + 20 * i)
}

/// A number in one of the records of a list.
proof fn lemma_number_in_record(
    s: Seq<u8>,
    list: Seq<u8>,
    start: int,
    size: int,
    at: int,
    record: Seq<u8>,
    number: u32,
    i: int,
)
    requires
        0 <= start,
        start + list.len() <= s.len(),
        s.subrange(start, start + list.len()) == list,
        0 <= i,
        0 <= at,
        at + 4 <= size,
        record.len() == size,
        size == 13 || size == 20,
        size * i + size <= list.len(),
        list.subrange(size * i, size * i + size) == record,
        record.subrange(at, at + 4) =~= le32(number),
    ensures
        read_le32(s, start + size * i + at) == number,
{
    let from = start + size * i + at;
    assert(0 <= size * i);
    assert(s.subrange(from, from + 4) =~= list.subrange(size * i, size * i + size).subrange(
        at,
        at + 4,
    ));
    le32_reads_back(s, from, number);
}

/// Whether frames draw layers in their order, each in a size.
#[verifier::opaque]
pub open spec fn draw_all(frames: Seq<u8>, layers: Seq<LayerRef>, dim: u32) -> bool {
    &&& read_le32(frames, 0) == layers.len()
    &&& forall|i: int|
        0 <= i < layers.len() ==> draws(
            frames.subrange(4 + 48 * i, 52 + 48 * i),
            #[trigger] layers[i],
            dim,
        )
}

/// Whether all layers are blended normally, or, in a stack, all but the first in mode 2.
#[verifier::opaque]
pub open spec fn blend_all(modes: Seq<u8>, n: nat, stacked: bool) -> bool {
    &&& read_le32(modes, 0) == n
    &&& forall|i: int|
        0 <= i < n ==> #[trigger] mode_at(modes, i) == (if stacked && i > 0 {
            2nat
        } else {
            0nat
        })
}

/// Whether no layers cast shadows but, in a stack, groups of half strength.
#[verifier::opaque]
pub open spec fn shade_all(shadows: Seq<u8>, layers: Seq<LayerRef>, stacked: bool) -> bool {
    &&& read_le32(shadows, 0) == layers.len()
    &&& forall|i: int|
        0 <= i < layers.len() ==> #[trigger] shadow_at(shadows, i) == (if stacked && layers[i].part
            == 246 {
            0x3f00_0000nat
        } else {
            0nat
        })
}

/// Whether tagged values list layers, from the lowest to the topmost.
pub open spec fn list_layers(
    tags: Seq<u8>,
    layers: Seq<LayerRef>,
    dim: u32,
    stacked: bool,
) -> bool {
    match (tagged(tags, 1012), tagged(tags, 1020), tagged(tags, 1021)) {
        (Some(frames), Some(modes), Some(shadows)) => {
            &&& draw_all(frames, layers, dim)
            &&& blend_all(modes, layers.len(), stacked)
            &&& shade_all(shadows, layers, stacked)
        },
        _ => false,
    }
}

/// The list of layers reads back: which layers there are, in their order, and how each
/// is drawn.
pub proof fn layers_read_back(layers: Seq<LayerRef>, dim: u32, stacked: bool, rest: Seq<u8>)
    requires
        8 + 48 * layers.len() <= u32::MAX,
    ensures
        list_layers(layers_tlv(layers, dim, stacked) + rest, layers, dim, stacked),
{
    let n = layers.len();
    let frames = le32(n as u32) + layer_frames(layers, dim) + zeros(4);
    let modes = le32(n as u32) + le32(0) + layer_modes(n, stacked);
    let shadows = le32(n as u32) + layer_shadows(layers, stacked) + zeros(4);
    if n > 0 {
        lemma_frames(layers, dim, 0);
        lemma_modes(n, stacked, 0);
        lemma_shadows(layers, stacked, 0);
    }
    assert(frames.len() == 8 + 48 * n);
    assert(modes.len() == 8 + 13 * n);
    assert(shadows.len() == 8 + 20 * n);
    let third = tlv(0x03fd, shadows) + rest;
    let second = tlv(0x03fc, modes) + third;
    let tags = layers_tlv(layers, dim, stacked) + rest;
    assert(tags =~= tlv(0x03f4, frames) + second);
    lemma_tagged(0x03f4, frames, second, 1012);
    lemma_tagged(0x03f4, frames, second, 1020);
    lemma_tagged(0x03f4, frames, second, 1021);
    lemma_tagged(0x03fc, modes, third, 1020);
    lemma_tagged(0x03fc, modes, third, 1021);
    lemma_tagged(0x03fd, shadows, rest, 1021);
    lemma_draw_all(layers, dim);
    lemma_blend_all(n, stacked);
    lemma_shade_all(layers, stacked);
}

proof fn lemma_draw_all(layers: Seq<LayerRef>, dim: u32)
    requires
        layers.len() <= u32::MAX,
    ensures
        draw_all(
            le32(layers.len() as u32) + layer_frames(layers, dim) + zeros(4),
            layers,
            dim,
        ),
{
    reveal(draw_all);
    let n = layers.len();
    let frames = le32(n as u32) + layer_frames(layers, dim) + zeros(4);
    assert(frames.subrange(0, 4) =~= le32(n as u32));
    le32_reads_back(frames, 0, n as u32);
    assert forall|i: int| 0 <= i < n implies draws(
        frames.subrange(4 + 48 * i, 52 + 48 * i),
        #[trigger] layers[i],
        dim,
    ) by {
        lemma_frames(layers, dim, i);
        lemma_frame(layers[i], dim);
        assert(frames.subrange(4 + 48 * i, 52 + 48 * i) =~= layer_frames(layers, dim).subrange(
            48 * i,
            48 * i + 48,
        ));
    }
}

proof fn lemma_blend_all(n: nat, stacked: bool)
    requires
        n <= u32::MAX,
    ensures
        blend_all(le32(n as u32) + le32(0) + layer_modes(n, stacked), n, stacked),
{
    reveal(blend_all);
    let modes = le32(n as u32) + le32(0) + layer_modes(n, stacked);
    assert(modes.subrange(8, modes.len() as int) =~= layer_modes(n, stacked));
    assert(modes.subrange(0, 4) =~= le32(n as u32));
    le32_reads_back(modes, 0, n as u32);
    assert forall|i: int| 0 <= i < n implies #[trigger] mode_at(modes, i) == (if stacked && i > 0 {
        2nat
    } else {
        0nat
    }) by {
        lemma_modes(n, stacked, i);
        let mode: u32 = if stacked && i > 0 {
            2
        } else {
            0
        };
        lemma_number_in_record(modes, layer_modes(n, stacked), 8, 13, 0, mode_record(mode), mode, i);
    }
}

proof fn lemma_shade_all(layers: Seq<LayerRef>, stacked: bool)
    requires
        layers.len() <= u32::MAX,
    ensures
        shade_all(
            le32(layers.len() as u32) + layer_shadows(layers, stacked) + zeros(4),
            layers,
            stacked,
        ),
{
    reveal(shade_all);
    let n = layers.len();
    let shadows = le32(n as u32) + layer_shadows(layers, stacked) + zeros(4);
    assert(shadows.subrange(0, 4) =~= le32(n as u32));
    le32_reads_back(shadows, 0, n as u32);
    assert(shadows.subrange(4, shadows.len() - 4) =~= layer_shadows(layers, stacked));
    assert forall|i: int| 0 <= i < n implies #[trigger] shadow_at(shadows, i) == (if stacked
        && layers[i].part == 246 {
        0x3f00_0000nat
    } else {
        0nat
    }) by {
        lemma_shadows(layers, stacked, i);
        let strength: u32 = if stacked && layers[i].part == 246 {
            0x3f00_0000
        } else {
            0
        };
        let all = layer_shadows(layers, stacked);
        lemma_number_in_record(shadows, all, 4, 20, 16, shadow_record(strength), strength, i);
    }
}

/// A segment of a JPEG image: a marker, and the length of what follows, itself
/// included.
pub open spec fn segment(marker: u8, body: Seq<u8>) -> Seq<u8> {
    seq![0xffu8, marker, ((body.len() + 2) / 256) as u8, ((body.len() + 2) % 256) as u8] + body
}

/// Segments one behind the other.
pub open spec fn segments(list: Seq<(u8, Seq<u8>)>) -> Seq<u8>
    decreases list.len(),
{
    if list.len() == 0 {
        Seq::empty()
    } else {
        segment(list[0].0, list[0].1) + segments(list.skip(1))
    }
}

/// Markers that begin a frame: from C0 to CF, but for those of tables and extensions.
pub open spec fn begins_frame(marker: u8) -> bool {
    marker >= 0xc0 && marker <= 0xcf && marker != 0xc4 && marker != 0xc8 && marker != 0xcc
}

/// Whether a segment is none that begins a frame, and has a length.
pub open spec fn is_passed_over(part: (u8, Seq<u8>)) -> bool {
    &&& part.1.len() + 2 <= u16::MAX
    &&& part.0 != 0xff && part.0 != 1
    &&& !(part.0 >= 0xd0 && part.0 <= 0xd9)
    &&& !begins_frame(part.0)
}

/// A frame header: the precision, then the height, then the width.
pub open spec fn frame_body(precision: u8, width: u16, height: u16, rest: Seq<u8>) -> Seq<u8> {
    seq![
        precision,
        (height / 256) as u8,
        (height % 256) as u8,
        (width / 256) as u8,
        (width % 256) as u8,
    ] + rest
}

/// A JPEG image has the width and the height of its first frame header, in which the
/// height comes first, whatever segments stand in front of it and whatever follows.
pub proof fn frames_tell_the_size(
    before: Seq<(u8, Seq<u8>)>,
    marker: u8,
    precision: u8,
    width: u16,
    height: u16,
    rest: Seq<u8>,
    more: Seq<u8>,
)
    requires
        forall|i: int| 0 <= i < before.len() ==> is_passed_over(#[trigger] before[i]),
        begins_frame(marker),
    ensures
        jpeg_size(
            seq![0xffu8, 0xd8] + segments(before) + segment(
                marker,
                frame_body(precision, width, height, rest),
            ) + more,
        ) == (width as nat, height as nat),
{
    let start = seq![0xffu8, 0xd8];
    let tail = segment(marker, frame_body(precision, width, height, rest)) + more;
    let data = start + segments(before) + segment(
        marker,
        frame_body(precision, width, height, rest),
    ) + more;
    assert(data =~= start + segments(before) + tail);
    lemma_frame_after(start, before, marker, precision, width, height, rest, more);
}

proof fn lemma_frame_after(
    start: Seq<u8>,
    before: Seq<(u8, Seq<u8>)>,
    marker: u8,
    precision: u8,
    width: u16,
    height: u16,
    rest: Seq<u8>,
    more: Seq<u8>,
)
    requires
        forall|i: int| 0 <= i < before.len() ==> is_passed_over(#[trigger] before[i]),
        begins_frame(marker),
    ensures
        frame_size(
            start + segments(before) + (segment(
                marker,
                frame_body(precision, width, height, rest),
            ) + more),
            start.len() as int,
        ) == (width as nat, height as nat),
    decreases before.len(),
{
    let tail = segment(marker, frame_body(precision, width, height, rest)) + more;
    let data = start + segments(before) + tail;
    let at = start.len() as int;
    if before.len() == 0 {
        assert(data =~= start + tail);
        assert(data[at] == 0xff && data[at + 1] == marker);
        assert(skip_fill(data, at) == at + 1) by {
            reveal_with_fuel(skip_fill, 3);
        }
        assert(data[at + 5] == (height / 256) as u8 && data[at + 6] == (height % 256) as u8);
        assert(data[at + 7] == (width / 256) as u8 && data[at + 8] == (width % 256) as u8);
        assert(read_be16(data, at + 5) == height);
        assert(read_be16(data, at + 7) == width);
    } else {
        let first = segment(before[0].0, before[0].1);
        let others = before.skip(1);
        let next = start + first;
        assert(is_passed_over(before[0]));
        assert(segments(before) == first + segments(others));
        assert(data =~= next + segments(others) + tail);
        assert forall|i: int| 0 <= i < others.len() implies is_passed_over(#[trigger] others[i]) by {
            assert(others[i] == before[i + 1]);
        }
        lemma_frame_after(next, others, marker, precision, width, height, rest, more);
        assert(data[at] == 0xff && data[at + 1] == before[0].0);
        assert(skip_fill(data, at) == at + 1) by {
            reveal_with_fuel(skip_fill, 3);
        }
        let len = before[0].1.len() + 2;
        assert(data[at + 2] == (len / 256) as u8 && data[at + 3] == (len % 256) as u8);
        assert(read_be16(data, at + 2) == len);
        assert(next.len() == at + 2 + len);
    }
}

/// The smallest frame, by its bytes: for every width and height, and whatever follows.
pub proof fn plain_frames_tell_the_size(width: u16, height: u16, rest: Seq<u8>)
    ensures
        jpeg_size(
            seq![
                0xffu8,
                0xd8,
                0xff,
                0xc0,
                0x00,
                0x0b,
                0x08,
                (height / 256) as u8,
                (height % 256) as u8,
                (width / 256) as u8,
                (width % 256) as u8,
            ] + rest,
        ) == (width as nat, height as nat),
{
    let data = seq![
        0xffu8,
        0xd8,
        0xff,
        0xc0,
        0x00,
        0x0b,
        0x08,
        (height / 256) as u8,
        (height % 256) as u8,
        (width / 256) as u8,
        (width % 256) as u8,
    ] + rest;
    assert(data[2] == 0xff && data[3] == 0xc0);
    assert(skip_fill(data, 2) == 3) by {
        reveal_with_fuel(skip_fill, 3);
    }
    assert(read_be16(data, 7) == height);
    assert(read_be16(data, 9) == width);
}

proof fn lemma_four(a: Seq<u8>, b: Seq<u8>, c: Seq<u8>, d: Seq<u8>)
    ensures
        a + b + c + d == a + (b + (c + d)),
{
    assert(a + b + c + d =~= a + (b + (c + d)));
}

/// The tagged values of a JPEG image give its size.
pub proof fn lemma_jpeg_tags(width: u32, height: u32)
    ensures
        ({
            let tags = slices_tlv(width, height) + metrics_tlv(width, height) + opacity_tlv(
                0x3f80_0000,
            ) + orientation_tlv(1);
            &&& tags.len() <= 500
            &&& tell_size(tags, width as nat, height as nat)
            &&& tell_opacity(tags, 0x3f80_0000)
        }),
{
    let last = orientation_tlv(1);
    let third = opacity_tlv(0x3f80_0000) + last;
    let second = metrics_tlv(width, height) + third;
    lemma_four(
        slices_tlv(width, height),
        metrics_tlv(width, height),
        opacity_tlv(0x3f80_0000),
        last,
    );
    lemma_common_tags(width, height, 0x3f80_0000, second, 1001);
    lemma_common_tags(width, height, 0x3f80_0000, second, 1003);
    lemma_common_tags(width, height, 0x3f80_0000, second, 1004);
    lemma_common_tags(width, height, 0x3f80_0000, second, 1006);
    lemma_common_tags(width, height, 0x3f80_0000, third, 1003);
    lemma_common_tags(width, height, 0x3f80_0000, third, 1004);
    lemma_common_tags(width, height, 0x3f80_0000, third, 1006);
    lemma_common_tags(width, height, 0x3f80_0000, last, 1004);
    lemma_common_tags(width, height, 0x3f80_0000, last, 1006);
    lemma_tagged_last(0x03ee, le32(1), 1006);
    lemma_size_bodies(width, height);
    lemma_opacity_bodies(0x3f80_0000);
}

/// The length of a row, in front of a list and behind one.
proof fn lemma_row_tag(row: u32, wanted: nat)
    ensures
        tagged(row_length_tlv(row), wanted) == (if wanted == 1007 {
            Some(le32(row))
        } else {
            None
        }),
        le32(row).len() == 4,
        read_le32(le32(row), 0) == row,
        row_length_tlv(row).len() <= 100,
{
    lemma_tagged_last(0x03ef, le32(row), wanted);
    assert(le32(row).subrange(0, 4) =~= le32(row));
    le32_reads_back(le32(row), 0, row);
}

/// The tagged values of an image with pixels, of each kind, tell the length of its rows;
/// those of an ordinary one its size, too.
pub proof fn lemma_image_tags(width: u32, height: u32, row: u32)
    ensures
        ({
            let last = row_length_tlv(row);
            let tv = slices_tlv(width, height) + opacity_tlv(0x3f80_0000) + orientation_tlv(1)
                + last;
            let plain = slices_tlv(width, height) + metrics_tlv(width, height) + opacity_tlv(
                0x3f80_0000,
            ) + orientation_tlv(1) + last;
            let alone = Seq::<u8>::empty() + last;
            &&& le32(row).len() == 4
            &&& read_le32(le32(row), 0) == row
            &&& tv.len() <= 500 && plain.len() <= 500 && alone.len() <= 500
            &&& tagged(tv, 1007) == Some(le32(row))
            &&& tagged(plain, 1007) == Some(le32(row))
            &&& tagged(alone, 1007) == Some(le32(row))
            &&& tell_size(plain, width as nat, height as nat)
            &&& tell_opacity(plain, 0x3f80_0000)
        }),
{
    let last = row_length_tlv(row);
    let up = orientation_tlv(1) + last;
    let third = opacity_tlv(0x3f80_0000) + up;
    let second = metrics_tlv(width, height) + third;
    lemma_four(slices_tlv(width, height), opacity_tlv(0x3f80_0000), orientation_tlv(1), last);
    lemma_five(
        slices_tlv(width, height),
        metrics_tlv(width, height),
        opacity_tlv(0x3f80_0000),
        orientation_tlv(1),
        last,
    );
    lemma_image_tag(width, height, row, 1001);
    lemma_image_tag(width, height, row, 1003);
    lemma_image_tag(width, height, row, 1004);
    lemma_image_tag(width, height, row, 1006);
    lemma_image_tag(width, height, row, 1007);
    lemma_row_tag(row, 1007);
    lemma_size_bodies(width, height);
    lemma_opacity_bodies(0x3f80_0000);
}

proof fn lemma_image_tag(width: u32, height: u32, row: u32, wanted: nat)
    ensures
        ({
            let third = opacity_tlv(0x3f80_0000) + (orientation_tlv(1) + row_length_tlv(row));
            let tv = slices_tlv(width, height) + third;
            let plain = slices_tlv(width, height) + (metrics_tlv(width, height) + third);
            &&& tv.len() <= 500 && plain.len() <= 500
            &&& wanted == 1007 ==> tagged(tv, wanted) == Some(le32(row))
            &&& tagged(plain, wanted) == (if wanted == 1001 {
                Some(slices_body(width, height))
            } else if wanted == 1003 {
                Some(metrics_body(width, height))
            } else if wanted == 1004 {
                Some(le32(0) + le32(0x3f80_0000))
            } else if wanted == 1006 {
                Some(le32(1))
            } else if wanted == 1007 {
                Some(le32(row))
            } else {
                None
            })
        }),
{
    let last = row_length_tlv(row);
    let up = orientation_tlv(1) + last;
    let third = opacity_tlv(0x3f80_0000) + up;
    let second = metrics_tlv(width, height) + third;
    lemma_common_tags(width, height, 0x3f80_0000, second, wanted);
    lemma_common_tags(width, height, 0x3f80_0000, third, wanted);
    lemma_common_tags(width, height, 0x3f80_0000, up, wanted);
    lemma_common_tags(width, height, 0x3f80_0000, last, wanted);
    lemma_row_tag(row, wanted);
}

/// How long the list of layers is.
pub proof fn lemma_layers_len(layers: Seq<LayerRef>, dim: u32, stacked: bool)
    ensures
        layers_tlv(layers, dim, stacked).len() == 48 + 81 * layers.len(),
{
    if layers.len() > 0 {
        lemma_frames(layers, dim, 0);
        lemma_modes(layers.len(), stacked, 0);
        lemma_shadows(layers, stacked, 0);
    }
}

} // verus!
