//! What a reader finds in icon files, compressed pixels, property lists and reports.

use vstd::prelude::*;
use vstd::utf8::encode_utf8;

use crate::bytes::{
    be16, be16_reads_back, be32, be32_reads_back, le32, le32_reads_back, read_be16, read_be32,
    read_le32,
};
use crate::compress::{
    chunk, chunk_envelope, chunk_rows, chunks_from, deepmap_envelope, kcbc_chunks, lzfse_stream,
};
use crate::csi_laws::spells;
use crate::icns::{icns_file, icns_fits, icns_part, icns_parts, image_type, is_taken};
use crate::plist::{
    array_lines, icon_plist, info_plist, key_line, loose_icon, loose_icons, optional_lines,
    plist_end, plist_start, primary_size, string_line, string_lines, IconImage, LooseModel,
};
use crate::report::{coreui_version, dependency_info, exif_dimensions, records};
use crate::platform::parsed_number;
use crate::text::decimal;

verus! {

/// Whether four letters are the type of the images of a width.
pub open spec fn is_type_of(kind: nat, pixels: u64) -> bool {
    ||| kind == 0x6963_7034 && pixels == 16
    ||| kind == 0x6963_7035 && pixels == 32
    ||| kind == 0x6963_7036 && pixels == 64
    ||| kind == 0x6963_3037 && pixels == 128
    ||| kind == 0x6963_3038 && pixels == 256
    ||| kind == 0x6963_3039 && pixels == 512
    ||| kind == 0x6963_3130 && pixels == 1024
}

/// Images of seven widths have a type, others have none.
pub proof fn image_types_are_by_width(pixels: u64)
    ensures
        match image_type(pixels) {
            Some(kind) => is_type_of(kind as nat, pixels),
            None => forall|kind: nat| !is_type_of(kind, pixels),
        },
{
}

proof fn lemma_part_place(images: Seq<(Vec<u8>, u64)>, i: nat, n: nat)
    requires
        i < n <= images.len(),
        is_taken(images, i as int),
    ensures
        ({
            let parts = icns_parts(images, n);
            let at = icns_parts(images, i).len() as int;
            &&& icns_parts(images, i + 1).len() == at + icns_part(images[i as int]).len()
            &&& at + icns_part(images[i as int]).len() <= parts.len()
            &&& parts.subrange(at, at + icns_part(images[i as int]).len()) == icns_part(
                images[i as int],
            )
        }),
    decreases n,
{
    let parts = icns_parts(images, n);
    let at = icns_parts(images, i).len() as int;
    let part = icns_part(images[i as int]);
    if n == i + 1 {
        assert(parts.subrange(at, at + part.len()) =~= part);
    } else {
        lemma_part_place(images, i, (n - 1) as nat);
        let before = icns_parts(images, (n - 1) as nat);
        assert(parts.subrange(at, at + part.len()) =~= before.subrange(at, at + part.len()));
    }
}

/// Every image of a width that has a type, and is the first of its width, stands in an
/// icon file behind the ones before it: its type, the length of its part, and its data.
pub proof fn icon_files_hold_their_images(images: Seq<(Vec<u8>, u64)>, i: nat)
    requires
        icns_fits(images),
        i < images.len(),
        is_taken(images, i as int),
    ensures
        ({
            let file = icns_file(images);
            let at = 8 + icns_parts(images, i).len() as int;
            let data = images[i as int].0@;
            &&& spells(file, 0, 0x69, 0x63, 0x6e, 0x73)
            &&& is_type_of(read_be32(file, at), images[i as int].1)
            &&& read_be32(file, at + 4) == data.len() + 8
            &&& file.subrange(at + 8, at + 8 + data.len()) == data
            &&& 8 + icns_parts(images, i + 1).len() == at + read_be32(file, at + 4)
        }),
{
    let file = icns_file(images);
    let parts = icns_parts(images, images.len());
    let part = icns_part(images[i as int]);
    let data = images[i as int].0@;
    let kind = image_type(images[i as int].1)->0;
    let at = 8 + icns_parts(images, i).len() as int;
    lemma_part_place(images, i, images.len());
    image_types_are_by_width(images[i as int].1);
    assert(be32(crate::icns::FILE_TYPE) =~= seq![0x69u8, 0x63, 0x6e, 0x73]);
    assert(part.len() == 8 + data.len());
    assert(file.subrange(at, at + part.len()) =~= parts.subrange(at - 8, at - 8 + part.len()));
    assert(file.subrange(at, at + 4) =~= part.subrange(0, 4));
    assert(file.subrange(at + 4, at + 8) =~= part.subrange(4, 8));
    assert(part.subrange(0, 4) =~= be32(kind));
    assert(part.subrange(4, 8) =~= be32((data.len() + 8) as u32));
    be32_reads_back(file, at, kind);
    be32_reads_back(file, at + 4, (data.len() + 8) as u32);
    assert(file.subrange(at + 8, at + 8 + data.len()) =~= part.subrange(
        8,
        8int + data.len(),
    ));
    assert(part.subrange(8, 8int + data.len()) =~= data);
}

/// Whether bytes are the chunks of the rows of an image from `row` on: how many rows a
/// chunk has, how long its stream is, and the stream that `lzfse` makes of these rows; a
/// mark stands between two chunks.  A chunk has a third of the rows, if there are three.
pub open spec fn hold_rows(
    bytes: Seq<u8>,
    data: Seq<u8>,
    bpr: nat,
    height: u32,
    row: nat,
) -> bool
    decreases height - row,
{
    if row >= height {
        bytes.len() == 0
    } else {
        let third = if height >= 3 {
            (height / 3) as nat
        } else {
            height as nat
        };
        let n = if row + third <= height {
            third
        } else {
            (height - row) as nat
        };
        let part = data.subrange((row * bpr) as int, ((row + n) * bpr) as int);
        match lzfse_stream(part, part.len() + 128) {
            None => false,
            Some(stream) => {
                &&& begins_with_chunk(bytes, n, stream)
                &&& if row + n < height {
                    &&& has_mark(bytes, 16 + stream.len() as int)
                    &&& hold_rows(bytes.skip(20 + stream.len() as int), data, bpr, height, row + n)
                } else {
                    bytes.len() == 16 + stream.len()
                }
            },
        }
    }
}

/// Whether bytes begin with a chunk: how many rows it has, how long its stream is, and
/// the stream.
#[verifier::opaque]
pub open spec fn begins_with_chunk(bytes: Seq<u8>, rows: nat, stream: Seq<u8>) -> bool {
    &&& bytes.len() >= 16 + stream.len()
    &&& read_le32(bytes, 0) == 0
    &&& read_le32(bytes, 4) == 0
    &&& read_le32(bytes, 8) == rows
    &&& read_le32(bytes, 12) == stream.len()
    &&& bytes.subrange(16, 16 + stream.len() as int) == stream
}

/// Whether the mark of a chunk stands at a place.
#[verifier::opaque]
pub open spec fn has_mark(bytes: Seq<u8>, at: int) -> bool {
    at + 4 <= bytes.len() && spells(bytes, at, 0x4b, 0x43, 0x42, 0x43)
}

/// Whether every stream that `lzfse` makes is short enough for its length to be stored.
pub open spec fn streams_fit(data: Seq<u8>, bpr: nat, height: u32) -> bool {
    forall|row: nat|
        row < height ==> match #[trigger] crate::compress::chunk_stream(data, bpr, height, row) {
            Some(stream) => stream.len() <= u32::MAX,
            None => true,
        }
}

proof fn lemma_chunks_hold(data: Seq<u8>, bpr: nat, height: u32, row: nat)
    requires
        row <= height,
        chunks_from(data, bpr, height, row) is Some,
        streams_fit(data, bpr, height),
    ensures
        hold_rows(chunks_from(data, bpr, height, row)->0, data, bpr, height, row),
    decreases height - row,
{
    if row < height {
        let n = chunk_rows(height, row);
        let stream = crate::compress::chunk_stream(data, bpr, height, row)->0;
        let rest = chunks_from(data, bpr, height, row + n)->0;
        lemma_chunks_hold(data, bpr, height, row + n);
        let one = chunk(n, stream);
        let bytes = chunks_from(data, bpr, height, row)->0;
        let mark = be32(crate::compress::CHUNK_MAGIC);
        lemma_chunk_mark();
        if row + n < height {
            lemma_chunk_then(one, n, stream, mark, rest);
        } else {
            assert(rest.len() == 0);
            lemma_chunk_then(one, n, stream, Seq::empty(), rest);
        }
        assert(crate::compress::chunk_stream(data, bpr, height, row) == Some(stream));
    }
}

proof fn lemma_chunk_mark()
    ensures
        be32(crate::compress::CHUNK_MAGIC) == seq![0x4bu8, 0x43, 0x42, 0x43],
{
    assert(be32(crate::compress::CHUNK_MAGIC) =~= seq![0x4bu8, 0x43, 0x42, 0x43]);
}

/// A chunk, and what stands behind it.
proof fn lemma_chunk_then(
    one: Seq<u8>,
    n: nat,
    stream: Seq<u8>,
    mark: Seq<u8>,
    rest: Seq<u8>,
)
    requires
        one == chunk(n, stream),
        stream.len() <= u32::MAX,
        n <= u32::MAX,
        mark.len() == 0 && rest.len() == 0 || mark == seq![0x4bu8, 0x43, 0x42, 0x43],
    ensures
        ({
            let bytes = one + (mark + rest);
            let len = stream.len() as int;
            &&& begins_with_chunk(bytes, n, stream)
            &&& bytes.len() == 16 + len + mark.len() + rest.len()
            &&& mark.len() > 0 ==> has_mark(bytes, 16 + len) && bytes.skip(20 + len) == rest
            &&& mark.len() == 0 ==> bytes == one + rest
        }),
{
    reveal(begins_with_chunk);
    reveal(has_mark);
    let bytes = one + (mark + rest);
    let len = stream.len() as int;
    assert(bytes.take(one.len() as int) =~= one);
    lemma_chunk_fields(bytes, one, n, stream);
    if mark.len() > 0 {
        assert(bytes.skip(20 + len) =~= rest);
        assert(bytes[16 + len] == mark[0]);
        assert(bytes[17 + len] == mark[1]);
        assert(bytes[18 + len] == mark[2]);
        assert(bytes[19 + len] == mark[3]);
    } else {
        assert(bytes =~= one + rest);
    }
}

proof fn lemma_chunk_fields(bytes: Seq<u8>, one: Seq<u8>, n: nat, stream: Seq<u8>)
    requires
        one == chunk(n, stream),
        stream.len() <= u32::MAX,
        n <= u32::MAX,
        one.len() <= bytes.len(),
        bytes.take(one.len() as int) =~= one,
    ensures
        one.len() == 16 + stream.len(),
        read_le32(bytes, 0) == 0,
        read_le32(bytes, 4) == 0,
        read_le32(bytes, 8) == n,
        read_le32(bytes, 12) == stream.len(),
        bytes.subrange(16, 16 + stream.len() as int) == stream,
{
    let start = bytes.take(one.len() as int);
    assert forall|i: int| 0 <= i < one.len() implies bytes[i] == one[i] by {
        assert(start[i] == bytes[i]);
    }
    assert(bytes.subrange(0, 4) =~= le32(0));
    assert(bytes.subrange(4, 8) =~= le32(0));
    assert(bytes.subrange(8, 12) =~= le32(n as u32));
    assert(bytes.subrange(12, 16) =~= le32(stream.len() as u32));
    le32_reads_back(bytes, 0, 0);
    le32_reads_back(bytes, 4, 0);
    le32_reads_back(bytes, 8, n as u32);
    le32_reads_back(bytes, 12, stream.len() as u32);
    assert(bytes.subrange(16, 16 + stream.len() as int) =~= stream);
}

/// An image that is compressed in chunks holds all its rows, in order, each once.
pub proof fn chunks_hold_all_rows(data: Seq<u8>, height: u32)
    requires
        kcbc_chunks(data, height) is Some,
        streams_fit(data, data.len() / height as nat, height),
    ensures
        height > 0,
        hold_rows(kcbc_chunks(data, height)->0, data, data.len() / height as nat, height, 0),
{
    lemma_chunks_hold(data, data.len() / height as nat, height, 0);
}

/// The envelope of chunks has a mark, tells whether the image is opaque, and marks the
/// first chunk.
pub proof fn chunk_envelopes_read_back(opaque: bool, chunks: Seq<u8>)
    ensures
        ({
            let s = chunk_envelope(opaque, chunks);
            &&& spells(s, 0, 0x4d, 0x4c, 0x45, 0x43)
            &&& read_le32(s, 4) == (if opaque {
                3nat
            } else {
                1nat
            })
            &&& read_le32(s, 8) == 4
            &&& read_le32(s, 12) == 3
            &&& spells(s, 16, 0x4b, 0x43, 0x42, 0x43)
            &&& s.skip(20) == chunks
        }),
{
    let s = chunk_envelope(opaque, chunks);
    let flag: u32 = if opaque {
        3
    } else {
        1
    };
    assert(be32(crate::compress::ENVELOPE_MAGIC) =~= seq![0x4du8, 0x4c, 0x45, 0x43]);
    assert(be32(crate::compress::CHUNK_MAGIC) =~= seq![0x4bu8, 0x43, 0x42, 0x43]);
    crate::csi_laws::lemma_parts(
        be32(crate::compress::ENVELOPE_MAGIC),
        le32(flag),
        le32(4),
        le32(3),
        be32(crate::compress::CHUNK_MAGIC),
        chunks,
        Seq::empty(),
        Seq::empty(),
    );
    assert(s + Seq::<u8>::empty() + Seq::<u8>::empty() =~= s);
    le32_reads_back(s, 4, flag);
    le32_reads_back(s, 8, 4);
    le32_reads_back(s, 12, 3);
    let mark = s.subrange(0, 4);
    assert(mark[0] == s[0] && mark[1] == s[1] && mark[2] == s[2] && mark[3] == s[3]);
    let second = s.subrange(16, 20);
    assert(second[0] == s[16] && second[1] == s[17] && second[2] == s[18] && second[3] == s[19]);
    assert(s.skip(20) =~= s.subrange(20, 20int + chunks.len()));
}

/// The envelope of a deepmap stream tells how long the stream is; where it does not stand
/// inline, also which pixel format it has: 4 in color, 2 in gray.
pub proof fn deepmap_envelopes_read_back(
    data: Seq<u8>,
    format: Seq<u8>,
    inline: bool,
    version: u32,
)
    requires
        data.len() + 16 <= u32::MAX,
    ensures
        ({
            let s = deepmap_envelope(data, format, inline, version);
            &&& spells(s, 0, 0x4d, 0x4c, 0x45, 0x43)
            &&& read_le32(s, 8) == 11
            &&& inline ==> read_le32(s, 4) == 0 && read_le32(s, 12) == data.len() && s.skip(16)
                == data
            &&& !inline ==> {
                &&& read_le32(s, 4) == version
                &&& read_le32(s, 12) == data.len() + 16
                &&& read_le32(s, 16) == 1
                &&& read_le32(s, 20) == (if format == seq![0x42u8, 0x47, 0x52, 0x41] {
                    4nat
                } else if format == seq![0x20u8, 0x38, 0x41, 0x47] {
                    2nat
                } else {
                    0nat
                })
                &&& read_le32(s, 24) == data.len()
                &&& read_le32(s, 28) == 0
                &&& s.skip(32) == data
            }
        }),
{
    let mark = be32(crate::compress::ENVELOPE_MAGIC);
    assert(mark =~= seq![0x4du8, 0x4c, 0x45, 0x43]);
    if inline {
        lemma_inline_envelope(mark, data);
    } else {
        let number: u32 = match crate::compress::deepmap_format(format) {
            Some(n) => n,
            None => 0,
        };
        lemma_wide_envelope(mark, data, version, number);
        assert(seq![0x42u8, 0x47, 0x52, 0x41] != seq![0x20u8, 0x38, 0x41, 0x47]) by {
            assert(seq![0x42u8, 0x47, 0x52, 0x41][0] != seq![0x20u8, 0x38, 0x41, 0x47][0]);
        }
    }
}

proof fn lemma_inline_envelope(mark: Seq<u8>, data: Seq<u8>)
    requires
        mark == seq![0x4du8, 0x4c, 0x45, 0x43],
        data.len() <= u32::MAX,
    ensures
        ({
            let s = mark + le32(0) + le32(11) + le32(data.len() as u32) + data;
            &&& spells(s, 0, 0x4d, 0x4c, 0x45, 0x43)
            &&& read_le32(s, 4) == 0
            &&& read_le32(s, 8) == 11
            &&& read_le32(s, 12) == data.len()
            &&& s.skip(16) == data
        }),
{
    let s = mark + le32(0) + le32(11) + le32(data.len() as u32) + data;
    assert(s.subrange(4, 8) =~= le32(0));
    assert(s.subrange(8, 12) =~= le32(11));
    assert(s.subrange(12, 16) =~= le32(data.len() as u32));
    le32_reads_back(s, 4, 0);
    le32_reads_back(s, 8, 11);
    le32_reads_back(s, 12, data.len() as u32);
    assert(s.skip(16) =~= data);
}

proof fn lemma_wide_envelope(mark: Seq<u8>, data: Seq<u8>, version: u32, number: u32)
    requires
        mark == seq![0x4du8, 0x4c, 0x45, 0x43],
        data.len() + 16 <= u32::MAX,
    ensures
        ({
            let s = mark + le32(version) + le32(11) + le32((16 + data.len()) as u32) + le32(1)
                + le32(number) + le32(data.len() as u32) + le32(0) + data;
            &&& spells(s, 0, 0x4d, 0x4c, 0x45, 0x43)
            &&& read_le32(s, 4) == version
            &&& read_le32(s, 8) == 11
            &&& read_le32(s, 12) == data.len() + 16
            &&& read_le32(s, 16) == 1
            &&& read_le32(s, 20) == number
            &&& read_le32(s, 24) == data.len()
            &&& read_le32(s, 28) == 0
            &&& s.skip(32) == data
        }),
{
    let head = mark + le32(version) + le32(11) + le32((16 + data.len()) as u32) + le32(1) + le32(
        number,
    ) + le32(data.len() as u32) + le32(0);
    crate::csi_laws::lemma_words(
        mark,
        le32(version),
        le32(11),
        le32((16 + data.len()) as u32),
        le32(1),
        le32(number),
        le32(data.len() as u32),
        le32(0),
    );
    lemma_wide_fields(head, data, version, number);
}

proof fn lemma_wide_fields(head: Seq<u8>, data: Seq<u8>, version: u32, number: u32)
    requires
        data.len() + 16 <= u32::MAX,
        head.len() == 32,
        head.subrange(0, 4) == seq![0x4du8, 0x4c, 0x45, 0x43],
        head.subrange(4, 8) == le32(version),
        head.subrange(8, 12) == le32(11),
        head.subrange(12, 16) == le32((16 + data.len()) as u32),
        head.subrange(16, 20) == le32(1),
        head.subrange(20, 24) == le32(number),
        head.subrange(24, 28) == le32(data.len() as u32),
        head.subrange(28, 32) == le32(0),
    ensures
        ({
            let s = head + data;
            &&& spells(s, 0, 0x4d, 0x4c, 0x45, 0x43)
            &&& read_le32(s, 4) == version
            &&& read_le32(s, 8) == 11
            &&& read_le32(s, 12) == data.len() + 16
            &&& read_le32(s, 16) == 1
            &&& read_le32(s, 20) == number
            &&& read_le32(s, 24) == data.len()
            &&& read_le32(s, 28) == 0
            &&& s.skip(32) == data
        }),
{
    let s = head + data;
    let mark = head.subrange(0, 4);
    assert(mark[0] == head[0] && mark[1] == head[1] && mark[2] == head[2] && mark[3] == head[3]);
    le32_reads_back(head, 4, version);
    le32_reads_back(head, 8, 11);
    le32_reads_back(head, 12, (16 + data.len()) as u32);
    le32_reads_back(head, 16, 1);
    le32_reads_back(head, 20, number);
    le32_reads_back(head, 24, data.len() as u32);
    le32_reads_back(head, 28, 0);
    assert(s.skip(32) =~= data);
}

/// Whether a text is another with a part put in.
pub open spec fn adds(more: Seq<char>, less: Seq<char>, part: Seq<char>) -> bool {
    exists|before: Seq<char>, behind: Seq<char>| #[trigger]
        (before + part + behind) == more && before + behind == less
}

/// A key of a property list and its text.
pub open spec fn pair_text(key: Seq<char>, value: Seq<char>) -> Seq<char> {
    "\t<key>"@ + key + "</key>\n\t<string>"@ + value + "</string>\n"@
}

proof fn lemma_pair(key: Seq<char>, value: Seq<char>)
    ensures
        optional_lines(key, Some(value)) == pair_text(key, value),
        optional_lines(key, None) == Seq::<char>::empty(),
{
    reveal_strlit("\t");
    reveal_strlit("<key>");
    reveal_strlit("</key>\n");
    reveal_strlit("<string>");
    reveal_strlit("</string>\n");
    reveal_strlit("\t<key>");
    reveal_strlit("</key>\n\t<string>");
    let a = optional_lines(key, Some(value));
    let b = pair_text(key, value);
    assert("\t<key>"@ =~= "\t"@ + "<key>"@);
    assert("</key>\n\t<string>"@ =~= "</key>\n"@ + "\t"@ + "<string>"@);
    assert(a =~= b);
}

proof fn lemma_adds(before: Seq<char>, part: Seq<char>, behind: Seq<char>)
    ensures
        adds(before + part + behind, before + behind, part),
{
}

/// The property list of a catalog holds the accent color and the background color of
/// widgets under their keys, each where it is given and nowhere else.
pub proof fn info_plists_hold_colors(
    icon: Option<Seq<char>>,
    accent: Option<Seq<char>>,
    widget: Option<Seq<char>>,
    languages: Seq<Seq<char>>,
    color: Seq<char>,
)
    ensures
        adds(
            info_plist(icon, Some(color), widget, languages),
            info_plist(icon, None, widget, languages),
            pair_text("NSAccentColorName"@, color),
        ),
        adds(
            info_plist(icon, accent, Some(color), languages),
            info_plist(icon, accent, None, languages),
            pair_text("NSWidgetBackgroundColorName"@, color),
        ),
{
    lemma_pair("NSAccentColorName"@, color);
    lemma_pair("NSWidgetBackgroundColorName"@, color);
    let head = plist_start() + optional_lines("CFBundleIconFile"@, icon) + optional_lines(
        "CFBundleIconName"@,
        icon,
    );
    let tail = array_lines("\t"@, "\t\t"@, "CFBundleLocalizations"@, languages) + plist_end();
    let none = Seq::<char>::empty();
    let second = optional_lines("NSWidgetBackgroundColorName"@, widget);
    let one = pair_text("NSAccentColorName"@, color);
    lemma_adds(head, one, second + tail);
    assert(info_plist(icon, Some(color), widget, languages) =~= head + one + (second + tail));
    assert(info_plist(icon, None, widget, languages) =~= head + (second + tail));
    let first = head + optional_lines("NSAccentColorName"@, accent);
    let two = pair_text("NSWidgetBackgroundColorName"@, color);
    lemma_adds(first, two, tail);
    assert(info_plist(icon, accent, Some(color), languages) =~= first + two + tail);
    assert(info_plist(icon, accent, None, languages) =~= first + tail);
}

/// The property list of a catalog names the icon under both of its keys, where there is
/// one, and lists the languages, where there are any.
pub proof fn info_plists_name_the_icon(
    icon: Seq<char>,
    accent: Option<Seq<char>>,
    widget: Option<Seq<char>>,
    languages: Seq<Seq<char>>,
)
    ensures
        adds(
            info_plist(Some(icon), accent, widget, languages),
            info_plist(None, accent, widget, languages),
            pair_text("CFBundleIconFile"@, icon) + pair_text("CFBundleIconName"@, icon),
        ),
        languages.len() > 0 ==> adds(
            info_plist(Some(icon), accent, widget, languages),
            info_plist(Some(icon), accent, widget, Seq::empty()),
            "\t<key>CFBundleLocalizations</key>\n\t<array>\n"@ + listed("\t\t"@, languages)
                + "\t</array>\n"@,
        ),
{
    lemma_pair("CFBundleIconFile"@, icon);
    lemma_pair("CFBundleIconName"@, icon);
    let start = plist_start();
    let both = pair_text("CFBundleIconFile"@, icon) + pair_text("CFBundleIconName"@, icon);
    let colors = optional_lines("NSAccentColorName"@, accent) + optional_lines(
        "NSWidgetBackgroundColorName"@,
        widget,
    );
    let list = array_lines("\t"@, "\t\t"@, "CFBundleLocalizations"@, languages);
    let tail = colors + (list + plist_end());
    lemma_adds(start, both, tail);
    assert(info_plist(Some(icon), accent, widget, languages) =~= start + both + tail);
    assert(info_plist(None, accent, widget, languages) =~= start + tail);
    if languages.len() > 0 {
        let head = start + both + colors;
        lemma_languages(languages);
        lemma_adds(head, list, plist_end());
        assert(info_plist(Some(icon), accent, widget, languages) =~= head + list + plist_end());
        assert(info_plist(Some(icon), accent, widget, Seq::empty()) =~= head + plist_end());
    }
}

/// Texts, one below the other.
pub open spec fn listed(indent: Seq<char>, values: Seq<Seq<char>>) -> Seq<char>
    decreases values.len(),
{
    if values.len() == 0 {
        Seq::empty()
    } else {
        indent + "<string>"@ + values[0] + "</string>\n"@ + listed(indent, values.skip(1))
    }
}

/// A list of texts holds them in their order.
pub proof fn lists_hold_their_texts(indent: Seq<char>, values: Seq<Seq<char>>)
    ensures
        string_lines(indent, values) == listed(indent, values),
    decreases values.len(),
{
    if values.len() > 0 {
        let last = string_line(indent, values.last());
        lists_hold_their_texts(indent, values.drop_last());
        lemma_listed_last(indent, values.drop_last(), values.last());
        assert(values.drop_last().push(values.last()) =~= values);
    }
}

proof fn lemma_listed_last(indent: Seq<char>, values: Seq<Seq<char>>, last: Seq<char>)
    ensures
        listed(indent, values.push(last)) == listed(indent, values) + string_line(indent, last),
    decreases values.len(),
{
    let all = values.push(last);
    if values.len() == 0 {
        assert(all.skip(1) =~= Seq::empty());
        assert(listed(indent, all.skip(1)) =~= Seq::empty());
        assert(all[0] == last);
        assert(listed(indent, all) =~= listed(indent, values) + string_line(indent, last));
    } else {
        assert(all.skip(1) =~= values.skip(1).push(last));
        assert(all[0] == values[0]);
        lemma_listed_last(indent, values.skip(1), last);
        assert(listed(indent, all) =~= listed(indent, values) + string_line(indent, last));
    }
}

proof fn lemma_languages(languages: Seq<Seq<char>>)
    requires
        languages.len() > 0,
    ensures
        array_lines("\t"@, "\t\t"@, "CFBundleLocalizations"@, languages)
            == "\t<key>CFBundleLocalizations</key>\n\t<array>\n"@ + listed("\t\t"@, languages)
            + "\t</array>\n"@,
{
    lists_hold_their_texts("\t\t"@, languages);
    reveal_strlit("\t");
    reveal_strlit("<key>");
    reveal_strlit("</key>\n");
    reveal_strlit("CFBundleLocalizations");
    reveal_strlit("<array>\n");
    reveal_strlit("</array>\n");
    reveal_strlit("\t</array>\n");
    reveal_strlit("\t<key>CFBundleLocalizations</key>\n\t<array>\n");
    let head = key_line("\t"@, "CFBundleLocalizations"@) + ("\t"@ + "<array>\n"@);
    assert(head =~= "\t<key>CFBundleLocalizations</key>\n\t<array>\n"@);
    assert("\t"@ + "</array>\n"@ =~= "\t</array>\n"@);
}

/// The property list of an icon bundle names the icon under both of its keys, or is
/// empty.
pub proof fn icon_plists_name_the_icon(icon: Seq<char>)
    ensures
        icon_plist(Some(icon)) == plist_start() + (pair_text("CFBundleIconFile"@, icon) + pair_text(
            "CFBundleIconName"@,
            icon,
        )) + plist_end(),
{
    lemma_pair("CFBundleIconFile"@, icon);
    lemma_pair("CFBundleIconName"@, icon);
    assert(icon_plist(Some(icon)) =~= plist_start() + (pair_text("CFBundleIconFile"@, icon)
        + pair_text("CFBundleIconName"@, icon)) + plist_end());
}

/// Whether an image is the home screen icon of a device: in its size, at twice the scale.
pub open spec fn is_home_icon(icon: IconImage, idiom: Seq<char>, points: u32) -> bool {
    icon.idiom@ == idiom && icon.point_w == points && icon.scale == 2
}

proof fn lemma_first_home_icon(icons: Seq<IconImage>, idiom: Seq<char>, points: u32, from: int)
    requires
        primary_size(idiom) == Some(points),
        0 <= from <= icons.len(),
        forall|j: int| 0 <= j < from ==> !is_home_icon(#[trigger] icons[j], idiom, points),
    ensures
        ({
            let at = crate::plist::first_primary(icons, idiom, from);
            &&& from <= at <= icons.len()
            &&& at < icons.len() ==> is_home_icon(icons[at], idiom, points)
            &&& forall|j: int| 0 <= j < at ==> !is_home_icon(#[trigger] icons[j], idiom, points)
        }),
    decreases icons.len() - from,
{
    if from < icons.len() && !crate::plist::is_primary(icons[from], idiom) {
        lemma_first_home_icon(icons, idiom, points, from + 1);
    }
}

/// Beside the archive of a phone or a pad stand the first home screen icons of 60 and of
/// 76 points, at twice the scale, under the name of the icon and their size; that of the
/// pad says so.
pub proof fn home_icons_stand_beside(icons: Seq<IconImage>, name: Seq<char>)
    ensures
        is_loose(loose_icon(icons, name, "iphone"@), icons, name, "iphone"@, 60, Seq::empty()),
        is_loose(loose_icon(icons, name, "ipad"@), icons, name, "ipad"@, 76, "~ipad"@),
        loose_icons(icons, name) == loose_icon(icons, name, "iphone"@) + loose_icon(
            icons,
            name,
            "ipad"@,
        ),
{
    reveal_strlit("iphone");
    reveal_strlit("ipad");
    assert("iphone"@.len() == 6 && "ipad"@.len() == 4);
    lemma_first_home_icon(icons, "iphone"@, 60, 0);
    lemma_first_home_icon(icons, "ipad"@, 76, 0);
    lemma_is_loose(icons, name, "iphone"@, 60, Seq::empty());
    lemma_is_loose(icons, name, "ipad"@, 76, "~ipad"@);
}

/// Whether a list holds the home screen icon of a device, if it has one.
pub open spec fn is_loose(
    list: Seq<LooseModel>,
    icons: Seq<IconImage>,
    name: Seq<char>,
    idiom: Seq<char>,
    points: u32,
    mark: Seq<char>,
) -> bool {
    if exists|i: int| 0 <= i < icons.len() && is_home_icon(#[trigger] icons[i], idiom, points) {
        &&& list.len() == 1
        &&& list[0].point_w == points
        &&& list[0].scale == 2
        &&& exists|i: int|
            {
                &&& 0 <= i < icons.len()
                &&& is_home_icon(#[trigger] icons[i], idiom, points)
                &&& list[0].src == icons[i].path@
                &&& list[0].filename == name + decimal(points as nat) + "x"@ + decimal(
                    points as nat,
                ) + "@2x"@ + mark + "."@ + (match icons[i].extension {
                    Some(e) => e@,
                    None => "png"@,
                })
            }
    } else {
        list.len() == 0
    }
}

proof fn lemma_is_loose(
    icons: Seq<IconImage>,
    name: Seq<char>,
    idiom: Seq<char>,
    points: u32,
    mark: Seq<char>,
)
    requires
        primary_size(idiom) == Some(points),
        mark == (if idiom == "ipad"@ {
            "~ipad"@
        } else {
            Seq::<char>::empty()
        }),
    ensures
        is_loose(loose_icon(icons, name, idiom), icons, name, idiom, points, mark),
{
    lemma_first_home_icon(icons, idiom, points, 0);
    let at = crate::plist::first_primary(icons, idiom, 0);
    if exists|i: int| 0 <= i < icons.len() && is_home_icon(#[trigger] icons[i], idiom, points) {
        let i = choose|i: int|
            0 <= i < icons.len() && is_home_icon(#[trigger] icons[i], idiom, points);
        assert(at <= i);
        assert(is_home_icon(icons[at], idiom, points));
    }
}

/// What is embedded in an icon file tells its width and its height.
pub proof fn embedded_sizes_read_back(width: u32, height: u32)
    ensures
        ({
            let s = exif_dimensions(width, height);
            &&& s.len() == 68
            &&& read_be16(s, 0) == 0x4d4d
            &&& read_be16(s, 40) == 0xa002
            &&& read_be32(s, 48) == width
            &&& read_be16(s, 52) == 0xa003
            &&& read_be32(s, 60) == height
        }),
{
    let first = be16(0x4d4d) + be16(0x002a) + be32(8) + be16(1) + be16(0x8769) + be16(4) + be32(1)
        + be32(26) + be32(0) + be16(3) + be16(0xa001) + be16(3) + be32(1) + be16(1) + be16(0);
    let s = exif_dimensions(width, height);
    assert(first.len() == 40);
    assert(first.subrange(0, 2) =~= be16(0x4d4d));
    lemma_embedded(first, width, height);
}

proof fn lemma_embedded(first: Seq<u8>, width: u32, height: u32)
    requires
        first.len() == 40,
        first.subrange(0, 2) == be16(0x4d4d),
    ensures
        ({
            let s = first + be16(0xa002) + be16(4) + be32(1) + be32(width) + be16(0xa003) + be16(4)
                + be32(1) + be32(height) + be32(0);
            &&& s.len() == 68
            &&& read_be16(s, 0) == 0x4d4d
            &&& read_be16(s, 40) == 0xa002
            &&& read_be32(s, 48) == width
            &&& read_be16(s, 52) == 0xa003
            &&& read_be32(s, 60) == height
        }),
{
    let s = first + be16(0xa002) + be16(4) + be32(1) + be32(width) + be16(0xa003) + be16(4) + be32(
        1,
    ) + be32(height) + be32(0);
    assert(s.subrange(0, 2) =~= be16(0x4d4d));
    assert(s.subrange(40, 42) =~= be16(0xa002));
    assert(s.subrange(48, 52) =~= be32(width));
    assert(s.subrange(52, 54) =~= be16(0xa003));
    assert(s.subrange(60, 64) =~= be32(height));
    be16_reads_back(s, 0, 0x4d4d);
    be16_reads_back(s, 40, 0xa002);
    be32_reads_back(s, 48, width);
    be16_reads_back(s, 52, 0xa003);
    be32_reads_back(s, 60, height);
}

/// Dependency information begins with the tool; one more input comes behind the inputs
/// and one more output behind all else, each with its kind and a zero behind it.
pub proof fn dependencies_are_recorded(
    tool: Seq<char>,
    inputs: Seq<Seq<char>>,
    outputs: Seq<Seq<char>>,
    path: Seq<char>,
)
    ensures
        dependency_info(tool, Seq::empty(), Seq::empty()) == seq![0u8] + encode_utf8(tool) + seq![
            0u8,
        ],
        dependency_info(tool, inputs.push(path), Seq::empty()) == dependency_info(
            tool,
            inputs,
            Seq::empty(),
        ) + (seq![0x10u8] + encode_utf8(path) + seq![0u8]),
        dependency_info(tool, inputs, outputs.push(path)) == dependency_info(tool, inputs, outputs)
            + (seq![0x40u8] + encode_utf8(path) + seq![0u8]),
{
    let none = Seq::<Seq<char>>::empty();
    let first = seq![tool];
    reveal_with_fuel(records, 2);
    assert(first.drop_last() =~= none);
    assert(records(0, first) =~= seq![0u8] + encode_utf8(tool) + seq![0u8]);
    assert(dependency_info(tool, none, none) =~= seq![0u8] + encode_utf8(tool) + seq![0u8]);
    assert(inputs.push(path).drop_last() =~= inputs);
    assert(outputs.push(path).drop_last() =~= outputs);
    assert(dependency_info(tool, inputs.push(path), none) =~= dependency_info(tool, inputs, none) + (
    seq![0x10u8] + encode_utf8(path) + seq![0u8]));
    assert(dependency_info(tool, inputs, outputs.push(path)) =~= dependency_info(
        tool,
        inputs,
        outputs,
    ) + (seq![0x40u8] + encode_utf8(path) + seq![0u8]));
}

/// The version that is asked for counts before that of the environment, which counts if
/// it is a number, before that of the host, before the default: 975 on phones and pads
/// and 972 elsewhere.
pub proof fn versions_are_chosen_in_turn(
    platform: Seq<char>,
    asked: Option<u32>,
    environment: Option<Seq<char>>,
    host: Option<u32>,
)
    ensures
        ({
            let version = coreui_version(platform, asked, environment, host);
            let number = match environment {
                Some(text) => parsed_number(text),
                None => None,
            };
            let phones = platform == "iphoneos"@ || platform == "iphonesimulator"@;
            &&& asked is Some ==> version == asked->0
            &&& asked is None && number is Some ==> version == number->0
            &&& asked is None && number is None && host is Some ==> version == host->0
            &&& asked is None && number is None && host is None ==> version == (if phones {
                975u32
            } else {
                972u32
            })
        }),
{
}

} // verus!
