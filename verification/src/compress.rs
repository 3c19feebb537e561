//! Compression of pixels.
//!
//! Compressed pixels stand in an envelope that tells how they were compressed.
//! Which way is taken depends on the deployment target, on the size of the
//! pixels, and on which encoder makes them smaller.

use std::io::Write;

use vstd::prelude::*;
use vstd::slice::slice_subrange;

use crate::bytes::{
    be32, le32, lemma_empty_prefix, put_be32, put_bytes, put_le32, put_zeros, read_le32,
};
use crate::formats::{bgra_name, ga8_name, is_bgra, is_ga8};
use crate::platform::{
    dmp2_since, lzfse_since, min_dmp2_version, min_lzfse_version, parse_version, reaches,
    version_of, version_reaches,
};
use crate::rle::{compress_rle, rle_image};

verus! {

broadcast use lemma_empty_prefix;

/// The ASCII letters `MLEC`.
pub const ENVELOPE_MAGIC: u32 = 0x4d4c_4543;

/// The ASCII letters `KCBC`.
pub const CHUNK_MAGIC: u32 = 0x4b43_4243;

/// Pixels as they are.
pub const METHOD_RAW: u32 = 0;

/// Run-length encoded pixels.
pub const METHOD_RLE: u32 = 1;

/// Pixels in a gzip stream.
pub const METHOD_GZIP: u32 = 2;

/// Chunks of rows, each an LZFSE stream.
pub const METHOD_LZFSE: u32 = 4;

/// Pixels that the deepmap encoder of the platform has compressed.
pub const METHOD_DEEPMAP: u32 = 11;

/// Pixel data up to this size are not worth a general compressor.
pub const SMALL_PIXELS: usize = 256;

/// From this size on a gzip stream is tried, below it run lengths.
pub const GZIP_PIXELS: usize = 4096;

/// How much room an LZFSE stream gets beyond the size of its input.
pub const LZFSE_SLACK: usize = 128;

/// The error that `lzfse` reports.
#[verifier::external_type_specification]
#[verifier::external_body]
pub struct ExLzfseError(lzfse::Error);

/// The bytes that `lzfse::encode_buffer` writes for an input when it has room for
/// `capacity` bytes; `None` where it reports an error.
pub uninterp spec fn lzfse_stream(input: Seq<u8>, capacity: nat) -> Option<Seq<u8>>;

/// The number that `lzfse::encode_buffer` returns counts the bytes of the stream,
/// which stand at the beginning of the output; what they are depends on the input
/// and on the size of the output alone.  That the encoder gets its scratch memory
/// is taken for granted.
pub assume_specification[ lzfse::encode_buffer ](
    input: &[u8],
    output: &mut [u8],
) -> (result: Result<usize, lzfse::Error>)
    ensures
        final(output)@.len() == old(output)@.len(),
        match result {
            Ok(n) => n <= final(output)@.len() && lzfse_stream(input@, old(output)@.len()) == Some(
                final(output)@.take(n as int),
            ),
            Err(_) => lzfse_stream(input@, old(output)@.len()) is None,
        },
;

/// The gzip stream, at the default level, that `flate2` makes of some data;
/// `None` where it reports an error.
pub uninterp spec fn gzip_stream(data: Seq<u8>) -> Option<Seq<u8>>;

/// `flate2`'s `GzEncoder` with `Compression::default()`, fed with all of `data`
/// and finished: the stream depends on the data alone, since the encoder writes
/// neither a time nor a file name into its header.
#[verifier::external_body]
pub(crate) fn gzip_compress(data: &[u8]) -> (stream: Option<Vec<u8>>)
    ensures
        match stream {
            Some(bytes) => gzip_stream(data@) == Some(bytes@),
            None => gzip_stream(data@) is None,
        },
{
    let mut encoder = flate2::write::GzEncoder::new(Vec::new(), flate2::Compression::default());
    encoder.write_all(data).ok()?;
    encoder.finish().ok()
}

/// The LZFSE stream of some data, if the encoder makes one.
pub fn lzfse_compress(input: &[u8]) -> (stream: Option<Vec<u8>>)
    requires
        input@.len() + LZFSE_SLACK <= usize::MAX,
    ensures
        match stream {
            Some(bytes) => lzfse_stream(input@, input@.len() + LZFSE_SLACK as nat) == Some(bytes@),
            None => lzfse_stream(input@, input@.len() + LZFSE_SLACK as nat) is None,
        },
{
    let mut out: Vec<u8> = Vec::new();
    put_zeros(&mut out, input.len() + LZFSE_SLACK);
    let written = lzfse::encode_buffer(input, out.as_mut_slice());
    match written {
        Ok(n) => {
            out.truncate(n);
            Some(out)
        },
        Err(_) => None,
    }
}

/// One chunk: two unused numbers, how many rows it has, how long its stream is,
/// and the stream.
pub open spec fn chunk(rows: nat, stream: Seq<u8>) -> Seq<u8> {
    le32(0) + le32(0) + le32(rows as u32) + le32(stream.len() as u32) + stream
}

/// Appends one chunk.
pub fn put_chunk(out: &mut Vec<u8>, rows: u32, stream: &[u8])
    ensures
        final(out)@ == old(out)@ + chunk(rows as nat, stream@),
{
    let mut one: Vec<u8> = Vec::new();
    put_le32(&mut one, 0);
    put_le32(&mut one, 0);
    put_le32(&mut one, rows);
    put_le32(&mut one, stream.len() as u32);
    put_bytes(&mut one, stream);
    put_bytes(out, one.as_slice());
}

/// How many rows a chunk has at most: a third of the image, the whole image if
/// it has fewer than three rows.
pub open spec fn rows_per_chunk(height: u32) -> nat {
    if height >= 3 {
        (height / 3) as nat
    } else {
        height as nat
    }
}

/// How many rows the chunk that begins at `row` has.
pub open spec fn chunk_rows(height: u32, row: nat) -> nat {
    if rows_per_chunk(height) <= height - row {
        rows_per_chunk(height)
    } else {
        (height - row) as nat
    }
}

/// The stream of the chunk that begins at `row` of pixels with `bpr` bytes in a
/// row.
pub open spec fn chunk_stream(data: Seq<u8>, bpr: nat, height: u32, row: nat) -> Option<Seq<u8>> {
    let part = data.subrange(
        (row * bpr) as int,
        ((row + chunk_rows(height, row)) * bpr) as int,
    );
    lzfse_stream(part, part.len() + LZFSE_SLACK as nat)
}

/// The chunks from `row` on, with a magic word between them; `None` if the
/// encoder fails on one of them.
pub open spec fn chunks_from(data: Seq<u8>, bpr: nat, height: u32, row: nat) -> Option<Seq<u8>>
    decreases height - row,
{
    if row >= height {
        Some(Seq::empty())
    } else {
        let n = chunk_rows(height, row);
        match (chunk_stream(data, bpr, height, row), chunks_from(data, bpr, height, row + n)) {
            (Some(stream), Some(rest)) => Some(
                chunk(n, stream) + (if row + n < height {
                    be32(CHUNK_MAGIC) + rest
                } else {
                    rest
                }),
            ),
            _ => None,
        }
    }
}

/// The chunks of an image; none for an image without pixels.
pub open spec fn kcbc_chunks(data: Seq<u8>, height: u32) -> Option<Seq<u8>> {
    if height == 0 || data.len() / height as nat == 0 {
        None
    } else {
        chunks_from(data, data.len() / height as nat, height, 0)
    }
}

/// Compresses an image in chunks of rows.
pub fn compress_kcbc(pixel_data: &[u8], height: u32) -> (out: Option<Vec<u8>>)
    requires
        pixel_data@.len() + LZFSE_SLACK <= usize::MAX,
    ensures
        match out {
            Some(bytes) => kcbc_chunks(pixel_data@, height) == Some(bytes@),
            None => kcbc_chunks(pixel_data@, height) is None,
        },
{
    let ghost data = pixel_data@;
    if height == 0 {
        return None;
    }
    let total: usize = height as usize;
    let size: usize = pixel_data.len();
    let bpr: usize = size / total;
    if bpr == 0 {
        return None;
    }
    proof {
        vstd::arithmetic::div_mod::lemma_fundamental_div_mod(size as int, total as int);
        vstd::arithmetic::div_mod::lemma_mod_bound(size as int, total as int);
    }
    let most: usize = if height >= 3 {
        (height / 3) as usize
    } else {
        total
    };
    let mut out: Vec<u8> = Vec::new();
    let mut row: usize = 0;
    let ghost whole = chunks_from(data, bpr as nat, height, 0);
    while row < total
        invariant
            row <= total,
            total == height,
            size == pixel_data@.len(),
            data == pixel_data@,
            size + LZFSE_SLACK <= usize::MAX,
            total * bpr <= size,
            most == rows_per_chunk(height),
            most >= 1,
            kcbc_chunks(data, height) == whole,
            match chunks_from(data, bpr as nat, height, row as nat) {
                Some(rest) => whole == Some(out@ + rest),
                None => whole is None,
            },
        decreases total - row,
    {
        let n: usize = if most <= total - row {
            most
        } else {
            total - row
        };
        proof {
            assert(0 <= row * bpr <= (row + n) * bpr <= total * bpr) by (nonlinear_arith)
                requires
                    0 <= row,
                    row + n <= total,
                    n >= 0,
                    bpr >= 0,
            ;
        }
        let part = slice_subrange(pixel_data, row * bpr, (row + n) * bpr);
        let stream = match lzfse_compress(part) {
            Some(stream) => stream,
            None => {
                return None;
            },
        };
        let ghost before = out@;
        put_chunk(&mut out, n as u32, stream.as_slice());
        if row + n < total {
            put_be32(&mut out, CHUNK_MAGIC);
        }
        row = row + n;
        proof {
            match chunks_from(data, bpr as nat, height, row as nat) {
                Some(rest) => {
                    if row < total {
                        assert(before + (chunk(n as nat, stream@) + (be32(CHUNK_MAGIC) + rest))
                            =~= out@ + rest);
                    } else {
                        assert(before + (chunk(n as nat, stream@) + rest) =~= out@ + rest);
                    }
                },
                None => {},
            }
        }
    }
    assert(out@ + Seq::<u8>::empty() =~= out@);
    Some(out)
}

/// The number of a pixel format for the deepmap encoder; `None` for formats that
/// it does not know.
pub open spec fn deepmap_format(format: Seq<u8>) -> Option<u32> {
    if format == bgra_name() {
        Some(4u32)
    } else if format == ga8_name() {
        Some(2u32)
    } else {
        None
    }
}

/// The number of a pixel format for the deepmap encoder.
pub fn pixfmt_to_dm(pixfmt: &[u8]) -> (number: Option<u32>)
    ensures
        number == deepmap_format(pixfmt@),
{
    if is_bgra(pixfmt) {
        Some(4)
    } else if is_ga8(pixfmt) {
        Some(2)
    } else {
        None
    }
}

/// The envelope of deepmap-compressed pixels: inline right behind the header,
/// else behind a second header with the pixel format.
pub open spec fn deepmap_envelope(data: Seq<u8>, format: Seq<u8>, inline: bool, version: u32) -> Seq<
    u8,
> {
    if inline {
        be32(ENVELOPE_MAGIC) + le32(0) + le32(METHOD_DEEPMAP) + le32(data.len() as u32) + data
    } else {
        be32(ENVELOPE_MAGIC) + le32(version) + le32(METHOD_DEEPMAP) + le32(
            (16 + data.len()) as u32,
        ) + le32(1) + le32(
            match deepmap_format(format) {
                Some(number) => number,
                None => 0u32,
            },
        ) + le32(data.len() as u32) + le32(0) + data
    }
}

/// The envelope of deepmap-compressed pixels.
pub fn make_celm_dmp2(
    dmp2_data: &[u8],
    pixel_format: &[u8],
    inline: bool,
    celm_version: u32,
) -> (out: Vec<u8>)
    requires
        dmp2_data@.len() <= u32::MAX,
        !inline ==> 16 + dmp2_data@.len() <= u32::MAX,
    ensures
        out@ == deepmap_envelope(dmp2_data@, pixel_format@, inline, celm_version),
{
    let len: u32 = dmp2_data.len() as u32;
    let mut out: Vec<u8> = Vec::new();
    put_be32(&mut out, ENVELOPE_MAGIC);
    if inline {
        put_le32(&mut out, 0);
        put_le32(&mut out, METHOD_DEEPMAP);
        put_le32(&mut out, len);
        put_bytes(&mut out, dmp2_data);
        return out;
    }
    let format: u32 = match pixfmt_to_dm(pixel_format) {
        Some(number) => number,
        None => 0,
    };
    put_le32(&mut out, celm_version);
    put_le32(&mut out, METHOD_DEEPMAP);
    put_le32(&mut out, 16 + len);
    put_le32(&mut out, 1);
    put_le32(&mut out, format);
    put_le32(&mut out, len);
    put_le32(&mut out, 0);
    put_bytes(&mut out, dmp2_data);
    out
}

/// An envelope with a body of known length.
pub open spec fn envelope(method: u32, body: Seq<u8>) -> Seq<u8> {
    be32(ENVELOPE_MAGIC) + le32(0) + le32(method) + le32(body.len() as u32) + body
}

/// An envelope with a body of known length.
pub fn make_envelope(method: u32, body: &[u8]) -> (out: Vec<u8>)
    ensures
        out@ == envelope(method, body@),
{
    let mut out: Vec<u8> = Vec::new();
    put_be32(&mut out, ENVELOPE_MAGIC);
    put_le32(&mut out, 0);
    put_le32(&mut out, method);
    put_le32(&mut out, body.len() as u32);
    put_bytes(&mut out, body);
    out
}

/// The envelope of chunks of rows.
pub open spec fn chunk_envelope(opaque: bool, chunks: Seq<u8>) -> Seq<u8> {
    be32(ENVELOPE_MAGIC) + le32(
        if opaque {
            3u32
        } else {
            1u32
        },
    ) + le32(METHOD_LZFSE) + le32(3) + be32(CHUNK_MAGIC) + chunks
}

/// The envelope of chunks of rows.
pub fn make_chunk_envelope(opaque: bool, chunks: &[u8]) -> (out: Vec<u8>)
    ensures
        out@ == chunk_envelope(opaque, chunks@),
{
    let mut out: Vec<u8> = Vec::new();
    put_be32(&mut out, ENVELOPE_MAGIC);
    put_le32(
        &mut out,
        if opaque {
            3
        } else {
            1
        },
    );
    put_le32(&mut out, METHOD_LZFSE);
    put_le32(&mut out, 3);
    put_be32(&mut out, CHUNK_MAGIC);
    put_bytes(&mut out, chunks);
    out
}

/// The bytes of a pixel for run-length encoding.
pub open spec fn rle_pixel_size(format: Seq<u8>) -> u32 {
    if format == bgra_name() {
        4
    } else {
        2
    }
}

/// Pixels in the envelope that is used where no platform encoder is: a gzip
/// stream for large pixels, run lengths for small ones, if they save space; else
/// the pixels as they are.
pub open spec fn plain_envelope(
    pixels: Seq<u8>,
    format: Seq<u8>,
    width: u32,
    height: u32,
    gzip: Option<Seq<u8>>,
) -> Seq<u8> {
    let rle = rle_image(pixels, width, height, rle_pixel_size(format));
    if pixels.len() >= GZIP_PIXELS && gzip is Some && gzip->0.len() < pixels.len() {
        envelope(METHOD_GZIP, gzip->0)
    } else if pixels.len() < GZIP_PIXELS && height > 0 && rle.len() < pixels.len() {
        envelope(METHOD_RLE, rle)
    } else {
        envelope(METHOD_RAW, pixels)
    }
}

/// Whether the deployment target and the size of the pixels let chunks of LZFSE
/// streams be used.
pub open spec fn allows_lzfse(pixels: Seq<u8>, min_deploy: Seq<char>, platform: Seq<char>) -> bool {
    version_reaches(version_of(min_deploy), lzfse_since(platform)) && pixels.len() > SMALL_PIXELS
}

/// Whether the deployment target and the size of the pixels let the deepmap
/// encoder be used.
pub open spec fn allows_deepmap(
    pixels: Seq<u8>,
    min_deploy: Seq<char>,
    platform: Seq<char>,
) -> bool {
    version_reaches(version_of(min_deploy), dmp2_since(platform)) && pixels.len() > SMALL_PIXELS
}

/// Compressed pixels, given what each encoder makes of them: the deepmap encoder
/// goes first, if it is asked for, then chunks of LZFSE streams.
pub open spec fn compressed(
    pixels: Seq<u8>,
    format: Seq<u8>,
    width: u32,
    height: u32,
    min_deploy: Seq<char>,
    platform: Seq<char>,
    deepmap: Option<Seq<u8>>,
    inline: bool,
    opaque: bool,
    chunks: Option<Seq<u8>>,
    gzip: Option<Seq<u8>>,
) -> Seq<u8> {
    if deepmap is Some && allows_deepmap(pixels, min_deploy, platform) {
        deepmap_envelope(
            deepmap->0,
            format,
            inline,
            if opaque {
                2
            } else {
                0
            },
        )
    } else if chunks is Some && allows_lzfse(pixels, min_deploy, platform) {
        chunk_envelope(opaque, chunks->0)
    } else {
        plain_envelope(pixels, format, width, height, gzip)
    }
}

/// The run-length encoder can be given the pixels: they are complete, and sizes
/// fit a machine word.
pub open spec fn rle_applies(pixels: Seq<u8>, format: Seq<u8>, width: u32, height: u32) -> bool {
    let bpp = rle_pixel_size(format);
    &&& width * bpp <= u32::MAX
    &&& height as nat * (width as nat * bpp as nat) <= pixels.len()
    &&& 12 + 4 * height + height as nat * (width as nat * (4 + bpp as nat)) <= usize::MAX
}

/// Whether pixels get as far as the run-length encoder: they are small, and neither
/// the deepmap encoder nor chunks of LZFSE streams were used before.
pub open spec fn uses_runs(
    pixels: Seq<u8>,
    height: u32,
    min_deploy: Seq<char>,
    platform: Seq<char>,
    deepmap: Option<Seq<u8>>,
) -> bool {
    &&& pixels.len() < GZIP_PIXELS
    &&& height > 0
    &&& !(deepmap is Some && allows_deepmap(pixels, min_deploy, platform))
    &&& !(allows_lzfse(pixels, min_deploy, platform) && kcbc_chunks(pixels, height) is Some)
}

/// Whether the length of a deepmap stream fits its field.
pub open spec fn deepmap_fits(data: Seq<u8>, inline: bool) -> bool {
    data.len() <= u32::MAX && (!inline ==> 16 + data.len() <= u32::MAX)
}

/// The view of an optional byte vector.
pub open spec fn bytes_view(bytes: Option<&[u8]>) -> Option<Seq<u8>> {
    match bytes {
        Some(b) => Some(b@),
        None => None,
    }
}

/// Puts pixels in the envelope that is used where no platform encoder is, given
/// what `flate2` made of them.
pub fn make_plain_envelope(
    pixel_data: &[u8],
    pixel_format: &[u8],
    width: u32,
    height: u32,
    gzip: Option<&[u8]>,
) -> (out: Vec<u8>)
    requires
        pixel_data@.len() < GZIP_PIXELS && height > 0 ==> rle_applies(
            pixel_data@,
            pixel_format@,
            width,
            height,
        ),
    ensures
        out@ == plain_envelope(pixel_data@, pixel_format@, width, height, bytes_view(gzip)),
{
    if pixel_data.len() >= GZIP_PIXELS {
        match gzip {
            Some(stream) => {
                if stream.len() < pixel_data.len() {
                    return make_envelope(METHOD_GZIP, stream);
                }
            },
            None => {},
        }
    } else if height > 0 {
        let bpp: u32 = if is_bgra(pixel_format) {
            4
        } else {
            2
        };
        let rle = compress_rle(pixel_data, width, height, bpp);
        if rle.len() < pixel_data.len() {
            return make_envelope(METHOD_RLE, rle.as_slice());
        }
    }
    make_envelope(METHOD_RAW, pixel_data)
}

/// Compresses pixels.  `deepmap` is what the deepmap encoder of the platform has
/// made of them, where there is one and it is to be used.
pub fn compress_data(
    pixel_data: &[u8],
    pixel_format: &[u8],
    width: u32,
    height: u32,
    min_deploy: &str,
    platform: &str,
    deepmap: Option<&[u8]>,
    dmp2_inline: bool,
    is_opaque: bool,
) -> (out: Vec<u8>)
    requires
        pixel_data@.len() + LZFSE_SLACK <= usize::MAX,
        deepmap is Some && allows_deepmap(pixel_data@, min_deploy@, platform@) ==> deepmap_fits(
            deepmap->0@,
            dmp2_inline,
        ),
        uses_runs(pixel_data@, height, min_deploy@, platform@, bytes_view(deepmap))
            ==> rle_applies(pixel_data@, pixel_format@, width, height),
    ensures
        out@ == compressed(
            pixel_data@,
            pixel_format@,
            width,
            height,
            min_deploy@,
            platform@,
            bytes_view(deepmap),
            dmp2_inline,
            is_opaque,
            kcbc_chunks(pixel_data@, height),
            gzip_stream(pixel_data@),
        ),
{
    let version = parse_version(min_deploy);
    let large = pixel_data.len() > SMALL_PIXELS;
    match deepmap {
        Some(data) => {
            if reaches(version, min_dmp2_version(platform)) && large {
                let celm_version: u32 = if is_opaque {
                    2
                } else {
                    0
                };
                return make_celm_dmp2(data, pixel_format, dmp2_inline, celm_version);
            }
        },
        None => {},
    }
    if reaches(version, min_lzfse_version(platform)) && large {
        match compress_kcbc(pixel_data, height) {
            Some(chunks) => {
                return make_chunk_envelope(is_opaque, chunks.as_slice());
            },
            None => {},
        }
    }
    if pixel_data.len() >= GZIP_PIXELS {
        match gzip_compress(pixel_data) {
            Some(stream) => make_plain_envelope(
                pixel_data,
                pixel_format,
                width,
                height,
                Some(stream.as_slice()),
            ),
            None => make_plain_envelope(pixel_data, pixel_format, width, height, None),
        }
    } else {
        make_plain_envelope(pixel_data, pixel_format, width, height, None)
    }
}

/// Without a deepmap stream, or where the deployment target does not allow one, it
/// makes no difference whether the stream was to stand inline, nor whether there was
/// one.
pub proof fn unused_deepmap_makes_no_difference(
    pixels: Seq<u8>,
    format: Seq<u8>,
    width: u32,
    height: u32,
    min_deploy: Seq<char>,
    platform: Seq<char>,
    deepmap: Option<Seq<u8>>,
    one: bool,
    other: bool,
    opaque: bool,
    chunks: Option<Seq<u8>>,
    gzip: Option<Seq<u8>>,
)
    requires
        deepmap is None || !allows_deepmap(pixels, min_deploy, platform),
    ensures
        compressed(
            pixels,
            format,
            width,
            height,
            min_deploy,
            platform,
            deepmap,
            one,
            opaque,
            chunks,
            gzip,
        ) == compressed(
            pixels,
            format,
            width,
            height,
            min_deploy,
            platform,
            None,
            other,
            opaque,
            chunks,
            gzip,
        ),
{
}

/// Compression chosen to save space does save it: pixels in the envelope of a
/// plain encoder are at most the pixels as they are, and the envelope tells how
/// they were compressed and how long they are.
pub proof fn plain_envelopes_never_grow(
    pixels: Seq<u8>,
    format: Seq<u8>,
    width: u32,
    height: u32,
    gzip: Option<Seq<u8>>,
)
    requires
        pixels.len() <= u32::MAX,
    ensures
        ({
            let out = plain_envelope(pixels, format, width, height, gzip);
            let method = read_le32(out, 8);
            &&& out.len() <= 16 + pixels.len()
            &&& method == METHOD_GZIP || method == METHOD_RLE || method == METHOD_RAW
            &&& method == METHOD_RAW ==> out.skip(16) == pixels
            &&& read_le32(out, 12) == out.len() - 16
        }),
{
    let rle = rle_image(pixels, width, height, rle_pixel_size(format));
    lemma_envelope(METHOD_RAW, pixels);
    if gzip is Some && gzip->0.len() < pixels.len() {
        lemma_envelope(METHOD_GZIP, gzip->0);
    }
    if rle.len() < pixels.len() {
        lemma_envelope(METHOD_RLE, rle);
    }
}

/// The fields of an envelope.
pub proof fn lemma_envelope(method: u32, body: Seq<u8>)
    requires
        body.len() <= u32::MAX,
    ensures
        envelope(method, body).len() == 16 + body.len(),
        read_le32(envelope(method, body), 8) == method,
        read_le32(envelope(method, body), 12) == body.len(),
        envelope(method, body).skip(16) == body,
{
    let all = envelope(method, body);
    assert(all.subrange(8, 12) =~= le32(method));
    assert(all.subrange(12, 16) =~= le32(body.len() as u32));
    crate::bytes::le32_reads_back(all, 8, method);
    crate::bytes::le32_reads_back(all, 12, body.len() as u32);
    assert(all.skip(16) =~= body);
}

/// The method of an envelope, however long its body is.
proof fn lemma_envelope_method(method: u32, body: Seq<u8>)
    ensures
        envelope(method, body).len() >= 16,
        envelope(method, body).subrange(0, 4) == be32(ENVELOPE_MAGIC),
        read_le32(envelope(method, body), 8) == method,
{
    let all = envelope(method, body);
    assert(all.subrange(0, 4) =~= be32(ENVELOPE_MAGIC));
    assert(all.subrange(8, 12) =~= le32(method));
    crate::bytes::le32_reads_back(all, 8, method);
}

/// Every compressed image tells at offset 8 how it was compressed: a deepmap stream
/// is used exactly where there is one and the deployment target allows it, then
/// chunks of LZFSE streams on the same terms; each stands in its own envelope.
pub proof fn compressed_names_method(
    pixels: Seq<u8>,
    format: Seq<u8>,
    width: u32,
    height: u32,
    min_deploy: Seq<char>,
    platform: Seq<char>,
    deepmap: Option<Seq<u8>>,
    inline: bool,
    opaque: bool,
    chunks: Option<Seq<u8>>,
    gzip: Option<Seq<u8>>,
)
    ensures
        ({
            let out = compressed(
                pixels,
                format,
                width,
                height,
                min_deploy,
                platform,
                deepmap,
                inline,
                opaque,
                chunks,
                gzip,
            );
            let method = read_le32(out, 8);
            &&& out.len() >= 16
            &&& out.subrange(0, 4) == be32(ENVELOPE_MAGIC)
            &&& method == METHOD_DEEPMAP <==> deepmap is Some && allows_deepmap(
                pixels,
                min_deploy,
                platform,
            )
            &&& method == METHOD_LZFSE <==> !(deepmap is Some && allows_deepmap(
                pixels,
                min_deploy,
                platform,
            )) && chunks is Some && allows_lzfse(pixels, min_deploy, platform)
            &&& method == METHOD_DEEPMAP ==> out == deepmap_envelope(
                deepmap->0,
                format,
                inline,
                if opaque {
                    2
                } else {
                    0
                },
            )
            &&& method == METHOD_LZFSE ==> out == chunk_envelope(opaque, chunks->0)
            &&& method != METHOD_DEEPMAP && method != METHOD_LZFSE ==> out == plain_envelope(
                pixels,
                format,
                width,
                height,
                gzip,
            ) && (method == METHOD_GZIP || method == METHOD_RLE || method == METHOD_RAW)
        }),
{
    let version: u32 = if opaque {
        2
    } else {
        0
    };
    if deepmap is Some && allows_deepmap(pixels, min_deploy, platform) {
        let out = deepmap_envelope(deepmap->0, format, inline, version);
        assert(out.subrange(0, 4) =~= be32(ENVELOPE_MAGIC));
        assert(out.subrange(8, 12) =~= le32(METHOD_DEEPMAP));
        crate::bytes::le32_reads_back(out, 8, METHOD_DEEPMAP);
    } else if chunks is Some && allows_lzfse(pixels, min_deploy, platform) {
        let out = chunk_envelope(opaque, chunks->0);
        assert(out.subrange(0, 4) =~= be32(ENVELOPE_MAGIC));
        assert(out.subrange(8, 12) =~= le32(METHOD_LZFSE));
        crate::bytes::le32_reads_back(out, 8, METHOD_LZFSE);
    } else {
        lemma_envelope_method(METHOD_RAW, pixels);
        lemma_envelope_method(METHOD_GZIP, gzip->0);
        lemma_envelope_method(
            METHOD_RLE,
            rle_image(pixels, width, height, rle_pixel_size(format)),
        );
    }
}

} // verus!
