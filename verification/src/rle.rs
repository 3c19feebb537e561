//! Run-length encoding of pixels.
//!
//! Each row is a list of packets: a run repeats one pixel, a literal lists
//! pixels as they are.  Rows that are the same are stored once.

use vstd::prelude::*;
use vstd::slice::slice_subrange;

use crate::bytes::{
    le16, le16_reads_back, le32, le32_reads_back, lemma_empty_prefix, put_bytes, put_le16,
    put_le32, read_le16, read_le32, same_bytes,
};

verus! {

broadcast use lemma_empty_prefix;

/// The mark of a packet that repeats one pixel.
pub const RUN_MARK: u16 = 0x8000;

/// Pixel `i` of a row with `bpp` bytes for each.
pub open spec fn pixel(row: Seq<u8>, bpp: nat, i: int) -> Seq<u8> {
    row.subrange(i * bpp, (i + 1) * bpp)
}

/// Where the run of pixels equal to pixel `x` ends, known to reach `k`.
pub open spec fn run_end(row: Seq<u8>, bpp: nat, width: int, x: int, k: int) -> int
    decreases width - k,
{
    if k < width && pixel(row, bpp, k) == pixel(row, bpp, x) {
        run_end(row, bpp, width, x, k + 1)
    } else {
        k
    }
}

/// Where the stretch of pixels from `x` on ends in which none equals the next.
pub open spec fn literal_end(row: Seq<u8>, bpp: nat, width: int, x: int) -> int
    decreases width - x,
{
    if x >= width {
        x
    } else if x + 1 < width && pixel(row, bpp, x + 1) == pixel(row, bpp, x) {
        x
    } else {
        literal_end(row, bpp, width, x + 1)
    }
}

/// Runs and literals end within the row; where no run begins, a literal has at
/// least one pixel.
pub proof fn lemma_ends(row: Seq<u8>, bpp: nat, width: int, x: int, k: int)
    requires
        0 <= x < k <= width,
    ensures
        k <= run_end(row, bpp, width, x, k) <= width,
        x <= literal_end(row, bpp, width, x) <= width,
        run_end(row, bpp, width, x, x + 1) < x + 2 ==> x < literal_end(row, bpp, width, x),
    decreases width - x, width - k,
{
    reveal_with_fuel(literal_end, 2);
    if k < width {
        lemma_ends(row, bpp, width, x, k + 1);
    }
    if x + 1 < width {
        lemma_ends(row, bpp, width, x + 1, x + 2);
        if pixel(row, bpp, x + 1) == pixel(row, bpp, x) {
            lemma_run_grows(row, bpp, width, x, x + 2);
        }
    }
}

proof fn lemma_run_grows(row: Seq<u8>, bpp: nat, width: int, x: int, k: int)
    ensures
        k <= run_end(row, bpp, width, x, k),
    decreases width - k,
{
    if k < width {
        lemma_run_grows(row, bpp, width, x, k + 1);
    }
}

/// The packets of a row from pixel `x` on: a run where at least two pixels are
/// the same, else a literal up to the next run.
pub open spec fn encoded_row(row: Seq<u8>, bpp: nat, width: int, x: int) -> Seq<u8>
    decreases width - x,
{
    if x < 0 || x >= width {
        Seq::empty()
    } else {
        proof {
            lemma_ends(row, bpp, width, x, x + 1);
        }
        let run = run_end(row, bpp, width, x, x + 1);
        if run >= x + 2 {
            le16((run - x) as u16) + le16(RUN_MARK) + pixel(row, bpp, x) + encoded_row(
                row,
                bpp,
                width,
                run,
            )
        } else {
            let end = literal_end(row, bpp, width, x);
            le16((end - x) as u16) + le16(0) + row.subrange(x * bpp, end * bpp) + encoded_row(
                row,
                bpp,
                width,
                end,
            )
        }
    }
}

/// `count` copies of `one`, one behind the other.
pub open spec fn repeated(one: Seq<u8>, count: nat) -> Seq<u8>
    decreases count,
{
    if count == 0 {
        Seq::empty()
    } else {
        repeated(one, (count - 1) as nat) + one
    }
}

/// The `width` pixels that the packets at `at` stand for.
pub open spec fn decoded_row(s: Seq<u8>, at: int, bpp: nat, width: int) -> Seq<u8>
    decreases width,
{
    if width <= 0 {
        Seq::empty()
    } else {
        let count = read_le16(s, at);
        if count == 0 || count > width {
            Seq::empty()
        } else if read_le16(s, at + 2) == RUN_MARK {
            repeated(s.subrange(at + 4, at + 4 + bpp), count) + decoded_row(
                s,
                at + 4 + bpp,
                bpp,
                width - count,
            )
        } else {
            s.subrange(at + 4, at + 4 + count * bpp) + decoded_row(
                s,
                at + 4 + count * bpp,
                bpp,
                width - count,
            )
        }
    }
}

/// Pixels that are all the same are copies of the first.
proof fn lemma_run_is_repeated(row: Seq<u8>, bpp: nat, width: int, x: int, k: int)
    requires
        0 <= x < k <= run_end(row, bpp, width, x, x + 1),
        x < width,
        row.len() == width * bpp,
    ensures
        k <= width,
        0 <= x * bpp <= k * bpp <= row.len(),
        row.subrange(x * bpp, k * bpp) == repeated(pixel(row, bpp, x), (k - x) as nat),
    decreases k - x,
{
    lemma_ends(row, bpp, width, x, x + 1);
    lemma_products(x, k, width, bpp);
    let one = pixel(row, bpp, x);
    if k == x + 1 {
        assert(repeated(one, 0) =~= Seq::empty());
        assert(repeated(one, 1) =~= one);
    } else {
        lemma_run_is_repeated(row, bpp, width, x, k - 1);
        lemma_products(x, k - 1, width, bpp);
        lemma_inside_run(row, bpp, width, x, x + 1, k - 1);
        assert(pixel(row, bpp, k - 1) == pixel(row, bpp, x));
        lemma_products(k - 1, k, width, bpp);
        lemma_join(row, x * bpp, (k - 1) * bpp, (k - 1 + 1) * bpp);
        assert(k - 1 + 1 == k);
    }
}

/// Two stretches that meet.
proof fn lemma_join(row: Seq<u8>, a: int, b: int, c: int)
    requires
        0 <= a <= b <= c <= row.len(),
    ensures
        row.subrange(a, c) == row.subrange(a, b) + row.subrange(b, c),
{
    assert(row.subrange(a, c) =~= row.subrange(a, b) + row.subrange(b, c));
}

/// Every pixel of a run is the same.
proof fn lemma_inside_run(row: Seq<u8>, bpp: nat, width: int, x: int, k: int, i: int)
    requires
        k <= i < run_end(row, bpp, width, x, k),
    ensures
        pixel(row, bpp, i) == pixel(row, bpp, x),
    decreases width - k,
{
    if i > k {
        lemma_inside_run(row, bpp, width, x, k + 1, i);
    }
}

proof fn lemma_products(a: int, b: int, c: int, bpp: nat)
    requires
        0 <= a <= b <= c,
    ensures
        0 <= a * bpp <= b * bpp <= c * bpp,
        (a + 1) * bpp == a * bpp + bpp,
        (b - a) * bpp == b * bpp - a * bpp,
{
    assert(0 <= a * bpp) by (nonlinear_arith)
        requires
            0 <= a,
            bpp >= 0,
    ;
    assert(a * bpp <= b * bpp) by (nonlinear_arith)
        requires
            a <= b,
            bpp >= 0,
    ;
    assert(b * bpp <= c * bpp) by (nonlinear_arith)
        requires
            b <= c,
            bpp >= 0,
    ;
    assert((a + 1) * bpp == a * bpp + bpp) by (nonlinear_arith);
    assert((b - a) * bpp == b * bpp - a * bpp) by (nonlinear_arith);
}

/// Decoding undoes encoding: the packets of a row, wherever they stand in `s`,
/// decode to the row.  A packet counts at most 65535 pixels, so the row may have
/// no more.
pub proof fn decoding_undoes_encoding(
    row: Seq<u8>,
    bpp: nat,
    width: int,
    x: int,
    s: Seq<u8>,
    at: int,
)
    requires
        0 <= x <= width <= u16::MAX,
        row.len() == width * bpp,
        0 <= at,
        at + encoded_row(row, bpp, width, x).len() <= s.len(),
        s.subrange(at, at + encoded_row(row, bpp, width, x).len()) == encoded_row(
            row,
            bpp,
            width,
            x,
        ),
    ensures
        0 <= x * bpp <= row.len(),
        decoded_row(s, at, bpp, width - x) == row.subrange(x * bpp, width * bpp),
    decreases width - x,
{
    lemma_products(x, x, width, bpp);
    if x < width {
        lemma_ends(row, bpp, width, x, x + 1);
        let all = encoded_row(row, bpp, width, x);
        let run = run_end(row, bpp, width, x, x + 1);
        let is_run = run >= x + 2;
        let end = if is_run {
            run
        } else {
            literal_end(row, bpp, width, x)
        };
        let count = (end - x) as u16;
        let mark = if is_run {
            RUN_MARK
        } else {
            0
        };
        lemma_products(x, x + 1, width, bpp);
        lemma_products(x, end, width, bpp);
        let body = if is_run {
            pixel(row, bpp, x)
        } else {
            row.subrange(x * bpp, end * bpp)
        };
        let rest = encoded_row(row, bpp, width, end);
        let next = at + 4 + body.len();
        assert(all == le16(count) + le16(mark) + body + rest);
        let here = s.subrange(at, at + all.len());
        assert(s.subrange(at, at + 2) =~= le16(count)) by {
            assert(s.subrange(at, at + 2) =~= here.subrange(0, 2));
            assert(all.subrange(0, 2) =~= le16(count));
        }
        assert(s.subrange(at + 2, at + 4) =~= le16(mark)) by {
            assert(s.subrange(at + 2, at + 4) =~= here.subrange(2, 4));
            assert(all.subrange(2, 4) =~= le16(mark));
        }
        le16_reads_back(s, at, count);
        le16_reads_back(s, at + 2, mark);
        assert(s.subrange(at + 4, next) =~= body) by {
            assert(s.subrange(at + 4, next) =~= here.subrange(4, 4int + body.len()));
            assert(all.subrange(4, 4int + body.len()) =~= body);
        }
        assert(s.subrange(next, next + rest.len()) =~= rest) by {
            assert(s.subrange(next, next + rest.len()) =~= here.subrange(
                4int + body.len(),
                all.len() as int,
            ));
            assert(all.subrange(4int + body.len(), all.len() as int) =~= rest);
        }
        decoding_undoes_encoding(row, bpp, width, end, s, next);
        if is_run {
            lemma_run_is_repeated(row, bpp, width, x, end);
        }
        assert(row.subrange(x * bpp, width * bpp) =~= row.subrange(x * bpp, end * bpp)
            + row.subrange(end * bpp, width * bpp));
    } else {
        assert(row.subrange(x * bpp, width * bpp) =~= Seq::empty());
    }
}

/// Row `y` of an image with `stride` bytes for each.
pub open spec fn image_row(data: Seq<u8>, stride: nat, y: int) -> Seq<u8> {
    data.subrange(y * stride, y * stride + stride)
}

/// The first row, from `j` on, that is the same as row `y`.
pub open spec fn first_same(data: Seq<u8>, stride: nat, y: int, j: int) -> int
    decreases y - j,
{
    if j >= y {
        y
    } else if image_row(data, stride, j) == image_row(data, stride, y) {
        j
    } else {
        first_same(data, stride, y, j + 1)
    }
}

/// The packets of the first `n` rows; rows that came before are left out.
pub open spec fn row_packets(data: Seq<u8>, width: nat, bpp: nat, n: nat) -> Seq<u8>
    decreases n,
{
    if n == 0 {
        Seq::empty()
    } else {
        let before = row_packets(data, width, bpp, (n - 1) as nat);
        if first_same(data, width * bpp, n - 1, 0) == n - 1 {
            before + encoded_row(
                image_row(data, width * bpp, n - 1),
                bpp,
                width as int,
                0,
            )
        } else {
            before
        }
    }
}

/// Where the packets of row `y` begin in an encoded image of `height` rows.
pub open spec fn row_offset(data: Seq<u8>, width: nat, height: nat, bpp: nat, y: int) -> u32
    decreases y,
{
    let j = first_same(data, width * bpp, y, 0);
    if 0 <= j < y {
        row_offset(data, width, height, bpp, j)
    } else {
        (12 + height * 4 + row_packets(data, width, bpp, y as nat).len()) as u32
    }
}

/// The offsets of the first `n` rows.
pub open spec fn offset_table(data: Seq<u8>, width: nat, height: nat, bpp: nat, n: nat) -> Seq<u8>
    decreases n,
{
    if n == 0 {
        Seq::empty()
    } else {
        offset_table(data, width, height, bpp, (n - 1) as nat) + le32(
            row_offset(data, width, height, bpp, n - 1),
        )
    }
}

/// An encoded image: pixel size, width, height, the offset of each row, and the
/// packets.
pub open spec fn rle_image(data: Seq<u8>, width: u32, height: u32, bpp: u32) -> Seq<u8> {
    le32(bpp) + le32(width) + le32(height) + offset_table(
        data,
        width as nat,
        height as nat,
        bpp as nat,
        height as nat,
    ) + row_packets(data, width as nat, bpp as nat, height as nat)
}

proof fn lemma_first_same(data: Seq<u8>, stride: nat, y: int, j: int)
    requires
        0 <= j <= y,
    ensures
        j <= first_same(data, stride, y, j) <= y,
        image_row(data, stride, first_same(data, stride, y, j)) == image_row(data, stride, y),
        forall|k: int|
            j <= k < first_same(data, stride, y, j) ==> image_row(data, stride, k) != image_row(
                data,
                stride,
                y,
            ),
    decreases y - j,
{
    if j < y && image_row(data, stride, j) != image_row(data, stride, y) {
        lemma_first_same(data, stride, y, j + 1);
    }
}

/// The first row that is the same as row `y` has none before it that is.
proof fn lemma_first_same_is_first(data: Seq<u8>, stride: nat, y: int)
    requires
        0 <= y,
    ensures
        ({
            let j = first_same(data, stride, y, 0);
            first_same(data, stride, j, 0) == j
        }),
{
    let j = first_same(data, stride, y, 0);
    lemma_first_same(data, stride, y, 0);
    lemma_first_same(data, stride, j, 0);
}

/// Packets of earlier rows stay where they are, and those of a row that is the
/// first of its kind follow them.
proof fn lemma_packets_stay(data: Seq<u8>, width: nat, bpp: nat, j: nat, n: nat)
    requires
        j < n,
        first_same(data, width * bpp, j as int, 0) == j,
    ensures
        ({
            let all = row_packets(data, width, bpp, n);
            let at = row_packets(data, width, bpp, j).len() as int;
            let row = encoded_row(image_row(data, width * bpp, j as int), bpp, width as int, 0);
            &&& at + row.len() <= all.len()
            &&& all.subrange(at, at + row.len()) == row
        }),
    decreases n,
{
    let all = row_packets(data, width, bpp, n);
    let before = row_packets(data, width, bpp, (n - 1) as nat);
    let at = row_packets(data, width, bpp, j).len() as int;
    let row = encoded_row(image_row(data, width * bpp, j as int), bpp, width as int, 0);
    if j == n - 1 {
        assert(all.subrange(at, at + row.len()) =~= row);
    } else {
        lemma_packets_stay(data, width, bpp, j, (n - 1) as nat);
        assert(all.subrange(at, at + row.len()) =~= before.subrange(at, at + row.len()));
    }
}

proof fn lemma_offset_table(data: Seq<u8>, width: nat, height: nat, bpp: nat, n: nat, y: int)
    requires
        0 <= y < n,
    ensures
        offset_table(data, width, height, bpp, n).len() == 4 * n,
        offset_table(data, width, height, bpp, n).subrange(4 * y, 4 * y + 4) == le32(
            row_offset(data, width, height, bpp, y),
        ),
    decreases n,
{
    let all = offset_table(data, width, height, bpp, n);
    let before = offset_table(data, width, height, bpp, (n - 1) as nat);
    if n > 1 {
        lemma_offset_table(
            data,
            width,
            height,
            bpp,
            (n - 1) as nat,
            if y < n - 1 { y } else { 0 },
        );
    }
    assert(before.len() == 4 * (n - 1));
    if y == n - 1 {
        assert(all.subrange(4 * y, 4 * y + 4) =~= le32(row_offset(data, width, height, bpp, y)));
    } else {
        assert(all.subrange(4 * y, 4 * y + 4) =~= before.subrange(4 * y, 4 * y + 4));
    }
}

/// An encoded image can be read back: the offset of row `y` leads to packets
/// that decode to the row, as long as offsets and counts fit their fields.
pub proof fn encoded_rows_read_back(data: Seq<u8>, width: u32, height: u32, bpp: u32, y: int)
    requires
        0 <= y < height,
        width <= u16::MAX,
        height as nat * (width as nat * bpp as nat) <= data.len(),
        rle_image(data, width, height, bpp).len() <= u32::MAX,
    ensures
        ({
            let image = rle_image(data, width, height, bpp);
            decoded_row(
                image,
                read_le32(image, 12 + 4 * y) as int,
                bpp as nat,
                width as int,
            ) == image_row(data, width as nat * bpp as nat, y)
        }),
{
    let image = rle_image(data, width, height, bpp);
    let w = width as nat;
    let h = height as nat;
    let b = bpp as nat;
    let stride = w * b;
    let table = offset_table(data, w, h, b, h);
    let packets = row_packets(data, w, b, h);
    lemma_offset_table(data, w, h, b, h, y);
    let head = le32(bpp) + le32(width) + le32(height);
    assert(image =~= head + table + packets);
    assert(image.subrange(12 + 4 * y, 16 + 4 * y) =~= table.subrange(4 * y, 4 * y + 4));
    le32_reads_back(image, 12 + 4 * y, row_offset(data, w, h, b, y));
    let j = first_same(data, stride, y, 0);
    lemma_first_same(data, stride, y, 0);
    lemma_first_same_is_first(data, stride, y);
    assert(row_offset(data, w, h, b, y) == row_offset(data, w, h, b, j));
    lemma_packets_stay(data, w, b, j as nat, h);
    let row = image_row(data, stride, j);
    let at = row_packets(data, w, b, j as nat).len() as int;
    let enc = encoded_row(row, b, width as int, 0);
    let base = (12 + 4 * h) as int;
    assert(image.subrange(base + at, base + at + enc.len()) =~= packets.subrange(
        at,
        at + enc.len(),
    ));
    assert(row_offset(data, w, h, b, j) == base + at);
    assert(0 <= j * stride && j * stride + stride <= h * stride) by (nonlinear_arith)
        requires
            0 <= j,
            j + 1 <= h,
            stride >= 0,
    ;
    decoding_undoes_encoding(row, b, width as int, 0, image, base + at);
    assert(0 * b == 0);
    assert(row.subrange(0, width * b) =~= row);
}

/// Whether pixels `i` and `j` of a row are the same.
fn same_pixel(row: &[u8], bpp: usize, width: usize, i: usize, j: usize) -> (same: bool)
    requires
        i < width,
        j < width,
        row@.len() == width * bpp,
    ensures
        same == (pixel(row@, bpp as nat, i as int) == pixel(row@, bpp as nat, j as int)),
{
    proof {
        lemma_products(i as int, i + 1, width as int, bpp as nat);
        lemma_products(j as int, j + 1, width as int, bpp as nat);
    }
    let len: usize = row.len();
    same_bytes(
        slice_subrange(row, i * bpp, (i + 1) * bpp),
        slice_subrange(row, j * bpp, (j + 1) * bpp),
    )
}

/// Appends the packets of a row.
fn encode_row(out: &mut Vec<u8>, row: &[u8], bpp: usize, width: usize)
    requires
        row@.len() == width * bpp,
    ensures
        final(out)@ == old(out)@ + encoded_row(row@, bpp as nat, width as int, 0),
{
    let ghost whole = old(out)@ + encoded_row(row@, bpp as nat, width as int, 0);
    let len: usize = row.len();
    let mut x: usize = 0;
    while x < width
        invariant
            x <= width,
            len == row@.len(),
            row@.len() == width * bpp,
            whole == out@ + encoded_row(row@, bpp as nat, width as int, x as int),
        decreases width - x,
    {
        let ghost start = x as int;
        let ghost before = out@;
        proof {
            lemma_ends(row@, bpp as nat, width as int, x as int, x + 1);
            lemma_products(x as int, x + 1, width as int, bpp as nat);
        }
        let mut end: usize = x + 1;
        while end < width && same_pixel(row, bpp, width, end, x)
            invariant
                x < end <= width,
                row@.len() == width * bpp,
                run_end(row@, bpp as nat, width as int, x as int, x + 1) == run_end(
                    row@,
                    bpp as nat,
                    width as int,
                    x as int,
                    end as int,
                ),
            decreases width - end,
        {
            end = end + 1;
        }
        if end - x >= 2 {
            put_le16(out, (end - x) as u16);
            put_le16(out, RUN_MARK);
            put_bytes(out, slice_subrange(row, x * bpp, (x + 1) * bpp));
            proof {
                assert(whole =~= out@ + encoded_row(row@, bpp as nat, width as int, end as int));
            }
            x = end;
        } else {
            let mut stop: usize = x;
            while stop < width && !(stop + 1 < width && same_pixel(row, bpp, width, stop + 1, stop))
                invariant
                    x <= stop <= width,
                    row@.len() == width * bpp,
                    literal_end(row@, bpp as nat, width as int, x as int) == literal_end(
                        row@,
                        bpp as nat,
                        width as int,
                        stop as int,
                    ),
                decreases width - stop,
            {
                stop = stop + 1;
            }
            proof {
                lemma_products(x as int, stop as int, width as int, bpp as nat);
            }
            put_le16(out, (stop - x) as u16);
            put_le16(out, 0);
            put_bytes(out, slice_subrange(row, x * bpp, stop * bpp));
            proof {
                assert(whole =~= out@ + encoded_row(row@, bpp as nat, width as int, stop as int));
            }
            x = stop;
        }
    }
    assert(whole =~= out@);
}

/// A packet has four bytes besides its pixels, and at least one pixel.
proof fn lemma_encoded_row_len(row: Seq<u8>, bpp: nat, width: int, x: int)
    requires
        0 <= x <= width,
        row.len() == width * bpp,
    ensures
        encoded_row(row, bpp, width, x).len() <= (width - x) * (4 + bpp),
    decreases width - x,
{
    if x < width {
        lemma_ends(row, bpp, width, x, x + 1);
        let run = run_end(row, bpp, width, x, x + 1);
        let end = if run >= x + 2 {
            run
        } else {
            literal_end(row, bpp, width, x)
        };
        lemma_encoded_row_len(row, bpp, width, end);
        lemma_products(x, x + 1, width, bpp);
        lemma_products(x, end, width, bpp);
        let size = 4 + bpp;
        assert((width - x) * size == (width - end) * size + (end - x) * size) by (nonlinear_arith);
        assert((end - x) * size == 4 * (end - x) + (end - x) * bpp) by (nonlinear_arith)
            requires
                size == 4 + bpp,
        ;
        assert((end - x) * bpp >= bpp) by (nonlinear_arith)
            requires
                end - x >= 1,
                bpp >= 0,
        ;
    }
}

/// Packets of `n` rows have at most as many bytes as `n` rows of packets of one
/// pixel.
proof fn lemma_row_packets_len(data: Seq<u8>, width: nat, bpp: nat, n: nat)
    requires
        n * (width * bpp) <= data.len(),
    ensures
        row_packets(data, width, bpp, n).len() <= n * (width * (4 + bpp)),
    decreases n,
{
    if n > 0 {
        let stride = width * bpp;
        let m = (n - 1) as nat;
        assert(n * stride == m * stride + stride) by (nonlinear_arith)
            requires
                n == m + 1,
        ;
        assert(0 <= m * stride) by (nonlinear_arith)
            requires
                m >= 0,
                stride >= 0,
        ;
        lemma_row_packets_len(data, width, bpp, m);
        lemma_encoded_row_len(image_row(data, stride, m as int), bpp, width as int, 0);
        assert(n * (width * (4 + bpp)) == m * (width * (4 + bpp)) + width * (4 + bpp))
            by (nonlinear_arith)
            requires
                n == m + 1,
        ;
        assert(0 <= width * (4 + bpp)) by (nonlinear_arith)
            requires
                width >= 0,
                bpp >= 0,
        ;
    }
}

/// The first row that is the same as row `y`.
fn find_same(data: &[u8], stride: usize, y: usize) -> (j: usize)
    requires
        y * stride + stride <= data@.len(),
    ensures
        j == first_same(data@, stride as nat, y as int, 0),
        j <= y,
{
    let total: usize = data.len();
    proof {
        assert(0 <= y * stride) by (nonlinear_arith)
            requires
                y >= 0,
                stride >= 0,
        ;
    }
    let row = slice_subrange(data, y * stride, y * stride + stride);
    let mut j: usize = 0;
    while j < y
        invariant
            j <= y,
            total == data@.len(),
            y * stride + stride <= total,
            row@ == image_row(data@, stride as nat, y as int),
            first_same(data@, stride as nat, y as int, 0) == first_same(
                data@,
                stride as nat,
                y as int,
                j as int,
            ),
        decreases y - j,
    {
        proof {
            assert(0 <= j * stride <= y * stride) by (nonlinear_arith)
                requires
                    0 <= j <= y,
                    stride >= 0,
            ;
        }
        if same_bytes(slice_subrange(data, j * stride, j * stride + stride), row) {
            return j;
        }
        j = j + 1;
    }
    j
}

/// Encodes an image of `height` rows of `width` pixels of `bpp` bytes.
pub fn compress_rle(pixel_data: &[u8], width: u32, height: u32, bpp: u32) -> (out: Vec<u8>)
    requires
        width * bpp <= u32::MAX,
        height as nat * (width as nat * bpp as nat) <= pixel_data@.len(),
        12 + 4 * height + height as nat * (width as nat * (4 + bpp as nat)) <= usize::MAX,
    ensures
        out@ == rle_image(pixel_data@, width, height, bpp),
{
    let ghost data = pixel_data@;
    let ghost w = width as nat;
    let ghost h = height as nat;
    let ghost b = bpp as nat;
    let stride: usize = (width * bpp) as usize;
    let rows: usize = height as usize;
    let ghost most = h * (w * (4 + b));
    assert(0 <= most) by (nonlinear_arith)
        requires
            most == h * (w * (4 + b)),
            h >= 0,
            w >= 0,
            b >= 0,
    ;
    let base: usize = 12 + rows * 4;
    let total: usize = pixel_data.len();
    let mut offsets: Vec<u32> = Vec::new();
    let mut packets: Vec<u8> = Vec::new();
    let mut out: Vec<u8> = Vec::new();
    put_le32(&mut out, bpp);
    put_le32(&mut out, width);
    put_le32(&mut out, height);
    let ghost head = out@;
    let mut y: usize = 0;
    assert(out@ =~= head + offset_table(data, w, h, b, 0));
    while y < rows
        invariant
            y <= rows,
            rows == height,
            stride == w * b,
            data == pixel_data@,
            w == width,
            h == height,
            b == bpp,
            most == h * (w * (4 + b)),
            total == data.len(),
            rows * stride <= total,
            base == 12 + h * 4,
            base + most <= usize::MAX,
            offsets@.len() == y,
            forall|j: int| 0 <= j < y ==> #[trigger] offsets@[j] == row_offset(data, w, h, b, j),
            packets@ == row_packets(data, w, b, y as nat),
            out@ == head + offset_table(data, w, h, b, y as nat),
        decreases rows - y,
    {
        proof {
            assert(0 <= y * stride && y * stride + stride <= rows * stride) by (nonlinear_arith)
                requires
                    0 <= y,
                    y + 1 <= rows,
                    stride >= 0,
            ;
            lemma_row_packets_len(data, w, b, y as nat);
            assert(y * (w * (4 + b)) <= most) by (nonlinear_arith)
                requires
                    y <= h,
                    most == h * (w * (4 + b)),
                    w * (4 + b) >= 0,
            ;
            lemma_first_same(data, stride as nat, y as int, 0);
        }
        let j = find_same(pixel_data, stride, y);
        let offset: u32 = if j < y {
            offsets[j]
        } else {
            let at: u32 = #[verifier::truncate] ((base + packets.len()) as u32);
            let row = slice_subrange(pixel_data, y * stride, y * stride + stride);
            encode_row(&mut packets, row, bpp as usize, width as usize);
            at
        };
        offsets.push(offset);
        put_le32(&mut out, offset);
        y = y + 1;
        assert(out@ =~= head + offset_table(data, w, h, b, y as nat));
    }
    put_bytes(&mut out, packets.as_slice());
    out
}

} // verus!
