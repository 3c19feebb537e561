//! The canvas an icon is drawn on, layer by layer.

use vstd::prelude::*;

use crate::pixels::{
    premultiplied_bgra, premultiplied_is_bounded, premultiply_bgra, swap_channels, swapped,
};

verus! {

/// A color channel with the alpha divided out, rounded to the nearest number.
pub open spec fn straight(c: u8, a: u8) -> u8 {
    if a == 0 {
        0
    } else if (c * 255 + a / 2) / a as int > 255 {
        255
    } else {
        ((c * 255 + a / 2) / a as int) as u8
    }
}

/// A color channel with the alpha divided out.
fn divide_out(c: u8, a: u8) -> (s: u8)
    ensures
        s == straight(c, a),
{
    if a == 0 {
        return 0;
    }
    let v: u32 = (c as u32 * 255 + a as u32 / 2) / a as u32;
    if v > 255 {
        255
    } else {
        v as u8
    }
}

/// Pixels of blue, green, red and alpha, the alpha multiplied in, as red, green,
/// blue and alpha on their own.  Bytes behind the last whole pixel become zero.
pub open spec fn straight_rgba(pixels: Seq<u8>) -> Seq<u8> {
    Seq::new(
        pixels.len(),
        |i: int|
            if i / 4 * 4 + 3 >= pixels.len() {
                0
            } else if i % 4 == 0 {
                straight(pixels[i + 2], pixels[i + 3])
            } else if i % 4 == 1 {
                straight(pixels[i], pixels[i + 2])
            } else if i % 4 == 2 {
                straight(pixels[i - 2], pixels[i + 1])
            } else {
                pixels[i]
            },
    )
}

/// Takes the alpha out of the colors of a drawing.
pub fn to_straight_rgba(bgra: &Vec<u8>) -> (rgba: Vec<u8>)
    ensures
        rgba@ == straight_rgba(bgra@),
{
    let n: usize = bgra.len() / 4;
    let len: usize = bgra.len();
    let mut rgba: Vec<u8> = Vec::new();
    let mut k: usize = 0;
    while k < n
        invariant
            k <= n,
            n == len / 4,
            len == bgra@.len(),
            rgba@ == straight_rgba(bgra@).take(4 * k as int),
        decreases n - k,
    {
        let a: u8 = bgra[4 * k + 3];
        rgba.push(divide_out(bgra[4 * k + 2], a));
        rgba.push(divide_out(bgra[4 * k + 1], a));
        rgba.push(divide_out(bgra[4 * k], a));
        rgba.push(a);
        k = k + 1;
        assert(rgba@ =~= straight_rgba(bgra@).take(4 * k as int));
    }
    while rgba.len() < len
        invariant
            n == len / 4,
            len == bgra@.len(),
            4 * n <= rgba@.len() <= len,
            rgba@ == straight_rgba(bgra@).take(rgba@.len() as int),
        decreases len - rgba.len(),
    {
        let ghost at = rgba@.len() as int;
        assert(at / 4 * 4 + 3 >= len);
        rgba.push(0);
        assert(rgba@ =~= straight_rgba(bgra@).take(at + 1));
    }
    assert(rgba@ =~= straight_rgba(bgra@));
    rgba
}

/// A canvas of straight colors in the form that images are stored in.
pub open spec fn finished_canvas(rgba: Seq<u8>) -> Seq<u8> {
    premultiplied_bgra(swapped(rgba))
}

/// Brings a canvas of straight colors into the form that images are stored in.
pub fn finish_canvas(rgba: &Vec<u8>) -> (bgra: Vec<u8>)
    ensures
        bgra@ == finished_canvas(rgba@),
{
    premultiply_bgra(swap_channels(rgba))
}

proof fn lemma_straight_opaque(c: u8)
    ensures
        straight(c, 255) == c,
{
    assert((c * 255 + 127) / 255 == c);
}

/// An opaque drawing comes back from the canvas as it went in.
pub proof fn opaque_drawings_are_kept(bgra: Seq<u8>)
    requires
        bgra.len() % 4 == 0,
        forall|k: int| 0 <= k < bgra.len() / 4 ==> #[trigger] bgra[4 * k + 3] == 255,
    ensures
        finished_canvas(straight_rgba(bgra)) == bgra,
{
    let rgba = straight_rgba(bgra);
    let out = finished_canvas(rgba);
    assert forall|i: int| 0 <= i < bgra.len() implies out[i] == bgra[i] by {
        let k = i / 4;
        let j = i % 4;
        assert(i == 4 * k + j);
        assert(4 * k + 3 < bgra.len());
        assert(bgra[4 * k + 3] == 255);
        let s = swapped(rgba);
        assert(s[4 * k + 3] == 255) by {
            assert((4 * k + 3) % 4 == 3);
            assert(rgba[4 * k + 3] == 255);
        }
        lemma_straight_opaque(bgra[i]);
        assert(s[i] == bgra[i]) by {
            if j == 0 {
                assert((i + 2) % 4 == 2 && (i + 2) / 4 == k);
                assert(rgba[i + 2] == straight(bgra[i], bgra[i + 3]));
            } else if j == 1 {
                assert(rgba[i] == straight(bgra[i], bgra[i + 2]));
            } else if j == 2 {
                assert((i - 2) % 4 == 0 && (i - 2) / 4 == k);
                assert(rgba[i - 2] == straight(bgra[i], bgra[i + 1]));
            }
        }
        premultiplied_is_bounded(s[i], 255);
    }
    assert(out =~= bgra);
}

/// Where the first `n` pixels of a drawing of a given width land on a square canvas,
/// with the corner of the drawing at `(x, y)`: for each that lands on it, the number
/// of the pixel of the canvas and that of the pixel of the drawing, row by row.
pub open spec fn landing(x: int, y: int, width: int, side: int, n: nat) -> Seq<(int, int)>
    decreases n,
{
    if n == 0 {
        Seq::empty()
    } else {
        let k = n - 1;
        let before = landing(x, y, width, side, k as nat);
        let column = x + k % width;
        let row = y + k / width;
        if 0 <= column < side && 0 <= row < side {
            before.push((row * side + column, k))
        } else {
            before
        }
    }
}

/// Pairs of numbers of pixels.
pub open spec fn pixel_pairs(pairs: Seq<(usize, usize)>) -> Seq<(int, int)> {
    Seq::new(pairs.len(), |i: int| (pairs[i].0 as int, pairs[i].1 as int))
}

/// Finds where the pixels of a drawing land on a square canvas.
pub fn place_drawing(x: i64, y: i64, width: u32, height: u32, side: u32) -> (pairs: Vec<
    (usize, usize),
>)
    requires
        width * height <= usize::MAX,
        side * side <= usize::MAX,
    ensures
        pixel_pairs(pairs@) == landing(
            x as int,
            y as int,
            width as int,
            side as int,
            (width * height) as nat,
        ),
{
    let mut pairs: Vec<(usize, usize)> = Vec::new();
    let mut row: u32 = 0;
    let mut k: usize = 0;
    assert(pixel_pairs(pairs@) =~= Seq::empty());
    while row < height
        invariant
            row <= height,
            k == row * width,
            width * height <= usize::MAX,
            side * side <= usize::MAX,
            pixel_pairs(pairs@) == landing(
                x as int,
                y as int,
                width as int,
                side as int,
                k as nat,
            ),
        decreases height - row,
    {
        let mut column: u32 = 0;
        while column < width
            invariant
                row < height,
                column <= width,
                k == row * width + column,
                width * height <= usize::MAX,
                side * side <= usize::MAX,
                pixel_pairs(pairs@) == landing(
                    x as int,
                    y as int,
                    width as int,
                    side as int,
                    k as nat,
                ),
            decreases width - column,
        {
            proof {
                lemma_position(row as int, column as int, width as int, height as int);
            }
            let to_x: i128 = x as i128 + column as i128;
            let to_y: i128 = y as i128 + row as i128;
            if 0 <= to_x && to_x < side as i128 && 0 <= to_y && to_y < side as i128 {
                let ghost before = pairs@;
                proof {
                    lemma_inside(to_x as int, to_y as int, side as int);
                }
                let at: usize = to_y as usize * side as usize + to_x as usize;
                pairs.push((at, k));
                assert(pixel_pairs(pairs@) =~= pixel_pairs(before).push((at as int, k as int)));
            }
            column = column + 1;
            k = k + 1;
        }
        assert(k == (row + 1) * width) by (nonlinear_arith)
            requires
                k == row * width + column,
                column == width,
        ;
        row = row + 1;
    }
    assert(row * width == width * height) by (nonlinear_arith)
        requires
            row == height,
    ;
    pairs
}

/// What the number of a pixel of a drawing says of its row and column.
proof fn lemma_position(row: int, column: int, width: int, height: int)
    requires
        0 <= row < height,
        0 <= column < width,
    ensures
        (row * width + column) / width == row,
        (row * width + column) % width == column,
        row * width + column < width * height,
{
    vstd::arithmetic::div_mod::lemma_fundamental_div_mod_converse(
        row * width + column,
        width,
        row,
        column,
    );
    assert(row * width + column < width * height) by (nonlinear_arith)
        requires
            0 <= row < height,
            0 <= column < width,
    ;
}

/// The number of a pixel of the canvas is below the number of its pixels.
proof fn lemma_inside(column: int, row: int, side: int)
    requires
        0 <= column < side,
        0 <= row < side,
    ensures
        0 <= row * side,
        row * side + column < side * side,
{
    assert(0 <= row * side && row * side + column < side * side) by (nonlinear_arith)
        requires
            0 <= column < side,
            0 <= row < side,
    ;
}

/// Pixels land on the canvas, and come from the drawing in order; no pixel of the
/// canvas is hit twice.
pub proof fn pixels_land_once(x: int, y: int, width: int, side: int, n: nat)
    requires
        width > 0,
        side >= 0,
    ensures
        forall|i: int|
            #![trigger landing(x, y, width, side, n)[i]]
            0 <= i < landing(x, y, width, side, n).len() ==> 0 <= landing(
                x,
                y,
                width,
                side,
                n,
            )[i].0 < side * side && 0 <= landing(x, y, width, side, n)[i].1 < n,
        forall|i: int, j: int|
            #![trigger landing(x, y, width, side, n)[i], landing(x, y, width, side, n)[j]]
            0 <= i < j < landing(x, y, width, side, n).len() ==> landing(
                x,
                y,
                width,
                side,
                n,
            )[i].0 < landing(x, y, width, side, n)[j].0 && landing(x, y, width, side, n)[i].1
                < landing(x, y, width, side, n)[j].1,
    decreases n,
{
    if n > 0 {
        let k = n - 1;
        let before = landing(x, y, width, side, k as nat);
        pixels_land_once(x, y, width, side, k as nat);
        let column = x + k % width;
        let row = y + k / width;
        if 0 <= column < side && 0 <= row < side {
            lemma_inside(column, row, side);
            assert forall|i: int| 0 <= i < before.len() implies #[trigger] before[i].0 < row * side
                + column by {
                lemma_landing_from(x, y, width, side, k as nat, i);
                let p = before[i].1;
                lemma_rows_in_order(p, k, width);
                let (c, r) = (x + p % width, y + p / width);
                if r < row {
                    assert(r * side + c < row * side + column) by (nonlinear_arith)
                        requires
                            r + 1 <= row,
                            0 <= c < side,
                            0 <= column,
                    ;
                }
            }
        }
    }
}

/// Every entry of a landing is made from the pixel of the drawing that it names.
proof fn lemma_landing_from(x: int, y: int, width: int, side: int, n: nat, i: int)
    requires
        0 <= i < landing(x, y, width, side, n).len(),
    ensures
        ({
            let (at, p) = landing(x, y, width, side, n)[i];
            let (c, r) = (x + p % width, y + p / width);
            &&& 0 <= p < n
            &&& 0 <= c < side
            &&& 0 <= r < side
            &&& at == r * side + c
        }),
    decreases n,
{
    if n > 0 {
        let before = landing(x, y, width, side, (n - 1) as nat);
        if i < before.len() {
            lemma_landing_from(x, y, width, side, (n - 1) as nat, i);
        }
    }
}

/// Of two pixels, the later is in a later row, or in the same and further right.
proof fn lemma_rows_in_order(p: int, k: int, width: int)
    requires
        0 <= p < k,
        width > 0,
    ensures
        p / width < k / width || (p / width == k / width && p % width < k % width),
{
    vstd::arithmetic::div_mod::lemma_fundamental_div_mod(p, width);
    vstd::arithmetic::div_mod::lemma_fundamental_div_mod(k, width);
    vstd::arithmetic::div_mod::lemma_div_is_ordered(p, k, width);
}

/// Every pixel of a drawing that is on the canvas lands there.
pub proof fn all_pixels_land(x: int, y: int, width: int, side: int, n: nat, p: int)
    requires
        0 <= p < n,
        0 <= x + p % width < side,
        0 <= y + p / width < side,
    ensures
        landing(x, y, width, side, n).contains(((y + p / width) * side + (x + p % width), p)),
    decreases n,
{
    let all = landing(x, y, width, side, n);
    let entry = ((y + p / width) * side + (x + p % width), p);
    let before = landing(x, y, width, side, (n - 1) as nat);
    if p == n - 1 {
        assert(all[all.len() - 1] == entry);
    } else {
        all_pixels_land(x, y, width, side, (n - 1) as nat, p);
        let i = choose|i: int| 0 <= i < before.len() && before[i] == entry;
        assert(all[i] == entry);
    }
}

} // verus!
