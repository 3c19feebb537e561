//! Atlas packing.
//!
//! Images are put on horizontal shelves, and stacked in columns within a shelf.
//! What does not fit under the height limit of an atlas goes to the next one.

use vstd::prelude::*;

use crate::bytes::{put_zeros, write_at, written, zeros};
use crate::formats::{bgra, bgra_name, is_bgra};
use crate::order::{
    arrange, arranged, is_permutation, is_stable_order, stable_order, stable_order_is_unique,
    stable_orders_exist, SortKey,
};
use crate::text::{decimal, put_decimal, put_str};

verus! {

/// The empty border of an atlas.
pub const MARGIN: u32 = 2;

/// The empty space between two images.
pub const GAP: u32 = 2;

/// The part number of ordinary images.
pub const PART_REGULAR: u32 = 181;

/// The part number of icons.
pub const PART_ICON: u32 = 184;

/// An image that has, or is to get, a place in an atlas.
#[derive(Debug, Clone)]
pub struct PackedImage {
    pub name: String,
    pub identifier: u32,
    pub width: u32,
    pub height: u32,
    pub x: u32,
    pub y: u32,
    pub pixel_data: Vec<u8>,
    pub pixel_format: [u8; 4],
    pub scale: u32,
    pub is_template: bool,
    /// How the bitmap is encoded: 0 for original, 2 for template, 4 for automatic.
    pub template_rendering_intent: i32,
    pub part: u32,
    pub dim2: u32,
    pub appearance: u32,
    pub direction: u32,
    /// The device idiom of the image, 0 for all.
    pub idiom: u32,
    /// Whether the pixels were drawn from a vector image.
    pub is_svg_rasterization: bool,
    /// The appearance variant: images of variant 1 go to an atlas of their own.
    pub variant: u32,
}

impl PackedImage {
    /// An unplaced image without pixels, of an ordinary part.
    pub fn new(name: String, identifier: u32, width: u32, height: u32) -> (image: Self)
        ensures
            image.name == name,
            image.identifier == identifier,
            image.width == width,
            image.height == height,
            image.x == 0,
            image.y == 0,
            image.pixel_data@.len() == 0,
            image.pixel_format@ == bgra_name(),
            image.scale == 1,
            !image.is_template,
            image.template_rendering_intent == 4,
            image.part == PART_REGULAR,
            image.dim2 == 0,
            image.appearance == 0,
            image.direction == 0,
            image.idiom == 0,
            !image.is_svg_rasterization,
            image.variant == 0,
    {
        PackedImage {
            name,
            identifier,
            width,
            height,
            x: 0,
            y: 0,
            pixel_data: Vec::new(),
            pixel_format: bgra(),
            scale: 1,
            is_template: false,
            template_rendering_intent: 4,
            part: PART_REGULAR,
            dim2: 0,
            appearance: 0,
            direction: 0,
            idiom: 0,
            is_svg_rasterization: false,
            variant: 0,
        }
    }
}

/// A sheet of images.
#[derive(Debug, Clone)]
pub struct Atlas {
    pub width: u32,
    pub height: u32,
    pub pixel_format: [u8; 4],
    pub scale: u32,
    pub dim1: u32,
    pub images: Vec<PackedImage>,
    pub pixel_data: Vec<u8>,
    /// 0 for a primary atlas, 1 for that of the alternate appearance variant.
    pub gamut: u32,
}

impl Default for Atlas {
    /// An atlas without images.
    fn default() -> (atlas: Self)
        ensures
            atlas.width == 0,
            atlas.height == 0,
            atlas.pixel_format@ == seq![0u8, 0u8, 0u8, 0u8],
            atlas.scale == 0,
            atlas.dim1 == 0,
            atlas.images@.len() == 0,
            atlas.pixel_data@.len() == 0,
            atlas.gamut == 0,
    {
        let atlas = Atlas {
            width: 0,
            height: 0,
            pixel_format: [0, 0, 0, 0],
            scale: 0,
            dim1: 0,
            images: Vec::new(),
            pixel_data: Vec::new(),
            gamut: 0,
        };
        assert(atlas.pixel_format@ =~= seq![0u8, 0u8, 0u8, 0u8]);
        atlas
    }
}

/// The bytes of one pixel: four in `BGRA`, two in the gray formats.
pub open spec fn bytes_per_pixel(format: [u8; 4]) -> nat {
    if format@ == bgra_name() {
        4
    } else {
        2
    }
}

/// The least multiple of 32 that is not below `n`.
pub open spec fn align32(n: nat) -> nat {
    (n + 31) / 32 * 32
}

impl Atlas {
    /// The length of a row of pixels, padded to a multiple of 32.
    pub open spec fn row_bytes(&self) -> nat {
        align32(self.width as nat * bytes_per_pixel(self.pixel_format))
    }

    /// The third number in the name: the variant, else 0 for `BGRA` and 1 for
    /// the gray formats.
    pub open spec fn name_index(&self) -> nat {
        if self.gamut > 0 {
            self.gamut as nat
        } else if self.pixel_format@ == bgra_name() {
            0
        } else {
            1
        }
    }

    /// A name of the atlas that begins with `prefix`.
    pub open spec fn name_after(&self, prefix: Seq<char>) -> Seq<char> {
        prefix + decimal(self.scale as nat) + "."@ + decimal(self.dim1 as nat) + "."@ + decimal(
            self.name_index(),
        ) + "-gamut"@ + decimal(self.gamut as nat)
    }

    /// The name under which the atlas is stored.
    pub fn name(&self) -> (name: String)
        ensures
            name@ == self.name_after("ZZZZPackedAsset-"@),
    {
        self.prefixed_name("ZZZZPackedAsset-")
    }

    /// A name of the atlas that begins with `prefix`.
    pub fn prefixed_name(&self, prefix: &str) -> (name: String)
        ensures
            name@ == self.name_after(prefix@),
    {
        let format_index: u32 = if is_bgra(&self.pixel_format) {
            0
        } else {
            1
        };
        let third: u32 = if self.gamut > 0 {
            self.gamut
        } else {
            format_index
        };
        let mut name = prefix.to_owned();
        put_decimal(&mut name, self.scale as u128);
        put_str(&mut name, ".");
        put_decimal(&mut name, self.dim1 as u128);
        put_str(&mut name, ".");
        put_decimal(&mut name, third as u128);
        put_str(&mut name, "-gamut");
        put_decimal(&mut name, self.gamut as u128);
        name
    }

    /// The length of a row of pixels, padded to a multiple of 32.
    pub fn bytes_per_row(&self) -> (n: usize)
        requires
            self.width as nat * bytes_per_pixel(self.pixel_format) + 31 <= usize::MAX,
        ensures
            n == self.row_bytes(),
    {
        let bpp: usize = if is_bgra(&self.pixel_format) {
            4
        } else {
            2
        };
        let exact: usize = self.width as usize * bpp;
        (exact + 31) / 32 * 32
    }
}

/// A column of a shelf: images of at most its width, one below the other.
pub struct Strip {
    pub x: int,
    pub width: int,
    pub bottom: int,
}

/// A shelf: columns side by side, none higher than the shelf.
pub struct Row {
    pub y: int,
    pub height: int,
    pub strips: Seq<Strip>,
}

/// The place of an image: its number, its corner, its shelf and its column.
pub struct Spot {
    pub image: int,
    pub x: int,
    pub y: int,
    pub row: int,
    pub strip: int,
}

/// An atlas in the making: its shelves and its extent, the images that have a
/// place, and the numbers of those that have to go to another atlas.
pub struct Layout {
    pub rows: Seq<Row>,
    pub width: int,
    pub bottom: int,
    pub spots: Seq<Spot>,
    pub rest: Seq<int>,
}

/// A column takes an image that is no wider than itself and, below what it
/// holds, ends within the shelf.
pub open spec fn strip_takes(row: Row, strip: Strip, w: int, h: int) -> bool {
    w <= strip.width && strip.bottom + GAP + h <= row.y + row.height
}

/// The first column of `row`, from `from` on, that takes the image; the number
/// of columns if none does.
pub open spec fn first_strip(row: Row, w: int, h: int, from: int) -> int
    decreases row.strips.len() - from,
{
    if from >= row.strips.len() {
        row.strips.len() as int
    } else if strip_takes(row, row.strips[from], w, h) {
        from
    } else {
        first_strip(row, w, h, from + 1)
    }
}

/// Where a new column of `row` begins.
pub open spec fn next_x(row: Row) -> int {
    if row.strips.len() == 0 {
        MARGIN as int
    } else {
        row.strips.last().x + row.strips.last().width + GAP
    }
}

/// A shelf takes a new column for an image that is no higher than itself, if
/// the atlas is wide enough already; the first shelf may widen the atlas up to
/// the limit.
pub open spec fn row_widens(
    row: Row,
    is_first: bool,
    width: int,
    max_width: int,
    w: int,
    h: int,
) -> bool {
    let right = next_x(row) + w + MARGIN;
    h <= row.height && (is_first && right <= max_width || width > 0 && right <= width)
}

/// The first shelf, from `from` on, that takes the image in an old or a new
/// column; the number of shelves if none does.
pub open spec fn first_row(rows: Seq<Row>, width: int, max_width: int, w: int, h: int, from: int) -> int
    decreases rows.len() - from,
{
    if from >= rows.len() {
        rows.len() as int
    } else if first_strip(rows[from], w, h, 0) < rows[from].strips.len() || row_widens(
        rows[from],
        from == 0,
        width,
        max_width,
        w,
        h,
    ) {
        from
    } else {
        first_row(rows, width, max_width, w, h, from + 1)
    }
}

/// Where a new shelf begins.
pub open spec fn next_y(rows: Seq<Row>) -> int {
    if rows.len() == 0 {
        MARGIN as int
    } else {
        rows.last().y + rows.last().height + GAP
    }
}

pub open spec fn larger(a: int, b: int) -> int {
    if a < b {
        b
    } else {
        a
    }
}

/// The layout after image number `image`, of width `w` and height `h`, was given
/// a place: below the others of the first column that takes it, else in a new
/// column of the first shelf that takes one, else on a new shelf.  The first
/// image always gets a shelf, however high it is.
pub open spec fn placed(
    layout: Layout,
    image: int,
    w: int,
    h: int,
    max_width: int,
    max_height: int,
) -> Layout {
    let r = first_row(layout.rows, layout.width, max_width, w, h, 0);
    if r < layout.rows.len() {
        let row = layout.rows[r];
        let c = first_strip(row, w, h, 0);
        if c < row.strips.len() {
            let strip = row.strips[c];
            let y = strip.bottom + GAP;
            let grown = row.strips.update(c, Strip { bottom: y + h, ..strip });
            Layout {
                rows: layout.rows.update(r, Row { strips: grown, ..row }),
                width: layout.width,
                bottom: larger(layout.bottom, y + h),
                spots: layout.spots.push(Spot { image, x: strip.x, y, row: r, strip: c }),
                rest: layout.rest,
            }
        } else {
            let x = next_x(row);
            let grown = row.strips.push(Strip { x, width: w, bottom: row.y + h });
            Layout {
                rows: layout.rows.update(r, Row { strips: grown, ..row }),
                width: larger(layout.width, x + w + MARGIN),
                bottom: larger(layout.bottom, row.y + h),
                spots: layout.spots.push(Spot { image, x, y: row.y, row: r, strip: c }),
                rest: layout.rest,
            }
        }
    } else {
        let y = next_y(layout.rows);
        if y + h + MARGIN <= max_height || layout.rows.len() == 0 {
            let x = MARGIN as int;
            let row = Row { y, height: h, strips: seq![Strip { x, width: w, bottom: y + h }] };
            Layout {
                rows: layout.rows.push(row),
                width: larger(layout.width, x + w + MARGIN),
                bottom: larger(layout.bottom, y + h),
                spots: layout.spots.push(Spot { image, x, y, row: r, strip: 0 }),
                rest: layout.rest,
            }
        } else {
            Layout { rest: layout.rest.push(image), ..layout }
        }
    }
}

/// A layout without images.
pub open spec fn no_layout() -> Layout {
    Layout { rows: Seq::empty(), width: 0, bottom: 0, spots: Seq::empty(), rest: Seq::empty() }
}

/// The layout of the first `n` of the images whose widths and heights are
/// `sizes`.
pub open spec fn layout_of(
    sizes: Seq<(int, int)>,
    n: nat,
    max_width: int,
    max_height: int,
) -> Layout
    decreases n,
{
    if n == 0 {
        no_layout()
    } else {
        placed(
            layout_of(sizes, (n - 1) as nat, max_width, max_height),
            n - 1,
            sizes[n - 1].0,
            sizes[n - 1].1,
            max_width,
            max_height,
        )
    }
}

/// Widths and heights.
pub open spec fn sizes_of(images: Seq<PackedImage>) -> Seq<(int, int)> {
    Seq::new(images.len(), |i: int| (images[i].width as int, images[i].height as int))
}

/// The columns of a shelf: within the atlas and the shelf, and a gap apart.
pub open spec fn row_ok(row: Row, width: int) -> bool {
    &&& row.y >= MARGIN
    &&& row.height >= 0
    &&& row.strips.len() >= 1
    &&& forall|c: int|
        0 <= c < row.strips.len() ==> {
            let strip = #[trigger] row.strips[c];
            &&& MARGIN <= strip.x
            &&& 0 <= strip.width
            &&& strip.x + strip.width + MARGIN <= width
            &&& row.y <= strip.bottom <= row.y + row.height
        }
    &&& forall|c: int, d: int|
        0 <= c < d < row.strips.len() ==> (#[trigger] row.strips[c]).x + row.strips[c].width + GAP
            <= (#[trigger] row.strips[d]).x
}

/// A place lies within its column.
pub open spec fn spot_ok(layout: Layout, sizes: Seq<(int, int)>, spot: Spot) -> bool {
    &&& 0 <= spot.image < sizes.len()
    &&& 0 <= spot.row < layout.rows.len()
    &&& 0 <= spot.strip < layout.rows[spot.row].strips.len()
    &&& spot.x == layout.rows[spot.row].strips[spot.strip].x
    &&& sizes[spot.image].0 <= layout.rows[spot.row].strips[spot.strip].width
    &&& layout.rows[spot.row].y <= spot.y
    &&& spot.y + sizes[spot.image].1 <= layout.rows[spot.row].strips[spot.strip].bottom
    &&& spot.y + sizes[spot.image].1 <= layout.bottom
}

/// What every layout keeps.
pub open spec fn layout_ok(layout: Layout, sizes: Seq<(int, int)>) -> bool {
    &&& forall|r: int|
        0 <= r < layout.rows.len() ==> row_ok(#[trigger] layout.rows[r], layout.width)
    &&& forall|r: int, t: int|
        0 <= r < t < layout.rows.len() ==> (#[trigger] layout.rows[r]).y + layout.rows[r].height
            + GAP <= (#[trigger] layout.rows[t]).y
    &&& forall|k: int|
        0 <= k < layout.spots.len() ==> spot_ok(layout, sizes, #[trigger] layout.spots[k])
    &&& forall|k: int, l: int|
        0 <= k < l < layout.spots.len() && (#[trigger] layout.spots[k]).row == (
        #[trigger] layout.spots[l]).row && layout.spots[k].strip == layout.spots[l].strip
            ==> layout.spots[k].y + sizes[layout.spots[k].image].1 + GAP <= layout.spots[l].y
}

/// The first of the columns that take the image does take it, and none before.
proof fn lemma_first_strip(row: Row, w: int, h: int, from: int)
    requires
        0 <= from <= row.strips.len(),
    ensures
        from <= first_strip(row, w, h, from) <= row.strips.len(),
        first_strip(row, w, h, from) < row.strips.len() ==> strip_takes(
            row,
            row.strips[first_strip(row, w, h, from)],
            w,
            h,
        ),
    decreases row.strips.len() - from,
{
    if from < row.strips.len() && !strip_takes(row, row.strips[from], w, h) {
        lemma_first_strip(row, w, h, from + 1);
    }
}

/// The first of the shelves that take the image does take it.
proof fn lemma_first_row(rows: Seq<Row>, width: int, max_width: int, w: int, h: int, from: int)
    requires
        0 <= from <= rows.len(),
    ensures
        ({
            let r = first_row(rows, width, max_width, w, h, from);
            &&& from <= r <= rows.len()
            &&& r < rows.len() ==> (first_strip(rows[r], w, h, 0) < rows[r].strips.len()
                || row_widens(rows[r], r == 0, width, max_width, w, h))
        }),
    decreases rows.len() - from,
{
    if from < rows.len() {
        lemma_first_row(rows, width, max_width, w, h, from + 1);
    }
}

/// Giving an image a place keeps a layout in order.
proof fn lemma_placed_ok(
    layout: Layout,
    sizes: Seq<(int, int)>,
    image: int,
    max_width: int,
    max_height: int,
)
    requires
        layout_ok(layout, sizes),
        0 <= image < sizes.len(),
        sizes[image].0 >= 0,
        sizes[image].1 >= 0,
    ensures
        layout_ok(
            placed(layout, image, sizes[image].0, sizes[image].1, max_width, max_height),
            sizes,
        ),
{
    let w = sizes[image].0;
    let h = sizes[image].1;
    let next = placed(layout, image, w, h, max_width, max_height);
    let r = first_row(layout.rows, layout.width, max_width, w, h, 0);
    lemma_first_row(layout.rows, layout.width, max_width, w, h, 0);
    if r < layout.rows.len() {
        let row = layout.rows[r];
        lemma_first_strip(row, w, h, 0);
        let c = first_strip(row, w, h, 0);
        assert(row_ok(row, layout.width));
        assert(row_ok(next.rows[r], next.width));
        assert forall|k: int| 0 <= k < next.rows.len() implies row_ok(
            #[trigger] next.rows[k],
            next.width,
        ) by {
            if k != r {
                assert(row_ok(layout.rows[k], layout.width));
            }
        }
        assert forall|k: int| 0 <= k < next.spots.len() implies spot_ok(
            next,
            sizes,
            #[trigger] next.spots[k],
        ) by {
            if k < layout.spots.len() {
                assert(spot_ok(layout, sizes, layout.spots[k]));
            }
        }
        assert forall|k: int, l: int|
            0 <= k < l < next.spots.len() && (#[trigger] next.spots[k]).row == (
            #[trigger] next.spots[l]).row && next.spots[k].strip
                == next.spots[l].strip implies next.spots[k].y + sizes[next.spots[k].image].1 + GAP
            <= next.spots[l].y by {
            assert(spot_ok(layout, sizes, layout.spots[k]));
        }
    } else {
        assert forall|k: int| 0 <= k < layout.rows.len() implies row_ok(
            #[trigger] layout.rows[k],
            next.width,
        ) by {
            assert(row_ok(layout.rows[k], layout.width));
        }
        assert forall|k: int| 0 <= k < layout.spots.len() implies spot_ok(
            next,
            sizes,
            #[trigger] layout.spots[k],
        ) by {
            assert(spot_ok(layout, sizes, layout.spots[k]));
        }
        assert(next.rows.len() > layout.rows.len() ==> row_ok(next.rows[r], next.width));
        assert forall|k: int, l: int|
            0 <= k < l < next.spots.len() && (#[trigger] next.spots[k]).row == (
            #[trigger] next.spots[l]).row && next.spots[k].strip
                == next.spots[l].strip implies next.spots[k].y + sizes[next.spots[k].image].1 + GAP
            <= next.spots[l].y by {
            assert(spot_ok(layout, sizes, layout.spots[k]));
        }
        if layout.rows.len() > 0 {
            assert(row_ok(layout.rows.last(), layout.width));
        }
    }
}

/// Every layout is in order.
proof fn lemma_layout_ok(sizes: Seq<(int, int)>, n: nat, max_width: int, max_height: int)
    requires
        n <= sizes.len(),
        forall|i: int|
            0 <= i < sizes.len() ==> (#[trigger] sizes[i]).0 >= 0 && sizes[i].1 >= 0,
    ensures
        layout_ok(layout_of(sizes, n, max_width, max_height), sizes),
    decreases n,
{
    if n > 0 {
        lemma_layout_ok(sizes, (n - 1) as nat, max_width, max_height);
        lemma_placed_ok(
            layout_of(sizes, (n - 1) as nat, max_width, max_height),
            sizes,
            n - 1,
            max_width,
            max_height,
        );
    }
}

/// Whether two boxes, each given by its corner and its size, are at least a gap
/// apart.
pub open spec fn apart(ax: int, ay: int, a: (int, int), bx: int, by: int, b: (int, int)) -> bool {
    ||| ax + a.0 + GAP <= bx
    ||| bx + b.0 + GAP <= ax
    ||| ay + a.1 + GAP <= by
    ||| by + b.1 + GAP <= ay
}

/// Images never overlap: any two in an atlas are at least a gap apart.
pub proof fn packed_images_stay_apart(
    sizes: Seq<(int, int)>,
    n: nat,
    max_width: int,
    max_height: int,
    k: int,
    l: int,
)
    requires
        n <= sizes.len(),
        forall|i: int|
            0 <= i < sizes.len() ==> (#[trigger] sizes[i]).0 >= 0 && sizes[i].1 >= 0,
        0 <= k < l < layout_of(sizes, n, max_width, max_height).spots.len(),
    ensures
        ({
            let a = layout_of(sizes, n, max_width, max_height).spots[k];
            let b = layout_of(sizes, n, max_width, max_height).spots[l];
            apart(a.x, a.y, sizes[a.image], b.x, b.y, sizes[b.image])
        }),
{
    lemma_layout_ok(sizes, n, max_width, max_height);
    let layout = layout_of(sizes, n, max_width, max_height);
    let a = layout.spots[k];
    let b = layout.spots[l];
    assert(spot_ok(layout, sizes, a));
    assert(spot_ok(layout, sizes, b));
    assert(row_ok(layout.rows[a.row], layout.width));
    assert(row_ok(layout.rows[b.row], layout.width));
}

/// Images keep clear of the border: the corner of each is at least a margin in,
/// and its far edges end a margin before the width and the height.
pub proof fn packed_images_keep_margins(
    sizes: Seq<(int, int)>,
    n: nat,
    max_width: int,
    max_height: int,
    k: int,
)
    requires
        n <= sizes.len(),
        forall|i: int|
            0 <= i < sizes.len() ==> (#[trigger] sizes[i]).0 >= 0 && sizes[i].1 >= 0,
        0 <= k < layout_of(sizes, n, max_width, max_height).spots.len(),
    ensures
        ({
            let layout = layout_of(sizes, n, max_width, max_height);
            let spot = layout.spots[k];
            &&& 0 <= spot.image < n
            &&& MARGIN <= spot.x
            &&& MARGIN <= spot.y
            &&& spot.x + sizes[spot.image].0 + MARGIN <= layout.width
            &&& spot.y + sizes[spot.image].1 <= layout.bottom
        }),
{
    lemma_layout_ok(sizes, n, max_width, max_height);
    lemma_every_image_once(sizes, n, max_width, max_height);
    let layout = layout_of(sizes, n, max_width, max_height);
    let spot = layout.spots[k];
    assert(spot_ok(layout, sizes, spot));
    assert(row_ok(layout.rows[spot.row], layout.width));
}

/// Whether image `i` has a place.
pub open spec fn has_spot(layout: Layout, i: int) -> bool {
    exists|k: int| 0 <= k < layout.spots.len() && #[trigger] layout.spots[k].image == i
}

/// Whether image `i` was left for another atlas.
pub open spec fn is_left(layout: Layout, i: int) -> bool {
    exists|k: int| 0 <= k < layout.rest.len() && #[trigger] layout.rest[k] == i
}

/// Each image has one place or is left, never both; both lists are in the order
/// of the images.
pub proof fn lemma_every_image_once(sizes: Seq<(int, int)>, n: nat, max_width: int, max_height: int)
    ensures
        ({
            let layout = layout_of(sizes, n, max_width, max_height);
            &&& layout.spots.len() + layout.rest.len() == n
            &&& forall|k: int|
                0 <= k < layout.spots.len() ==> 0 <= (#[trigger] layout.spots[k]).image < n
            &&& forall|k: int| 0 <= k < layout.rest.len() ==> 0 <= #[trigger] layout.rest[k] < n
            &&& forall|k: int, l: int|
                0 <= k < l < layout.spots.len() ==> (#[trigger] layout.spots[k]).image < (
                #[trigger] layout.spots[l]).image
            &&& forall|k: int, l: int|
                0 <= k < l < layout.rest.len() ==> #[trigger] layout.rest[k]
                    < #[trigger] layout.rest[l]
            &&& forall|i: int|
                0 <= i < n ==> (#[trigger] has_spot(layout, i) <==> !is_left(layout, i))
            &&& n > 0 ==> layout.rows.len() > 0 && layout.spots.len() > 0
                && layout.spots[0].image == 0
        }),
    decreases n,
{
    if n > 0 {
        let m = (n - 1) as nat;
        lemma_every_image_once(sizes, m, max_width, max_height);
        let before = layout_of(sizes, m, max_width, max_height);
        let after = layout_of(sizes, n, max_width, max_height);
        lemma_first_row(before.rows, before.width, max_width, sizes[n - 1].0, sizes[n - 1].1, 0);
        assert forall|i: int| 0 <= i < n implies (#[trigger] has_spot(after, i) <==> !is_left(
            after,
            i,
        )) by {
            if i < m {
                assert(has_spot(before, i) <==> !is_left(before, i));
                if has_spot(before, i) {
                    let k = choose|k: int|
                        0 <= k < before.spots.len() && #[trigger] before.spots[k].image == i;
                    assert(after.spots[k].image == i);
                }
                if is_left(before, i) {
                    let k = choose|k: int|
                        0 <= k < before.rest.len() && #[trigger] before.rest[k] == i;
                    assert(after.rest[k] == i);
                }
                if has_spot(after, i) {
                    let k = choose|k: int|
                        0 <= k < after.spots.len() && #[trigger] after.spots[k].image == i;
                    assert(k < before.spots.len() && before.spots[k].image == i);
                }
                if is_left(after, i) {
                    let k = choose|k: int|
                        0 <= k < after.rest.len() && #[trigger] after.rest[k] == i;
                    assert(k < before.rest.len() && before.rest[k] == i);
                }
            } else {
                if after.spots.len() > before.spots.len() {
                    assert(after.spots[before.spots.len() as int].image == i);
                    assert(has_spot(after, i));
                } else {
                    assert(after.rest[before.rest.len() as int] == i);
                    assert(is_left(after, i));
                }
            }
        }
    }
}

/// No image is lost and none is packed twice: of the first `n` images each has
/// exactly one place in the atlas or is left for the next, and the first has a
/// place.
pub proof fn every_image_is_packed_or_left(
    sizes: Seq<(int, int)>,
    n: nat,
    max_width: int,
    max_height: int,
    i: int,
)
    requires
        0 <= i < n,
    ensures
        ({
            let layout = layout_of(sizes, n, max_width, max_height);
            &&& has_spot(layout, i) <==> !is_left(layout, i)
            &&& layout.spots.len() + layout.rest.len() == n
            &&& has_spot(layout, 0)
            &&& forall|k: int, l: int|
                0 <= k < l < layout.spots.len() ==> (#[trigger] layout.spots[k]).image != (
                #[trigger] layout.spots[l]).image
        }),
{
    lemma_every_image_once(sizes, n, max_width, max_height);
    let layout = layout_of(sizes, n, max_width, max_height);
    assert(layout.spots[0].image == 0);
}

/// A layout stays within `width` and, with its lower margin, within `height`.
pub open spec fn layout_within(layout: Layout, width: int, height: int) -> bool {
    &&& layout.width <= width
    &&& if layout.rows.len() == 0 {
        layout.bottom == 0
    } else {
        layout.bottom + MARGIN <= height
    }
    &&& forall|r: int|
        0 <= r < layout.rows.len() ==> (#[trigger] layout.rows[r]).y + layout.rows[r].height
            + MARGIN <= height
}

proof fn lemma_layout_within(
    sizes: Seq<(int, int)>,
    n: nat,
    max_width: int,
    max_height: int,
    width: int,
    height: int,
)
    requires
        n <= sizes.len(),
        0 <= width && max_width <= width,
        max_height <= height,
        forall|i: int|
            0 <= i < sizes.len() ==> {
                &&& 0 <= (#[trigger] sizes[i]).0 <= width - 2 * MARGIN
                &&& 0 <= sizes[i].1
            },
        n > 0 ==> sizes[0].1 <= height - 2 * MARGIN,
    ensures
        layout_within(layout_of(sizes, n, max_width, max_height), width, height),
    decreases n,
{
    if n > 0 {
        let m = (n - 1) as nat;
        let before = layout_of(sizes, m, max_width, max_height);
        let w = sizes[n - 1].0;
        let h = sizes[n - 1].1;
        lemma_layout_within(sizes, m, max_width, max_height, width, height);
        lemma_layout_ok(sizes, m, max_width, max_height);
        lemma_every_image_once(sizes, m, max_width, max_height);
        lemma_first_row(before.rows, before.width, max_width, w, h, 0);
        let r = first_row(before.rows, before.width, max_width, w, h, 0);
        if r < before.rows.len() {
            assert(row_ok(before.rows[r], before.width));
            lemma_first_strip(before.rows[r], w, h, 0);
        }
    }
}

/// An atlas keeps the limits: where no image is too wide for an empty atlas of the
/// greatest size, and the first is not too high for it, the width and the height of
/// the atlas do not exceed it.
pub proof fn atlas_keeps_limits(
    sizes: Seq<(int, int)>,
    n: nat,
    max_width: int,
    max_height: int,
)
    requires
        0 < n <= sizes.len(),
        0 <= max_width,
        forall|i: int|
            0 <= i < sizes.len() ==> {
                &&& 0 <= (#[trigger] sizes[i]).0 <= max_width - 2 * MARGIN
                &&& 0 <= sizes[i].1
            },
        sizes[0].1 <= max_height - 2 * MARGIN,
    ensures
        layout_of(sizes, n, max_width, max_height).width <= max_width,
        layout_of(sizes, n, max_width, max_height).bottom + MARGIN <= max_height,
{
    lemma_layout_within(sizes, n, max_width, max_height, max_width, max_height);
    lemma_every_image_once(sizes, n, max_width, max_height);
}

/// Whether an image of the layout reaches its right edge, and one its lower edge.
pub open spec fn reaches_edges(layout: Layout, sizes: Seq<(int, int)>) -> bool {
    &&& exists|k: int|
        0 <= k < layout.spots.len() && (#[trigger] layout.spots[k]).x
            + sizes[layout.spots[k].image].0 + MARGIN == layout.width
    &&& exists|k: int|
        0 <= k < layout.spots.len() && (#[trigger] layout.spots[k]).y
            + sizes[layout.spots[k].image].1 == layout.bottom
}

/// An atlas is no larger than its images need: one reaches to a margin before the
/// right edge, and one to a margin before the lower edge.
pub proof fn atlases_are_tight(sizes: Seq<(int, int)>, n: nat, max_width: int, max_height: int)
    requires
        0 < n <= sizes.len(),
        forall|i: int|
            0 <= i < sizes.len() ==> (#[trigger] sizes[i]).0 >= 0 && sizes[i].1 >= 0,
    ensures
        reaches_edges(layout_of(sizes, n, max_width, max_height), sizes),
    decreases n,
{
    let m = (n - 1) as nat;
    let before = layout_of(sizes, m, max_width, max_height);
    let after = layout_of(sizes, n, max_width, max_height);
    let last = before.spots.len() as int;
    lemma_every_image_once(sizes, m, max_width, max_height);
    lemma_layout_ok(sizes, m, max_width, max_height);
    lemma_first_row(before.rows, before.width, max_width, sizes[n - 1].0, sizes[n - 1].1, 0);
    if m == 0 {
        assert(after.spots[last].image == 0);
    } else {
        atlases_are_tight(sizes, m, max_width, max_height);
        let k = choose|k: int|
            0 <= k < before.spots.len() && (#[trigger] before.spots[k]).x
                + sizes[before.spots[k].image].0 + MARGIN == before.width;
        let l = choose|k: int|
            0 <= k < before.spots.len() && (#[trigger] before.spots[k]).y
                + sizes[before.spots[k].image].1 == before.bottom;
        assert(after.spots[k] == before.spots[k]);
        assert(after.spots[l] == before.spots[l]);
        if after.spots.len() > before.spots.len() {
            assert(after.spots[last].image == n - 1);
        }
    }
}

/// A column of a shelf.
struct Column {
    x: u32,
    width: u32,
    bottom: u32,
}

/// A shelf.
struct Shelf {
    y: u32,
    height: u32,
    columns: Vec<Column>,
}

spec fn strip_of(column: Column) -> Strip {
    Strip { x: column.x as int, width: column.width as int, bottom: column.bottom as int }
}

spec fn row_of(shelf: Shelf) -> Row {
    Row {
        y: shelf.y as int,
        height: shelf.height as int,
        strips: Seq::new(shelf.columns@.len(), |c: int| strip_of(shelf.columns@[c])),
    }
}

spec fn rows_of(shelves: Seq<Shelf>) -> Seq<Row> {
    Seq::new(shelves.len(), |r: int| row_of(shelves[r]))
}

/// The first column that takes an image.
fn find_column(shelf: &Shelf, w: u32, h: u32) -> (c: usize)
    ensures
        c == first_strip(row_of(*shelf), w as int, h as int, 0),
        c <= shelf.columns@.len(),
{
    let mut c: usize = 0;
    while c < shelf.columns.len()
        invariant
            c <= shelf.columns@.len(),
            first_strip(row_of(*shelf), w as int, h as int, 0) == first_strip(
                row_of(*shelf),
                w as int,
                h as int,
                c as int,
            ),
        decreases shelf.columns.len() - c,
    {
        let column = &shelf.columns[c];
        assert(row_of(*shelf).strips[c as int] == strip_of(shelf.columns@[c as int]));
        if w <= column.width && column.bottom as u64 + GAP as u64 + h as u64 <= shelf.y as u64
            + shelf.height as u64 {
            return c;
        }
        c = c + 1;
    }
    c
}

/// The first shelf that takes an image.
fn find_shelf(shelves: &Vec<Shelf>, width: u32, max_width: u32, w: u32, h: u32) -> (r: usize)
    requires
        forall|r: int| 0 <= r < shelves@.len() ==> (#[trigger] shelves@[r]).columns@.len() >= 1,
    ensures
        r == first_row(
            rows_of(shelves@),
            width as int,
            max_width as int,
            w as int,
            h as int,
            0,
        ),
        r <= shelves@.len(),
{
    let mut r: usize = 0;
    while r < shelves.len()
        invariant
            r <= shelves@.len(),
            forall|r: int|
                0 <= r < shelves@.len() ==> (#[trigger] shelves@[r]).columns@.len() >= 1,
            first_row(
                rows_of(shelves@),
                width as int,
                max_width as int,
                w as int,
                h as int,
                0,
            ) == first_row(
                rows_of(shelves@),
                width as int,
                max_width as int,
                w as int,
                h as int,
                r as int,
            ),
        decreases shelves.len() - r,
    {
        let shelf = &shelves[r];
        assert(rows_of(shelves@)[r as int] == row_of(shelves@[r as int]));
        if find_column(shelf, w, h) < shelf.columns.len() {
            return r;
        }
        let last = &shelf.columns[shelf.columns.len() - 1];
        assert(row_of(*shelf).strips.last() == strip_of(shelf.columns@.last()));
        let right: u64 = last.x as u64 + last.width as u64 + GAP as u64 + w as u64 + MARGIN as u64;
        if h <= shelf.height && (r == 0 && right <= max_width as u64 || width > 0 && right
            <= width as u64) {
            return r;
        }
        r = r + 1;
    }
    r
}

/// `image` moved to a place.
pub open spec fn moved(image: PackedImage, spot: Spot) -> PackedImage {
    PackedImage { x: spot.x as u32, y: spot.y as u32, ..image }
}

/// The images of an atlas: those with a place, moved there.
pub open spec fn atlas_images(images: Seq<PackedImage>, layout: Layout) -> Seq<PackedImage> {
    Seq::new(
        layout.spots.len(),
        |k: int| moved(images[layout.spots[k].image], layout.spots[k]),
    )
}

/// The images that are left for the next atlas.
pub open spec fn left_images(images: Seq<PackedImage>, layout: Layout) -> Seq<PackedImage> {
    Seq::new(layout.rest.len(), |k: int| images[layout.rest[k]])
}

/// The layout of `images`.
pub open spec fn image_layout(
    images: Seq<PackedImage>,
    max_width: u32,
    max_height: u32,
) -> Layout {
    layout_of(sizes_of(images), images.len(), max_width as int, max_height as int)
}

/// Each image, with a margin on both sides, has sides of 32 bits.
pub open spec fn sides_fit(images: Seq<PackedImage>) -> bool {
    forall|i: int|
        0 <= i < images.len() ==> (#[trigger] images[i]).width + 2 * MARGIN <= u32::MAX
            && images[i].height + 2 * MARGIN <= u32::MAX
}

/// The larger of two numbers.
fn larger_of(a: u32, b: u32) -> (c: u32)
    ensures
        c == larger(a as int, b as int),
{
    if a < b {
        b
    } else {
        a
    }
}

/// Fills an atlas with images in the given order and returns what is left.
#[verifier::rlimit(40)]
fn pack_shelf_atlas(
    atlas: &mut Atlas,
    sorted_imgs: Vec<PackedImage>,
    max_width: u32,
    max_height: u32,
) -> (overflow: Vec<PackedImage>)
    requires
        sides_fit(sorted_imgs@),
    ensures
        ({
            let layout = image_layout(sorted_imgs@, max_width, max_height);
            &&& if sorted_imgs@.len() > 0 {
                final(atlas).width == layout.width && final(atlas).height == layout.bottom
                    + MARGIN
            } else {
                final(atlas).width == old(atlas).width && final(atlas).height
                    == old(atlas).height
            }
            &&& final(atlas).images@ == atlas_images(sorted_imgs@, layout)
            &&& overflow@ == left_images(sorted_imgs@, layout)
        }),
        final(atlas).pixel_format == old(atlas).pixel_format,
        final(atlas).scale == old(atlas).scale,
        final(atlas).dim1 == old(atlas).dim1,
        final(atlas).pixel_data == old(atlas).pixel_data,
        final(atlas).gamut == old(atlas).gamut,
{
    let ghost all = sorted_imgs@;
    let ghost sizes = sizes_of(all);
    let ghost mw = max_width as int;
    let ghost mh = max_height as int;
    let mut shelves: Vec<Shelf> = Vec::new();
    let mut width: u32 = 0;
    let mut bottom: u32 = 0;
    let mut images: Vec<PackedImage> = Vec::new();
    let mut overflow: Vec<PackedImage> = Vec::new();
    let ghost mut layout = layout_of(sizes, 0, mw, mh);
    assert(rows_of(shelves@) =~= layout.rows);
    assert(images@ =~= atlas_images(all, layout));
    assert(overflow@ =~= left_images(all, layout));
    for image in it: sorted_imgs
        invariant
            it.seq() == all,
            sizes == sizes_of(all),
            mw == max_width,
            mh == max_height,
            sides_fit(all),
            layout == layout_of(sizes, it.index() as nat, mw, mh),
            rows_of(shelves@) == layout.rows,
            width == layout.width,
            bottom == layout.bottom,
            images@ == atlas_images(all, layout),
            overflow@ == left_images(all, layout),
    {
        let ghost n = it.index();
        let ghost before = layout;
        proof {
            assert(image == all[n]);
            lemma_layout_ok(sizes, n as nat, mw, mh);
            lemma_layout_within(sizes, n as nat, mw, mh, u32::MAX as int, u32::MAX as int);
            assert forall|r: int| 0 <= r < shelves@.len() implies (
            #[trigger] shelves@[r]).columns@.len() >= 1 by {
                assert(layout.rows[r] == row_of(shelves@[r]));
                assert(row_ok(layout.rows[r], layout.width));
            }
            layout = layout_of(sizes, (n + 1) as nat, mw, mh);
        }
        let mut image = image;
        let w: u32 = image.width;
        let h: u32 = image.height;
        let r = find_shelf(&shelves, width, max_width, w, h);
        if r < shelves.len() {
            assert(before.rows[r as int] == row_of(shelves@[r as int]));
            let ghost old_shelves = shelves@;
            let c = find_column(&shelves[r], w, h);
            let mut shelf = Shelf { y: 0, height: 0, columns: Vec::new() };
            core::mem::swap(&mut shelf, &mut shelves[r]);
            if c < shelf.columns.len() {
                let ghost old_columns = shelf.columns@;
                proof {
                    assert(before.rows[r as int].strips[c as int] == strip_of(
                        old_columns[c as int],
                    ));
                    lemma_first_strip(before.rows[r as int], w as int, h as int, 0);
                }
                let x: u32 = shelf.columns[c].x;
                let y: u32 = shelf.columns[c].bottom + GAP;
                let strip_width: u32 = shelf.columns[c].width;
                shelf.columns.set(c, Column { x, width: strip_width, bottom: y + h });
                image.x = x;
                image.y = y;
                bottom = larger_of(bottom, y + h);
                assert(row_of(shelf).strips =~= layout.rows[r as int].strips);
            } else {
                let last = &shelf.columns[shelf.columns.len() - 1];
                assert(before.rows[r as int].strips.last() == strip_of(shelf.columns@.last()));
                let x: u32 = last.x + last.width + GAP;
                let y: u32 = shelf.y;
                proof {
                    lemma_first_row(before.rows, width as int, mw, w as int, h as int, 0);
                }
                shelf.columns.push(Column { x, width: w, bottom: y + h });
                image.x = x;
                image.y = y;
                width = larger_of(width, x + w + MARGIN);
                bottom = larger_of(bottom, y + h);
                assert(row_of(shelf).strips =~= layout.rows[r as int].strips);
            }
            core::mem::swap(&mut shelf, &mut shelves[r]);
            images.push(image);
            assert(rows_of(shelves@) =~= layout.rows);
        } else {
            let y: u32 = if shelves.len() == 0 {
                MARGIN
            } else {
                let last = &shelves[shelves.len() - 1];
                assert(before.rows.last() == row_of(shelves@.last()));
                last.y + last.height + GAP
            };
            if y as u64 + h as u64 + MARGIN as u64 <= max_height as u64 || shelves.len() == 0 {
                let mut columns: Vec<Column> = Vec::new();
                columns.push(Column { x: MARGIN, width: w, bottom: y + h });
                let shelf = Shelf { y, height: h, columns };
                assert(row_of(shelf).strips =~= layout.rows.last().strips);
                shelves.push(shelf);
                image.x = MARGIN;
                image.y = y;
                width = larger_of(width, MARGIN + w + MARGIN);
                bottom = larger_of(bottom, y + h);
                images.push(image);
                assert(rows_of(shelves@) =~= layout.rows);
            } else {
                overflow.push(image);
            }
        }
        assert(images@ =~= atlas_images(all, layout));
        assert(overflow@ =~= left_images(all, layout));
    }
    proof {
        lemma_layout_within(sizes, all.len(), mw, mh, u32::MAX as int, u32::MAX as int);
        lemma_every_image_once(sizes, all.len(), mw, mh);
    }
    if shelves.len() > 0 {
        atlas.width = width;
        atlas.height = bottom + MARGIN;
    }
    atlas.images = images;
    overflow
}

/// The sort key of an image: higher images come first, then wider ones.
pub open spec fn size_key(image: PackedImage) -> u64 {
    ((u32::MAX - image.height) * 0x1_0000_0000 + (u32::MAX - image.width)) as u64
}

pub open spec fn size_keys(images: Seq<PackedImage>) -> Seq<u64> {
    Seq::new(images.len(), |i: int| size_key(images[i]))
}

/// Images are packed from the highest to the lowest, and among those of the same
/// height from the widest to the narrowest.
pub proof fn higher_images_come_first(a: PackedImage, b: PackedImage)
    ensures
        size_key(a) < size_key(b) <==> a.height > b.height || a.height == b.height && a.width
            > b.width,
{
}

/// The order in which images are packed.
pub open spec fn packing_order(images: Seq<PackedImage>) -> Seq<usize> {
    choose|p: Seq<usize>| is_stable_order(size_keys(images), p)
}

/// Whether `atlas` is what packing `images` in their order gives first.
pub open spec fn atlas_packs(
    atlas: Atlas,
    images: Seq<PackedImage>,
    max_width: u32,
    max_height: u32,
) -> bool {
    let layout = image_layout(images, max_width, max_height);
    &&& atlas.width == layout.width
    &&& atlas.height == layout.bottom + MARGIN
    &&& atlas.images@ == atlas_images(images, layout)
    &&& atlas.pixel_format == images[0].pixel_format
    &&& atlas.scale == images[0].scale
    &&& atlas.dim1 == 0
    &&& atlas.pixel_data@.len() == 0
    &&& atlas.gamut == 0
}

/// Whether `atlases` are what packing `images` in their order gives: each atlas
/// holds what the ones before it have left.
pub open spec fn atlases_pack(
    atlases: Seq<Atlas>,
    images: Seq<PackedImage>,
    max_width: u32,
    max_height: u32,
) -> bool
    decreases images.len(),
{
    if images.len() == 0 {
        atlases.len() == 0
    } else {
        proof {
            lemma_every_image_once(
                sizes_of(images),
                images.len(),
                max_width as int,
                max_height as int,
            );
        }
        &&& atlases.len() > 0
        &&& atlas_packs(atlases[0], images, max_width, max_height)
        &&& atlases_pack(
            atlases.skip(1),
            left_images(images, image_layout(images, max_width, max_height)),
            max_width,
            max_height,
        )
    }
}

/// Images that are left are some of the images there were.
proof fn lemma_left_images_fit(images: Seq<PackedImage>, max_width: u32, max_height: u32)
    requires
        images.len() > 0,
        sides_fit(images),
    ensures
        ({
            let left = left_images(images, image_layout(images, max_width, max_height));
            &&& sides_fit(left)
            &&& left.len() < images.len()
        }),
{
    lemma_every_image_once(sizes_of(images), images.len(), max_width as int, max_height as int);
}

/// Distributes images over as many atlases as they need.
pub fn pack_images_split(
    images: Vec<PackedImage>,
    max_width: u32,
    max_height: u32,
) -> (atlases: Vec<Atlas>)
    requires
        sides_fit(images@),
    ensures
        atlases_pack(
            atlases@,
            arranged(images@, packing_order(images@)),
            max_width,
            max_height,
        ),
        is_stable_order(size_keys(images@), packing_order(images@)),
{
    let mut keys: Vec<u64> = Vec::new();
    let mut i: usize = 0;
    while i < images.len()
        invariant
            i <= images@.len(),
            keys@.len() == i,
            forall|j: int| 0 <= j < i ==> keys@[j] == size_key(images@[j]),
        decreases images.len() - i,
    {
        let image = &images[i];
        keys.push(
            (u32::MAX - image.height) as u64 * 0x1_0000_0000 + (u32::MAX - image.width) as u64,
        );
        i = i + 1;
    }
    assert(keys@ =~= size_keys(images@));
    let order = stable_order(&keys);
    proof {
        stable_order_is_unique(
            size_keys(images@),
            order@,
            packing_order(images@),
        );
    }
    let mut remaining = arrange(images, &order);
    let ghost sorted = remaining@;
    let mut atlases: Vec<Atlas> = Vec::new();
    assert forall|more: Seq<Atlas>| #[trigger]
        atlases_pack(more, remaining@, max_width, max_height) implies atlases_pack(
        atlases@ + more,
        sorted,
        max_width,
        max_height,
    ) by {
        assert(atlases@ + more =~= more);
    }
    while remaining.len() > 0
        invariant
            sides_fit(remaining@),
            forall|more: Seq<Atlas>| #[trigger]
                atlases_pack(more, remaining@, max_width, max_height) ==> atlases_pack(
                    atlases@ + more,
                    sorted,
                    max_width,
                    max_height,
                ),
        decreases remaining.len(),
    {
        let ghost images_now = remaining@;
        let ghost atlases_before = atlases@;
        proof {
            lemma_left_images_fit(remaining@, max_width, max_height);
        }
        let mut atlas = Atlas::default();
        atlas.pixel_format = remaining[0].pixel_format;
        atlas.scale = remaining[0].scale;
        let overflow = pack_shelf_atlas(&mut atlas, remaining, max_width, max_height);
        atlases.push(atlas);
        remaining = overflow;
        assert forall|more: Seq<Atlas>| #[trigger]
            atlases_pack(more, remaining@, max_width, max_height) implies atlases_pack(
            atlases@ + more,
            sorted,
            max_width,
            max_height,
        ) by {
            let next = seq![atlas] + more;
            assert(next.skip(1) =~= more);
            assert(atlases_pack(next, images_now, max_width, max_height));
            assert(atlases_before + next =~= atlases@ + more);
        }
    }
    assert(atlases_pack(Seq::empty(), remaining@, max_width, max_height));
    assert(atlases@ + Seq::<Atlas>::empty() =~= atlases@);
    atlases
}

/// Packing keeps every image: image `i` stands in one of the atlases, changed in
/// nothing but its place.
pub proof fn packing_keeps_every_image(
    atlases: Seq<Atlas>,
    images: Seq<PackedImage>,
    max_width: u32,
    max_height: u32,
    i: int,
) -> (place: (int, int))
    requires
        atlases_pack(atlases, images, max_width, max_height),
        0 <= i < images.len(),
    ensures
        0 <= place.0 < atlases.len(),
        0 <= place.1 < atlases[place.0].images@.len(),
        ({
            let found = atlases[place.0].images@[place.1];
            found == (PackedImage { x: found.x, y: found.y, ..images[i] })
        }),
    decreases images.len(),
{
    let sizes = sizes_of(images);
    let layout = image_layout(images, max_width, max_height);
    lemma_every_image_once(sizes, images.len(), max_width as int, max_height as int);
    assert(has_spot(layout, i) <==> !is_left(layout, i));
    if has_spot(layout, i) {
        let k = choose|k: int|
            0 <= k < layout.spots.len() && #[trigger] layout.spots[k].image == i;
        assert(atlases[0].images@[k] == moved(images[i], layout.spots[k]));
        (0, k)
    } else {
        let k = choose|k: int| 0 <= k < layout.rest.len() && #[trigger] layout.rest[k] == i;
        let left = left_images(images, layout);
        assert(left[k] == images[i]);
        let (a, b) = packing_keeps_every_image(
            atlases.skip(1),
            left,
            max_width,
            max_height,
            k,
        );
        (a + 1, b)
    }
}

/// Whether two atlases agree in every field.
pub open spec fn same_atlas(a: Atlas, b: Atlas) -> bool {
    &&& a.width == b.width
    &&& a.height == b.height
    &&& a.pixel_format == b.pixel_format
    &&& a.scale == b.scale
    &&& a.dim1 == b.dim1
    &&& a.images@ == b.images@
    &&& a.pixel_data@ == b.pixel_data@
    &&& a.gamut == b.gamut
}

/// Whether no two images have the same size.
pub open spec fn sizes_differ(images: Seq<PackedImage>) -> bool {
    forall|i: int, j: int|
        0 <= i < j < images.len() ==> (#[trigger] images[i]).width != (
        #[trigger] images[j]).width || images[i].height != images[j].height
}

/// Images of different sizes are packed in the same order, whatever order they come
/// in.
proof fn lemma_packing_order(images: Seq<PackedImage>, p: Seq<usize>)
    requires
        images.len() <= usize::MAX,
        is_permutation(p, images.len()),
        sizes_differ(images),
    ensures
        arranged(arranged(images, p), packing_order(arranged(images, p))) == arranged(
            images,
            packing_order(images),
        ),
{
    let other = arranged(images, p);
    let keys = size_keys(images);
    let others = size_keys(other);
    stable_orders_exist(keys);
    stable_orders_exist(others);
    let q = packing_order(other);
    assert(is_stable_order(others, q));
    let r = arranged(p, q);
    assert forall|i: int| 0 <= i < r.len() implies #[trigger] r[i] < images.len() by {
        assert(q[i] < other.len());
        assert(p[q[i] as int] < images.len());
    }
    assert forall|i: int, j: int| 0 <= i < j < r.len() implies {
        let a = #[trigger] r[i];
        let b = #[trigger] r[j];
        &&& a != b
        &&& !keys[b as int].before(&keys[a as int])
        &&& keys[a as int].before(&keys[b as int]) || a < b
    } by {
        let a = q[i];
        let b = q[j];
        assert(p[a as int] != p[b as int]) by {
            if a < b {
                assert(p[a as int] != p[b as int]);
            } else {
                assert(p[b as int] != p[a as int]);
            }
        }
        assert(others[a as int] == keys[r[i] as int]);
        assert(others[b as int] == keys[r[j] as int]);
        let one = images[r[i] as int];
        let two = images[r[j] as int];
        assert(one.width != two.width || one.height != two.height) by {
            if r[i] < r[j] {
                assert(images[r[i] as int].width == one.width);
                assert(images[r[j] as int].width == two.width);
            } else {
                assert(images[r[j] as int].width == two.width);
                assert(images[r[i] as int].width == one.width);
            }
        }
        higher_images_come_first(one, two);
        higher_images_come_first(two, one);
    }
    assert(is_stable_order(keys, r));
    stable_order_is_unique(keys, r, packing_order(images));
    assert(arranged(other, q) =~= arranged(images, r));
}

proof fn lemma_atlases_are_unique(
    a: Seq<Atlas>,
    b: Seq<Atlas>,
    images: Seq<PackedImage>,
    max_width: u32,
    max_height: u32,
)
    requires
        atlases_pack(a, images, max_width, max_height),
        atlases_pack(b, images, max_width, max_height),
    ensures
        a.len() == b.len(),
        forall|k: int| 0 <= k < a.len() ==> same_atlas(#[trigger] a[k], b[k]),
    decreases images.len(),
{
    if images.len() > 0 {
        let layout = image_layout(images, max_width, max_height);
        lemma_every_image_once(
            sizes_of(images),
            images.len(),
            max_width as int,
            max_height as int,
        );
        lemma_atlases_are_unique(
            a.skip(1),
            b.skip(1),
            left_images(images, layout),
            max_width,
            max_height,
        );
        assert(a[0].pixel_data@ =~= b[0].pixel_data@);
        assert forall|k: int| 0 <= k < a.len() implies same_atlas(#[trigger] a[k], b[k]) by {
            if k > 0 {
                assert(a.skip(1)[k - 1] == a[k]);
                assert(b.skip(1)[k - 1] == b[k]);
            }
        }
    }
}

/// The order in which images come makes no difference where no two have the same
/// size: packing them in another order `p` gives the same atlases.
pub proof fn packing_ignores_the_order(
    images: Seq<PackedImage>,
    p: Seq<usize>,
    a: Seq<Atlas>,
    b: Seq<Atlas>,
    max_width: u32,
    max_height: u32,
)
    requires
        images.len() <= usize::MAX,
        is_permutation(p, images.len()),
        sizes_differ(images),
        atlases_pack(a, arranged(images, packing_order(images)), max_width, max_height),
        ({
            let other = arranged(images, p);
            atlases_pack(b, arranged(other, packing_order(other)), max_width, max_height)
        }),
    ensures
        a.len() == b.len(),
        forall|k: int| 0 <= k < a.len() ==> same_atlas(#[trigger] a[k], b[k]),
{
    lemma_packing_order(images, p);
    lemma_atlases_are_unique(
        a,
        b,
        arranged(images, packing_order(images)),
        max_width,
        max_height,
    );
}

/// How many images there are in `atlases`.
pub open spec fn image_count(atlases: Seq<Atlas>) -> nat
    decreases atlases.len(),
{
    if atlases.len() == 0 {
        0
    } else {
        atlases[0].images@.len() + image_count(atlases.skip(1))
    }
}

/// Packing adds no image: the atlases hold as many as there were.
pub proof fn packing_adds_no_image(
    atlases: Seq<Atlas>,
    images: Seq<PackedImage>,
    max_width: u32,
    max_height: u32,
)
    requires
        atlases_pack(atlases, images, max_width, max_height),
    ensures
        image_count(atlases) == images.len(),
    decreases images.len(),
{
    if images.len() > 0 {
        let layout = image_layout(images, max_width, max_height);
        lemma_every_image_once(
            sizes_of(images),
            images.len(),
            max_width as int,
            max_height as int,
        );
        packing_adds_no_image(
            atlases.skip(1),
            left_images(images, layout),
            max_width,
            max_height,
        );
    }
}

/// Where row `row` of an image begins in the pixels of an atlas.
pub open spec fn row_target(image: PackedImage, row: int, bpp: nat, bpr: nat) -> int {
    (image.y + row) * bpr + image.x * bpp
}

/// Whether an image has the pixels of its row `row`.
pub open spec fn has_row(image: PackedImage, row: int, bpp: nat) -> bool {
    row * (image.width * bpp) + image.width * bpp <= image.pixel_data@.len()
}

/// The pixels of row `row` of an image.
pub open spec fn image_row(image: PackedImage, row: int, bpp: nat) -> Seq<u8> {
    let start = row * (image.width * bpp);
    image.pixel_data@.subrange(start, start + image.width * bpp)
}

/// `buf` with the first `n` rows of an image copied to their place; rows that the
/// image has no pixels for are left out.
pub open spec fn rows_drawn(buf: Seq<u8>, image: PackedImage, n: nat, bpp: nat, bpr: nat) -> Seq<u8>
    decreases n,
{
    if n == 0 {
        buf
    } else {
        let before = rows_drawn(buf, image, (n - 1) as nat, bpp, bpr);
        if has_row(image, n - 1, bpp) {
            written(before, row_target(image, n - 1, bpp, bpr), image_row(image, n - 1, bpp))
        } else {
            before
        }
    }
}

/// `buf` with the first `n` images drawn, one after the other.
pub open spec fn images_drawn(
    buf: Seq<u8>,
    images: Seq<PackedImage>,
    n: nat,
    bpp: nat,
    bpr: nat,
) -> Seq<u8>
    decreases n,
{
    if n == 0 {
        buf
    } else {
        rows_drawn(
            images_drawn(buf, images, (n - 1) as nat, bpp, bpr),
            images[n - 1],
            images[n - 1].height as nat,
            bpp,
            bpr,
        )
    }
}

/// The rows that an image has pixels for lie within `size` bytes.
pub open spec fn rows_inside(image: PackedImage, bpp: nat, bpr: nat, size: nat) -> bool {
    forall|row: int|
        0 <= row < image.height && #[trigger] has_row(image, row, bpp) ==> row_target(
            image,
            row,
            bpp,
            bpr,
        ) + image.width * bpp <= size
}

impl Atlas {
    /// The atlas can be drawn: its images lie inside, and sizes in bytes fit a
    /// machine word.
    pub open spec fn drawable(&self) -> bool {
        let bpp = bytes_per_pixel(self.pixel_format);
        let bpr = self.row_bytes();
        &&& self.width * bpp + 31 <= usize::MAX
        &&& bpr * self.height <= usize::MAX
        &&& forall|k: int|
            0 <= k < self.images@.len() ==> {
                let image = #[trigger] self.images@[k];
                &&& image.height * (image.width * bpp) + image.width * bpp <= usize::MAX
                &&& rows_inside(image, bpp, bpr, bpr * self.height as nat)
            }
    }

    /// The pixels of an atlas: its images, drawn on nothing.
    pub open spec fn rendered(&self) -> Seq<u8> {
        images_drawn(
            zeros(self.row_bytes() * self.height as nat),
            self.images@,
            self.images@.len(),
            bytes_per_pixel(self.pixel_format),
            self.row_bytes(),
        )
    }

    /// Draws all images into one buffer of pixels.
    pub fn render(&mut self)
        requires
            old(self).drawable(),
        ensures
            final(self).pixel_data@ == old(self).rendered(),
            final(self).width == old(self).width,
            final(self).height == old(self).height,
            final(self).pixel_format == old(self).pixel_format,
            final(self).scale == old(self).scale,
            final(self).dim1 == old(self).dim1,
            final(self).images == old(self).images,
            final(self).gamut == old(self).gamut,
    {
        let bpp: usize = if is_bgra(&self.pixel_format) {
            4
        } else {
            2
        };
        let bpr = self.bytes_per_row();
        let mut buf: Vec<u8> = Vec::new();
        put_zeros(&mut buf, bpr * self.height as usize);
        assert(buf@ =~= zeros(bpr as nat * self.height as nat));
        let ghost empty = buf@;
        let mut k: usize = 0;
        while k < self.images.len()
            invariant
                *self == *old(self),
                self.drawable(),
                bpp == bytes_per_pixel(self.pixel_format),
                bpr == self.row_bytes(),
                k <= self.images@.len(),
                buf@.len() == bpr * self.height,
                buf@ == images_drawn(empty, self.images@, k as nat, bpp as nat, bpr as nat),
            decreases self.images.len() - k,
        {
            draw_rows(&mut buf, &self.images[k], bpp, bpr);
            k = k + 1;
        }
        self.pixel_data = buf;
    }
}

/// Copies the rows of an image to their place.
fn draw_rows(buf: &mut Vec<u8>, image: &PackedImage, bpp: usize, bpr: usize)
    requires
        image.height * (image.width * bpp) + image.width * bpp <= usize::MAX,
        rows_inside(*image, bpp as nat, bpr as nat, old(buf)@.len()),
    ensures
        final(buf)@ == rows_drawn(
            old(buf)@,
            *image,
            image.height as nat,
            bpp as nat,
            bpr as nat,
        ),
        final(buf)@.len() == old(buf)@.len(),
{
    proof {
        assert(image.width * bpp <= usize::MAX) by (nonlinear_arith)
            requires
                image.height * (image.width * bpp) + image.width * bpp <= usize::MAX,
                image.height >= 0,
                image.width >= 0,
                bpp >= 0,
        ;
    }
    let stride: usize = image.width as usize * bpp;
    let height: usize = image.height as usize;
    let mut row: usize = 0;
    while row < height
        invariant
            row <= height,
            height == image.height,
            stride == image.width * bpp,
            height * stride + stride <= usize::MAX,
            buf@.len() == old(buf)@.len(),
            rows_inside(*image, bpp as nat, bpr as nat, buf@.len()),
            buf@ == rows_drawn(old(buf)@, *image, row as nat, bpp as nat, bpr as nat),
        decreases height - row,
    {
        proof {
            assert(row * stride <= height * stride) by (nonlinear_arith)
                requires
                    row <= height,
                    stride >= 0,
            ;
        }
        let start: usize = row * stride;
        let size: usize = buf.len();
        if start + stride <= image.pixel_data.len() {
            proof {
                assert(has_row(*image, row as int, bpp as nat));
                assert(0 <= (image.y + row) * bpr && 0 <= image.x * bpp) by (nonlinear_arith)
                    requires
                        image.y >= 0,
                        image.x >= 0,
                        row >= 0,
                        bpr >= 0,
                        bpp >= 0,
                ;
                assert(image.y + row <= size || bpr == 0) by (nonlinear_arith)
                    requires
                        (image.y + row) * bpr <= size,
                        bpr >= 0,
                        image.y + row >= 0,
                ;
            }
            let target: usize = if bpr == 0 {
                image.x as usize * bpp
            } else {
                (image.y as usize + row) * bpr + image.x as usize * bpp
            };
            proof {
                assert(bpr == 0 ==> (image.y + row) * bpr == 0) by (nonlinear_arith);
                assert(target == row_target(*image, row as int, bpp as nat, bpr as nat));
                assert(image.pixel_data@.subrange(start as int, start + stride) == image_row(
                    *image,
                    row as int,
                    bpp as nat,
                ));
            }
            write_at(buf, target, image.pixel_data.as_slice(), start, stride);
        }
        proof {
            assert(has_row(*image, row as int, bpp as nat) == (start + stride
                <= image.pixel_data@.len()));
        }
        row = row + 1;
    }
}

/// Rows of `bpr` bytes do not run into each other: byte `c` of row `r` lies in
/// a stretch of row `t` only where the rows are the same.
proof fn lemma_rows_apart(r: int, c: int, t: int, lo: int, hi: int, bpr: int)
    requires
        0 <= c < bpr,
        0 <= lo <= hi <= bpr,
    ensures
        t * bpr + lo <= r * bpr + c < t * bpr + hi <==> r == t && lo <= c < hi,
{
    if r < t {
        assert(r * bpr + bpr <= t * bpr) by (nonlinear_arith)
            requires
                r + 1 <= t,
                bpr >= 0,
        ;
    } else if r > t {
        assert(t * bpr + bpr <= r * bpr) by (nonlinear_arith)
            requires
                t + 1 <= r,
                bpr >= 0,
        ;
    }
}

/// Drawing an image changes nothing outside of it.
proof fn lemma_drawing_stays_inside(
    buf: Seq<u8>,
    image: PackedImage,
    n: nat,
    bpp: nat,
    bpr: nat,
    r: int,
    c: int,
)
    requires
        n <= image.height,
        image.x * bpp + image.width * bpp <= bpr,
        0 <= c < bpr,
        0 <= r * bpr + c < buf.len(),
        !(image.y <= r < image.y + n && image.x * bpp <= c < image.x * bpp + image.width * bpp),
    ensures
        rows_drawn(buf, image, n, bpp, bpr).len() == buf.len(),
        rows_drawn(buf, image, n, bpp, bpr)[r * bpr + c] == buf[r * bpr + c],
    decreases n,
{
    if n > 0 {
        lemma_drawing_stays_inside(buf, image, (n - 1) as nat, bpp, bpr, r, c);
        assert(0 <= image.x * bpp && 0 <= image.width * bpp) by (nonlinear_arith)
            requires
                image.x >= 0,
                image.width >= 0,
                bpp >= 0,
        ;
        lemma_rows_apart(
            r,
            c,
            image.y + n - 1,
            image.x * bpp,
            image.x * bpp + image.width * bpp,
            bpr as int,
        );
        if has_row(image, n - 1, bpp) {
            lemma_row_start(image, n - 1, bpp);
        }
    }
}

proof fn lemma_row_start(image: PackedImage, row: int, bpp: nat)
    requires
        row >= 0,
    ensures
        0 <= row * (image.width * bpp),
        0 <= image.width * bpp,
{
    assert(0 <= image.width * bpp) by (nonlinear_arith)
        requires
            image.width >= 0,
            bpp >= 0,
    ;
    assert(0 <= row * (image.width * bpp)) by (nonlinear_arith)
        requires
            row >= 0,
            0 <= image.width * bpp,
    ;
}

/// Drawing an image copies byte `b` of its row `j` to its place.
proof fn lemma_drawing_copies(
    buf: Seq<u8>,
    image: PackedImage,
    n: nat,
    bpp: nat,
    bpr: nat,
    j: int,
    b: int,
)
    requires
        0 <= j < n <= image.height,
        0 <= b < image.width * bpp,
        image.x * bpp + image.width * bpp <= bpr,
        has_row(image, j, bpp),
        row_target(image, j, bpp, bpr) + b < buf.len(),
    ensures
        rows_drawn(buf, image, n, bpp, bpr)[row_target(image, j, bpp, bpr) + b]
            == image.pixel_data@[j * (image.width * bpp) + b],
    decreases n,
{
    let lo = image.x * bpp;
    assert(0 <= lo) by (nonlinear_arith)
        requires
            lo == image.x * bpp,
            image.x >= 0,
            bpp >= 0,
    ;
    let before = rows_drawn(buf, image, (n - 1) as nat, bpp, bpr);
    assert(0 <= (image.y + j) * bpr) by (nonlinear_arith)
        requires
            image.y + j >= 0,
            bpr >= 0,
    ;
    lemma_row_start(image, j, bpp);
    lemma_row_start(image, n - 1, bpp);
    if j == n - 1 {
        lemma_drawing_stays_inside(buf, image, (n - 1) as nat, bpp, bpr, image.y + j, lo + b);
        assert(image_row(image, j, bpp)[b] == image.pixel_data@[j * (image.width * bpp) + b]);
    } else {
        lemma_drawing_copies(buf, image, (n - 1) as nat, bpp, bpr, j, b);
        lemma_rows_drawn_len(buf, image, (n - 1) as nat, bpp, bpr);
        lemma_rows_apart(
            image.y + j,
            lo + b,
            image.y + n - 1,
            lo,
            lo + image.width * bpp,
            bpr as int,
        );
    }
}

proof fn lemma_rows_drawn_len(buf: Seq<u8>, image: PackedImage, n: nat, bpp: nat, bpr: nat)
    ensures
        rows_drawn(buf, image, n, bpp, bpr).len() == buf.len(),
    decreases n,
{
    if n > 0 {
        lemma_rows_drawn_len(buf, image, (n - 1) as nat, bpp, bpr);
    }
}

/// Drawing keeps the size of the buffer.
pub proof fn lemma_images_drawn_len(
    buf: Seq<u8>,
    images: Seq<PackedImage>,
    n: nat,
    bpp: nat,
    bpr: nat,
)
    ensures
        images_drawn(buf, images, n, bpp, bpr).len() == buf.len(),
    decreases n,
{
    if n > 0 {
        lemma_images_drawn_len(buf, images, (n - 1) as nat, bpp, bpr);
        lemma_rows_drawn_len(
            images_drawn(buf, images, (n - 1) as nat, bpp, bpr),
            images[n - 1],
            images[n - 1].height as nat,
            bpp,
            bpr,
        );
    }
}

/// Two images have no pixel in common.
pub open spec fn disjoint(a: PackedImage, b: PackedImage) -> bool {
    ||| a.x + a.width <= b.x
    ||| b.x + b.width <= a.x
    ||| a.y + a.height <= b.y
    ||| b.y + b.height <= a.y
}

/// A rendered atlas shows its images: where images lie within the atlas and have
/// no pixel in common, byte `b` of row `j` of image `k` stands in the rendered
/// pixels at the image's place.
pub proof fn rendered_atlas_shows_images(atlas: Atlas, k: int, j: int, b: int)
    requires
        ({
            let bpp = bytes_per_pixel(atlas.pixel_format);
            &&& 0 <= k < atlas.images@.len()
            &&& forall|l: int|
                0 <= l < atlas.images@.len() ==> {
                    let image = #[trigger] atlas.images@[l];
                    &&& image.x + image.width <= atlas.width
                    &&& image.y + image.height <= atlas.height
                }
            &&& forall|l: int, m: int|
                0 <= l < m < atlas.images@.len() ==> disjoint(
                    #[trigger] atlas.images@[l],
                    #[trigger] atlas.images@[m],
                )
            &&& 0 <= j < atlas.images@[k].height
            &&& 0 <= b < atlas.images@[k].width * bpp
            &&& has_row(atlas.images@[k], j, bpp)
        }),
    ensures
        ({
            let bpp = bytes_per_pixel(atlas.pixel_format);
            let bpr = atlas.row_bytes();
            let image = atlas.images@[k];
            images_drawn(
                zeros(bpr * atlas.height as nat),
                atlas.images@,
                atlas.images@.len(),
                bpp,
                bpr,
            )[(image.y + j) * bpr + image.x * bpp + b] == image.pixel_data@[j * (image.width * bpp)
                + b]
        }),
{
    lemma_images_drawn_show(atlas, atlas.images@.len(), k, j, b);
}

/// An image within the atlas lies within the rows of its pixels.
proof fn lemma_inside_rows(atlas: Atlas, image: PackedImage, j: int, b: int)
    requires
        image.x + image.width <= atlas.width,
        image.y + image.height <= atlas.height,
        0 <= j < image.height,
        0 <= b < image.width * bytes_per_pixel(atlas.pixel_format),
    ensures
        ({
            let bpp = bytes_per_pixel(atlas.pixel_format);
            let bpr = atlas.row_bytes();
            &&& 0 <= image.x * bpp
            &&& image.x * bpp + image.width * bpp <= bpr
            &&& 0 <= row_target(image, j, bpp, bpr)
            &&& row_target(image, j, bpp, bpr) + b < bpr * atlas.height
        }),
{
    let bpp = bytes_per_pixel(atlas.pixel_format) as int;
    let bpr = atlas.row_bytes() as int;
    assert(image.x * bpp + image.width * bpp <= atlas.width * bpp) by (nonlinear_arith)
        requires
            image.x + image.width <= atlas.width,
            bpp >= 0,
    ;
    assert(0 <= image.x * bpp) by (nonlinear_arith)
        requires
            image.x >= 0,
            bpp >= 0,
    ;
    assert((image.y + j) * bpr + bpr <= bpr * atlas.height) by (nonlinear_arith)
        requires
            image.y + j + 1 <= atlas.height,
            bpr >= 0,
    ;
    assert(0 <= (image.y + j) * bpr) by (nonlinear_arith)
        requires
            image.y + j >= 0,
            bpr >= 0,
    ;
}

proof fn lemma_images_drawn_show(atlas: Atlas, n: nat, k: int, j: int, b: int)
    requires
        ({
            let bpp = bytes_per_pixel(atlas.pixel_format);
            &&& 0 <= k < n <= atlas.images@.len()
            &&& forall|l: int|
                0 <= l < atlas.images@.len() ==> {
                    let image = #[trigger] atlas.images@[l];
                    &&& image.x + image.width <= atlas.width
                    &&& image.y + image.height <= atlas.height
                }
            &&& forall|l: int, m: int|
                0 <= l < m < atlas.images@.len() ==> disjoint(
                    #[trigger] atlas.images@[l],
                    #[trigger] atlas.images@[m],
                )
            &&& 0 <= j < atlas.images@[k].height
            &&& 0 <= b < atlas.images@[k].width * bpp
            &&& has_row(atlas.images@[k], j, bpp)
        }),
    ensures
        ({
            let bpp = bytes_per_pixel(atlas.pixel_format);
            let bpr = atlas.row_bytes();
            let image = atlas.images@[k];
            images_drawn(
                zeros(bpr * atlas.height as nat),
                atlas.images@,
                n,
                bpp,
                bpr,
            )[(image.y + j) * bpr + image.x * bpp + b] == image.pixel_data@[j * (image.width * bpp)
                + b]
        }),
    decreases n,
{
    let bpp = bytes_per_pixel(atlas.pixel_format);
    let bpr = atlas.row_bytes();
    let image = atlas.images@[k];
    let empty = zeros(bpr * atlas.height as nat);
    let m = (n - 1) as nat;
    let before = images_drawn(empty, atlas.images@, m, bpp, bpr);
    lemma_images_drawn_len(empty, atlas.images@, m, bpp, bpr);
    lemma_inside_rows(atlas, image, j, b);
    if k == m {
        lemma_drawing_copies(before, image, image.height as nat, bpp, bpr, j, b);
    } else {
        lemma_images_drawn_show(atlas, m, k, j, b);
        let other = atlas.images@[m as int];
        assert(disjoint(image, other));
        let r = image.y + j;
        let c = image.x * bpp + b;
        assert(other.x * bpp + other.width * bpp <= bpr) by {
            assert(other.x * bpp + other.width * bpp <= atlas.width * bpp) by (nonlinear_arith)
                requires
                    other.x + other.width <= atlas.width,
                    bpp >= 0,
            ;
        }
        assert(!(other.y <= r < other.y + other.height && other.x * bpp <= c < other.x * bpp
            + other.width * bpp)) by {
            if image.x + image.width <= other.x {
                assert(image.x * bpp + image.width * bpp <= other.x * bpp) by (nonlinear_arith)
                    requires
                        image.x + image.width <= other.x,
                        bpp >= 0,
                ;
            } else if other.x + other.width <= image.x {
                assert(other.x * bpp + other.width * bpp <= image.x * bpp) by (nonlinear_arith)
                    requires
                        other.x + other.width <= image.x,
                        bpp >= 0,
                ;
            }
        }
        lemma_drawing_stays_inside(before, other, other.height as nat, bpp, bpr, r, c);
    }
}

/// Whether a byte of row `r`, the one at `c` of the row, belongs to an image.
pub open spec fn covers(image: PackedImage, bpp: nat, r: int, c: int) -> bool {
    image.y <= r < image.y + image.height && image.x * bpp <= c < image.x * bpp + image.width * bpp
}

proof fn lemma_rest_is_empty(atlas: Atlas, n: nat, r: int, c: int)
    requires
        n <= atlas.images@.len(),
        0 <= r < atlas.height,
        0 <= c < atlas.row_bytes(),
        forall|l: int|
            0 <= l < atlas.images@.len() ==> {
                let image = #[trigger] atlas.images@[l];
                &&& image.x + image.width <= atlas.width
                &&& !covers(image, bytes_per_pixel(atlas.pixel_format), r, c)
            },
    ensures
        0 <= r * atlas.row_bytes() + c < atlas.row_bytes() * atlas.height,
        images_drawn(
            zeros(atlas.row_bytes() * atlas.height as nat),
            atlas.images@,
            n,
            bytes_per_pixel(atlas.pixel_format),
            atlas.row_bytes(),
        )[r * atlas.row_bytes() + c] == 0,
    decreases n,
{
    let bpp = bytes_per_pixel(atlas.pixel_format);
    let bpr = atlas.row_bytes();
    let empty = zeros(bpr * atlas.height as nat);
    assert(r * bpr + bpr <= bpr * atlas.height && 0 <= r * bpr) by (nonlinear_arith)
        requires
            0 <= r,
            r + 1 <= atlas.height,
            bpr >= 0,
    ;
    if n > 0 {
        let m = (n - 1) as nat;
        let before = images_drawn(empty, atlas.images@, m, bpp, bpr);
        let image = atlas.images@[m as int];
        lemma_rest_is_empty(atlas, m, r, c);
        lemma_images_drawn_len(empty, atlas.images@, m, bpp, bpr);
        assert(image.x * bpp + image.width * bpp <= bpr) by {
            assert(image.x * bpp + image.width * bpp <= atlas.width * bpp) by (nonlinear_arith)
                requires
                    image.x + image.width <= atlas.width,
                    bpp >= 0,
            ;
        }
        assert(!covers(image, bpp, r, c));
        lemma_drawing_stays_inside(before, image, image.height as nat, bpp, bpr, r, c);
    }
}

/// A rendered atlas shows nothing else: a byte that belongs to none of its images
/// is zero.
pub proof fn rendered_atlas_is_empty_elsewhere(atlas: Atlas, r: int, c: int)
    requires
        0 <= r < atlas.height,
        0 <= c < atlas.row_bytes(),
        forall|l: int|
            0 <= l < atlas.images@.len() ==> {
                let image = #[trigger] atlas.images@[l];
                &&& image.x + image.width <= atlas.width
                &&& !covers(image, bytes_per_pixel(atlas.pixel_format), r, c)
            },
    ensures
        images_drawn(
            zeros(atlas.row_bytes() * atlas.height as nat),
            atlas.images@,
            atlas.images@.len(),
            bytes_per_pixel(atlas.pixel_format),
            atlas.row_bytes(),
        )[r * atlas.row_bytes() + c] == 0,
{
    lemma_rest_is_empty(atlas, atlas.images@.len(), r, c);
}

/// A packed atlas meets what rendering asks for: its images lie within it and have
/// no pixel in common.
pub proof fn packed_images_are_separate(
    atlas: Atlas,
    images: Seq<PackedImage>,
    max_width: u32,
    max_height: u32,
)
    requires
        images.len() > 0,
        sides_fit(images),
        atlas.width == image_layout(images, max_width, max_height).width,
        atlas.height == image_layout(images, max_width, max_height).bottom + MARGIN,
        atlas.images@ == atlas_images(images, image_layout(images, max_width, max_height)),
    ensures
        forall|l: int|
            0 <= l < atlas.images@.len() ==> {
                let image = #[trigger] atlas.images@[l];
                &&& image.x + image.width <= atlas.width
                &&& image.y + image.height <= atlas.height
            },
        forall|l: int, m: int|
            0 <= l < m < atlas.images@.len() ==> disjoint(
                #[trigger] atlas.images@[l],
                #[trigger] atlas.images@[m],
            ),
{
    let sizes = sizes_of(images);
    let mw = max_width as int;
    let mh = max_height as int;
    let n = images.len();
    let layout = image_layout(images, max_width, max_height);
    lemma_layout_within(sizes, n, mw, mh, u32::MAX as int, u32::MAX as int);
    assert forall|l: int| 0 <= l < atlas.images@.len() implies {
        let image = #[trigger] atlas.images@[l];
        &&& image.x + image.width <= atlas.width
        &&& image.y + image.height <= atlas.height
    } by {
        packed_images_keep_margins(sizes, n, mw, mh, l);
        assert(atlas.images@[l] == moved(images[layout.spots[l].image], layout.spots[l]));
    }
    assert forall|l: int, m: int| 0 <= l < m < atlas.images@.len() implies disjoint(
        #[trigger] atlas.images@[l],
        #[trigger] atlas.images@[m],
    ) by {
        packed_images_keep_margins(sizes, n, mw, mh, l);
        packed_images_keep_margins(sizes, n, mw, mh, m);
        packed_images_stay_apart(sizes, n, mw, mh, l, m);
        assert(atlas.images@[l] == moved(images[layout.spots[l].image], layout.spots[l]));
        assert(atlas.images@[m] == moved(images[layout.spots[m].image], layout.spots[m]));
    }
}

/// An atlas whose images lie within it can be drawn, as long as its sides are
/// short enough for sizes in bytes.
pub proof fn lemma_drawable(atlas: Atlas)
    requires
        atlas.width <= 0x4000,
        atlas.height <= 0x4000,
        forall|l: int|
            0 <= l < atlas.images@.len() ==> {
                let image = #[trigger] atlas.images@[l];
                &&& image.x + image.width <= atlas.width
                &&& image.y + image.height <= atlas.height
            },
    ensures
        atlas.drawable(),
        atlas.row_bytes() * atlas.height as nat <= 0x4000_0000 + 0x8_0000,
{
    let bpp = bytes_per_pixel(atlas.pixel_format);
    let bpr = atlas.row_bytes();
    assert(atlas.width as nat * bpp <= 0x10000) by (nonlinear_arith)
        requires
            atlas.width <= 0x4000,
            bpp <= 4,
    ;
    assert(bpr * atlas.height as nat <= 0x4000_0000 + 0x8_0000) by (nonlinear_arith)
        requires
            bpr <= 0x10000 + 31,
            atlas.height <= 0x4000,
    ;
    assert forall|k: int| 0 <= k < atlas.images@.len() implies {
        let image = #[trigger] atlas.images@[k];
        &&& image.height * (image.width * bpp) + image.width * bpp <= usize::MAX
        &&& rows_inside(image, bpp, bpr, bpr * atlas.height as nat)
    } by {
        let image = atlas.images@[k];
        let stride = image.width * bpp;
        assert(0 <= stride <= 0x10000) by (nonlinear_arith)
            requires
                stride == image.width * bpp,
                0 <= image.width <= 0x4000,
                0 <= bpp <= 4,
        ;
        assert(image.height * stride <= 0x4000_0000) by (nonlinear_arith)
            requires
                0 <= stride <= 0x10000,
                0 <= image.height <= 0x4000,
        ;
        assert forall|row: int| 0 <= row < image.height && #[trigger] has_row(
            image,
            row,
            bpp,
        ) implies row_target(image, row, bpp, bpr) + image.width * bpp <= bpr
            * atlas.height as nat by {
            assert(image.x * bpp + image.width * bpp <= atlas.width * bpp) by (nonlinear_arith)
                requires
                    image.x + image.width <= atlas.width,
                    bpp >= 0,
            ;
            assert((image.y + row) * bpr + bpr <= bpr * atlas.height as nat) by (nonlinear_arith)
                requires
                    image.y + row + 1 <= atlas.height,
                    bpr >= 0,
            ;
        }
    }
}

/// Whether an image has all its pixels and no others.
pub open spec fn is_complete(image: PackedImage) -> bool {
    image.pixel_data@.len() == image.height * (image.width * bytes_per_pixel(image.pixel_format))
}

/// Complete images in one pixel format.
pub open spec fn images_match(images: Seq<PackedImage>) -> bool {
    forall|i: int|
        0 <= i < images.len() ==> is_complete(#[trigger] images[i]) && images[i].pixel_format
            == images[0].pixel_format
}

/// Whether pixels show every row of every image of an atlas at its place, and nothing
/// elsewhere.
pub open spec fn shows_all(atlas: Atlas, pixels: Seq<u8>) -> bool {
    let bpp = bytes_per_pixel(atlas.pixel_format);
    let bpr = atlas.row_bytes();
    &&& pixels.len() == bpr * atlas.height
    &&& forall|k: int, j: int|
        0 <= k < atlas.images@.len() && 0 <= j < atlas.images@[k].height
            ==> #[trigger] pixels.subrange(
            row_target(atlas.images@[k], j, bpp, bpr),
            row_target(atlas.images@[k], j, bpp, bpr) + atlas.images@[k].width * bpp,
        ) == image_row(atlas.images@[k], j, bpp)
    &&& forall|r: int, c: int|
        0 <= r < atlas.height && 0 <= c < bpr && (forall|l: int|
            0 <= l < atlas.images@.len() ==> !covers(#[trigger] atlas.images@[l], bpp, r, c))
            ==> #[trigger] pixels[r * bpr + c] == 0
}

/// An atlas of images that have all their pixels shows them.
proof fn lemma_atlas_shows(
    atlas: Atlas,
    images: Seq<PackedImage>,
    max_width: u32,
    max_height: u32,
)
    requires
        images.len() > 0,
        sides_fit(images),
        images_match(images),
        atlas_packs(atlas, images, max_width, max_height),
    ensures
        shows_all(atlas, atlas.rendered()),
{
    let bpp = bytes_per_pixel(atlas.pixel_format);
    let bpr = atlas.row_bytes();
    let pixels = atlas.rendered();
    let layout = image_layout(images, max_width, max_height);
    packed_images_are_separate(atlas, images, max_width, max_height);
    lemma_images_drawn_len(
        zeros(bpr * atlas.height as nat),
        atlas.images@,
        atlas.images@.len(),
        bpp,
        bpr,
    );
    assert forall|k: int, j: int|
        0 <= k < atlas.images@.len() && 0 <= j
            < atlas.images@[k].height implies #[trigger] pixels.subrange(
        row_target(atlas.images@[k], j, bpp, bpr),
        row_target(atlas.images@[k], j, bpp, bpr) + atlas.images@[k].width * bpp,
    ) == image_row(atlas.images@[k], j, bpp) by {
        lemma_every_image_once(
            sizes_of(images),
            images.len(),
            max_width as int,
            max_height as int,
        );
        let spot = layout.spots[k];
        assert(atlas.images@[k] == moved(images[spot.image], spot));
        lemma_layout_ok(
            sizes_of(images),
            images.len(),
            max_width as int,
            max_height as int,
        );
        assert(spot_ok(layout, sizes_of(images), spot));
        lemma_row_shows(atlas, k, j);
    }
    assert forall|r: int, c: int|
        0 <= r < atlas.height && 0 <= c < bpr && (forall|l: int|
            0 <= l < atlas.images@.len() ==> !covers(#[trigger] atlas.images@[l], bpp, r, c))
            implies #[trigger] pixels[r * bpr + c] == 0 by {
        rendered_atlas_is_empty_elsewhere(atlas, r, c);
    }
}

/// A row of a complete image stands at its place.
proof fn lemma_row_shows(atlas: Atlas, k: int, j: int)
    requires
        0 <= k < atlas.images@.len(),
        0 <= j < atlas.images@[k].height,
        is_complete(atlas.images@[k]),
        atlas.images@[k].pixel_format == atlas.pixel_format,
        forall|l: int|
            0 <= l < atlas.images@.len() ==> {
                let image = #[trigger] atlas.images@[l];
                &&& image.x + image.width <= atlas.width
                &&& image.y + image.height <= atlas.height
            },
        forall|l: int, m: int|
            0 <= l < m < atlas.images@.len() ==> disjoint(
                #[trigger] atlas.images@[l],
                #[trigger] atlas.images@[m],
            ),
        atlas.rendered().len() == atlas.row_bytes() * atlas.height,
    ensures
        ({
            let bpp = bytes_per_pixel(atlas.pixel_format);
            let bpr = atlas.row_bytes();
            let image = atlas.images@[k];
            let at = row_target(image, j, bpp, bpr);
            atlas.rendered().subrange(at, at + image.width * bpp) == image_row(image, j, bpp)
        }),
{
    let bpp = bytes_per_pixel(atlas.pixel_format);
    let bpr = atlas.row_bytes();
    let image = atlas.images@[k];
    let stride = image.width * bpp;
    let at = row_target(image, j, bpp, bpr);
    assert(0 <= stride) by (nonlinear_arith)
        requires
            stride == image.width * bpp,
            image.width >= 0,
            bpp >= 0,
    ;
    assert(0 <= j * stride && j * stride + stride <= image.height * stride) by (nonlinear_arith)
        requires
            0 <= j,
            j + 1 <= image.height,
            stride >= 0,
    ;
    assert(has_row(image, j, bpp));
    if stride > 0 {
        lemma_inside_rows(atlas, image, j, stride - 1);
        let shown = atlas.rendered().subrange(at, at + stride);
        assert forall|b: int| 0 <= b < stride implies shown[b] == image_row(image, j, bpp)[b] by {
            rendered_atlas_shows_images(atlas, k, j, b);
        }
        assert(shown =~= image_row(image, j, bpp));
    } else {
        assert(0 <= image.x * bpp <= atlas.width * bpp) by (nonlinear_arith)
            requires
                0 <= image.x <= atlas.width,
                bpp >= 0,
        ;
        assert(0 <= (image.y + j) * bpr && (image.y + j) * bpr + bpr <= bpr * atlas.height)
            by (nonlinear_arith)
            requires
                0 <= image.y + j,
                image.y + j + 1 <= atlas.height,
                bpr >= 0,
        ;
        assert(atlas.rendered().subrange(at, at + stride) =~= image_row(image, j, bpp));
    }
}

/// Every atlas that packing gives shows its images once it is rendered: its pixels
/// have the length of its rows, hold every row of every image at the image's place,
/// and are zero elsewhere.
pub proof fn packed_atlases_show_their_images(
    atlases: Seq<Atlas>,
    images: Seq<PackedImage>,
    max_width: u32,
    max_height: u32,
    a: int,
)
    requires
        sides_fit(images),
        images_match(images),
        atlases_pack(atlases, images, max_width, max_height),
        0 <= a < atlases.len(),
    ensures
        shows_all(atlases[a], atlases[a].rendered()),
    decreases a,
{
    if a == 0 {
        lemma_atlas_shows(atlases[0], images, max_width, max_height);
    } else {
        let layout = image_layout(images, max_width, max_height);
        let left = left_images(images, layout);
        lemma_left_images_fit(images, max_width, max_height);
        lemma_every_image_once(
            sizes_of(images),
            images.len(),
            max_width as int,
            max_height as int,
        );
        assert forall|i: int| 0 <= i < left.len() implies is_complete(#[trigger] left[i])
            && left[i].pixel_format == left[0].pixel_format by {
            assert(left[i] == images[layout.rest[i]]);
            assert(left[0] == images[layout.rest[0]]);
        }
        packed_atlases_show_their_images(atlases.skip(1), left, max_width, max_height, a - 1);
    }
}

} // verus!
