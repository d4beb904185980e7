//! Box blur of images of 8-bit and 16-bit samples through summed-area
//! tables.
//!
//! For every channel a table of running sums is built; the sum over any
//! box of pixels is then read from four entries of the table, so each
//! output pixel costs the same whatever the radius.

use vstd::prelude::*;

verus! {

/// An unsigned integer sample type of at most 16 bits.
pub trait Subpixel: Copy + Sized {
    /// The sample as an integer.
    spec fn value(self) -> int;

    /// The largest sample.
    spec fn top() -> int;

    /// Every sample lies between 0 and the largest one.
    proof fn lemma_range(self)
        ensures
            0 <= self.value() <= Self::top(),
    ;

    /// The largest sample fits in 16 bits.
    proof fn lemma_top()
        ensures
            0 <= Self::top() <= 65535,
    ;

    /// The sample as a `u64`.
    fn widen(self) -> (r: u64)
        ensures
            r == self.value(),
    ;

    /// The sample of value `v`.
    fn narrow(v: u64) -> (r: Self)
        requires
            v <= Self::top(),
        ensures
            r.value() == v,
    ;

    /// The sample 0.
    fn zero() -> (r: Self)
        ensures
            r.value() == 0,
    ;
}

impl Subpixel for u8 {
    open spec fn value(self) -> int {
        self as int
    }

    open spec fn top() -> int {
        255
    }

    proof fn lemma_range(self) {
    }

    proof fn lemma_top() {
    }

    fn widen(self) -> (r: u64) {
        self as u64
    }

    fn narrow(v: u64) -> (r: u8) {
        v as u8
    }

    fn zero() -> (r: u8) {
        0
    }
}

impl Subpixel for u16 {
    open spec fn value(self) -> int {
        self as int
    }

    open spec fn top() -> int {
        65535
    }

    proof fn lemma_range(self) {
    }

    proof fn lemma_top() {
    }

    fn widen(self) -> (r: u64) {
        self as u64
    }

    fn narrow(v: u64) -> (r: u16) {
        v as u16
    }

    fn zero() -> (r: u16) {
        0
    }
}

/// An image with `channels` interleaved samples per pixel, stored row by
/// row: sample `ch` of the pixel in column `col` of row `row` sits at
/// `(row * width + col) * channels + ch`.
pub struct Pixels<S> {
    pub width: u32,
    pub height: u32,
    pub channels: u32,
    pub data: Vec<S>,
}

/// An image of 8-bit samples.
pub type PixelBuffer = Pixels<u8>;

impl<S> Pixels<S> {
    /// The buffer holds exactly `width * height` pixels.
    pub open spec fn wf(&self) -> bool {
        self.data.len() == self.width * self.height * self.channels
    }
}

/// Sample `ch` of the pixel at (`row`, `col`).
pub open spec fn sample<S: Subpixel>(data: Seq<S>, width: int, n: int, ch: int, row: int, col: int) -> int {
    data[(row * width + col) * n + ch].value()
}

/// Sum of sample `ch` over the columns `c0 .. c1` of one row.
pub open spec fn span_sum<S: Subpixel>(data: Seq<S>, width: int, n: int, ch: int, row: int, c0: int, c1: int) -> int
    decreases c1 - c0,
{
    if c1 <= c0 {
        0
    } else {
        span_sum(data, width, n, ch, row, c0, c1 - 1) + sample(data, width, n, ch, row, c1 - 1)
    }
}

/// Sum of sample `ch` over the rows `r0 .. r1` and the columns `c0 .. c1`.
pub open spec fn rect_sum<S: Subpixel>(
    data: Seq<S>,
    width: int,
    n: int,
    ch: int,
    r0: int,
    r1: int,
    c0: int,
    c1: int,
) -> int
    decreases r1 - r0,
{
    if r1 <= r0 {
        0
    } else {
        rect_sum(data, width, n, ch, r0, r1 - 1, c0, c1) + span_sum(data, width, n, ch, r1 - 1, c0, c1)
    }
}

/// First column of the box around column `pos`: the box reaches `radius`
/// back only where that stays inside the image; near the border it starts
/// at `pos` itself.
pub open spec fn box_start(pos: int, radius: int) -> int {
    if radius <= pos {
        pos - radius
    } else {
        pos
    }
}

/// Last column of the box around column `pos`, clamped to the image.
pub open spec fn box_end(pos: int, radius: int, size: int) -> int {
    if pos + radius <= size - 1 {
        pos + radius
    } else {
        size - 1
    }
}

/// Number of pixels in the box around (`row`, `col`).
pub open spec fn box_area(row: int, col: int, radius: int, width: int, height: int) -> int {
    (box_end(col, radius, width) - box_start(col, radius) + 1) * (box_end(row, radius, height)
        - box_start(row, radius) + 1)
}

/// The value the blur gives sample `ch` of pixel (`row`, `col`): the sum
/// over its box divided by the box's area. The table of running sums
/// leaves out the first column of the image, so a box that touches it
/// sums from the second column on while the area still counts it.
pub open spec fn blurred_sample<S: Subpixel>(
    data: Seq<S>,
    width: int,
    height: int,
    n: int,
    ch: int,
    radius: int,
    row: int,
    col: int,
) -> int {
    let x0 = box_start(col, radius);
    let x1 = box_end(col, radius, width);
    let y0 = box_start(row, radius);
    let y1 = box_end(row, radius, height);
    let first = if x0 < 1 {
        1
    } else {
        x0
    };
    rect_sum(data, width, n, ch, y0, y1 + 1, first, x1 + 1) / box_area(row, col, radius, width, height)
}

/// Sum of channel `ch` over the whole image, first column left out.
pub open spec fn channel_total<S: Subpixel>(img: &Pixels<S>, ch: int) -> int {
    rect_sum(img.data@, img.width as int, img.channels as int, ch, 0, img.height as int, 1, img.width as int)
}

/// The radius fits the arithmetic of the blur: every box end
/// `col + radius` and `row + radius` is a `u32`.
pub open spec fn radius_fits<S: Subpixel>(img: &Pixels<S>, radius: u32) -> bool {
    img.width == 0 || img.height == 0 || (img.width - 1 + radius <= u32::MAX && img.height - 1
        + radius <= u32::MAX)
}

proof fn lemma_span_split<S: Subpixel>(data: Seq<S>, width: int, n: int, ch: int, row: int, c0: int, c1: int, c2: int)
    requires
        c0 <= c1 <= c2,
    ensures
        span_sum(data, width, n, ch, row, c0, c2) == span_sum(data, width, n, ch, row, c0, c1)
            + span_sum(data, width, n, ch, row, c1, c2),
    decreases c2 - c1,
{
    if c2 > c1 {
        lemma_span_split(data, width, n, ch, row, c0, c1, c2 - 1);
    }
}

proof fn lemma_span_bounds<S: Subpixel>(
    data: Seq<S>,
    width: int,
    height: int,
    n: int,
    ch: int,
    row: int,
    c0: int,
    c1: int,
)
    requires
        0 <= row < height,
        0 <= c0 <= c1 <= width,
        0 <= ch < n,
        data.len() == width * height * n,
    ensures
        0 <= span_sum(data, width, n, ch, row, c0, c1) <= S::top() * (c1 - c0),
    decreases c1 - c0,
{
    if c1 > c0 {
        lemma_span_bounds(data, width, height, n, ch, row, c0, c1 - 1);
        lemma_sample_index(width, height, n, ch, row, c1 - 1);
        data[(row * width + c1 - 1) * n + ch].lemma_range();
        assert(S::top() * (c1 - c0) == S::top() * (c1 - 1 - c0) + S::top()) by (nonlinear_arith);
    } else {
        assert(S::top() * (c1 - c0) == 0) by (nonlinear_arith)
            requires
                c1 == c0,
        ;
    }
}

proof fn lemma_rect_split_rows<S: Subpixel>(
    data: Seq<S>,
    width: int,
    n: int,
    ch: int,
    r0: int,
    r1: int,
    r2: int,
    c0: int,
    c1: int,
)
    requires
        r0 <= r1 <= r2,
    ensures
        rect_sum(data, width, n, ch, r0, r2, c0, c1) == rect_sum(data, width, n, ch, r0, r1, c0, c1)
            + rect_sum(data, width, n, ch, r1, r2, c0, c1),
    decreases r2 - r1,
{
    if r2 > r1 {
        lemma_rect_split_rows(data, width, n, ch, r0, r1, r2 - 1, c0, c1);
    }
}

proof fn lemma_rect_split_cols<S: Subpixel>(
    data: Seq<S>,
    width: int,
    n: int,
    ch: int,
    r0: int,
    r1: int,
    c0: int,
    c1: int,
    c2: int,
)
    requires
        c0 <= c1 <= c2,
    ensures
        rect_sum(data, width, n, ch, r0, r1, c0, c2) == rect_sum(data, width, n, ch, r0, r1, c0, c1)
            + rect_sum(data, width, n, ch, r0, r1, c1, c2),
    decreases r1 - r0,
{
    if r1 > r0 {
        lemma_rect_split_cols(data, width, n, ch, r0, r1 - 1, c0, c1, c2);
        lemma_span_split(data, width, n, ch, r1 - 1, c0, c1, c2);
    }
}

proof fn lemma_rect_bounds<S: Subpixel>(
    data: Seq<S>,
    width: int,
    height: int,
    n: int,
    ch: int,
    r0: int,
    r1: int,
    c0: int,
    c1: int,
)
    requires
        0 <= r0 <= r1 <= height,
        0 <= c0 <= c1 <= width,
        0 <= ch < n,
        data.len() == width * height * n,
    ensures
        0 <= rect_sum(data, width, n, ch, r0, r1, c0, c1) <= S::top() * ((r1 - r0) * (c1 - c0)),
    decreases r1 - r0,
{
    if r1 > r0 {
        lemma_rect_bounds(data, width, height, n, ch, r0, r1 - 1, c0, c1);
        lemma_span_bounds(data, width, height, n, ch, r1 - 1, c0, c1);
        assert(S::top() * ((r1 - r0) * (c1 - c0)) == S::top() * ((r1 - 1 - r0) * (c1 - c0)) + S::top() * (
        c1 - c0)) by (nonlinear_arith);
    } else {
        assert(S::top() * ((r1 - r0) * (c1 - c0)) == 0) by (nonlinear_arith)
            requires
                r1 == r0,
        ;
    }
}

/// Every sample of an in-bounds pixel lies inside the buffer.
pub(crate) proof fn lemma_sample_index(width: int, height: int, n: int, ch: int, row: int, col: int)
    requires
        0 <= row < height,
        0 <= col < width,
        0 <= ch < n,
    ensures
        0 <= (row * width + col) * n + ch < width * height * n,
        0 <= row * width + col < width * height,
{
    assert(0 <= row * width + col) by (nonlinear_arith)
        requires
            0 <= row,
            0 <= col,
            0 <= width,
    ;
    assert(row * width + col < width * height) by (nonlinear_arith)
        requires
            0 <= row < height,
            0 <= col < width,
    ;
    assert((row * width + col) * n + ch < width * height * n) by (nonlinear_arith)
        requires
            0 <= row * width + col < width * height,
            0 <= ch < n,
    ;
    assert(0 <= (row * width + col) * n) by (nonlinear_arith)
        requires
            0 <= row * width + col,
            0 <= n,
    ;
}

/// Reading the sum over a box out of a table of running sums: with
/// `table(r, c)` the sum over the rows `0 .. r` and the columns `1 .. c`,
/// the sum over the rows `y0 ..= y1` and the columns `x0 ..= x1` is
/// `d - (b + c - a)`, where `d = table(y1 + 1, x1 + 1)`,
/// `b = table(y0, x1 + 1)`, `c = table(y1 + 1, x0)` and
/// `a = table(y0, x0)`.
pub proof fn lemma_box_sum_from_table<S: Subpixel>(
    data: Seq<S>,
    width: int,
    n: int,
    ch: int,
    y0: int,
    y1: int,
    x0: int,
    x1: int,
)
    requires
        0 <= y0 <= y1,
        1 <= x0 <= x1 + 1,
    ensures
        rect_sum(data, width, n, ch, y0, y1 + 1, x0, x1 + 1) == rect_sum(
            data,
            width,
            n,
            ch,
            0,
            y1 + 1,
            1,
            x1 + 1,
        ) - (rect_sum(data, width, n, ch, 0, y0, 1, x1 + 1) + rect_sum(
            data,
            width,
            n,
            ch,
            0,
            y1 + 1,
            1,
            x0,
        ) - rect_sum(data, width, n, ch, 0, y0, 1, x0)),
{
    lemma_rect_split_rows(data, width, n, ch, 0, y0, y1 + 1, 1, x1 + 1);
    lemma_rect_split_rows(data, width, n, ch, 0, y0, y1 + 1, 1, x0);
    lemma_rect_split_rows(data, width, n, ch, 0, y0, y1 + 1, x0, x1 + 1);
    lemma_rect_split_cols(data, width, n, ch, 0, y1 + 1, 1, x0, x1 + 1);
    lemma_rect_split_cols(data, width, n, ch, 0, y0, 1, x0, x1 + 1);
}

/// Position `row * width + col` of a row-major grid holds row `row` and
/// column `col`.
pub(crate) proof fn lemma_grid_pos(width: int, row: int, col: int)
    requires
        width > 0,
        0 <= col < width,
    ensures
        (row * width + col) / width == row,
        (row * width + col) % width == col,
{
    vstd::arithmetic::div_mod::lemma_fundamental_div_mod_converse(row * width + col, width, row, col);
}

/// A grid position before `row * width` lies in an earlier row.
proof fn lemma_grid_row_bound(width: int, row: int, k: int)
    requires
        width > 0,
        0 <= k,
        0 <= row,
    ensures
        k < row * width <==> k / width < row,
{
    vstd::arithmetic::div_mod::lemma_fundamental_div_mod(k, width);
    let q = k / width;
    let r = k % width;
    assert(k < row * width <==> q < row) by (nonlinear_arith)
        requires
            k == width * q + r,
            0 <= r < width,
            width > 0,
    ;
}

proof fn lemma_rect_empty_cols<S: Subpixel>(
    data: Seq<S>,
    width: int,
    n: int,
    ch: int,
    r0: int,
    r1: int,
    c0: int,
    c1: int,
)
    requires
        c1 <= c0,
    ensures
        rect_sum(data, width, n, ch, r0, r1, c0, c1) == 0,
    decreases r1 - r0,
{
    if r1 > r0 {
        lemma_rect_empty_cols(data, width, n, ch, r0, r1 - 1, c0, c1);
    }
}

/// Entries of the table never exceed the sum over the whole image.
proof fn lemma_table_le_total<S: Subpixel>(
    data: Seq<S>,
    width: int,
    height: int,
    n: int,
    ch: int,
    r: int,
    c: int,
)
    requires
        0 <= r <= height,
        1 <= c <= width,
        0 <= ch < n,
        data.len() == width * height * n,
    ensures
        0 <= rect_sum(data, width, n, ch, 0, r, 1, c) <= rect_sum(data, width, n, ch, 0, height, 1, width),
{
    lemma_rect_split_rows(data, width, n, ch, 0, r, height, 1, width);
    lemma_rect_split_cols(data, width, n, ch, 0, r, 1, c, width);
    lemma_rect_bounds(data, width, height, n, ch, r, height, 1, width);
    lemma_rect_bounds(data, width, height, n, ch, 0, r, c, width);
    lemma_rect_bounds(data, width, height, n, ch, 0, r, 1, c);
}

/// A partial row sum never exceeds the sum over the whole image.
proof fn lemma_span_le_total<S: Subpixel>(
    data: Seq<S>,
    width: int,
    height: int,
    n: int,
    ch: int,
    row: int,
    c: int,
)
    requires
        0 <= row < height,
        1 <= c <= width,
        0 <= ch < n,
        data.len() == width * height * n,
    ensures
        0 <= span_sum(data, width, n, ch, row, 1, c) <= rect_sum(data, width, n, ch, 0, height, 1, width),
{
    assert(rect_sum(data, width, n, ch, row, row, 1, c) == 0);
    assert(rect_sum(data, width, n, ch, row, row + 1, 1, c) == span_sum(data, width, n, ch, row, 1, c));
    lemma_rect_split_rows(data, width, n, ch, 0, row, height, 1, c);
    lemma_rect_split_rows(data, width, n, ch, row, row + 1, height, 1, c);
    lemma_rect_bounds(data, width, height, n, ch, 0, row, 1, c);
    lemma_rect_bounds(data, width, height, n, ch, row, row + 1, 1, c);
    lemma_rect_bounds(data, width, height, n, ch, row + 1, height, 1, c);
    lemma_table_le_total(data, width, height, n, ch, height, c);
}

/// The table of running sums of channel `ch` of an image: entry
/// `row * width + col` is the sum over the rows `0 ..= row` and the
/// columns `1 ..= col`.
pub open spec fn is_sum_table<S: Subpixel>(img: &Pixels<S>, ch: int, sums: Seq<u64>) -> bool {
    &&& sums.len() == img.width * img.height
    &&& forall|k: int|
        0 <= k < sums.len() ==> #[trigger] sums[k] == rect_sum(
            img.data@,
            img.width as int,
            img.channels as int,
            ch,
            0,
            k / img.width as int + 1,
            1,
            k % img.width as int + 1,
        )
}

/// The image's size fits `u32` and the sums of channel `ch` fit `u64`.
pub open spec fn table_fits<S: Subpixel>(img: &Pixels<S>, ch: int) -> bool {
    &&& img.wf()
    &&& 0 <= ch < img.channels
    &&& img.width * img.height * img.channels <= u32::MAX
    &&& channel_total(img, ch) <= u64::MAX
}

/// Builds the table of running sums of channel `ch`: first along each row
/// from the second column on, then down each column.
fn channel_sum_table<S: Subpixel>(img: &Pixels<S>, ch: u32) -> (sums: Vec<u64>)
    requires
        table_fits(img, ch as int),
    ensures
        is_sum_table(img, ch as int, sums@),
{
    let width = img.width;
    let height = img.height;
    let n = img.channels;
    let ghost data = img.data@;
    let ghost w = width as int;
    let ghost h = height as int;
    proof {
        assert(width * height <= width * height * n) by (nonlinear_arith)
            requires
                n >= 1,
        ;
    }
    let total: usize = width as usize * height as usize;
    let mut sums: Vec<u64> = Vec::new();
    let mut k: usize = 0;
    while k < total
        invariant
            k <= total,
            total == w * h,
            w == width,
            w == img.width,
            h == img.height,
            h == height,
            sums.len() == k,
            forall|j: int| 0 <= j < k ==> sums[j] == 0,
        decreases total - k,
    {
        sums.push(0);
        k = k + 1;
    }
    if width == 0 || height == 0 {
        assert(w * h == 0) by (nonlinear_arith)
            requires
                w == 0 || h == 0,
        ;
        return sums;
    }
    // running sums along each row
    let mut row: u32 = 0;
    while row < height
        invariant
            img.wf(),
            table_fits(img, ch as int),
            data == img.data@,
            w == width,
            w == img.width,
            h == img.height,
            h == height,
            n == img.channels,
            data.len() == w * h * n,
            width > 0,
            height > 0,
            row <= height,
            sums.len() == w * h,
            forall|j: int|
                0 <= j < sums.len() ==> #[trigger] sums[j] == if j < row * w {
                    span_sum(data, w, n as int, ch as int, j / w, 1, j % w + 1)
                } else {
                    0
                },
        decreases height - row,
    {
        proof {
            lemma_grid_pos(w, row as int, 0);
            assert(rect_sum(data, w, n as int, ch as int, row as int, row as int, 1, 1) == 0);
        }
        let mut col: u32 = 1;
        while col < width
            invariant
                img.wf(),
                table_fits(img, ch as int),
                data == img.data@,
                w == width,
                w == img.width,
                h == img.height,
            w == img.width,
            h == img.height,
                h == height,
                n == img.channels,
                data.len() == w * h * n,
                width > 0,
                row < height,
                1 <= col <= width,
                sums.len() == w * h,
                forall|j: int|
                    0 <= j < sums.len() ==> #[trigger] sums[j] == if j < row * w + col {
                        span_sum(data, w, n as int, ch as int, j / w, 1, j % w + 1)
                    } else {
                        0
                    },
            decreases width - col,
        {
            proof {
                lemma_grid_pos(w, row as int, col as int);
                lemma_grid_pos(w, row as int, col - 1);
                lemma_sample_index(w, h, n as int, ch as int, row as int, col as int);
                lemma_span_le_total(data, w, h, n as int, ch as int, row as int, col + 1);
            }
            let i: usize = row as usize * width as usize + col as usize;
                        assert(channel_total(img, ch as int) == rect_sum(data, w, n as int, ch as int, 0, h, 1, w));
            let s: u64 = img.data[i * n as usize + ch as usize].widen();
            let v: u64 = s + sums[i - 1];
            sums.set(i, v);
            col = col + 1;
        }
        proof {
            assert(row * w + w == (row + 1) * w) by (nonlinear_arith);
        }
        row = row + 1;
    }
    // running sums down each column
    proof {
        assert(h * w == w * h) by (nonlinear_arith);
    }
    let mut col: u32 = 0;
    while col < width
        invariant
            img.wf(),
            table_fits(img, ch as int),
            data == img.data@,
            w == width,
            w == img.width,
            h == img.height,
            h == height,
            n == img.channels,
            data.len() == w * h * n,
            width > 0,
            height > 0,
            col <= width,
            sums.len() == w * h,
            forall|j: int|
                0 <= j < sums.len() ==> #[trigger] sums[j] == if j % w < col {
                    rect_sum(data, w, n as int, ch as int, 0, j / w + 1, 1, j % w + 1)
                } else {
                    span_sum(data, w, n as int, ch as int, j / w, 1, j % w + 1)
                },
        decreases width - col,
    {
        proof {
            // row 0 of column `col` already holds its final value
            assert forall|j: int| 0 <= j < sums.len() && j % w == col && j / w < 1 implies
                #[trigger] sums[j] == rect_sum(data, w, n as int, ch as int, 0, j / w + 1, 1, j % w + 1) by {
                assert(rect_sum(data, w, n as int, ch as int, 0, 0, 1, j % w + 1) == 0);
                assert(rect_sum(data, w, n as int, ch as int, 0, 1, 1, j % w + 1) == span_sum(
                    data, w, n as int, ch as int, 0, 1, j % w + 1));
            }
        }
        let mut row: u32 = 1;
        while row < height
            invariant
                img.wf(),
                table_fits(img, ch as int),
                data == img.data@,
                w == width,
                w == img.width,
                h == img.height,
            w == img.width,
            h == img.height,
                h == height,
                n == img.channels,
                data.len() == w * h * n,
                width > 0,
                col < width,
                1 <= row <= height,
                sums.len() == w * h,
                forall|j: int|
                    0 <= j < sums.len() ==> #[trigger] sums[j] == if j % w < col || (j % w == col
                        && j / w < row) {
                        rect_sum(data, w, n as int, ch as int, 0, j / w + 1, 1, j % w + 1)
                    } else {
                        span_sum(data, w, n as int, ch as int, j / w, 1, j % w + 1)
                    },
            decreases height - row,
        {
            proof {
                lemma_grid_pos(w, row as int, col as int);
                lemma_grid_pos(w, row - 1, col as int);
                lemma_sample_index(w, h, n as int, ch as int, row as int, col as int);
                lemma_sample_index(w, h, n as int, ch as int, row - 1, col as int);
                lemma_table_le_total(data, w, h, n as int, ch as int, row + 1, col + 1);
                lemma_rect_bounds(data, w, h, n as int, ch as int, 0, row as int, 1, col + 1);
            }
            let i: usize = row as usize * width as usize + col as usize;
            let above: usize = (row - 1) as usize * width as usize + col as usize;
            let v: u64 = sums[i] + sums[above];
            sums.set(i, v);
            proof {
                assert forall|j: int| 0 <= j < sums.len() && #[trigger] (j % w) == col && j / w == row implies j
                    == i by {
                    vstd::arithmetic::div_mod::lemma_fundamental_div_mod(j, w);
                    assert(j == w * row + col);
                    assert(w * row == row * w) by (nonlinear_arith);
                }
            }
            row = row + 1;
        }
        proof {
            assert forall|j: int| 0 <= j < sums.len() && j % w == col implies #[trigger] sums[j]
                == rect_sum(data, w, n as int, ch as int, 0, j / w + 1, 1, j % w + 1) by {
                lemma_grid_row_bound(w, h, j);
                assert(j < h * w) by (nonlinear_arith)
                    requires
                        j < w * h,
                ;
            }
        }
        col = col + 1;
    }
    sums
}

/// Entry `row * width + col` of a table of running sums is the sum over
/// the rows `0 ..= row` and the columns `1 ..= col`.
proof fn lemma_table_entry<S: Subpixel>(img: &Pixels<S>, ch: int, sums: Seq<u64>, row: int, col: int)
    requires
        table_fits(img, ch),
        is_sum_table(img, ch, sums),
        0 <= row < img.height,
        0 <= col < img.width,
    ensures
        0 <= row * img.width + col < sums.len(),
        row * img.width + col < u32::MAX,
        sums[row * img.width + col] == rect_sum(
            img.data@,
            img.width as int,
            img.channels as int,
            ch,
            0,
            row + 1,
            1,
            col + 1,
        ),
{
    let w = img.width as int;
    lemma_grid_pos(w, row, col);
    lemma_sample_index(w, img.height as int, img.channels as int, ch, row, col);
    assert(w * img.height <= w * img.height * img.channels) by (nonlinear_arith)
        requires
            img.channels >= 1,
            w >= 0,
            img.height >= 0,
    ;
    assert(sums[row * w + col] == rect_sum(
        img.data@,
        w,
        img.channels as int,
        ch,
        0,
        (row * w + col) / w + 1,
        1,
        (row * w + col) % w + 1,
    ));
}

/// The four table reads of a box give its sum, none of the partial results
/// of `d - ((b - a) + c)` leaves the range `0 ..= d`, and the sum is at
/// most the largest sample per pixel of the box.
proof fn lemma_box_reads<S: Subpixel>(
    data: Seq<S>,
    width: int,
    height: int,
    n: int,
    ch: int,
    y0: int,
    y1: int,
    x0: int,
    x1: int,
    a: int,
    b: int,
    c: int,
    d: int,
)
    requires
        0 <= y0 <= y1 < height,
        0 <= x0 <= x1 < width,
        0 <= ch < n,
        data.len() == width * height * n,
        d == rect_sum(data, width, n, ch, 0, y1 + 1, 1, x1 + 1),
        b == if y0 < 1 {
            0
        } else {
            rect_sum(data, width, n, ch, 0, y0, 1, x1 + 1)
        },
        c == if x0 < 1 {
            0
        } else {
            rect_sum(data, width, n, ch, 0, y1 + 1, 1, x0)
        },
        a == if y0 < 1 || x0 < 1 {
            0
        } else {
            rect_sum(data, width, n, ch, 0, y0, 1, x0)
        },
    ensures
        0 <= b - a,
        0 <= (b - a) + c <= d,
        d - ((b - a) + c) == rect_sum(
            data,
            width,
            n,
            ch,
            y0,
            y1 + 1,
            if x0 < 1 {
                1
            } else {
                x0
            },
            x1 + 1,
        ),
        d - ((b - a) + c) <= S::top() * ((x1 - x0 + 1) * (y1 - y0 + 1)),
{
    let first = if x0 < 1 {
        1
    } else {
        x0
    };
    lemma_rect_empty_cols(data, width, n, ch, 0, y1 + 1, 1, 1);
    lemma_rect_empty_cols(data, width, n, ch, 0, y0, 1, 1);
    assert(rect_sum(data, width, n, ch, 0, 0, 1, x1 + 1) == 0);
    assert(rect_sum(data, width, n, ch, 0, 0, 1, first) == 0);
    lemma_box_sum_from_table(data, width, n, ch, y0, y1, first, x1);
    lemma_rect_split_cols(data, width, n, ch, 0, y0, 1, first, x1 + 1);
    lemma_rect_bounds(data, width, height, n, ch, 0, y0, first, x1 + 1);
    lemma_rect_bounds(data, width, height, n, ch, y0, y1 + 1, first, x1 + 1);
    lemma_rect_bounds(data, width, height, n, ch, 0, y1 + 1, 1, first);
    let box_sum = rect_sum(data, width, n, ch, y0, y1 + 1, first, x1 + 1);
    S::lemma_top();
    assert(S::top() * ((y1 + 1 - y0) * (x1 + 1 - first)) <= S::top() * ((x1 - x0 + 1) * (y1 - y0 + 1)))
        by (nonlinear_arith)
        requires
            0 <= S::top(),
            x1 + 1 - first <= x1 - x0 + 1,
            0 <= x1 + 1 - first,
            0 <= y1 + 1 - y0,
    ;
}

/// Blurred value of sample `ch` of pixel (`row`, `col`), read from the
/// channel's table of running sums.
#[verifier::rlimit(60)]
fn box_from_table<S: Subpixel>(img: &Pixels<S>, ch: u32, sums: &Vec<u64>, radius: u32, row: u32, col: u32) -> (v: S)
    requires
        table_fits(img, ch as int),
        is_sum_table(img, ch as int, sums@),
        radius_fits(img, radius),
        row < img.height,
        col < img.width,
    ensures
        v.value() == blurred_sample(
            img.data@,
            img.width as int,
            img.height as int,
            img.channels as int,
            ch as int,
            radius as int,
            row as int,
            col as int,
        ),
{
    let width = img.width;
    let height = img.height;
    let ghost w = width as int;
    let ghost h = height as int;
    let ghost data = img.data@;
    let ghost n = img.channels as int;
    // corners of the box around the pixel
    let x_min: u32 = if radius <= col {
        col - radius
    } else {
        col
    };
    let x_max: u32 = if col + radius <= width - 1 {
        col + radius
    } else {
        width - 1
    };
    let y_min: u32 = if radius <= row {
        row - radius
    } else {
        row
    };
    let y_max: u32 = if row + radius <= height - 1 {
        row + radius
    } else {
        height - 1
    };
    proof {
        lemma_table_entry(img, ch as int, sums@, y_max as int, x_max as int);
        if y_min >= 1 {
            lemma_table_entry(img, ch as int, sums@, y_min - 1, x_max as int);
        }
        if x_min >= 1 {
            lemma_table_entry(img, ch as int, sums@, y_max as int, x_min - 1);
        }
        if y_min >= 1 && x_min >= 1 {
            lemma_table_entry(img, ch as int, sums@, y_min - 1, x_min - 1);
        }
    }
    // The box is split into rectangles starting at the origin:
    //      0      x_min    x_max
    //    0 +------+--------+
    //      |  a   |   b    |
    // y_min+------+--------+
    //      |  c   |  box   |
    // y_max+------+--------+
    // where `a`, `b`, `c`, `d` are the sums from the origin to each corner
    // and the sum over the box is `d - (b + c - a)`.
    let a: u64 = if y_min < 1 || x_min < 1 {
        0
    } else {
        sums[(y_min - 1) as usize * width as usize + (x_min - 1) as usize]
    };
    let b: u64 = if y_min < 1 {
        0
    } else {
        sums[(y_min - 1) as usize * width as usize + x_max as usize]
    };
    let c: u64 = if x_min < 1 {
        0
    } else {
        sums[y_max as usize * width as usize + (x_min - 1) as usize]
    };
    let d: u64 = sums[y_max as usize * width as usize + x_max as usize];
    proof {
        lemma_box_reads(
            data,
            w,
            h,
            n,
            ch as int,
            y_min as int,
            y_max as int,
            x_min as int,
            x_max as int,
            a as int,
            b as int,
            c as int,
            d as int,
        );
        assert(1 <= (x_max - x_min + 1) * (y_max - y_min + 1) <= w * h) by (nonlinear_arith)
            requires
                1 <= x_max - x_min + 1 <= w,
                1 <= y_max - y_min + 1 <= h,
        ;
        assert(w * h <= w * h * n) by (nonlinear_arith)
            requires
                n >= 1,
                w >= 0,
                h >= 0,
        ;
    }
    // number of pixels in the box
    let pixels: u32 = (x_max - x_min + 1) * (y_max - y_min + 1);
    // grouped as `d - ((b - a) + c)` so that no partial result leaves `0 ..= d`
    let box_sum: u64 = d - ((b - a) + c);
    proof {
        S::lemma_top();
        assert(box_sum as int / pixels as int <= S::top()) by (nonlinear_arith)
            requires
                0 <= box_sum <= S::top() * pixels,
                pixels >= 1,
        ;
    }
    S::narrow(box_sum / (pixels as u64))
}

/// What the blur writes to sample `ch` of pixel (`row`, `col`): colour
/// channels are averaged over the box; a fourth channel (alpha) is copied,
/// except at the top left pixel, whose alpha the blur leaves at 0.
///
/// Three traits of this blur look like slips rather than design, and are
/// kept because the editor behaves so: the first column never enters the
/// sums, the top left alpha is 0, and a box whose radius exceeds the
/// distance to the top or left border starts at the pixel itself instead of
/// at the border.
pub open spec fn blurred_pixel<S: Subpixel>(img: &Pixels<S>, radius: int, row: int, col: int, ch: int) -> int {
    if ch < 3 {
        blurred_sample(
            img.data@,
            img.width as int,
            img.height as int,
            img.channels as int,
            ch,
            radius,
            row,
            col,
        )
    } else if row == 0 && col == 0 {
        0
    } else {
        sample(img.data@, img.width as int, img.channels as int, ch, row, col)
    }
}

/// What a blur of `img` with the given radius holds at flat position `j`.
pub open spec fn blurred_at<S: Subpixel>(img: &Pixels<S>, radius: int, j: int) -> int {
    let n = img.channels as int;
    let w = img.width as int;
    blurred_pixel(img, radius, (j / n) / w, (j / n) % w, j % n)
}

/// The box of a blur: around the pixel at (`row`, `col`) it reaches to
/// `min(col + radius, width - 1)` on the right and `min(row + radius,
/// height - 1)` at the bottom, so a pixel near the right or bottom border
/// still takes in every column and row up to the border; on the left and
/// top it starts `radius` back where that stays inside the image, and at
/// the pixel itself otherwise. Each colour sample of the blur is the sum of
/// its channel over that box, first column of the image left out, divided
/// by the number of pixels in the box and rounded down.
pub proof fn law_blur_box<S: Subpixel>(img: &Pixels<S>, radius: int, row: int, col: int, ch: int)
    requires
        img.wf(),
        radius >= 0,
        0 <= row < img.height,
        0 <= col < img.width,
        0 <= ch < 3,
    ensures
        ({
            let w = img.width as int;
            let h = img.height as int;
            let x0 = if radius <= col {
                col - radius
            } else {
                col
            };
            let y0 = if radius <= row {
                row - radius
            } else {
                row
            };
            let x1 = vstd::math::min(col + radius, w - 1);
            let y1 = vstd::math::min(row + radius, h - 1);
            &&& box_end(col, radius, w) == x1
            &&& box_end(row, radius, h) == y1
            &&& 0 <= x0 <= col <= x1 < w
            &&& 0 <= y0 <= row <= y1 < h
            &&& blurred_pixel(img, radius, row, col, ch) == rect_sum(
                img.data@,
                w,
                img.channels as int,
                ch,
                y0,
                y1 + 1,
                vstd::math::max(x0, 1),
                x1 + 1,
            ) / ((x1 - x0 + 1) * (y1 - y0 + 1))
        }),
{
}

/// The image meets what the blur needs: a well-formed buffer of 3 or 4
/// channels whose size fits in `u32`, and a radius whose box ends fit in
/// `u32`.
pub open spec fn blur_fits<S: Subpixel>(img: &Pixels<S>, radius: u32) -> bool {
    &&& img.wf()
    &&& (img.channels == 3 || img.channels == 4)
    &&& img.width * img.height * img.channels <= u32::MAX
    &&& radius_fits(img, radius)
}

/// The colour sums of an 8-bit image fit in `u32`, the width of the
/// running sums of `FastBoxBlur_rgb` and `FastBoxBlur_rgba`.
pub open spec fn sums_fit_u32(img: &PixelBuffer) -> bool {
    forall|ch: int| 0 <= ch < 3 ==> #[trigger] channel_total(img, ch) <= u32::MAX
}

/// What `FastBoxBlur_rgb` and `FastBoxBlur_rgba` need: `blur_fits`, and
/// colour sums that fit in `u32`.
pub open spec fn blur_requires(img: &PixelBuffer, radius: u32) -> bool {
    &&& blur_fits(img, radius)
    &&& sums_fit_u32(img)
}

/// The sums of any channel of an image whose size fits in `u32` fit in
/// `u64`.
proof fn lemma_total_fits<S: Subpixel>(img: &Pixels<S>, ch: int)
    requires
        img.wf(),
        0 <= ch < img.channels,
        img.width * img.height * img.channels <= u32::MAX,
    ensures
        table_fits(img, ch),
{
    let w = img.width as int;
    let h = img.height as int;
    let n = img.channels as int;
    S::lemma_top();
    if w >= 1 {
        lemma_rect_bounds(img.data@, w, h, n, ch, 0, h, 1, w);
        assert(S::top() * ((h - 0) * (w - 1)) <= 65535 * 4294967295) by (nonlinear_arith)
            requires
                0 <= S::top() <= 65535,
                w >= 1,
                h >= 0,
                n >= 1,
                w * h * n <= 4294967295,
        ;
    } else {
        assert(channel_total(img, ch) == 0) by {
            lemma_rect_empty_cols(img.data@, w, n, ch, 0, h, 1, 0);
        }
    }
}

/// Flat position `(row * width + col) * n + ch` decodes back to its pixel
/// and channel.
proof fn lemma_flat_decode(width: int, height: int, n: int, row: int, col: int, ch: int)
    requires
        0 <= row < height,
        0 <= col < width,
        0 <= ch < n,
    ensures
        ((row * width + col) * n + ch) / n == row * width + col,
        ((row * width + col) * n + ch) % n == ch,
        (row * width + col) / width == row,
        (row * width + col) % width == col,
        0 <= (row * width + col) * n + ch < width * height * n,
{
    vstd::arithmetic::div_mod::lemma_fundamental_div_mod_converse(
        (row * width + col) * n + ch,
        n,
        row * width + col,
        ch,
    );
    lemma_grid_pos(width, row, col);
    lemma_sample_index(width, height, n, ch, row, col);
}

/// All samples of the blurred image, row by row.
fn blur_samples<S: Subpixel>(img: &Pixels<S>, radius: u32) -> (out: Vec<S>)
    requires
        blur_fits(img, radius),
    ensures
        out.len() == img.data.len(),
        forall|j: int| 0 <= j < out.len() ==> #[trigger] out[j].value() == blurred_at(img, radius as int, j),
{
    let width = img.width;
    let height = img.height;
    let n = img.channels;
    let ghost w = width as int;
    let ghost h = height as int;
    proof {
        lemma_total_fits(img, 0);
        lemma_total_fits(img, 1);
        lemma_total_fits(img, 2);
    }
    let sum_r = channel_sum_table(img, 0);
    let sum_g = channel_sum_table(img, 1);
    let sum_b = channel_sum_table(img, 2);
    let mut out: Vec<S> = Vec::new();
    let mut row: u32 = 0;
    assert(0 * w * n == 0) by (nonlinear_arith);
    while row < height
        invariant
            blur_fits(img, radius),
            table_fits(img, 0),
            table_fits(img, 1),
            table_fits(img, 2),
            is_sum_table(img, 0, sum_r@),
            is_sum_table(img, 1, sum_g@),
            is_sum_table(img, 2, sum_b@),
            w == width,
            h == height,
            w == img.width,
            h == img.height,
            n == img.channels,
            row <= height,
            out.len() == row * w * n,
            forall|j: int|
                0 <= j < out.len() ==> #[trigger] out[j].value() == blurred_at(img, radius as int, j),
        decreases height - row,
    {
        let mut col: u32 = 0;
        while col < width
            invariant
                blur_fits(img, radius),
                table_fits(img, 0),
                table_fits(img, 1),
                table_fits(img, 2),
                is_sum_table(img, 0, sum_r@),
                is_sum_table(img, 1, sum_g@),
                is_sum_table(img, 2, sum_b@),
                w == width,
                h == height,
                w == img.width,
                h == img.height,
                n == img.channels,
                row < height,
                col <= width,
                out.len() == (row * w + col) * n,
                forall|j: int|
                    0 <= j < out.len() ==> #[trigger] out[j].value() == blurred_at(img, radius as int, j),
            decreases width - col,
        {
            proof {
                lemma_flat_decode(w, h, n as int, row as int, col as int, 0);
                lemma_flat_decode(w, h, n as int, row as int, col as int, 1);
                lemma_flat_decode(w, h, n as int, row as int, col as int, 2);
                lemma_flat_decode(w, h, n as int, row as int, col as int, n - 1);
            }
            let r = box_from_table(img, 0, &sum_r, radius, row, col);
            out.push(r);
            let g = box_from_table(img, 1, &sum_g, radius, row, col);
            out.push(g);
            let b = box_from_table(img, 2, &sum_b, radius, row, col);
            out.push(b);
            if n == 4 {
                let alpha: S = if row == 0 && col == 0 {
                    S::zero()
                } else {
                    img.data[(row as usize * width as usize + col as usize) * 4 + 3]
                };
                out.push(alpha);
            }
            proof {
                assert((row * w + col + 1) * n == (row * w + col) * n + n) by (nonlinear_arith);
            }
            col = col + 1;
        }
        proof {
            assert((row * w + w) * n == (row + 1) * w * n) by (nonlinear_arith);
        }
        row = row + 1;
    }
    proof {
        assert(h * w * n == w * h * n) by (nonlinear_arith);
    }
    out
}

/// `out` is the blur of `img` with the given radius.
pub open spec fn is_blur_of<S: Subpixel>(out: &Pixels<S>, img: &Pixels<S>, radius: u32) -> bool {
    &&& out.width == img.width
    &&& out.height == img.height
    &&& out.channels == img.channels
    &&& out.wf()
    &&& forall|row: int, col: int, ch: int|
        0 <= row < img.height && 0 <= col < img.width && 0 <= ch < img.channels
            ==> #[trigger] out.data@[(row * img.width + col) * img.channels + ch].value() == blurred_pixel(
            img,
            radius as int,
            row,
            col,
            ch,
        )
}

/// The blur of `img` as an image of the same shape.
fn blur_image<S: Subpixel>(img: &Pixels<S>, radius: u32) -> (out: Pixels<S>)
    requires
        blur_fits(img, radius),
    ensures
        is_blur_of(&out, img, radius),
{
    let data = blur_samples(img, radius);
    proof {
        assert forall|row: int, col: int, ch: int|
            0 <= row < img.height && 0 <= col < img.width && 0 <= ch < img.channels
                implies #[trigger] data@[(row * img.width + col) * img.channels + ch].value()
            == blurred_pixel(img, radius as int, row, col, ch) by {
            lemma_flat_decode(img.width as int, img.height as int, img.channels as int, row, col, ch);
        }
    }
    Pixels { width: img.width, height: img.height, channels: img.channels, data }
}

/// Box blur of an 8-bit RGB image whose running sums are kept in `u32`:
/// each sample becomes the mean of its channel over the box of radius
/// `value` around the pixel (see `blurred_pixel`).
#[allow(non_snake_case)]
pub fn FastBoxBlur_rgb(img: &PixelBuffer, value: u32) -> (out: PixelBuffer)
    requires
        img.channels == 3,
        blur_requires(img, value),
    ensures
        out.channels == 3,
        is_blur_of(&out, img, value),
{
    blur_image(img, value)
}

/// Box blur of an 8-bit RGBA image whose running sums are kept in `u32`:
/// the colour samples become the mean of their channel over the box of
/// radius `value` around the pixel; alpha is carried over (see
/// `blurred_pixel`).
#[allow(non_snake_case)]
pub fn FastBoxBlur_rgba(img: &PixelBuffer, value: u32) -> (out: PixelBuffer)
    requires
        img.channels == 4,
        blur_requires(img, value),
    ensures
        out.channels == 4,
        is_blur_of(&out, img, value),
{
    blur_image(img, value)
}

/// Box blur of an RGBA image of 8-bit or 16-bit samples: the colour samples
/// become the mean of their channel over the box of radius `value` around
/// the pixel; alpha is carried over (see `blurred_pixel`). The running sums
/// are wide enough for every image whose sample count fits in `u32`.
#[allow(non_snake_case)]
pub fn FastBoxBlur<S: Subpixel>(img: &Pixels<S>, value: u32) -> (out: Pixels<S>)
    requires
        img.channels == 4,
        blur_fits(img, value),
    ensures
        out.channels == 4,
        is_blur_of(&out, img, value),
{
    blur_image(img, value)
}

/// Radius of a box blur whose box is `size` pixels wide.
pub open spec fn box_radius(size: u16) -> u32 {
    ((size - 1) / 2) as u32
}

/// Every box size is at least one pixel and its radius suits the image.
pub open spec fn boxes_fit<S: Subpixel>(img: &Pixels<S>, boxes: Seq<u16>) -> bool {
    &&& boxes.len() >= 1
    &&& forall|i: int| 0 <= i < boxes.len() ==> #[trigger] boxes[i] >= 1 && blur_fits(img, box_radius(boxes[i]))
}

/// The box blur passes of an approximate Gaussian blur of an 8-bit RGB
/// image, for the box sizes chosen for the Gaussian's deviation. Every pass
/// blurs the input image, not the previous pass's result, so the result is
/// the box blur for the last size; a chained blur was probably meant, but
/// this is what the editor does.
#[allow(non_snake_case)]
pub fn FastGaussianBlur_rgb(img: &PixelBuffer, boxes: &Vec<u16>) -> (out: PixelBuffer)
    requires
        img.channels == 3,
        boxes_fit(img, boxes@),
        sums_fit_u32(img),
    ensures
        is_blur_of(&out, img, box_radius(boxes@[boxes.len() - 1])),
{
    gaussian_passes(img, boxes)
}

/// The RGBA form of `FastGaussianBlur_rgb`; alpha is carried over.
#[allow(non_snake_case)]
pub fn FastGaussianBlur_rgba(img: &PixelBuffer, boxes: &Vec<u16>) -> (out: PixelBuffer)
    requires
        img.channels == 4,
        boxes_fit(img, boxes@),
        sums_fit_u32(img),
    ensures
        is_blur_of(&out, img, box_radius(boxes@[boxes.len() - 1])),
{
    gaussian_passes(img, boxes)
}

/// The form of `FastGaussianBlur_rgba` for RGBA images of 8-bit or 16-bit
/// samples, made of `FastBoxBlur` passes.
#[allow(non_snake_case)]
pub fn FastGaussianBlur<S: Subpixel>(img: &Pixels<S>, boxes: &Vec<u16>) -> (out: Pixels<S>)
    requires
        img.channels == 4,
        boxes_fit(img, boxes@),
    ensures
        is_blur_of(&out, img, box_radius(boxes@[boxes.len() - 1])),
{
    gaussian_passes(img, boxes)
}

fn gaussian_passes<S: Subpixel>(img: &Pixels<S>, boxes: &Vec<u16>) -> (out: Pixels<S>)
    requires
        boxes_fit(img, boxes@),
    ensures
        is_blur_of(&out, img, box_radius(boxes@[boxes.len() - 1])),
{
    assert(boxes@[0] >= 1 && blur_fits(img, box_radius(boxes@[0])));
    let mut out = blur_image(img, ((boxes[0] - 1u16) / 2u16) as u32);
    let mut pass: usize = 0;
    while pass < boxes.len()
        invariant
            boxes_fit(img, boxes@),
            pass <= boxes.len(),
            is_blur_of(&out, img, box_radius(boxes@[if pass == 0 { 0 } else { pass - 1 }])),
        decreases boxes.len() - pass,
    {
        assert(boxes@[pass as int] >= 1 && blur_fits(img, box_radius(boxes@[pass as int])));
        out = blur_image(img, ((boxes[pass] - 1u16) / 2u16) as u32);
        pass = pass + 1;
    }
    out
}

} // verus!
