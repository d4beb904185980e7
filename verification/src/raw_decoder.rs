//! Demosaicing of raw sensor data: rebuilding three colour samples per
//! pixel from a sensor that measures one colour per pixel.

use vstd::prelude::*;

verus! {

/// Side of the square tile in which a colour filter array is stored; the
/// tile repeats over the whole sensor.
pub const CFA_TILE: usize = 48;

/// The colour filter array of a sensor: the colour measured at every
/// position of a 48 by 48 tile (0 red, 1 green, 2 blue, 3 a second kind of
/// green), stored row by row.
pub struct Cfa {
    pub pattern: Vec<usize>,
}

impl Cfa {
    /// The tile is complete.
    pub open spec fn wf(&self) -> bool {
        self.pattern.len() == CFA_TILE * CFA_TILE
    }

    /// Colour measured at (`row`, `col`), the tile repeating in both
    /// directions.
    pub open spec fn color(&self, row: int, col: int) -> int {
        self.pattern@[((row + 48) % 48) * 48 + (col + 48) % 48] as int
    }

    /// Colour measured at (`row`, `col`).
    pub fn color_at(&self, row: usize, col: usize) -> (c: usize)
        requires
            self.wf(),
            row + 48 <= usize::MAX,
            col + 48 <= usize::MAX,
        ensures
            c == self.color(row as int, col as int),
    {
        let r = (row + 48) % 48;
        let k = (col + 48) % 48;
        proof {
            assert(r * 48 + k < 48 * 48) by (nonlinear_arith)
                requires
                    0 <= r < 48,
                    0 <= k < 48,
            ;
        }
        self.pattern[r * 48 + k]
    }
}

/// Mean of two samples, rounded down.
pub open spec fn mean(a: int, b: int) -> int {
    (a + b) / 2
}

/// The two middle values of four samples, as
/// `[min(max(a, b), max(c, d)), max(min(a, b), min(c, d))]`.
pub open spec fn middle_pair(a: int, b: int, c: int, d: int) -> (int, int) {
    let hi_ab = if a >= b {
        a
    } else {
        b
    };
    let lo_ab = if a <= b {
        a
    } else {
        b
    };
    let hi_cd = if c >= d {
        c
    } else {
        d
    };
    let lo_cd = if c <= d {
        c
    } else {
        d
    };
    (
        if hi_ab <= hi_cd {
            hi_ab
        } else {
            hi_cd
        },
        if lo_ab >= lo_cd {
            lo_ab
        } else {
            lo_cd
        },
    )
}

/// Mean of the two middle values of four samples.
pub open spec fn middle_mean(a: int, b: int, c: int, d: int) -> int {
    let m = middle_pair(a, b, c, d);
    mean(m.0, m.1)
}

/// Sample of the sensor at column `x` of row `y`.
pub open spec fn raw(img: Seq<u16>, w: int, x: int, y: int) -> int {
    img[x + y * w] as int
}

/// Mean of the middle pair of the four direct neighbours (up, down,
/// right, left).
pub open spec fn cross_estimate(img: Seq<u16>, w: int, x: int, y: int) -> int {
    middle_mean(raw(img, w, x, y - 1), raw(img, w, x, y + 1), raw(img, w, x + 1, y), raw(img, w, x - 1, y))
}

/// Mean of the middle pair of the four diagonal neighbours.
pub open spec fn diagonal_estimate(img: Seq<u16>, w: int, x: int, y: int) -> int {
    middle_mean(
        raw(img, w, x - 1, y - 1),
        raw(img, w, x - 1, y + 1),
        raw(img, w, x + 1, y - 1),
        raw(img, w, x + 1, y + 1),
    )
}

/// The red, green and blue values rebuilt at (`x`, `y`). The colour filter
/// array is queried with `x` as its row and `y` as its column.
pub open spec fn demosaiced(img: Seq<u16>, w: int, cfa: Cfa, x: int, y: int) -> (int, int, int) {
    let here = raw(img, w, x, y);
    let horizontal = mean(raw(img, w, x - 1, y), raw(img, w, x + 1, y));
    let vertical = mean(raw(img, w, x, y - 1), raw(img, w, x, y + 1));
    if cfa.color(x, y) == 0 {
        (here, cross_estimate(img, w, x, y), diagonal_estimate(img, w, x, y))
    } else if cfa.color(x, y) == 1 {
        if cfa.color(x + 1, y) == 0 {
            (horizontal, here, vertical)
        } else {
            (vertical, here, horizontal)
        }
    } else {
        (diagonal_estimate(img, w, x, y), cross_estimate(img, w, x, y), here)
    }
}

/// Channel `c` of a rebuilt pixel.
pub open spec fn demosaiced_channel(img: Seq<u16>, w: int, cfa: Cfa, x: int, y: int, c: int) -> int {
    let p = demosaiced(img, w, cfa, x, y);
    if c == 0 {
        p.0
    } else if c == 1 {
        p.1
    } else {
        p.2
    }
}

/// Every inner pixel shows red, green or blue, and a green one has red or
/// blue to its right.
pub open spec fn cfa_covers(cfa: Cfa, width: int, height: int) -> bool {
    forall|x: int, y: int|
        1 <= x < width - 1 && 1 <= y < height - 1 ==> {
            &&& 0 <= #[trigger] cfa.color(x, y) <= 2
            &&& cfa.color(x, y) == 1 ==> (cfa.color(x + 1, y) == 0 || cfa.color(x + 1, y) == 2)
        }
}

/// Number of inner pixels along a side of `size` pixels.
pub open spec fn inner(size: int) -> int {
    if size >= 2 {
        size - 2
    } else {
        0
    }
}

/// Value written at flat position `k` of the demosaiced image.
pub open spec fn demosaiced_at(img: Seq<u16>, width: int, cfa: Cfa, k: int) -> int {
    let p = k / 3;
    let iw = inner(width);
    demosaiced_channel(img, width, cfa, p % iw + 1, p / iw + 1, k % 3)
}

/// Mean of two samples, without overflow.
fn mean_u16(a: u16, b: u16) -> (m: u16)
    ensures
        m == mean(a as int, b as int),
{
    ((a as u32 + b as u32) / 2) as u16
}

/// Mean of the two middle values of four samples.
fn middle_mean_u16(a: u16, b: u16, c: u16, d: u16) -> (m: u16)
    ensures
        m == middle_mean(a as int, b as int, c as int, d as int),
{
    let hi_ab = if a >= b {
        a
    } else {
        b
    };
    let lo_ab = if a <= b {
        a
    } else {
        b
    };
    let hi_cd = if c >= d {
        c
    } else {
        d
    };
    let lo_cd = if c <= d {
        c
    } else {
        d
    };
    let upper = if hi_ab <= hi_cd {
        hi_ab
    } else {
        hi_cd
    };
    let lower = if lo_ab >= lo_cd {
        lo_ab
    } else {
        lo_cd
    };
    mean_u16(upper, lower)
}

/// Rebuilds an RGB image from raw Bayer data of `width` by `height`
/// samples: every pixel not on the border gets three samples. The sample
/// the sensor measured is kept; a missing colour is the mean of the two
/// neighbours that measured it along a row or a column, or, where four
/// neighbours measured it, the mean of the middle two of them. The result
/// has `width - 2` by `height - 2` pixels, row by row.
pub fn bayer_to_rgb(img: &Vec<u16>, width: usize, height: usize, cfa: &Cfa) -> (out: Vec<u16>)
    requires
        cfa.wf(),
        height >= 1,
        height <= 2 || width >= 1,
        height <= 2 || width <= 2 || img.len() >= width * height,
        width + 48 <= usize::MAX,
        height + 48 <= usize::MAX,
        cfa_covers(*cfa, width as int, height as int),
    ensures
        out.len() == inner(width as int) * inner(height as int) * 3,
        forall|x: int, y: int, c: int|
            1 <= x < width - 1 && 1 <= y < height - 1 && 0 <= c < 3 ==> #[trigger] out@[((y - 1)
                * inner(width as int) + (x - 1)) * 3 + c] == demosaiced_channel(
                img@,
                width as int,
                *cfa,
                x,
                y,
                c,
            ),
{
    let mut out: Vec<u16> = Vec::new();
    let ghost iw = inner(width as int);
    let ghost ih = inner(height as int);
    let ghost w = width as int;
    let mut y: usize = 1;
    while y < height - 1
        invariant
            cfa.wf(),
            height >= 1,
            height <= 2 || width >= 1,
            height <= 2 || width <= 2 || img.len() >= width * height,
            width + 48 <= usize::MAX,
            height + 48 <= usize::MAX,
            cfa_covers(*cfa, width as int, height as int),
            iw == inner(width as int),
            w == width,
            1 <= y <= height - 1 || (height == 1 && y == 1),
            out.len() == (y - 1) * iw * 3,
            forall|k: int| 0 <= k < out.len() ==> #[trigger] out@[k] == demosaiced_at(img@, w, *cfa, k),
        decreases height - y,
    {
        let mut x: usize = 1;
        while x < width - 1
            invariant
                cfa.wf(),
                height >= 3,
                width >= 1,
                width <= 2 || img.len() >= width * height,
                width + 48 <= usize::MAX,
                height + 48 <= usize::MAX,
                cfa_covers(*cfa, width as int, height as int),
                iw == inner(width as int),
                w == width,
                1 <= y < height - 1,
                1 <= x <= width - 1 || (width == 1 && x == 1),
                out.len() == ((y - 1) * iw + (x - 1)) * 3,
                forall|k: int|
                    0 <= k < out.len() ==> #[trigger] out@[k] == demosaiced_at(img@, w, *cfa, k),
            decreases width - x,
        {
            proof {
                lemma_neighbours_in_bounds(width as int, height as int, x as int, y as int);
                assert(0 <= cfa.color(x as int, y as int) <= 2);
                lemma_position_decode(iw, x - 1, y - 1, 0);
                lemma_position_decode(iw, x - 1, y - 1, 1);
                lemma_position_decode(iw, x - 1, y - 1, 2);
            }
            let here = img[x + y * width];
            let up = img[x + (y - 1) * width];
            let down = img[x + (y + 1) * width];
            let right = img[x + 1 + y * width];
            let left = img[x - 1 + y * width];
            let up_left = img[x - 1 + (y - 1) * width];
            let down_left = img[x - 1 + (y + 1) * width];
            let up_right = img[x + 1 + (y - 1) * width];
            let down_right = img[x + 1 + (y + 1) * width];
            let color = cfa.color_at(x, y);
            if color == 0 {
                out.push(here);
                out.push(middle_mean_u16(up, down, right, left));
                out.push(middle_mean_u16(up_left, down_left, up_right, down_right));
            } else if color == 1 {
                if cfa.color_at(x + 1, y) == 0 {
                    out.push(mean_u16(left, right));
                    out.push(here);
                    out.push(mean_u16(up, down));
                } else {
                    out.push(mean_u16(up, down));
                    out.push(here);
                    out.push(mean_u16(left, right));
                }
            } else {
                out.push(middle_mean_u16(up_left, down_left, up_right, down_right));
                out.push(middle_mean_u16(up, down, right, left));
                out.push(here);
            }
            proof {
                assert(((y - 1) * iw + x) * 3 == ((y - 1) * iw + (x - 1)) * 3 + 3) by (nonlinear_arith);
            }
            x = x + 1;
        }
        proof {
            if width >= 2 {
                assert(((y - 1) * iw + (width - 2)) * 3 == y * iw * 3) by (nonlinear_arith)
                    requires
                        iw == width - 2,
                ;
            } else {
                assert((y - 1) * iw * 3 == y * iw * 3) by (nonlinear_arith)
                    requires
                        iw == 0,
                ;
            }
        }
        y = y + 1;
    }
    proof {
        assert forall|x: int, y: int, c: int|
            1 <= x < width - 1 && 1 <= y < height - 1 && 0 <= c < 3 implies #[trigger] out@[((y - 1)
                * iw + (x - 1)) * 3 + c] == demosaiced_channel(img@, width as int, *cfa, x, y, c) by {
            lemma_position_decode(iw, x - 1, y - 1, c);
            assert(((y - 1) * iw + (x - 1)) * 3 + c < (inner(height as int)) * iw * 3) by (nonlinear_arith)
                requires
                    0 <= y - 1 < inner(height as int),
                    0 <= x - 1 < iw,
                    0 <= c < 3,
            ;
        }
        if height >= 2 {
            assert(ih == height - 2);
        }
    }
    out
}

/// The colour filter array has the Bayer layout around the pixel at
/// (`x`, `y`) (the array being queried with `x` first, as the decoder
/// does): a red (0) or blue (2) site has green (1) sites as its four direct
/// neighbours and sites of the other of red and blue as its four diagonal
/// ones; a green site has one of red and blue to its left and right, the
/// other above and below it, and green sites as its diagonal neighbours.
pub open spec fn bayer_at(cfa: Cfa, x: int, y: int) -> bool {
    let c = cfa.color(x, y);
    if c == 0 || c == 2 {
        &&& cfa.color(x, y - 1) == 1
        &&& cfa.color(x, y + 1) == 1
        &&& cfa.color(x - 1, y) == 1
        &&& cfa.color(x + 1, y) == 1
        &&& cfa.color(x - 1, y - 1) == 2 - c
        &&& cfa.color(x - 1, y + 1) == 2 - c
        &&& cfa.color(x + 1, y - 1) == 2 - c
        &&& cfa.color(x + 1, y + 1) == 2 - c
    } else {
        let side = cfa.color(x + 1, y);
        &&& c == 1
        &&& side == 0 || side == 2
        &&& cfa.color(x - 1, y) == side
        &&& cfa.color(x, y - 1) == 2 - side
        &&& cfa.color(x, y + 1) == 2 - side
        &&& cfa.color(x - 1, y - 1) == 1
        &&& cfa.color(x - 1, y + 1) == 1
        &&& cfa.color(x + 1, y - 1) == 1
        &&& cfa.color(x + 1, y + 1) == 1
    }
}

/// Where the colour filter array has the Bayer layout around a pixel,
/// each colour of the rebuilt pixel comes from the sites that measured
/// that colour: the pixel's own sample for the colour it measured; the
/// mean of the middle two of the four direct neighbours when all four
/// measured it, and likewise of the four diagonal neighbours; the mean of
/// the left and right neighbours when just those two measured it, and
/// likewise of the neighbours above and below.
pub proof fn law_demosaic_sites(img: Seq<u16>, w: int, cfa: Cfa, x: int, y: int, c: int)
    requires
        bayer_at(cfa, x, y),
        0 <= c < 3,
    ensures
        ({
            let v = demosaiced_channel(img, w, cfa, x, y, c);
            let up = img[x + (y - 1) * w] as int;
            let down = img[x + (y + 1) * w] as int;
            let left = img[x - 1 + y * w] as int;
            let right = img[x + 1 + y * w] as int;
            let other = cfa.color(x, y) != c;
            &&& cfa.color(x, y) == c ==> v == img[x + y * w]
            &&& (other && cfa.color(x, y - 1) == c && cfa.color(x, y + 1) == c && cfa.color(x - 1, y) == c
                && cfa.color(x + 1, y) == c) ==> v == middle_mean(up, down, right, left)
            &&& (other && cfa.color(x - 1, y - 1) == c && cfa.color(x - 1, y + 1) == c && cfa.color(x + 1, y - 1)
                == c && cfa.color(x + 1, y + 1) == c) ==> v == middle_mean(
                img[x - 1 + (y - 1) * w] as int,
                img[x - 1 + (y + 1) * w] as int,
                img[x + 1 + (y - 1) * w] as int,
                img[x + 1 + (y + 1) * w] as int,
            )
            &&& (other && cfa.color(x - 1, y) == c && cfa.color(x + 1, y) == c && cfa.color(x, y - 1) != c)
                ==> v
                == (left + right) / 2
            &&& (other && cfa.color(x, y - 1) == c && cfa.color(x, y + 1) == c && cfa.color(x - 1, y) != c)
                ==> v
                == (up + down) / 2
        }),
{
}

/// Number of the four values below `t`.
pub open spec fn count_below(a: int, b: int, c: int, d: int, t: int) -> int {
    (if a < t { 1int } else { 0 }) + (if b < t { 1int } else { 0 }) + (if c < t { 1int } else { 0 }) + (if d
        < t { 1int } else { 0 })
}

/// Number of the four values above `t`.
pub open spec fn count_above(a: int, b: int, c: int, d: int, t: int) -> int {
    (if a > t { 1int } else { 0 }) + (if b > t { 1int } else { 0 }) + (if c > t { 1int } else { 0 }) + (if d
        > t { 1int } else { 0 })
}

/// The middle pair of four values are, in some order, the second and third
/// of them in ascending order: the smaller of the pair is one of the
/// values, with at most one value below it and at most two above it; the
/// larger is one of the values, with at most one value above it and at
/// most two below it.
pub proof fn law_middle_pair(a: int, b: int, c: int, d: int)
    ensures
        ({
            let p = middle_pair(a, b, c, d);
            let lower = vstd::math::min(p.0, p.1);
            let upper = vstd::math::max(p.0, p.1);
            &&& lower == a || lower == b || lower == c || lower == d
            &&& upper == a || upper == b || upper == c || upper == d
            &&& count_below(a, b, c, d, lower) <= 1
            &&& count_above(a, b, c, d, lower) <= 2
            &&& count_above(a, b, c, d, upper) <= 1
            &&& count_below(a, b, c, d, upper) <= 2
        }),
{
}

/// Flat position `(row * iw + col) * 3 + c` of the output decodes back to
/// its pixel and channel.
proof fn lemma_position_decode(iw: int, col: int, row: int, c: int)
    requires
        0 <= col < iw,
        0 <= row,
        0 <= c < 3,
    ensures
        ((row * iw + col) * 3 + c) / 3 == row * iw + col,
        ((row * iw + col) * 3 + c) % 3 == c,
        (row * iw + col) / iw == row,
        (row * iw + col) % iw == col,
        0 <= (row * iw + col) * 3 + c,
{
    vstd::arithmetic::div_mod::lemma_fundamental_div_mod_converse((row * iw + col) * 3 + c, 3, row * iw + col, c);
    vstd::arithmetic::div_mod::lemma_fundamental_div_mod_converse(row * iw + col, iw, row, col);
    assert(0 <= row * iw) by (nonlinear_arith)
        requires
            0 <= row,
            0 <= iw,
    ;
}

/// The nine samples around an inner pixel lie inside the data.
proof fn lemma_neighbours_in_bounds(width: int, height: int, x: int, y: int)
    requires
        1 <= x < width - 1,
        1 <= y < height - 1,
    ensures
        x + 1 + (y + 1) * width < width * height,
        0 <= x - 1 + (y - 1) * width,
        (y - 1) * width + width == y * width,
        y * width + width == (y + 1) * width,
{
    assert((y + 1) * width + width <= height * width) by (nonlinear_arith)
        requires
            y + 2 <= height,
            width >= 0,
    ;
    assert((y + 1) * width + width == (y + 2) * width) by (nonlinear_arith);
    assert((y - 1) * width + width == y * width) by (nonlinear_arith);
    assert(y * width + width == (y + 1) * width) by (nonlinear_arith);
    assert(0 <= (y - 1) * width) by (nonlinear_arith)
        requires
            y >= 1,
            width >= 0,
    ;
    assert(height * width == width * height) by (nonlinear_arith);
}

/// Sensor file formats the raw decoder reads, by file extension.
pub fn supported_formats() -> (formats: Vec<&'static str>)
    ensures
        formats@ == seq![
            "MRW", "ARW", "SRF", "SR2", "MEF", "ORF", "ARI", "MOS", "SRW", "ERF", "KDC", "DCS",
            "RW2", "RAF", "DCR", "CR2", "DNG", "PEF", "CRW", "IIQ", "3FR", "NRW", "NEF",
        ],
{
    let mut formats: Vec<&'static str> = Vec::new();
    formats.push("MRW");
    formats.push("ARW");
    formats.push("SRF");
    formats.push("SR2");
    formats.push("MEF");
    formats.push("ORF");
    formats.push("ARI");
    formats.push("MOS");
    formats.push("SRW");
    formats.push("ERF");
    formats.push("KDC");
    formats.push("DCS");
    formats.push("RW2");
    formats.push("RAF");
    formats.push("DCR");
    formats.push("CR2");
    formats.push("DNG");
    formats.push("PEF");
    formats.push("CRW");
    formats.push("IIQ");
    formats.push("3FR");
    formats.push("NRW");
    formats.push("NEF");
    formats
}

} // verus!
