//! Whole-image operations on 8-bit buffers: cropping, the low-resolution
//! preview and the per-channel histograms shown beside the image.

use crate::boxblur::{lemma_grid_pos, lemma_sample_index, sample, PixelBuffer};
use crate::contrast::{byte_histogram, counts_fit, occurrences};
use crate::math::covers_all_bytes;
use std::collections::HashMap;
use vstd::prelude::*;

verus! {

/// Sample `k` of a buffer cropped to `new_width` columns starting at column
/// `x` and row `y` of a buffer `width` pixels wide with `n` samples per
/// pixel: the sample at the same place relative to (`x`, `y`).
pub open spec fn cropped_at<T>(src: Seq<T>, width: int, n: int, x: int, y: int, new_width: int, k: int) -> T {
    let pixel = k / n;
    src[((pixel / new_width + y) * width + pixel % new_width + x) * n + k % n]
}

/// The samples of the region of `new_width` by `new_height` pixels whose
/// top left corner is at column `x`, row `y`, of a buffer of `width` by
/// `height` pixels with `n` samples each, stored row by row.
pub fn crop_samples<T: Copy>(
    src: &Vec<T>,
    width: u32,
    height: u32,
    n: u32,
    x: u32,
    y: u32,
    new_width: u32,
    new_height: u32,
) -> (out: Vec<T>)
    requires
        src@.len() == width * height * n,
        n > 0,
        x + new_width <= width,
        y + new_height <= height,
    ensures
        out@.len() == new_width * new_height * n,
        forall|row: int, col: int, ch: int|
            0 <= row < new_height && 0 <= col < new_width && 0 <= ch < n ==> #[trigger] out@[(row
                * new_width + col) * n + ch] == src@[((row + y) * width + col + x) * n + ch],
{
        let ghost w = width as int;
    let ghost h = height as int;
    let ghost nn = n as int;
    proof {
        assert(new_width * new_height * nn <= w * h * nn) by (nonlinear_arith)
            requires
                0 <= new_width <= w,
                0 <= new_height <= h,
                nn > 0,
        ;
    }
    let total: usize = src.len();
    let mut data: Vec<T> = Vec::new();
    let mut ny: u32 = 0;
    assert(0 * new_width * nn == 0) by (nonlinear_arith);
    while ny < new_height
        invariant
            src@.len() == width * height * n,
                                    w == width,
            h == height,
            nn == n,
            n > 0,
            total == w * h * nn,
            x + new_width <= w,
            y + new_height <= h,
            ny <= new_height,
            data@.len() == ny * new_width * nn,
            forall|k: int| 0 <= k < data@.len() ==> #[trigger] data@[k] == cropped_at(
                src@,
                w,
                nn,
                x as int,
                y as int,
                new_width as int,
                k,
            ),
        decreases new_height - ny,
    {
        let mut nx: u32 = 0;
        while nx < new_width
            invariant
                src@.len() == width * height * n,
                                                w == width,
                h == height,
                nn == n,
                n > 0,
                total == w * h * nn,
                x + new_width <= w,
                y + new_height <= h,
                ny < new_height,
                nx <= new_width,
                data@.len() == (ny * new_width + nx) * nn,
                forall|k: int| 0 <= k < data@.len() ==> #[trigger] data@[k] == cropped_at(
                    src@,
                    w,
                    nn,
                    x as int,
                    y as int,
                    new_width as int,
                    k,
                ),
            decreases new_width - nx,
        {
            let row: u32 = ny + y;
            let col: u32 = nx + x;
            proof {
                lemma_sample_index(w, h, nn, 0, row as int, col as int);
                assert(row * w <= row * w + col);
                assert(row * w + col <= (row * w + col) * nn) by (nonlinear_arith)
                    requires
                        nn > 0,
                        row * w + col >= 0,
                ;
            }
            let base: usize = (row as usize * width as usize + col as usize) * n as usize;
            let mut ch: u32 = 0;
            while ch < n
                invariant
                    src@.len() == width * height * n,
                                        w == width,
                    h == height,
                    nn == n,
                    n > 0,
                    total == w * h * nn,
                    total == src@.len(),
                    row == ny + y,
                    col == nx + x,
                    row < h,
                    col < w,
                    nx < new_width,
                    base == (row * w + col) * nn,
                    ch <= n,
                    data@.len() == (ny * new_width + nx) * nn + ch,
                    forall|k: int| 0 <= k < data@.len() ==> #[trigger] data@[k] == cropped_at(
                        src@,
                        w,
                        nn,
                        x as int,
                        y as int,
                        new_width as int,
                        k,
                    ),
                decreases n - ch,
            {
                proof {
                    lemma_sample_index(w, h, nn, ch as int, row as int, col as int);
                    let k = (ny * new_width + nx) * nn + ch;
                    lemma_grid_pos(nn, ny * new_width + nx, ch as int);
                    lemma_grid_pos(new_width as int, ny as int, nx as int);
                    assert(k / nn == ny * new_width + nx);
                }
                data.push(src[base + ch as usize]);
                ch = ch + 1;
            }
            proof {
                assert((ny * new_width + nx) * nn + nn == (ny * new_width + nx + 1) * nn) by (nonlinear_arith);
            }
            nx = nx + 1;
        }
        proof {
            assert((ny * new_width + new_width) * nn == (ny + 1) * new_width * nn) by (nonlinear_arith);
        }
        ny = ny + 1;
    }
    assert(new_height * new_width * nn == new_width * new_height * nn) by (nonlinear_arith);
    assert forall|row: int, col: int, ch: int|
        0 <= row < new_height && 0 <= col < new_width && 0 <= ch < n implies #[trigger] data@[(row
            * new_width + col) * n + ch] == src@[((row + y) * width + col + x) * n + ch] by {
        lemma_sample_index(new_width as int, new_height as int, nn, ch, row, col);
        assert(new_width * new_height * nn == new_height * new_width * nn) by (nonlinear_arith);
        lemma_grid_pos(nn, row * new_width + col, ch);
        lemma_grid_pos(new_width as int, row, col);
    }
    data
}

/// The region of `img` of `new_width` by `new_height` pixels whose top left
/// corner is at column `x`, row `y`.
pub fn crop(img: &PixelBuffer, x: u32, y: u32, new_width: u32, new_height: u32) -> (out: PixelBuffer)
    requires
        img.wf(),
        img.channels > 0,
        x + new_width <= img.width,
        y + new_height <= img.height,
    ensures
        out.width == new_width,
        out.height == new_height,
        out.channels == img.channels,
        out.wf(),
        forall|row: int, col: int, ch: int|
            0 <= row < new_height && 0 <= col < new_width && 0 <= ch < img.channels ==> #[trigger] sample(
                out.data@,
                new_width as int,
                img.channels as int,
                ch,
                row,
                col,
            ) == sample(img.data@, img.width as int, img.channels as int, ch, row + y, col + x),
{
    let data = crop_samples(&img.data, img.width, img.height, img.channels, x, y, new_width, new_height);
    proof {
        assert(new_width * new_height * img.channels == new_width * new_height * img.channels);
    }
    PixelBuffer { width: new_width, height: new_height, channels: img.channels, data }
}

/// Sample `ch` of every pixel, row after row.
pub open spec fn channel_samples(img: &PixelBuffer, ch: int) -> Seq<u8> {
    Seq::new((img.width * img.height) as nat, |p: int| img.data@[p * img.channels + ch])
}

/// Sample `ch` of every pixel, row after row.
fn channel_of(img: &PixelBuffer, ch: u32) -> (v: Vec<u8>)
    requires
        img.wf(),
        ch < img.channels,
    ensures
        v@ == channel_samples(img, ch as int),
{
    let n: usize = img.channels as usize;
    let total: usize = img.data.len();
    let pixels: usize = total / n;
    proof {
        assert(pixels == img.width * img.height) by (nonlinear_arith)
            requires
                total == img.width * img.height * n,
                n > 0,
                pixels == total / n,
        ;
    }
    let mut v: Vec<u8> = Vec::new();
    let mut p: usize = 0;
    while p < pixels
        invariant
            img.wf(),
            n == img.channels,
            ch < n,
            total == img.data@.len(),
            pixels == img.width * img.height,
            total == pixels * n,
            p <= pixels,
            v@ =~= channel_samples(img, ch as int).subrange(0, p as int),
        decreases pixels - p,
    {
        proof {
            assert(p * n + ch < pixels * n) by (nonlinear_arith)
                requires
                    p < pixels,
                    ch < n,
            ;
        }
        v.push(img.data[p * n + ch as usize]);
        p = p + 1;
    }
    v
}

/// The histograms of the red, green and blue samples of an image.
pub fn collect_histogram_data(img: &PixelBuffer) -> (r: [HashMap<u8, u32>; 3])
    requires
        img.wf(),
        img.channels >= 3,
        forall|c: int| 0 <= c < 3 ==> counts_fit(#[trigger] channel_samples(img, c)),
    ensures
        forall|c: int| 0 <= c < 3 ==> covers_all_bytes(#[trigger] r[c]@),
        forall|c: int, k: u8| 0 <= c < 3 ==> #[trigger] r[c]@[k] == occurrences(channel_samples(img, c), k),
{
    let red = channel_of(img, 0);
    let green = channel_of(img, 1);
    let blue = channel_of(img, 2);
    [byte_histogram(&red), byte_histogram(&green), byte_histogram(&blue)]
}

/// The samples of an RGBA image of `width` by `height` pixels resized to
/// `new_width` by `new_height` pixels by `image::imageops::resize` with the
/// `Nearest` filter.
pub uninterp spec fn nearest_resized(
    data: Seq<u8>,
    width: u32,
    height: u32,
    new_width: u32,
    new_height: u32,
) -> Seq<u8>;

/// Calls `image::imageops::resize` with the `Nearest` filter on an RGBA
/// image. Its result is named `nearest_resized`; the contract adds what the
/// crate's source shows: the result has the new dimensions, an image
/// resized to its own dimensions is copied, and an empty image gives a
/// zeroed buffer. Which source pixels the other samples come from is left
/// to the name. The intermediate buffer of `img.width` by `new_height`
/// pixels is allocated only when neither shortcut applies.
#[verifier::external_body]
fn resize_nearest(img: &PixelBuffer, new_width: u32, new_height: u32) -> (out: Vec<u8>)
    requires
        img.wf(),
        img.channels == 4,
        new_width * new_height * 4 <= usize::MAX,
        img.width == 0 || img.height == 0 || (new_width == img.width && new_height == img.height)
            || img.width * new_height * 4 <= usize::MAX,
    ensures
        out@ == nearest_resized(img.data@, img.width, img.height, new_width, new_height),
        out@.len() == new_width * new_height * 4,
        new_width == img.width && new_height == img.height ==> out@ == img.data@,
        img.width == 0 || img.height == 0 ==> forall|i: int| 0 <= i < out@.len() ==> #[trigger] out@[i] == 0,
{
    let view = image::RgbaImage::from_raw(img.width, img.height, img.data.clone()).unwrap();
    image::imageops::resize(&view, new_width, new_height, image::imageops::FilterType::Nearest).into_raw()
}

/// A preview of an RGBA image at `nwidth` by `nheight` pixels, each taken
/// from the nearest pixel of the image.
pub fn build_low_res_preview(img: &PixelBuffer, nwidth: u32, nheight: u32) -> (out: PixelBuffer)
    requires
        img.wf(),
        img.channels == 4,
        nwidth * nheight * 4 <= usize::MAX,
        img.width == 0 || img.height == 0 || (nwidth == img.width && nheight == img.height)
            || img.width * nheight * 4 <= usize::MAX,
    ensures
        out.width == nwidth,
        out.height == nheight,
        out.channels == 4,
        out.wf(),
        out.data@ == nearest_resized(img.data@, img.width, img.height, nwidth, nheight),
        nwidth == img.width && nheight == img.height ==> out.data@ == img.data@,
{
    let data = resize_nearest(img, nwidth, nheight);
    PixelBuffer { width: nwidth, height: nheight, channels: 4, data }
}

} // verus!
