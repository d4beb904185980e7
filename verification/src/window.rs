//! Rearranging one channel of an image into the column-major windows that
//! a convolution kernel slides over.

use vstd::prelude::*;

verus! {

/// The `len` samples going down column `col` from row `row0` of a
/// row-major channel of width `w`.
pub open spec fn column_run<T>(img: Seq<T>, w: int, row0: int, col: int, len: int) -> Seq<T> {
    Seq::new(len as nat, |py: int| img[(row0 + py) * w + col])
}

/// The column runs of the columns `c0 .. c1`, one after the other.
pub open spec fn column_runs<T>(img: Seq<T>, w: int, row0: int, c0: int, c1: int, hf: int) -> Seq<T>
    decreases c1 - c0,
{
    if c1 <= c0 {
        Seq::empty()
    } else {
        column_runs(img, w, row0, c0, c1 - 1, hf) + column_run(img, w, row0, c1 - 1, hf)
    }
}

/// For each of the first `k` window positions `cw` of a band, the runs of
/// the columns `cw + 1 .. cw + wf`.
pub open spec fn band_windows<T>(img: Seq<T>, w: int, row0: int, k: int, wf: int, hf: int) -> Seq<T>
    decreases k,
{
    if k <= 0 {
        Seq::empty()
    } else {
        band_windows(img, w, row0, k - 1, wf, hf) + column_runs(img, w, row0, k, k - 1 + wf, hf)
    }
}

/// One band of `hf` rows starting at row `row0`: the run of its first
/// column, then the windows at every position of the band.
pub open spec fn band<T>(img: Seq<T>, w: int, row0: int, wf: int, hf: int) -> Seq<T> {
    column_run(img, w, row0, 0, hf) + band_windows(img, w, row0, w - wf + 1, wf, hf)
}

/// The first `k` bands, one after the other.
pub open spec fn bands<T>(img: Seq<T>, w: int, k: int, wf: int, hf: int) -> Seq<T>
    decreases k,
{
    if k <= 0 {
        Seq::empty()
    } else {
        bands(img, w, k - 1, wf, hf) + band(img, w, k - 1, wf, hf)
    }
}

/// Largest position of the channel that the rearrangement reads.
pub open spec fn last_read(w: int, h: int, wf: int) -> int {
    if wf == 0 {
        (h - 1) * w
    } else {
        h * w - 1
    }
}

/// Rearranges a `w` by `h` channel for a `wf` by `hf` window: for every
/// band of `hf` rows (one band per starting row), the samples of the
/// band's first column, then for every window position the samples of the
/// window's columns after the first, each column read top to bottom.
pub fn channelimage2window<T: Copy>(img: Vec<T>, w: u32, h: u32, wf: u32, hf: u32) -> (out: Vec<T>)
    requires
        hf <= h,
        wf <= w,
        hf == 0 || (last_read(w as int, h as int, wf as int) < img.len() && last_read(
            w as int,
            h as int,
            wf as int,
        ) <= u32::MAX),
    ensures
        out@ == bands(img@, w as int, h - hf + 1, wf as int, hf as int),
{
    let mut out: Vec<T> = Vec::new();
    let ghost im = img@;
    let mut ch: u64 = 0;
    while ch <= (h - hf) as u64
        invariant
            im == img@,
            hf <= h,
            wf <= w,
            hf == 0 || (last_read(w as int, h as int, wf as int) < img.len() && last_read(
                w as int,
                h as int,
                wf as int,
            ) <= u32::MAX),
            ch <= h - hf + 1,
            out@ == bands(im, w as int, ch as int, wf as int, hf as int),
        decreases h - hf + 1 - ch,
    {
        let ghost before = out@;
        let mut y: u32 = 0;
        while y < hf
            invariant
                im == img@,
                hf <= h,
                wf <= w,
                hf == 0 || (last_read(w as int, h as int, wf as int) < img.len() && last_read(
                    w as int,
                    h as int,
                    wf as int,
                ) <= u32::MAX),
                ch <= h - hf,
                y <= hf,
                out@ == before + column_run(im, w as int, ch as int, 0, y as int),
            decreases hf - y,
        {
            proof {
                lemma_read_in_bounds(w as int, h as int, wf as int, hf as int, ch as int, y as int, 0);
            }
            out.push(img[((ch as u32 + y) * w) as usize]);
            proof {
                assert(column_run(im, w as int, ch as int, 0, y + 1) =~= column_run(
                    im,
                    w as int,
                    ch as int,
                    0,
                    y as int,
                ).push(im[(ch + y) * w]));
            }
            y = y + 1;
        }
        let ghost first = out@;
        let mut cw: u64 = 0;
        while cw <= (w - wf) as u64
            invariant
                im == img@,
                hf <= h,
                wf <= w,
                hf == 0 || (last_read(w as int, h as int, wf as int) < img.len() && last_read(
                    w as int,
                    h as int,
                    wf as int,
                ) <= u32::MAX),
                ch <= h - hf,
                cw <= w - wf + 1,
                out@ == first + band_windows(im, w as int, ch as int, cw as int, wf as int, hf as int),
            decreases w - wf + 1 - cw,
        {
            let ghost start = out@;
            let mut px: u32 = 1;
            while px < wf
                invariant
                    im == img@,
                    hf <= h,
                    wf <= w,
                    hf == 0 || (last_read(w as int, h as int, wf as int) < img.len() && last_read(
                        w as int,
                        h as int,
                        wf as int,
                    ) <= u32::MAX),
                    ch <= h - hf,
                    cw <= w - wf,
                    1 <= px,
                    px <= wf || (wf == 0 && px == 1),
                    out@ == start + column_runs(im, w as int, ch as int, cw + 1, cw + px, hf as int),
                decreases wf - px,
            {
                let ghost run_start = out@;
                let mut py: u32 = 0;
                while py < hf
                    invariant
                        im == img@,
                        hf <= h,
                        wf <= w,
                        hf == 0 || (last_read(w as int, h as int, wf as int) < img.len()
                            && last_read(w as int, h as int, wf as int) <= u32::MAX),
                        ch <= h - hf,
                        cw <= w - wf,
                        1 <= px < wf,
                        py <= hf,
                        out@ == run_start + column_run(im, w as int, ch as int, cw + px, py as int),
                    decreases hf - py,
                {
                    proof {
                        lemma_read_in_bounds(
                            w as int,
                            h as int,
                            wf as int,
                            hf as int,
                            ch as int,
                            py as int,
                            cw + px,
                        );
                    }
                    out.push(img[((ch as u32 + py) * w + cw as u32 + px) as usize]);
                    proof {
                        assert(column_run(im, w as int, ch as int, cw + px, py + 1) =~= column_run(
                            im,
                            w as int,
                            ch as int,
                            cw + px,
                            py as int,
                        ).push(im[(ch + py) * w + cw + px]));
                    }
                    py = py + 1;
                }
                proof {
                    assert(column_runs(im, w as int, ch as int, cw + 1, cw + px + 1, hf as int)
                        =~= column_runs(im, w as int, ch as int, cw + 1, cw + px, hf as int)
                        + column_run(im, w as int, ch as int, cw + px, hf as int));
                }
                px = px + 1;
            }
            proof {
                assert(start == first + band_windows(im, w as int, ch as int, cw as int, wf as int, hf as int));
                if wf == 0 {
                    assert(column_runs(im, w as int, ch as int, cw + 1, cw + px, hf as int) =~= Seq::<T>::empty());
                }
                assert(out@ =~= start + column_runs(im, w as int, ch as int, cw + 1, cw + wf, hf as int));
                if wf == 0 {
                    assert(column_runs(im, w as int, ch as int, cw + 1, cw + wf, hf as int) =~= Seq::<
                        T,
                    >::empty());
                }
                assert(band_windows(im, w as int, ch as int, cw + 1, wf as int, hf as int)
                    =~= band_windows(im, w as int, ch as int, cw as int, wf as int, hf as int)
                    + column_runs(im, w as int, ch as int, cw + 1, cw + wf, hf as int));
                assert(out@ =~= first + band_windows(im, w as int, ch as int, cw + 1, wf as int, hf as int));
            }
            cw = cw + 1;
        }
        proof {
            assert(bands(im, w as int, ch + 1, wf as int, hf as int) =~= bands(
                im,
                w as int,
                ch as int,
                wf as int,
                hf as int,
            ) + band(im, w as int, ch as int, wf as int, hf as int));
        }
        ch = ch + 1;
    }
    out
}

/// The position read for row `py` of a band starting at `row0`, in column
/// `col`, lies inside the channel and inside `u32`.
proof fn lemma_read_in_bounds(w: int, h: int, wf: int, hf: int, row0: int, py: int, col: int)
    requires
        0 <= hf <= h,
        0 <= wf <= w,
        0 <= row0 <= h - hf,
        0 <= py < hf,
        col == 0 || (1 <= col && col < w && wf >= 1),
    ensures
        0 <= (row0 + py) * w + col <= last_read(w, h, wf),
        0 <= (row0 + py) * w <= last_read(w, h, wf),
{
    assert(0 <= (row0 + py) * w <= (h - 1) * w) by (nonlinear_arith)
        requires
            0 <= row0 + py <= h - 1,
            0 <= w,
    ;
    assert((h - 1) * w + w - 1 == h * w - 1) by (nonlinear_arith);
}

/// Number of samples the rearrangement writes for one band.
pub open spec fn band_len(w: int, wf: int, hf: int) -> int {
    hf + (w - wf + 1) * ((wf - 1) * hf)
}

/// Length of the column runs of the columns `c0 .. c1`, and the sample at
/// row `py` of the run of column `c0 + j`.
proof fn lemma_runs_at<T>(img: Seq<T>, w: int, row0: int, c0: int, c1: int, hf: int, j: int, py: int)
    requires
        c0 <= c1,
        hf >= 0,
    ensures
        column_runs(img, w, row0, c0, c1, hf).len() == (c1 - c0) * hf,
        0 <= j < c1 - c0 && 0 <= py < hf ==> column_runs(img, w, row0, c0, c1, hf)[j * hf + py] == img[(row0
            + py) * w + c0 + j],
    decreases c1 - c0,
{
    if c1 > c0 {
        let prev = column_runs(img, w, row0, c0, c1 - 1, hf);
        lemma_runs_at(img, w, row0, c0, c1 - 1, hf, j, py);
        assert((c1 - 1 - c0) * hf + hf == (c1 - c0) * hf) by (nonlinear_arith);
        if 0 <= j < c1 - c0 && 0 <= py < hf {
            if j < c1 - 1 - c0 {
                assert(j * hf + py < (c1 - 1 - c0) * hf) by (nonlinear_arith)
                    requires
                        0 <= j < c1 - 1 - c0,
                        0 <= py < hf,
                ;
            } else {
                assert(j * hf == prev.len());
            }
            assert(0 <= j * hf) by (nonlinear_arith)
                requires
                    0 <= j,
                    0 <= hf,
            ;
        }
    } else {
        assert((c1 - c0) * hf == 0) by (nonlinear_arith)
            requires
                c1 == c0,
        ;
    }
}

/// Length of the windows at the first `k` positions of a band, and the
/// sample at row `py` of column `px` of the window at position `cw`.
proof fn lemma_windows_at<T>(
    img: Seq<T>,
    w: int,
    row0: int,
    k: int,
    wf: int,
    hf: int,
    cw: int,
    px: int,
    py: int,
)
    requires
        k >= 0,
        wf >= 1,
        hf >= 0,
    ensures
        band_windows(img, w, row0, k, wf, hf).len() == k * ((wf - 1) * hf),
        0 <= cw < k && 1 <= px < wf && 0 <= py < hf ==> band_windows(img, w, row0, k, wf, hf)[cw * ((wf - 1)
            * hf) + (px - 1) * hf + py] == img[(row0 + py) * w + cw + px],
    decreases k,
{
    let m = (wf - 1) * hf;
    assert(m >= 0) by (nonlinear_arith)
        requires
            m == (wf - 1) * hf,
            wf >= 1,
            hf >= 0,
    ;
    if k > 0 {
        let prev = band_windows(img, w, row0, k - 1, wf, hf);
        lemma_windows_at(img, w, row0, k - 1, wf, hf, cw, px, py);
        lemma_runs_at(img, w, row0, k, k - 1 + wf, hf, px - 1, py);
        assert((k - 1) * m + m == k * m) by (nonlinear_arith);
        if 0 <= cw < k && 1 <= px < wf && 0 <= py < hf {
            assert((px - 1) * hf + py < m) by (nonlinear_arith)
                requires
                    m == (wf - 1) * hf,
                    1 <= px < wf,
                    0 <= py < hf,
            ;
            assert(0 <= (px - 1) * hf) by (nonlinear_arith)
                requires
                    1 <= px,
                    0 <= hf,
            ;
            if cw < k - 1 {
                assert(cw * m + m <= (k - 1) * m) by (nonlinear_arith)
                    requires
                        0 <= cw < k - 1,
                        m >= 0,
                ;
                assert(0 <= cw * m) by (nonlinear_arith)
                    requires
                        0 <= cw,
                        m >= 0,
                ;
            } else {
                assert(cw * m == prev.len());
            }
        }
    } else {
        assert(k * m == 0) by (nonlinear_arith)
            requires
                k == 0,
        ;
    }
}

/// Length of the first `k` bands, and position `i` of band `b` among them.
proof fn lemma_bands_at<T>(img: Seq<T>, w: int, k: int, wf: int, hf: int, b: int, i: int)
    requires
        k >= 0,
        1 <= wf <= w,
        hf >= 0,
    ensures
        bands(img, w, k, wf, hf).len() == k * band_len(w, wf, hf),
        band(img, w, b, wf, hf).len() == band_len(w, wf, hf),
        0 <= b < k && 0 <= i < band_len(w, wf, hf) ==> bands(img, w, k, wf, hf)[b * band_len(w, wf, hf) + i]
            == band(img, w, b, wf, hf)[i],
    decreases k,
{
    let l = band_len(w, wf, hf);
    lemma_windows_at(img, w, b, w - wf + 1, wf, hf, 0, 1, 0);
    if k > 0 {
        lemma_bands_at(img, w, k - 1, wf, hf, b, i);
        lemma_windows_at(img, w, k - 1, w - wf + 1, wf, hf, 0, 1, 0);
        assert((k - 1) * l + l == k * l) by (nonlinear_arith);
        if 0 <= b < k && 0 <= i < l {
            if b < k - 1 {
                assert(b * l + i < (k - 1) * l) by (nonlinear_arith)
                    requires
                        0 <= b < k - 1,
                        0 <= i < l,
                ;
                assert(0 <= b * l) by (nonlinear_arith)
                    requires
                        0 <= b,
                        0 <= i < l,
                ;
            }
        }
    } else {
        assert(k * l == 0) by (nonlinear_arith)
            requires
                k == 0,
        ;
    }
}

/// Where every sample of the rearranged channel comes from: the output
/// holds one band of `band_len(w, wf, hf)` samples for each starting row
/// `b` from 0 to `h - hf`; band `b` starts with rows `b .. b + hf` of the
/// first column, top to bottom, then for each window position `cw` from 0
/// to `w - wf` the columns `cw + 1 .. cw + wf` of rows `b .. b + hf`, each
/// column top to bottom. So band `b` reads only rows `b .. b + hf`.
pub proof fn law_window_sample<T>(img: Seq<T>, w: int, h: int, wf: int, hf: int, b: int, cw: int, px: int, py: int)
    requires
        1 <= wf <= w,
        0 <= hf <= h,
    ensures
        bands(img, w, h - hf + 1, wf, hf).len() == (h - hf + 1) * band_len(w, wf, hf),
        0 <= b <= h - hf && 0 <= py < hf ==> bands(img, w, h - hf + 1, wf, hf)[b * band_len(w, wf, hf) + py]
            == img[(b + py) * w],
        0 <= b <= h - hf && 0 <= cw <= w - wf && 1 <= px < wf && 0 <= py < hf ==> bands(
            img,
            w,
            h - hf + 1,
            wf,
            hf,
        )[b * band_len(w, wf, hf) + hf + cw * ((wf - 1) * hf) + (px - 1) * hf + py] == img[(b + py) * w + cw
            + px],
{
    let l = band_len(w, wf, hf);
    let k = h - hf + 1;
    lemma_bands_at(img, w, k, wf, hf, b, py);
    lemma_windows_at(img, w, b, w - wf + 1, wf, hf, cw, px, py);
    if 0 <= b <= h - hf && 0 <= cw <= w - wf && 1 <= px < wf && 0 <= py < hf {
        let m = (wf - 1) * hf;
        let j = cw * m + (px - 1) * hf + py;
        assert(0 <= (px - 1) * hf + py < m) by (nonlinear_arith)
            requires
                m == (wf - 1) * hf,
                1 <= px < wf,
                0 <= py < hf,
        ;
        assert(0 <= cw * m && cw * m + m <= (w - wf + 1) * m) by (nonlinear_arith)
            requires
                0 <= cw <= w - wf,
                0 <= m,
        ;
        lemma_bands_at(img, w, k, wf, hf, b, hf + j);
    }
}

} // verus!
