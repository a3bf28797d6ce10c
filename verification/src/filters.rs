use vstd::prelude::*;
use vstd::arithmetic::div_mod::lemma_fundamental_div_mod_converse;
use crate::model::{
    sample_index, col_of, row_of, chan_of, is_interior, window, median_of, median_filtered_at,
    scanned_before, lemma_index_compose, lemma_index_decompose, all_bounded, conv_term,
    conv_sum_upto, conv_sum, div_trunc, convolved_at, SAMPLE_LIMIT, WEIGHT_LIMIT,
};
use crate::sorting::sort_samples;

verus! {

/// A buffer of `n` zero samples.
pub fn zero_buffer(n: usize) -> (out: Vec<i64>)
    ensures
        out@.len() == n,
        forall|i: int| 0 <= i < n ==> out@[i] == 0i64,
{
    let mut out: Vec<i64> = Vec::new();
    let mut i: usize = 0;
    while i < n
        invariant
            i <= n,
            out@.len() == i,
            forall|j: int| 0 <= j < i ==> out@[j] == 0i64,
        decreases n - i,
    {
        out.push(0);
        i = i + 1;
    }
    out
}

/// The filter has handled exactly the samples that precede column `x`,
/// row `y`, channel `c` in scan order; everything else still holds zero.
spec fn median_progress(img: Seq<i64>, out: Seq<i64>, w: int, h: int, ch: int, k: int,
    x: int, y: int, c: int) -> bool {
    &&& out.len() == img.len()
    &&& forall|i: int| 0 <= i < img.len() ==> #[trigger] out[i] == (
        if scanned_before(col_of(i, w, ch), row_of(i, w, ch), chan_of(i, w, ch), x, y, c) {
            median_filtered_at(img, w, h, ch, k, i)
        } else {
            0i64
        })
}

/// Median filter: each interior pixel becomes, channel by channel, the
/// middle value of its sorted square neighborhood of side `filt_size`;
/// pixels within `filt_size / 2` of any border are left at zero.
///
/// Even filter sizes are unsupported: the edge-radius arithmetic is only
/// meaningful for odd sizes, so they are excluded outright.
pub fn median_filt(img: &Vec<i64>, img_width: usize, img_height: usize, pix_size: usize,
    filt_size: usize) -> (out: Vec<i64>)
    requires
        img@.len() == img_width * img_height * pix_size,
        1 <= pix_size,
        filt_size % 2 == 1,
        3 <= filt_size,
    ensures
        out@.len() == img@.len(),
        forall|i: int| 0 <= i < out@.len() ==> #[trigger] out@[i] == median_filtered_at(
            img@, img_width as int, img_height as int, pix_size as int, filt_size as int, i),
{
    let ghost wi = img_width as int;
    let ghost hi = img_height as int;
    let ghost chi = pix_size as int;
    let ghost ki = filt_size as int;
    let ghost ei = ki / 2;

    let filt_edge = filt_size / 2;
    let len = img.len();
    let mut out = zero_buffer(len);

    if !(img_width > 2 * filt_edge && img_height > 2 * filt_edge) {
        assert forall|i: int| 0 <= i < out@.len() implies #[trigger] out@[i] == median_filtered_at(
            img@, wi, hi, chi, ki, i) by {
            assert(!is_interior(col_of(i, wi, chi), row_of(i, wi, chi), wi, hi, ei));
        }
        return out;
    }

    proof {
        assert(wi * chi <= wi * hi * chi) by (nonlinear_arith)
            requires 1 <= hi && 0 <= wi && 0 <= chi;
    }
    let row_width = img_width * pix_size;

    let mut x: usize = filt_edge;
    assert(median_progress(img@, out@, wi, hi, chi, ki, x as int, filt_edge as int, 0)) by {
        assert forall|i: int| 0 <= i < img@.len() implies #[trigger] out@[i] == (
            if scanned_before(col_of(i, wi, chi), row_of(i, wi, chi), chan_of(i, wi, chi),
                ei, ei, 0) {
                median_filtered_at(img@, wi, hi, chi, ki, i)
            } else {
                0i64
            }) by {
            if scanned_before(col_of(i, wi, chi), row_of(i, wi, chi), chan_of(i, wi, chi),
                ei, ei, 0) {
                assert(!is_interior(col_of(i, wi, chi), row_of(i, wi, chi), wi, hi, ei));
            }
        }
    }
    while x < img_width - filt_edge
        invariant
            img@.len() == img_width * img_height * pix_size,
            1 <= pix_size,
            filt_size % 2 == 1,
            3 <= filt_size,
            img_width > 2 * filt_edge,
            img_height > 2 * filt_edge,
            wi == img_width as int,
            hi == img_height as int,
            chi == pix_size as int,
            ki == filt_size as int,
            ei == ki / 2,
            filt_edge == filt_size / 2,
            len == img@.len(),
            row_width == img_width * pix_size,
            filt_edge <= x <= img_width - filt_edge,
            median_progress(img@, out@, wi, hi, chi, ki, x as int, filt_edge as int, 0),
        decreases img_width - filt_edge - x,
    {
        let mut y: usize = filt_edge;
        while y < img_height - filt_edge
            invariant
                img@.len() == img_width * img_height * pix_size,
                1 <= pix_size,
                filt_size % 2 == 1,
                3 <= filt_size,
                img_width > 2 * filt_edge,
                img_height > 2 * filt_edge,
                wi == img_width as int,
                hi == img_height as int,
                chi == pix_size as int,
                ki == filt_size as int,
                ei == ki / 2,
                filt_edge == filt_size / 2,
                len == img@.len(),
                row_width == img_width * pix_size,
                filt_edge <= x < img_width - filt_edge,
                filt_edge <= y <= img_height - filt_edge,
                median_progress(img@, out@, wi, hi, chi, ki, x as int, y as int, 0),
            decreases img_height - filt_edge - y,
        {
            let mut c: usize = 0;
            while c < pix_size
                invariant
                    img@.len() == img_width * img_height * pix_size,
                    1 <= pix_size,
                    filt_size % 2 == 1,
                    3 <= filt_size,
                    img_width > 2 * filt_edge,
                    img_height > 2 * filt_edge,
                    wi == img_width as int,
                    hi == img_height as int,
                    chi == pix_size as int,
                    ki == filt_size as int,
                    ei == ki / 2,
                    filt_edge == filt_size / 2,
                    len == img@.len(),
                    row_width == img_width * pix_size,
                    filt_edge <= x < img_width - filt_edge,
                    filt_edge <= y < img_height - filt_edge,
                    c <= pix_size,
                    median_progress(img@, out@, wi, hi, chi, ki, x as int, y as int, c as int),
                decreases pix_size - c,
            {
                let ghost win = window(img@, x as int, y as int, c as int, wi, chi, ki);
                let mut pix_arr: Vec<i64> = Vec::new();
                let mut xx: usize = 0;
                while xx < filt_size
                    invariant
                        img@.len() == img_width * img_height * pix_size,
                        1 <= pix_size,
                        filt_size % 2 == 1,
                        3 <= filt_size,
                        img_width > 2 * filt_edge,
                        img_height > 2 * filt_edge,
                        wi == img_width as int,
                        hi == img_height as int,
                        chi == pix_size as int,
                        ki == filt_size as int,
                        ei == ki / 2,
                        filt_edge == filt_size / 2,
                        len == img@.len(),
                        row_width == img_width * pix_size,
                        filt_edge <= x < img_width - filt_edge,
                        filt_edge <= y < img_height - filt_edge,
                        c < pix_size,
                        xx <= filt_size,
                        win == window(img@, x as int, y as int, c as int, wi, chi, ki),
                        pix_arr@.len() == xx * filt_size,
                        forall|j: int| 0 <= j < pix_arr@.len() ==> #[trigger] pix_arr@[j] == win[j],
                    decreases filt_size - xx,
                {
                    let mut yy: usize = 0;
                    while yy < filt_size
                        invariant
                            img@.len() == img_width * img_height * pix_size,
                            1 <= pix_size,
                            filt_size % 2 == 1,
                            3 <= filt_size,
                            img_width > 2 * filt_edge,
                            img_height > 2 * filt_edge,
                            wi == img_width as int,
                            hi == img_height as int,
                            chi == pix_size as int,
                            ki == filt_size as int,
                            ei == ki / 2,
                            filt_edge == filt_size / 2,
                            len == img@.len(),
                            row_width == img_width * pix_size,
                            filt_edge <= x < img_width - filt_edge,
                            filt_edge <= y < img_height - filt_edge,
                            c < pix_size,
                            xx < filt_size,
                            yy <= filt_size,
                            win == window(img@, x as int, y as int, c as int, wi, chi, ki),
                            pix_arr@.len() == xx * filt_size + yy,
                            forall|j: int| 0 <= j < pix_arr@.len() ==> #[trigger] pix_arr@[j] == win[j],
                        decreases filt_size - yy,
                    {
                        let sx = x - filt_edge + xx;
                        let sy = y - filt_edge + yy;
                        proof {
                            assert(sx < img_width);
                            assert(sy < img_height);
                            lemma_index_compose(sx as int, sy as int, c as int, wi, hi, chi);
                            assert((sx as int) * chi + (c as int) + (sy as int) * (wi * chi)
                                == sample_index(sx as int, sy as int, c as int, wi, chi))
                                by (nonlinear_arith);
                            assert((sy as int) * (wi * chi) >= 0) by (nonlinear_arith)
                                requires sy as int >= 0 && wi * chi >= 0;
                            assert(wi * chi >= 0) by (nonlinear_arith)
                                requires wi >= 0 && chi >= 0;
                            assert(wi * hi * chi == wi * hi * chi);
                        }
                        let idx_in = sx * pix_size + c + sy * row_width;
                        let sample = img[idx_in];
                        proof {
                            let j = pix_arr@.len() as int;
                            assert(j == (xx as int) * ki + (yy as int));
                            assert(0 <= j < ki * ki) by (nonlinear_arith)
                                requires
                                    (xx as int) < ki,
                                    (yy as int) < ki,
                                    0 <= (xx as int),
                                    0 <= (yy as int),
                                    j == (xx as int) * ki + (yy as int);
                            lemma_fundamental_div_mod_converse(j, ki, xx as int, yy as int);
                            assert(win[j] == img@[sample_index(
                                x as int + j / ki - ei, y as int + j % ki - ei, c as int, wi, chi)]);
                            assert(x as int + j / ki - ei == sx as int);
                            assert(y as int + j % ki - ei == sy as int);
                        }
                        pix_arr.push(sample);
                        yy = yy + 1;
                    }
                    proof {
                        assert((xx as int + 1) * ki == (xx as int) * ki + ki) by (nonlinear_arith);
                    }
                    xx = xx + 1;
                }
                proof {
                    assert((filt_size * filt_size) as int == ki * ki);
                    assert(pix_arr@.len() == ki * ki);
                    assert(win.len() == ki * ki);
                    assert(pix_arr@ =~= win);
                }
                let sorted = sort_samples(&pix_arr);
                let mid = sorted.len() / 2;
                assert(sorted@.len() == ki * ki > 0) by (nonlinear_arith)
                    requires sorted@.len() == ki * ki && ki >= 3;
                let med = sorted[mid];
                proof {
                    assert(med == median_of(win));
                }
                proof {
                    lemma_index_compose(x as int, y as int, c as int, wi, hi, chi);
                    assert((x as int) * chi + (c as int) + (y as int) * (wi * chi)
                        == sample_index(x as int, y as int, c as int, wi, chi))
                        by (nonlinear_arith);
                    assert((y as int) * (wi * chi) >= 0) by (nonlinear_arith)
                        requires y as int >= 0 && wi * chi >= 0;
                    assert(wi * chi >= 0) by (nonlinear_arith)
                        requires wi >= 0 && chi >= 0;
                }
                let idx_out = x * pix_size + c + y * row_width;
                let ghost out_before = out@;
                out[idx_out] = med;
                proof {
                    assert(out@ == out_before.update(idx_out as int, med));
                    assert forall|i: int| 0 <= i < img@.len() implies #[trigger] out@[i] == (
                        if scanned_before(col_of(i, wi, chi), row_of(i, wi, chi),
                            chan_of(i, wi, chi), x as int, y as int, c + 1) {
                            median_filtered_at(img@, wi, hi, chi, ki, i)
                        } else {
                            0i64
                        }) by {
                        lemma_index_decompose(i, wi, hi, chi);
                        if i == idx_out as int {
                            assert(col_of(i, wi, chi) == x as int);
                            assert(row_of(i, wi, chi) == y as int);
                            assert(chan_of(i, wi, chi) == c as int);
                            assert(is_interior(x as int, y as int, wi, hi, ei));
                            assert(out@[i] == med);
                        } else {
                            assert(out@[i] == out_before[i]);
                            if col_of(i, wi, chi) == x as int && row_of(i, wi, chi) == y as int
                                && chan_of(i, wi, chi) == c as int {
                                assert(i == sample_index(x as int, y as int, c as int, wi, chi));
                                assert(i == idx_out as int);
                            }
                        }
                    }
                }
                c = c + 1;
            }
            proof {
                assert forall|i: int| 0 <= i < img@.len() implies #[trigger] out@[i] == (
                    if scanned_before(col_of(i, wi, chi), row_of(i, wi, chi),
                        chan_of(i, wi, chi), x as int, y as int + 1, 0) {
                        median_filtered_at(img@, wi, hi, chi, ki, i)
                    } else {
                        0i64
                    }) by {
                    lemma_index_decompose(i, wi, hi, chi);
                }
            }
            y = y + 1;
        }
        proof {
            assert forall|i: int| 0 <= i < img@.len() implies #[trigger] out@[i] == (
                if scanned_before(col_of(i, wi, chi), row_of(i, wi, chi),
                    chan_of(i, wi, chi), x as int + 1, ei, 0) {
                    median_filtered_at(img@, wi, hi, chi, ki, i)
                } else {
                    0i64
                }) by {
                lemma_index_decompose(i, wi, hi, chi);
                if col_of(i, wi, chi) == x as int && !(row_of(i, wi, chi) < hi - ei) {
                    assert(!is_interior(col_of(i, wi, chi), row_of(i, wi, chi), wi, hi, ei));
                }
            }
        }
        x = x + 1;
    }
    proof {
        assert forall|i: int| 0 <= i < out@.len() implies #[trigger] out@[i] == median_filtered_at(
            img@, wi, hi, chi, ki, i) by {
            lemma_index_decompose(i, wi, hi, chi);
            if !scanned_before(col_of(i, wi, chi), row_of(i, wi, chi), chan_of(i, wi, chi),
                x as int, ei, 0) {
                assert(!is_interior(col_of(i, wi, chi), row_of(i, wi, chi), wi, hi, ei));
            }
        }
    }
    out
}

/// The convolution has handled exactly the samples that precede column
/// `x`, row `y`, channel `c` in scan order; everything else still holds zero.
spec fn conv_progress(img: Seq<i64>, kern: Seq<i64>, out: Seq<i64>, w: int, h: int, ch: int,
    k: int, d: int, x: int, y: int, c: int) -> bool {
    &&& out.len() == img.len()
    &&& forall|i: int| 0 <= i < img.len() ==> #[trigger] out[i] as int == (
        if scanned_before(col_of(i, w, ch), row_of(i, w, ch), chan_of(i, w, ch), x, y, c) {
            convolved_at(img, kern, w, h, ch, k, d, i)
        } else {
            0
        })
}

/// Spatial (convolution) filter: each interior pixel becomes, channel by
/// channel, the weighted sum of its square neighborhood against the
/// kernel, divided by `divisor`; pixels within `filt_size / 2` of any
/// border are left at zero. The kernel holds integer numerators over the
/// common positive `divisor`, and the raw quotient is written back without
/// any clamping, so negative responses survive for the stages that need
/// their sign.
///
/// Even filter sizes are unsupported: the edge-radius arithmetic is only
/// meaningful for odd sizes, so they are excluded outright.
pub fn spatial_filt(img: &Vec<i64>, img_width: usize, img_height: usize, pix_size: usize,
    filt: &Vec<i64>, filt_size: usize, divisor: i64) -> (out: Vec<i64>)
    requires
        img@.len() == img_width * img_height * pix_size,
        1 <= pix_size,
        filt_size % 2 == 1,
        3 <= filt_size <= 255,
        filt@.len() == filt_size * filt_size,
        all_bounded(img@, SAMPLE_LIMIT as int),
        all_bounded(filt@, WEIGHT_LIMIT as int),
        1 <= divisor,
    ensures
        out@.len() == img@.len(),
        forall|i: int| 0 <= i < out@.len() ==> #[trigger] out@[i] as int == convolved_at(
            img@, filt@, img_width as int, img_height as int, pix_size as int,
            filt_size as int, divisor as int, i),
{
    let ghost wi = img_width as int;
    let ghost hi = img_height as int;
    let ghost chi = pix_size as int;
    let ghost ki = filt_size as int;
    let ghost ei = ki / 2;
    let ghost di = divisor as int;

    let filt_edge = filt_size / 2;
    let len = img.len();
    let mut out = zero_buffer(len);

    if !(img_width > 2 * filt_edge && img_height > 2 * filt_edge) {
        assert forall|i: int| 0 <= i < out@.len() implies #[trigger] out@[i] as int == convolved_at(
            img@, filt@, wi, hi, chi, ki, di, i) by {
            assert(!is_interior(col_of(i, wi, chi), row_of(i, wi, chi), wi, hi, ei));
        }
        return out;
    }

    proof {
        assert(wi * chi <= wi * hi * chi) by (nonlinear_arith)
            requires 1 <= hi && 0 <= wi && 0 <= chi;
    }
    let row_width = img_width * pix_size;

    let mut x: usize = filt_edge;
    assert(conv_progress(img@, filt@, out@, wi, hi, chi, ki, di, x as int, filt_edge as int, 0)) by {
        assert forall|i: int| 0 <= i < img@.len() implies #[trigger] out@[i] as int == (
            if scanned_before(col_of(i, wi, chi), row_of(i, wi, chi), chan_of(i, wi, chi),
                ei, ei, 0) {
                convolved_at(img@, filt@, wi, hi, chi, ki, di, i)
            } else {
                0
            }) by {
            if scanned_before(col_of(i, wi, chi), row_of(i, wi, chi), chan_of(i, wi, chi),
                ei, ei, 0) {
                assert(!is_interior(col_of(i, wi, chi), row_of(i, wi, chi), wi, hi, ei));
            }
        }
    }
    while x < img_width - filt_edge
        invariant
            img@.len() == img_width * img_height * pix_size,
            1 <= pix_size,
            filt_size % 2 == 1,
            3 <= filt_size <= 255,
            filt@.len() == filt_size * filt_size,
            all_bounded(img@, SAMPLE_LIMIT as int),
            all_bounded(filt@, WEIGHT_LIMIT as int),
            1 <= divisor,
            img_width > 2 * filt_edge,
            img_height > 2 * filt_edge,
            wi == img_width as int,
            hi == img_height as int,
            chi == pix_size as int,
            ki == filt_size as int,
            ei == ki / 2,
            di == divisor as int,
            filt_edge == filt_size / 2,
            len == img@.len(),
            row_width == img_width * pix_size,
            filt_edge <= x <= img_width - filt_edge,
            conv_progress(img@, filt@, out@, wi, hi, chi, ki, di, x as int, filt_edge as int, 0),
        decreases img_width - filt_edge - x,
    {
        let mut y: usize = filt_edge;
        while y < img_height - filt_edge
            invariant
                img@.len() == img_width * img_height * pix_size,
                1 <= pix_size,
                filt_size % 2 == 1,
                3 <= filt_size <= 255,
                filt@.len() == filt_size * filt_size,
                all_bounded(img@, SAMPLE_LIMIT as int),
                all_bounded(filt@, WEIGHT_LIMIT as int),
                1 <= divisor,
                img_width > 2 * filt_edge,
                img_height > 2 * filt_edge,
                wi == img_width as int,
                hi == img_height as int,
                chi == pix_size as int,
                ki == filt_size as int,
                ei == ki / 2,
                di == divisor as int,
                filt_edge == filt_size / 2,
                len == img@.len(),
                row_width == img_width * pix_size,
                filt_edge <= x < img_width - filt_edge,
                filt_edge <= y <= img_height - filt_edge,
                conv_progress(img@, filt@, out@, wi, hi, chi, ki, di, x as int, y as int, 0),
            decreases img_height - filt_edge - y,
        {
            let mut c: usize = 0;
            while c < pix_size
                invariant
                    img@.len() == img_width * img_height * pix_size,
                    1 <= pix_size,
                    filt_size % 2 == 1,
                    3 <= filt_size <= 255,
                    filt@.len() == filt_size * filt_size,
                    all_bounded(img@, SAMPLE_LIMIT as int),
                    all_bounded(filt@, WEIGHT_LIMIT as int),
                    1 <= divisor,
                    img_width > 2 * filt_edge,
                    img_height > 2 * filt_edge,
                    wi == img_width as int,
                    hi == img_height as int,
                    chi == pix_size as int,
                    ki == filt_size as int,
                    ei == ki / 2,
                    di == divisor as int,
                    filt_edge == filt_size / 2,
                    len == img@.len(),
                    row_width == img_width * pix_size,
                    filt_edge <= x < img_width - filt_edge,
                    filt_edge <= y < img_height - filt_edge,
                    c <= pix_size,
                    conv_progress(img@, filt@, out@, wi, hi, chi, ki, di, x as int, y as int, c as int),
                decreases pix_size - c,
            {
                let mut acc: i64 = 0;
                let mut xx: usize = 0;
                while xx < filt_size
                    invariant
                        img@.len() == img_width * img_height * pix_size,
                        1 <= pix_size,
                        filt_size % 2 == 1,
                        3 <= filt_size <= 255,
                        filt@.len() == filt_size * filt_size,
                        all_bounded(img@, SAMPLE_LIMIT as int),
                        all_bounded(filt@, WEIGHT_LIMIT as int),
                        img_width > 2 * filt_edge,
                        img_height > 2 * filt_edge,
                        wi == img_width as int,
                        hi == img_height as int,
                        chi == pix_size as int,
                        ki == filt_size as int,
                        ei == ki / 2,
                        filt_edge == filt_size / 2,
                        len == img@.len(),
                        row_width == img_width * pix_size,
                        filt_edge <= x < img_width - filt_edge,
                        filt_edge <= y < img_height - filt_edge,
                        c < pix_size,
                        xx <= filt_size,
                        acc as int == conv_sum_upto(img@, filt@, x as int, y as int, c as int,
                            wi, chi, ki, (xx as int) * ki),
                        -((xx as int) * ki * 1099511627776) <= acc as int
                            <= (xx as int) * ki * 1099511627776,
                    decreases filt_size - xx,
                {
                    let mut yy: usize = 0;
                    while yy < filt_size
                        invariant
                            img@.len() == img_width * img_height * pix_size,
                            1 <= pix_size,
                            filt_size % 2 == 1,
                            3 <= filt_size <= 255,
                            filt@.len() == filt_size * filt_size,
                            all_bounded(img@, SAMPLE_LIMIT as int),
                            all_bounded(filt@, WEIGHT_LIMIT as int),
                            img_width > 2 * filt_edge,
                            img_height > 2 * filt_edge,
                            wi == img_width as int,
                            hi == img_height as int,
                            chi == pix_size as int,
                            ki == filt_size as int,
                            ei == ki / 2,
                            filt_edge == filt_size / 2,
                            len == img@.len(),
                            row_width == img_width * pix_size,
                            filt_edge <= x < img_width - filt_edge,
                            filt_edge <= y < img_height - filt_edge,
                            c < pix_size,
                            xx < filt_size,
                            yy <= filt_size,
                            acc as int == conv_sum_upto(img@, filt@, x as int, y as int, c as int,
                                wi, chi, ki, (xx as int) * ki + yy as int),
                            -(((xx as int) * ki + yy as int) * 1099511627776) <= acc as int
                                <= ((xx as int) * ki + yy as int) * 1099511627776,
                        decreases filt_size - yy,
                    {
                        let ghost j = (xx as int) * ki + yy as int;
                        proof {
                            assert(0 <= j < ki * ki) by (nonlinear_arith)
                                requires
                                    (xx as int) < ki,
                                    (yy as int) < ki,
                                    0 <= (xx as int),
                                    0 <= (yy as int),
                                    j == (xx as int) * ki + (yy as int);
                            lemma_fundamental_div_mod_converse(j, ki, xx as int, yy as int);
                        }
                        let sx = x - filt_edge + xx;
                        let sy = y - filt_edge + yy;
                        proof {
                            assert(sx < img_width);
                            assert(sy < img_height);
                            lemma_index_compose(sx as int, sy as int, c as int, wi, hi, chi);
                            assert((sx as int) * chi + (c as int) + (sy as int) * (wi * chi)
                                == sample_index(sx as int, sy as int, c as int, wi, chi))
                                by (nonlinear_arith);
                            assert(wi * chi >= 0) by (nonlinear_arith)
                                requires wi >= 0 && chi >= 0;
                            assert((sy as int) * (wi * chi) >= 0) by (nonlinear_arith)
                                requires sy as int >= 0 && wi * chi >= 0;
                        }
                        let idx_in = sx * pix_size + c + sy * row_width;
                        let sample = img[idx_in];
                        proof {
                            assert(0 <= (xx as int) + (yy as int) * ki < ki * ki) by (nonlinear_arith)
                                requires
                                    0 <= (xx as int) && (xx as int) < ki,
                                    0 <= (yy as int) && (yy as int) < ki;
                            assert((yy as int) * (ki as int) <= 255 * 255) by (nonlinear_arith)
                                requires 0 <= (yy as int) && (yy as int) < ki && ki <= 255;
                        }
                        let kern_idx = xx + yy * filt_size;
                        let weight = filt[kern_idx];
                        proof {
                            assert(-SAMPLE_LIMIT <= sample <= SAMPLE_LIMIT);
                            assert(-WEIGHT_LIMIT <= weight <= WEIGHT_LIMIT);
                            assert(-1099511627776 <= (weight as int) * (sample as int)
                                <= 1099511627776) by (nonlinear_arith)
                                requires
                                    -1048576 <= weight as int <= 1048576,
                                    -1048576 <= sample as int <= 1048576;
                            assert(ki * ki <= 65025) by (nonlinear_arith)
                                requires 3 <= ki && ki <= 255;
                            assert(j * 1099511627776 <= 65025 * 1099511627776
                                && -(65025 * 1099511627776) <= -(j * 1099511627776))
                                by (nonlinear_arith)
                                requires 0 <= j <= 65025;
                            assert((j + 1) * 1099511627776 == j * 1099511627776 + 1099511627776)
                                by (nonlinear_arith);
                            assert((j + 1) * 1099511627776 <= 65025 * 1099511627776
                                && -(65025 * 1099511627776) <= -((j + 1) * 1099511627776))
                                by (nonlinear_arith)
                                requires 0 <= j + 1 <= 65025;
                            assert(conv_term(img@, filt@, x as int, y as int, c as int,
                                wi, chi, ki, j) == (weight as int) * (sample as int));
                        }
                        acc = acc + weight * sample;
                        yy = yy + 1;
                    }
                    proof {
                        assert((xx as int + 1) * ki == (xx as int) * ki + ki) by (nonlinear_arith);
                    }
                    xx = xx + 1;
                }
                proof {
                    assert((xx as int) * ki == ki * ki) by (nonlinear_arith)
                        requires xx as int == ki;
                }
                let result = acc / divisor;
                proof {
                    assert(result as int == div_trunc(
                        conv_sum(img@, filt@, x as int, y as int, c as int, wi, chi, ki), di));
                }
                proof {
                    lemma_index_compose(x as int, y as int, c as int, wi, hi, chi);
                    assert((x as int) * chi + (c as int) + (y as int) * (wi * chi)
                        == sample_index(x as int, y as int, c as int, wi, chi))
                        by (nonlinear_arith);
                    assert(wi * chi >= 0) by (nonlinear_arith)
                        requires wi >= 0 && chi >= 0;
                    assert((y as int) * (wi * chi) >= 0) by (nonlinear_arith)
                        requires y as int >= 0 && wi * chi >= 0;
                }
                let idx_out = x * pix_size + c + y * row_width;
                let ghost out_before = out@;
                out[idx_out] = result;
                proof {
                    assert(out@ == out_before.update(idx_out as int, result));
                    assert forall|i: int| 0 <= i < img@.len() implies #[trigger] out@[i] as int == (
                        if scanned_before(col_of(i, wi, chi), row_of(i, wi, chi),
                            chan_of(i, wi, chi), x as int, y as int, c + 1) {
                            convolved_at(img@, filt@, wi, hi, chi, ki, di, i)
                        } else {
                            0
                        }) by {
                        lemma_index_decompose(i, wi, hi, chi);
                        if i == idx_out as int {
                            assert(col_of(i, wi, chi) == x as int);
                            assert(row_of(i, wi, chi) == y as int);
                            assert(chan_of(i, wi, chi) == c as int);
                            assert(is_interior(x as int, y as int, wi, hi, ei));
                            assert(out@[i] == result);
                        } else {
                            assert(out@[i] == out_before[i]);
                            if col_of(i, wi, chi) == x as int && row_of(i, wi, chi) == y as int
                                && chan_of(i, wi, chi) == c as int {
                                assert(i == sample_index(x as int, y as int, c as int, wi, chi));
                                assert(i == idx_out as int);
                            }
                        }
                    }
                }
                c = c + 1;
            }
            proof {
                assert forall|i: int| 0 <= i < img@.len() implies #[trigger] out@[i] as int == (
                    if scanned_before(col_of(i, wi, chi), row_of(i, wi, chi),
                        chan_of(i, wi, chi), x as int, y as int + 1, 0) {
                        convolved_at(img@, filt@, wi, hi, chi, ki, di, i)
                    } else {
                        0
                    }) by {
                    lemma_index_decompose(i, wi, hi, chi);
                }
            }
            y = y + 1;
        }
        proof {
            assert forall|i: int| 0 <= i < img@.len() implies #[trigger] out@[i] as int == (
                if scanned_before(col_of(i, wi, chi), row_of(i, wi, chi),
                    chan_of(i, wi, chi), x as int + 1, ei, 0) {
                    convolved_at(img@, filt@, wi, hi, chi, ki, di, i)
                } else {
                    0
                }) by {
                lemma_index_decompose(i, wi, hi, chi);
                if col_of(i, wi, chi) == x as int && !(row_of(i, wi, chi) < hi - ei) {
                    assert(!is_interior(col_of(i, wi, chi), row_of(i, wi, chi), wi, hi, ei));
                }
            }
        }
        x = x + 1;
    }
    proof {
        assert forall|i: int| 0 <= i < out@.len() implies #[trigger] out@[i] as int == convolved_at(
            img@, filt@, wi, hi, chi, ki, di, i) by {
            lemma_index_decompose(i, wi, hi, chi);
            if !scanned_before(col_of(i, wi, chi), row_of(i, wi, chi), chan_of(i, wi, chi),
                x as int, ei, 0) {
                assert(!is_interior(col_of(i, wi, chi), row_of(i, wi, chi), wi, hi, ei));
            }
        }
    }
    out
}

} // verus!
