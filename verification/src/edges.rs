use vstd::prelude::*;
use crate::model::{
    sample_index, col_of, row_of, all_bounded, lemma_index_compose, lemma_index_decompose,
    SAMPLE_LIMIT,
};
use crate::filters::zero_buffer;

verus! {

/// What thresholding writes for one sample: full white strictly above the
/// boundary, black at the boundary and below it.
pub open spec fn threshold_val(v: i64, b: i64) -> i64 {
    if v > b {
        255
    } else {
        0
    }
}

/// Binarize a field against a scalar boundary, sample by sample.
pub fn threshold(img: &Vec<i64>, boundary: i64) -> (out: Vec<i64>)
    ensures
        out@.len() == img@.len(),
        forall|i: int| 0 <= i < img@.len() ==> #[trigger] out@[i] == threshold_val(img@[i], boundary),
{
    let mut out: Vec<i64> = Vec::new();
    let mut i: usize = 0;
    while i < img.len()
        invariant
            i <= img@.len(),
            out@.len() == i,
            forall|j: int| 0 <= j < i ==> #[trigger] out@[j] == threshold_val(img@[j], boundary),
        decreases img@.len() - i,
    {
        if img[i] > boundary {
            out.push(255);
        } else {
            out.push(0);
        }
        i = i + 1;
    }
    out
}

/// `r` is the gradient magnitude for squared length `n`: the integer
/// square root of `n`, clamped to the displayable ceiling of 255.
pub open spec fn is_clamped_root(n: int, r: int) -> bool {
    &&& 0 <= r <= 255
    &&& r < 255 ==> r * r <= n < (r + 1) * (r + 1)
    &&& r == 255 ==> n >= 255 * 255
}

/// Combine a horizontal and a vertical gradient field into the magnitude
/// field: per pixel the root of the sum of squares, clamped into [0, 255].
pub fn edge_gradient(hor_edges: &Vec<i64>, vert_edges: &Vec<i64>, img_width: usize,
    img_height: usize) -> (out: Vec<i64>)
    requires
        hor_edges@.len() == img_width * img_height,
        vert_edges@.len() == img_width * img_height,
        all_bounded(hor_edges@, SAMPLE_LIMIT as int),
        all_bounded(vert_edges@, SAMPLE_LIMIT as int),
    ensures
        out@.len() == img_width * img_height,
        forall|i: int| 0 <= i < out@.len() ==> is_clamped_root(
            (hor_edges@[i] as int) * (hor_edges@[i] as int)
                + (vert_edges@[i] as int) * (vert_edges@[i] as int),
            #[trigger] out@[i] as int),
{
    let mut out: Vec<i64> = Vec::new();
    let mut i: usize = 0;
    let len = hor_edges.len();
    while i < len
        invariant
            i <= len,
            len == hor_edges@.len(),
            vert_edges@.len() == len,
            all_bounded(hor_edges@, SAMPLE_LIMIT as int),
            all_bounded(vert_edges@, SAMPLE_LIMIT as int),
            out@.len() == i,
            forall|j: int| 0 <= j < i ==> is_clamped_root(
                (hor_edges@[j] as int) * (hor_edges@[j] as int)
                    + (vert_edges@[j] as int) * (vert_edges@[j] as int),
                #[trigger] out@[j] as int),
        decreases len - i,
    {
        let hv = hor_edges[i];
        let vv = vert_edges[i];
        proof {
            assert(-SAMPLE_LIMIT <= hv <= SAMPLE_LIMIT);
            assert(-SAMPLE_LIMIT <= vv <= SAMPLE_LIMIT);
            assert(0 <= (hv as int) * (hv as int) <= 1099511627776) by (nonlinear_arith)
                requires -1048576 <= hv as int <= 1048576;
            assert(0 <= (vv as int) * (vv as int) <= 1099511627776) by (nonlinear_arith)
                requires -1048576 <= vv as int <= 1048576;
        }
        let n = hv * hv + vv * vv;
        let mut r: i64 = 0;
        let mut done: bool = false;
        while !done
            invariant
                0 <= r <= 255,
                (r as int) * (r as int) <= n as int,
                done ==> r == 255 || ((r as int) + 1) * ((r as int) + 1) > n as int,
            decreases 256 - r + (if done { 0int } else { 1int }),
        {
            if r == 255 {
                done = true;
            } else {
                let rp = r + 1;
                proof {
                    assert((rp as int) * (rp as int) <= 65536) by (nonlinear_arith)
                        requires 1 <= rp as int && rp as int <= 256;
                }
                if rp * rp <= n {
                    r = rp;
                } else {
                    done = true;
                }
            }
        }
        proof {
            assert(is_clamped_root(n as int, r as int));
        }
        out.push(r);
        i = i + 1;
    }
    out
}

/// What one zero-crossing probe writes: full white when the two flanking
/// samples straddle zero and the straddle exceeds the threshold.
pub open spec fn cross_val(a: int, b: int, t: int) -> i64 {
    let lo = if a <= b { a } else { b };
    let hi = if a <= b { b } else { a };
    if lo < 0 && hi > 0 && hi - lo > t {
        255
    } else {
        0
    }
}

/// The horizontal probe at (x, y): its left and right neighbors.
pub open spec fn hcross(img: Seq<i64>, w: int, x: int, y: int, t: int) -> i64 {
    cross_val(img[y * w + x - 1] as int, img[y * w + x + 1] as int, t)
}

/// The vertical probe at (x, y): its top and bottom neighbors.
pub open spec fn vcross(img: Seq<i64>, w: int, x: int, y: int, t: int) -> i64 {
    cross_val(img[(y - 1) * w + x] as int, img[(y + 1) * w + x] as int, t)
}

/// The value the zero-crossing detector leaves at flat index `i`. The
/// vertical pass runs second and overwrites the horizontal pass on every
/// row it covers, so only the top and bottom rows keep horizontal results;
/// the outer border and corners stay zero.
pub open spec fn zero_crossing_at(img: Seq<i64>, w: int, h: int, t: int, i: int) -> i64 {
    let x = col_of(i, w, 1);
    let y = row_of(i, w, 1);
    if 1 <= y < h - 1 {
        vcross(img, w, x, y, t)
    } else if 1 <= x < w - 1 {
        hcross(img, w, x, y, t)
    } else {
        0
    }
}

/// Scan-progress of the horizontal pass at column `x`, row `y`.
spec fn hpass_progress(img: Seq<i64>, out: Seq<i64>, w: int, h: int, t: int,
    x: int, y: int) -> bool {
    &&& out.len() == img.len()
    &&& forall|i: int| 0 <= i < img.len() ==> #[trigger] out[i] == (
        if 1 <= col_of(i, w, 1)
            && (col_of(i, w, 1) < x || (col_of(i, w, 1) == x && row_of(i, w, 1) < y)) {
            hcross(img, w, col_of(i, w, 1), row_of(i, w, 1), t)
        } else {
            0i64
        })
}

/// Scan-progress of the overwriting vertical pass at column `x`, row `y`.
spec fn vpass_progress(img: Seq<i64>, out: Seq<i64>, w: int, h: int, t: int,
    x: int, y: int) -> bool {
    &&& out.len() == img.len()
    &&& forall|i: int| 0 <= i < img.len() ==> #[trigger] out[i] == (
        if 1 <= row_of(i, w, 1) < h - 1
            && (col_of(i, w, 1) < x || (col_of(i, w, 1) == x && row_of(i, w, 1) < y)) {
            vcross(img, w, col_of(i, w, 1), row_of(i, w, 1), t)
        } else if 1 <= col_of(i, w, 1) < w - 1 {
            hcross(img, w, col_of(i, w, 1), row_of(i, w, 1), t)
        } else {
            0i64
        })
}

/// Zero-crossing detector over a signed field: a horizontal pass over
/// columns [1, w-2] and then a vertical pass over rows [1, h-2], the
/// second overwriting the first wherever both compute a value.
pub fn zero_crossings(img: &Vec<i64>, img_width: usize, img_height: usize, thresh: i64)
    -> (out: Vec<i64>)
    requires
        img@.len() == img_width * img_height,
        all_bounded(img@, SAMPLE_LIMIT as int),
    ensures
        out@.len() == img@.len(),
        forall|i: int| 0 <= i < out@.len() ==> #[trigger] out@[i] == zero_crossing_at(
            img@, img_width as int, img_height as int, thresh as int, i),
{
    let ghost wi = img_width as int;
    let ghost hi = img_height as int;
    let ghost ti = thresh as int;
    let len = img.len();
    let mut out = zero_buffer(len);
    proof {
        assert(wi * hi * 1 == wi * hi);
    }

    // Horizontal pass.
    if img_width >= 2 && img_height >= 1 {
        let mut x: usize = 1;
        while x < img_width - 1
            invariant
                img@.len() == img_width * img_height,
                all_bounded(img@, SAMPLE_LIMIT as int),
                img_width >= 2,
                wi == img_width as int,
                hi == img_height as int,
                ti == thresh as int,
                len == img@.len(),
                1 <= x <= img_width - 1,
                hpass_progress(img@, out@, wi, hi, ti, x as int, 0),
            decreases img_width - 1 - x,
        {
            let mut y: usize = 0;
            while y < img_height
                invariant
                    img@.len() == img_width * img_height,
                    all_bounded(img@, SAMPLE_LIMIT as int),
                    img_width >= 2,
                    wi == img_width as int,
                    hi == img_height as int,
                    ti == thresh as int,
                    len == img@.len(),
                    1 <= x < img_width - 1,
                    y <= img_height,
                    hpass_progress(img@, out@, wi, hi, ti, x as int, y as int),
                decreases img_height - y,
            {
                proof {
                    lemma_index_compose(x as int - 1, y as int, 0, wi, hi, 1);
                    lemma_index_compose(x as int + 1, y as int, 0, wi, hi, 1);
                    lemma_index_compose(x as int, y as int, 0, wi, hi, 1);
                    assert(sample_index(x as int - 1, y as int, 0, wi, 1)
                        == (y as int) * wi + (x as int) - 1) by (nonlinear_arith);
                    assert(sample_index(x as int + 1, y as int, 0, wi, 1)
                        == (y as int) * wi + (x as int) + 1) by (nonlinear_arith);
                    assert(sample_index(x as int, y as int, 0, wi, 1)
                        == (y as int) * wi + (x as int)) by (nonlinear_arith);
                    assert((y as int) * wi >= 0) by (nonlinear_arith)
                        requires y as int >= 0 && wi >= 0;
                }
                let row = y * img_width;
                let left = img[x - 1 + row];
                let right = img[x + 1 + row];
                proof {
                    assert(-SAMPLE_LIMIT <= left <= SAMPLE_LIMIT);
                    assert(-SAMPLE_LIMIT <= right <= SAMPLE_LIMIT);
                }
                let lo = if left <= right { left } else { right };
                let hi_s = if left <= right { right } else { left };
                let v: i64 = if lo < 0 && hi_s > 0 && hi_s - lo > thresh {
                    255
                } else {
                    0
                };
                let idx = x + row;
                let ghost out_before = out@;
                out[idx] = v;
                proof {
                    assert(v == hcross(img@, wi, x as int, y as int, ti));
                    assert forall|i: int| 0 <= i < img@.len() implies #[trigger] out@[i] == (
                        if 1 <= col_of(i, wi, 1)
                            && (col_of(i, wi, 1) < x as int
                                || (col_of(i, wi, 1) == x as int && row_of(i, wi, 1) < y + 1)) {
                            hcross(img@, wi, col_of(i, wi, 1), row_of(i, wi, 1), ti)
                        } else {
                            0i64
                        }) by {
                        lemma_index_decompose(i, wi, hi, 1);
                        if i == idx as int {
                            assert(col_of(i, wi, 1) == x as int);
                            assert(row_of(i, wi, 1) == y as int);
                        } else {
                            assert(out@[i] == out_before[i]);
                            if col_of(i, wi, 1) == x as int && row_of(i, wi, 1) == y as int {
                                assert(i == sample_index(x as int, y as int, 0, wi, 1));
                            }
                        }
                    }
                }
                y = y + 1;
            }
            proof {
                assert forall|i: int| 0 <= i < img@.len() implies #[trigger] out@[i] == (
                    if 1 <= col_of(i, wi, 1)
                        && (col_of(i, wi, 1) < x as int + 1
                            || (col_of(i, wi, 1) == x as int + 1 && row_of(i, wi, 1) < 0)) {
                        hcross(img@, wi, col_of(i, wi, 1), row_of(i, wi, 1), ti)
                    } else {
                        0i64
                    }) by {
                    lemma_index_decompose(i, wi, hi, 1);
                }
            }
            x = x + 1;
        }
    }

    // The horizontal pass is over: what it wrote is exactly the hcross
    // field over columns [1, w-2].
    proof {
        assert forall|i: int| 0 <= i < img@.len() implies #[trigger] out@[i] == (
            if 1 <= col_of(i, wi, 1) < wi - 1 {
                hcross(img@, wi, col_of(i, wi, 1), row_of(i, wi, 1), ti)
            } else {
                0i64
            }) by {
            lemma_index_decompose(i, wi, hi, 1);
        }
        assert(vpass_progress(img@, out@, wi, hi, ti, 0, 1)) by {
            assert forall|i: int| 0 <= i < img@.len() implies #[trigger] out@[i] == (
                if 1 <= row_of(i, wi, 1) < hi - 1
                    && (col_of(i, wi, 1) < 0 || (col_of(i, wi, 1) == 0 && row_of(i, wi, 1) < 1)) {
                    vcross(img@, wi, col_of(i, wi, 1), row_of(i, wi, 1), ti)
                } else if 1 <= col_of(i, wi, 1) < wi - 1 {
                    hcross(img@, wi, col_of(i, wi, 1), row_of(i, wi, 1), ti)
                } else {
                    0i64
                }) by {
                lemma_index_decompose(i, wi, hi, 1);
            }
        }
    }

    // Vertical pass, overwriting.
    if img_height >= 2 {
        let mut x: usize = 0;
        while x < img_width
            invariant
                img@.len() == img_width * img_height,
                all_bounded(img@, SAMPLE_LIMIT as int),
                img_height >= 2,
                wi == img_width as int,
                hi == img_height as int,
                ti == thresh as int,
                len == img@.len(),
                x <= img_width,
                vpass_progress(img@, out@, wi, hi, ti, x as int, 1),
            decreases img_width - x,
        {
            let mut y: usize = 1;
            while y < img_height - 1
                invariant
                    img@.len() == img_width * img_height,
                    all_bounded(img@, SAMPLE_LIMIT as int),
                    img_height >= 2,
                    wi == img_width as int,
                    hi == img_height as int,
                    ti == thresh as int,
                    len == img@.len(),
                    x < img_width,
                    1 <= y <= img_height - 1,
                    vpass_progress(img@, out@, wi, hi, ti, x as int, y as int),
                decreases img_height - 1 - y,
            {
                proof {
                    lemma_index_compose(x as int, y as int - 1, 0, wi, hi, 1);
                    lemma_index_compose(x as int, y as int + 1, 0, wi, hi, 1);
                    lemma_index_compose(x as int, y as int, 0, wi, hi, 1);
                    assert(sample_index(x as int, y as int - 1, 0, wi, 1)
                        == (y as int - 1) * wi + (x as int)) by (nonlinear_arith);
                    assert(sample_index(x as int, y as int + 1, 0, wi, 1)
                        == (y as int + 1) * wi + (x as int)) by (nonlinear_arith);
                    assert(sample_index(x as int, y as int, 0, wi, 1)
                        == (y as int) * wi + (x as int)) by (nonlinear_arith);
                    assert((y as int - 1) * wi >= 0) by (nonlinear_arith)
                        requires y as int >= 1 && wi >= 0;
                    assert((y as int + 1) * wi == (y as int - 1) * wi + wi + wi)
                        by (nonlinear_arith);
                }
                let top = img[x + (y - 1) * img_width];
                let bottom = img[x + (y + 1) * img_width];
                proof {
                    assert(-SAMPLE_LIMIT <= top <= SAMPLE_LIMIT);
                    assert(-SAMPLE_LIMIT <= bottom <= SAMPLE_LIMIT);
                }
                let lo = if top <= bottom { top } else { bottom };
                let hi_s = if top <= bottom { bottom } else { top };
                let v: i64 = if lo < 0 && hi_s > 0 && hi_s - lo > thresh {
                    255
                } else {
                    0
                };
                let idx = x + y * img_width;
                let ghost out_before = out@;
                out[idx] = v;
                proof {
                    assert(v == vcross(img@, wi, x as int, y as int, ti));
                    assert forall|i: int| 0 <= i < img@.len() implies #[trigger] out@[i] == (
                        if 1 <= row_of(i, wi, 1) < hi - 1
                            && (col_of(i, wi, 1) < x as int
                                || (col_of(i, wi, 1) == x as int && row_of(i, wi, 1) < y + 1)) {
                            vcross(img@, wi, col_of(i, wi, 1), row_of(i, wi, 1), ti)
                        } else if 1 <= col_of(i, wi, 1) < wi - 1 {
                            hcross(img@, wi, col_of(i, wi, 1), row_of(i, wi, 1), ti)
                        } else {
                            0i64
                        }) by {
                        lemma_index_decompose(i, wi, hi, 1);
                        if i == idx as int {
                            assert(col_of(i, wi, 1) == x as int);
                            assert(row_of(i, wi, 1) == y as int);
                        } else {
                            assert(out@[i] == out_before[i]);
                            if col_of(i, wi, 1) == x as int && row_of(i, wi, 1) == y as int {
                                assert(i == sample_index(x as int, y as int, 0, wi, 1));
                            }
                        }
                    }
                }
                y = y + 1;
            }
            proof {
                assert forall|i: int| 0 <= i < img@.len() implies #[trigger] out@[i] == (
                    if 1 <= row_of(i, wi, 1) < hi - 1
                        && (col_of(i, wi, 1) < x as int + 1
                            || (col_of(i, wi, 1) == x as int + 1 && row_of(i, wi, 1) < 1)) {
                        vcross(img@, wi, col_of(i, wi, 1), row_of(i, wi, 1), ti)
                    } else if 1 <= col_of(i, wi, 1) < wi - 1 {
                        hcross(img@, wi, col_of(i, wi, 1), row_of(i, wi, 1), ti)
                    } else {
                        0i64
                    }) by {
                    lemma_index_decompose(i, wi, hi, 1);
                }
            }
            x = x + 1;
        }
    }

    proof {
        assert forall|i: int| 0 <= i < out@.len() implies #[trigger] out@[i] == zero_crossing_at(
            img@, wi, hi, ti, i) by {
            lemma_index_decompose(i, wi, hi, 1);
        }
    }
    out
}

} // verus!
