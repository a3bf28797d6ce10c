use vstd::prelude::*;
use vstd::arithmetic::div_mod::lemma_fundamental_div_mod_converse;

verus! {

/// Flat index of the sample for channel `c` of the pixel in column `x`,
/// row `y`, in a row-major, channel-interleaved buffer of width `w`
/// pixels with `ch` channels per pixel.
pub open spec fn sample_index(x: int, y: int, c: int, w: int, ch: int) -> int {
    y * w * ch + x * ch + c
}

/// Column of the pixel that flat index `i` belongs to.
pub open spec fn col_of(i: int, w: int, ch: int) -> int {
    (i % (w * ch)) / ch
}

/// Row of the pixel that flat index `i` belongs to.
pub open spec fn row_of(i: int, w: int, ch: int) -> int {
    i / (w * ch)
}

/// Channel of the sample at flat index `i`.
pub open spec fn chan_of(i: int, w: int, ch: int) -> int {
    (i % (w * ch)) % ch
}

/// A pixel is interior for a filter with edge radius `e` when it lies at
/// least `e` away from every border.
pub open spec fn is_interior(x: int, y: int, w: int, h: int, e: int) -> bool {
    e <= x < w - e && e <= y < h - e
}

/// Every sample of the buffer lies in `[-b, b]`.
pub open spec fn all_bounded(s: Seq<i64>, b: int) -> bool {
    forall|i: int| 0 <= i < s.len() ==> -b <= #[trigger] s[i] <= b
}

/// Composing a (column, row, channel) triple into a flat index and taking
/// it apart again returns the same triple, and the index is in range.
pub proof fn lemma_index_compose(x: int, y: int, c: int, w: int, h: int, ch: int)
    requires
        0 <= x < w,
        0 <= y < h,
        0 <= c < ch,
    ensures
        0 <= sample_index(x, y, c, w, ch) < w * h * ch,
        col_of(sample_index(x, y, c, w, ch), w, ch) == x,
        row_of(sample_index(x, y, c, w, ch), w, ch) == y,
        chan_of(sample_index(x, y, c, w, ch), w, ch) == c,
{
    let i = sample_index(x, y, c, w, ch);
    assert(0 <= x * ch + c < w * ch) by (nonlinear_arith)
        requires 0 <= x < w && 0 <= c < ch;
    assert(i == y * (w * ch) + (x * ch + c)) by (nonlinear_arith)
        requires i == y * w * ch + x * ch + c;
    lemma_fundamental_div_mod_converse(i, w * ch, y, x * ch + c);
    lemma_fundamental_div_mod_converse(x * ch + c, ch, x, c);
    assert(0 <= i < w * h * ch) by (nonlinear_arith)
        requires
            0 <= x < w && 0 <= y < h && 0 <= c < ch,
            i == y * w * ch + x * ch + c;
}

/// Taking a flat index in range apart into (column, row, channel) gives
/// coordinates in range that compose back to the same index.
pub proof fn lemma_index_decompose(i: int, w: int, h: int, ch: int)
    requires
        0 <= i < w * h * ch,
        0 < w,
        0 < h,
        0 < ch,
    ensures
        0 <= col_of(i, w, ch) < w,
        0 <= row_of(i, w, ch) < h,
        0 <= chan_of(i, w, ch) < ch,
        sample_index(col_of(i, w, ch), row_of(i, w, ch), chan_of(i, w, ch), w, ch) == i,
{
    let y = row_of(i, w, ch);
    let r = i % (w * ch);
    let x = col_of(i, w, ch);
    let c = chan_of(i, w, ch);
    assert(0 < w * ch) by (nonlinear_arith)
        requires 0 < w && 0 < ch;
    vstd::arithmetic::div_mod::lemma_fundamental_div_mod(i, w * ch);
    vstd::arithmetic::div_mod::lemma_mod_bound(i, w * ch);
    vstd::arithmetic::div_mod::lemma_fundamental_div_mod(r, ch);
    vstd::arithmetic::div_mod::lemma_mod_bound(r, ch);
    assert(i == y * (w * ch) + r);
    assert(r == x * ch + c);
    assert(0 <= y) by (nonlinear_arith)
        requires i == y * (w * ch) + r && 0 <= i && 0 <= r < w * ch && 0 < w * ch;
    assert(y < h) by (nonlinear_arith)
        requires
            i == y * (w * ch) + r,
            i < w * h * ch && 0 <= r < w * ch && 0 < w * ch;
    assert(0 <= x < w) by (nonlinear_arith)
        requires r == x * ch + c && 0 <= r < w * ch && 0 <= c < ch && 0 < ch;
    assert(sample_index(x, y, c, w, ch) == i) by (nonlinear_arith)
        requires i == y * (w * ch) + r && r == x * ch + c;
}


/// The square neighborhood of side `k` around the pixel in column `x`,
/// row `y`, for channel `c`: scanned with the column offset outer and the
/// row offset inner, exactly as the filters walk it.
pub open spec fn window(img: Seq<i64>, x: int, y: int, c: int, w: int, ch: int, k: int) -> Seq<i64> {
    Seq::new((k * k) as nat, |j: int|
        img[sample_index(x + j / k - k / 2, y + j % k - k / 2, c, w, ch)])
}

/// The median of a neighborhood: the element at the middle rank of its
/// sorted form.
pub open spec fn median_of(s: Seq<i64>) -> i64 {
    s.sort_by(crate::sorting::sample_le())[s.len() as int / 2]
}

/// The value the median filter of size `k` leaves at flat index `i`:
/// the window median at interior pixels, zero on the border.
pub open spec fn median_filtered_at(img: Seq<i64>, w: int, h: int, ch: int, k: int, i: int) -> i64 {
    let x = col_of(i, w, ch);
    let y = row_of(i, w, ch);
    let c = chan_of(i, w, ch);
    if is_interior(x, y, w, h, k / 2) {
        median_of(window(img, x, y, c, w, ch, k))
    } else {
        0
    }
}

/// Scan-order progress: sample (xi, yi, ci) has already been handled when
/// the filter stands at column `x`, row `y`, channel `c`.
pub open spec fn scanned_before(xi: int, yi: int, ci: int, x: int, y: int, c: int) -> bool {
    xi < x || (xi == x && (yi < y || (yi == y && ci < c)))
}


/// Largest magnitude allowed of a sample entering a convolution.
pub const SAMPLE_LIMIT: i64 = 1048576;

/// Largest magnitude allowed of a kernel weight.
pub const WEIGHT_LIMIT: i64 = 1048576;

/// One convolution term at scan position `j`: the kernel weight for
/// column offset `j / k`, row offset `j % k`, times the sample under it.
pub open spec fn conv_term(img: Seq<i64>, kern: Seq<i64>, x: int, y: int, c: int,
    w: int, ch: int, k: int, j: int) -> int {
    kern[j / k + (j % k) * k] * img[sample_index(x + j / k - k / 2, y + j % k - k / 2, c, w, ch)]
}

/// Sum of the first `n` convolution terms in scan order.
pub open spec fn conv_sum_upto(img: Seq<i64>, kern: Seq<i64>, x: int, y: int, c: int,
    w: int, ch: int, k: int, n: int) -> int
    decreases n,
{
    if n <= 0 {
        0
    } else {
        conv_sum_upto(img, kern, x, y, c, w, ch, k, n - 1)
            + conv_term(img, kern, x, y, c, w, ch, k, n - 1)
    }
}

/// The full weighted sum of the neighborhood of side `k` against the kernel.
pub open spec fn conv_sum(img: Seq<i64>, kern: Seq<i64>, x: int, y: int, c: int,
    w: int, ch: int, k: int) -> int {
    conv_sum_upto(img, kern, x, y, c, w, ch, k, k * k)
}

/// Division truncating toward zero, for a positive divisor: what the
/// machine division of the samples computes.
pub open spec fn div_trunc(a: int, d: int) -> int
    recommends
        d >= 1,
{
    if a >= 0 {
        a / d
    } else {
        -((-a) / d)
    }
}

/// The value the convolution of kernel side `k` and divisor `d` leaves at
/// flat index `i`: the weighted neighborhood sum divided by `d` at interior
/// pixels, zero on the border.
pub open spec fn convolved_at(img: Seq<i64>, kern: Seq<i64>, w: int, h: int, ch: int,
    k: int, d: int, i: int) -> int {
    let x = col_of(i, w, ch);
    let y = row_of(i, w, ch);
    let c = chan_of(i, w, ch);
    if is_interior(x, y, w, h, k / 2) {
        div_trunc(conv_sum(img, kern, x, y, c, w, ch, k), d)
    } else {
        0
    }
}


/// Every convolution term draws its sample from inside the buffer and its
/// weight from inside the kernel, so the partial sums grow by at most
/// `s * wt` per term.
pub proof fn lemma_conv_sum_upto_bound(img: Seq<i64>, kern: Seq<i64>, x: int, y: int, c: int,
    w: int, h: int, ch: int, k: int, n: int, s: int, wt: int)
    requires
        img.len() == w * h * ch,
        kern.len() == k * k,
        all_bounded(img, s),
        all_bounded(kern, wt),
        0 <= s,
        0 <= wt,
        3 <= k,
        is_interior(x, y, w, h, k / 2),
        0 <= c < ch,
        0 <= n <= k * k,
    ensures
        -(n * s * wt) <= conv_sum_upto(img, kern, x, y, c, w, ch, k, n) <= n * s * wt,
    decreases n,
{
    if n <= 0 {
    } else {
        let j = n - 1;
        lemma_conv_sum_upto_bound(img, kern, x, y, c, w, h, ch, k, j, s, wt);
        vstd::arithmetic::div_mod::lemma_fundamental_div_mod(j, k);
        vstd::arithmetic::div_mod::lemma_mod_bound(j, k);
        let dx = j / k;
        let dy = j % k;
        assert(0 <= dx < k) by (nonlinear_arith)
            requires j == k * dx + dy && 0 <= j && j < k * k && 0 <= dy < k && 3 <= k;
        assert(0 <= dx + dy * k < k * k) by (nonlinear_arith)
            requires 0 <= dx < k && 0 <= dy < k;
        assert(-wt <= kern[dx + dy * k] <= wt);
        lemma_index_compose(x + dx - k / 2, y + dy - k / 2, c, w, h, ch);
        let si = sample_index(x + dx - k / 2, y + dy - k / 2, c, w, ch);
        assert(-s <= img[si] <= s);
        assert(-(s * wt) <= conv_term(img, kern, x, y, c, w, ch, k, j) <= s * wt)
            by (nonlinear_arith)
            requires
                conv_term(img, kern, x, y, c, w, ch, k, j)
                    == kern[dx + dy * k] * img[sample_index(x + dx - k / 2, y + dy - k / 2, c, w, ch)],
                -wt <= kern[dx + dy * k] <= wt,
                -s <= img[sample_index(x + dx - k / 2, y + dy - k / 2, c, w, ch)] <= s,
                0 <= s,
                0 <= wt;
        assert(n * s * wt == j * s * wt + s * wt) by (nonlinear_arith)
            requires n == j + 1;
    }
}

/// Truncating division by a positive divisor never grows the magnitude.
pub proof fn lemma_div_trunc_bound(a: int, d: int, b: int)
    requires
        1 <= d,
        -b <= a <= b,
        0 <= b,
    ensures
        -b <= div_trunc(a, d) <= b,
{
    if a >= 0 {
        vstd::arithmetic::div_mod::lemma_fundamental_div_mod(a, d);
        vstd::arithmetic::div_mod::lemma_mod_bound(a, d);
        assert(0 <= a / d <= a) by (nonlinear_arith)
            requires a == d * (a / d) + a % d && 0 <= a % d < d && 1 <= d && 0 <= a;
    } else {
        let m = -a;
        vstd::arithmetic::div_mod::lemma_fundamental_div_mod(m, d);
        vstd::arithmetic::div_mod::lemma_mod_bound(m, d);
        assert(0 <= m / d <= m) by (nonlinear_arith)
            requires m == d * (m / d) + m % d && 0 <= m % d < d && 1 <= d && 0 <= m;
    }
}

/// Magnitude bound on what a convolution stage writes, from bounds on its
/// input samples and kernel weights.
pub proof fn lemma_convolved_bound(img: Seq<i64>, kern: Seq<i64>, w: int, h: int, ch: int,
    k: int, d: int, i: int, s: int, wt: int)
    requires
        img.len() == w * h * ch,
        kern.len() == k * k,
        all_bounded(img, s),
        all_bounded(kern, wt),
        0 <= s,
        0 <= wt,
        3 <= k,
        1 <= d,
        0 < ch,
        0 <= w,
        0 <= h,
        0 <= i < img.len(),
    ensures
        -(k * k * s * wt) <= convolved_at(img, kern, w, h, ch, k, d, i) <= k * k * s * wt,
{
    let x = col_of(i, w, ch);
    let y = row_of(i, w, ch);
    let c = chan_of(i, w, ch);
    assert(0 < w && 0 < h) by (nonlinear_arith)
        requires
            0 < img.len() && img.len() == w * h * ch,
            0 < ch && 0 <= w && 0 <= h;
    lemma_index_decompose(i, w, h, ch);
    assert(0 <= k * k * s * wt) by (nonlinear_arith)
        requires 0 <= s && 0 <= wt && 0 <= k;
    if is_interior(x, y, w, h, k / 2) {
        lemma_conv_sum_upto_bound(img, kern, x, y, c, w, h, ch, k, k * k, s, wt);
        lemma_div_trunc_bound(conv_sum(img, kern, x, y, c, w, ch, k), d, k * k * s * wt);
    }
}

} // verus!
