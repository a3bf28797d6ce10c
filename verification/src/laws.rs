use vstd::prelude::*;
use vstd::arithmetic::div_mod::{lemma_fundamental_div_mod, lemma_fundamental_div_mod_converse,
    lemma_mod_bound};
use crate::model::{
    sample_index, col_of, row_of, chan_of, is_interior, window, median_of, median_filtered_at,
    conv_term, conv_sum_upto, conv_sum, convolved_at, lemma_index_compose, lemma_index_decompose,
};
use crate::sorting::{sample_le, lemma_sample_le_total};
use crate::edges::{threshold_val, hcross};
use crate::compose::cartoonified_at;

verus! {

/// The median of a run of identical samples is that sample.
pub proof fn lemma_median_of_constant(s: Seq<i64>, v: i64)
    requires
        s.len() > 0,
        forall|j: int| 0 <= j < s.len() ==> s[j] == v,
    ensures
        median_of(s) == v,
{
    broadcast use vstd::seq_lib::group_to_multiset_ensures;
    broadcast use vstd::multiset::group_multiset_axioms;

    lemma_sample_le_total();
    s.lemma_sort_by_ensures(sample_le());
    let t = s.sort_by(sample_le());
    assert(t.to_multiset() == s.to_multiset());
    assert(t.to_multiset().len() == s.to_multiset().len());
    assert(t.len() == s.len());
    let mid = t.len() as int / 2;
    assert(0 <= mid < t.len());
    assert(t.contains(t[mid]));
    vstd::seq_lib::to_multiset_contains(t, t[mid]);
    vstd::seq_lib::to_multiset_contains(s, t[mid]);
    assert(s.contains(t[mid]));
    let j = choose|j: int| 0 <= j < s.len() && s[j] == t[mid];
    assert(t[mid] == v);
}

/// A median pass over a constant-valued image reproduces that value at
/// every interior pixel, channel by channel.
pub proof fn lemma_median_constant(img: Seq<i64>, w: int, h: int, ch: int, k: int, v: i64, i: int)
    requires
        img.len() == w * h * ch,
        forall|j: int| 0 <= j < img.len() ==> img[j] == v,
        0 < ch,
        0 <= w,
        0 <= h,
        k % 2 == 1,
        3 <= k,
        0 <= i < img.len(),
        is_interior(col_of(i, w, ch), row_of(i, w, ch), w, h, k / 2),
    ensures
        median_filtered_at(img, w, h, ch, k, i) == v,
{
    let x = col_of(i, w, ch);
    let y = row_of(i, w, ch);
    let c = chan_of(i, w, ch);
    assert(0 < w && 0 < h) by (nonlinear_arith)
        requires
            0 < img.len() && img.len() == w * h * ch,
            0 < ch && 0 <= w && 0 <= h;
    lemma_index_decompose(i, w, h, ch);
    let win = window(img, x, y, c, w, ch, k);
    assert(0 < k * k) by (nonlinear_arith)
        requires 3 <= k;
    assert forall|j: int| 0 <= j < win.len() implies win[j] == v by {
        lemma_fundamental_div_mod(j, k);
        lemma_mod_bound(j, k);
        let dx = j / k;
        let dy = j % k;
        assert(0 <= dx < k) by (nonlinear_arith)
            requires j == k * dx + dy && 0 <= j && j < k * k && 0 <= dy < k && 3 <= k;
        lemma_index_compose(x + dx - k / 2, y + dy - k / 2, c, w, h, ch);
        assert(win[j] == img[sample_index(x + dx - k / 2, y + dy - k / 2, c, w, ch)]);
    }
    lemma_median_of_constant(win, v);
}

/// Pixels within `k / 2` of any edge are left at zero, whatever the
/// input holds: the border policy of both sliding-window filters.
pub proof fn lemma_border_zero(img: Seq<i64>, kern: Seq<i64>, w: int, h: int, ch: int, k: int,
    d: int, i: int)
    requires
        !is_interior(col_of(i, w, ch), row_of(i, w, ch), w, h, k / 2),
    ensures
        median_filtered_at(img, w, h, ch, k, i) == 0,
        convolved_at(img, kern, w, h, ch, k, d, i) == 0,
{
}

/// Partial sums of a convolution against the one-hot center kernel: zero
/// until the center term is taken, the center sample afterwards.
proof fn lemma_center_sum_upto(img: Seq<i64>, kern: Seq<i64>, x: int, y: int, c: int,
    w: int, h: int, ch: int, k: int, n: int)
    requires
        img.len() == w * h * ch,
        kern.len() == k * k,
        kern[k * k / 2] == 1,
        forall|j: int| 0 <= j < k * k && j != k * k / 2 ==> kern[j] == 0,
        k % 2 == 1,
        3 <= k,
        is_interior(x, y, w, h, k / 2),
        0 <= c < ch,
        0 <= n <= k * k,
    ensures
        conv_sum_upto(img, kern, x, y, c, w, ch, k, n) == if n > k * k / 2 {
            img[sample_index(x, y, c, w, ch)] as int
        } else {
            0
        },
    decreases n,
{
    assert(k * k / 2 < k * k && 0 <= k * k / 2) by (nonlinear_arith)
        requires 3 <= k;
    if n <= 0 {
    } else {
        let j = n - 1;
        lemma_center_sum_upto(img, kern, x, y, c, w, h, ch, k, j);
        lemma_fundamental_div_mod(j, k);
        lemma_mod_bound(j, k);
        let dx = j / k;
        let dy = j % k;
        assert(0 <= dx < k) by (nonlinear_arith)
            requires j == k * dx + dy && 0 <= j && j < k * k && 0 <= dy < k && 3 <= k;
        let kidx = dx + dy * k;
        assert(0 <= kidx < k * k) by (nonlinear_arith)
            requires kidx == dx + dy * k && 0 <= dx < k && 0 <= dy < k;
        assert(conv_term(img, kern, x, y, c, w, ch, k, j)
            == kern[kidx] * img[sample_index(x + dx - k / 2, y + dy - k / 2, c, w, ch)]);
        if j == k * k / 2 {
            // The scan center: its kernel index is again the center.
            assert(k * k / 2 == (k / 2) * k + k / 2) by (nonlinear_arith)
                requires k % 2 == 1 && 3 <= k;
            lemma_fundamental_div_mod_converse(k * k / 2, k, k / 2, k / 2);
            assert(dx == k / 2 && dy == k / 2);
            assert(kidx == k * k / 2) by (nonlinear_arith)
                requires kidx == k / 2 + (k / 2) * k && k * k / 2 == (k / 2) * k + k / 2;
            assert(kern[kidx] == 1);
            assert(conv_term(img, kern, x, y, c, w, ch, k, j)
                == img[sample_index(x, y, c, w, ch)] as int) by (nonlinear_arith)
                requires
                    conv_term(img, kern, x, y, c, w, ch, k, j)
                        == 1 * img[sample_index(x + dx - k / 2, y + dy - k / 2, c, w, ch)],
                    dx == k / 2 && dy == k / 2,
                    img[sample_index(x + dx - k / 2, y + dy - k / 2, c, w, ch)]
                        == img[sample_index(x, y, c, w, ch)];
        } else {
            // Any other scan position touches a zero weight.
            if kidx == k * k / 2 {
                assert(k * k / 2 == (k / 2) * k + k / 2) by (nonlinear_arith)
                    requires k % 2 == 1 && 3 <= k;
                lemma_fundamental_div_mod_converse(kidx, k, dy, dx);
                lemma_fundamental_div_mod_converse(k * k / 2, k, k / 2, k / 2);
                assert(dy == k / 2 && dx == k / 2);
                assert(j == k * dx + dy);
                assert(j == k * k / 2) by (nonlinear_arith)
                    requires j == k * (k / 2) + k / 2 && k * k / 2 == (k / 2) * k + k / 2;
                assert(false);
            }
            assert(kern[kidx] == 0);
            assert(conv_term(img, kern, x, y, c, w, ch, k, j) == 0) by (nonlinear_arith)
                requires conv_term(img, kern, x, y, c, w, ch, k, j)
                    == 0 * img[sample_index(x + dx - k / 2, y + dy - k / 2, c, w, ch)];
        }
    }
}

/// Convolving with a kernel whose only nonzero weight is 1 at the center,
/// over a divisor of 1, reproduces the input exactly at every interior
/// pixel.
pub proof fn lemma_convolution_identity(img: Seq<i64>, kern: Seq<i64>, w: int, h: int, ch: int,
    k: int, i: int)
    requires
        img.len() == w * h * ch,
        kern.len() == k * k,
        kern[k * k / 2] == 1,
        forall|j: int| 0 <= j < k * k && j != k * k / 2 ==> kern[j] == 0,
        k % 2 == 1,
        3 <= k,
        0 < ch,
        0 <= w,
        0 <= h,
        0 <= i < img.len(),
        is_interior(col_of(i, w, ch), row_of(i, w, ch), w, h, k / 2),
    ensures
        convolved_at(img, kern, w, h, ch, k, 1, i) == img[i],
{
    let x = col_of(i, w, ch);
    let y = row_of(i, w, ch);
    let c = chan_of(i, w, ch);
    assert(0 < w && 0 < h) by (nonlinear_arith)
        requires
            0 < img.len() && img.len() == w * h * ch,
            0 < ch && 0 <= w && 0 <= h;
    lemma_index_decompose(i, w, h, ch);
    lemma_center_sum_upto(img, kern, x, y, c, w, h, ch, k, k * k);
    assert(k * k > k * k / 2) by (nonlinear_arith)
        requires 3 <= k;
    assert(conv_sum(img, kern, x, y, c, w, ch, k) == img[i] as int);
    let s = img[i] as int;
    if s >= 0 {
        vstd::arithmetic::div_mod::lemma_div_basics(s);
    } else {
        vstd::arithmetic::div_mod::lemma_div_basics(-s);
    }
}

/// Thresholding maps a sample strictly above the boundary to full white,
/// and the boundary itself or anything below it to black, for any
/// positive distance from the boundary.
pub proof fn lemma_threshold_boundary(b: i64, eps: i64)
    requires
        0 < eps,
        b + eps <= i64::MAX,
        i64::MIN <= b - eps,
    ensures
        threshold_val((b + eps) as i64, b) == 255,
        threshold_val(b, b) == 0,
        threshold_val((b - eps) as i64, b) == 0,
{
}

/// A clean sign change between the two samples flanking an interior
/// pixel marks it exactly when the straddle magnitude exceeds the
/// threshold, whichever side is negative.
pub proof fn lemma_zero_crossing_straddle(img: Seq<i64>, w: int, x: int, y: int, t: int)
    requires
        0 <= y * w + x - 1,
        y * w + x + 1 < img.len(),
    ensures
        img[y * w + x - 1] < 0 < img[y * w + x + 1] ==> hcross(img, w, x, y, t)
            == (if img[y * w + x + 1] - img[y * w + x - 1] > t { 255i64 } else { 0i64 }),
        img[y * w + x + 1] < 0 < img[y * w + x - 1] ==> hcross(img, w, x, y, t)
            == (if img[y * w + x - 1] - img[y * w + x + 1] > t { 255i64 } else { 0i64 }),
{
}

/// With an all-zero edge mask the compositor returns the color image
/// unchanged; with a mask set everywhere it blacks out every sample.
pub proof fn lemma_cartoonify_mask(img: Seq<i64>, mask: Seq<i64>, w: int, h: int, ch: int, i: int)
    requires
        img.len() == w * h * ch,
        mask.len() == w * h,
        0 < ch,
        0 <= w,
        0 <= h,
        0 <= i < img.len(),
    ensures
        (forall|j: int| 0 <= j < mask.len() ==> mask[j] == 0)
            ==> cartoonified_at(img, mask, w, ch, i) == img[i],
        (forall|j: int| 0 <= j < mask.len() ==> mask[j] != 0)
            ==> cartoonified_at(img, mask, w, ch, i) == 0,
{
    let x = col_of(i, w, ch);
    let y = row_of(i, w, ch);
    assert(0 < w && 0 < h) by (nonlinear_arith)
        requires
            0 < img.len() && img.len() == w * h * ch,
            0 < ch && 0 <= w && 0 <= h;
    lemma_index_decompose(i, w, h, ch);
    assert(0 <= y * w + x < w * h) by (nonlinear_arith)
        requires 0 <= x < w && 0 <= y < h;
}

} // verus!
