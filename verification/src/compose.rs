use vstd::prelude::*;
use crate::model::{col_of, row_of, lemma_index_decompose};

verus! {

/// The value the compositor leaves at flat index `i`: black wherever the
/// single-channel edge mask holds any nonzero sample for that pixel, the
/// color sample unchanged everywhere else.
pub open spec fn cartoonified_at(img: Seq<i64>, mask: Seq<i64>, w: int, ch: int, i: int) -> i64 {
    let x = col_of(i, w, ch);
    let y = row_of(i, w, ch);
    if mask[y * w + x] != 0 {
        0
    } else {
        img[i]
    }
}

/// Merge a color image with a binary edge mask: every channel of a pixel
/// under a nonzero mask sample goes black, all other samples pass through.
pub fn cartoonify(img: &Vec<i64>, edge_grad: &Vec<i64>, img_width: usize, img_height: usize,
    pix_size: usize) -> (out: Vec<i64>)
    requires
        img@.len() == img_width * img_height * pix_size,
        edge_grad@.len() == img_width * img_height,
        1 <= pix_size,
    ensures
        out@.len() == img@.len(),
        forall|i: int| 0 <= i < out@.len() ==> #[trigger] out@[i] == cartoonified_at(
            img@, edge_grad@, img_width as int, pix_size as int, i),
{
    let ghost wi = img_width as int;
    let ghost hi = img_height as int;
    let ghost chi = pix_size as int;
    let len = img.len();
    let mut out: Vec<i64> = Vec::new();
    if len == 0 {
        return out;
    }
    proof {
        assert(0 < wi && 0 < hi) by (nonlinear_arith)
            requires
                0 < wi * hi * chi,
                0 <= wi && 0 <= hi && 0 < chi;
        assert(wi * chi <= wi * hi * chi) by (nonlinear_arith)
            requires 1 <= hi && 0 <= wi && 0 <= chi;
        assert(wi * hi <= wi * hi * chi) by (nonlinear_arith)
            requires 1 <= chi && 0 <= wi && 0 <= hi;
        assert(1 <= wi * chi) by (nonlinear_arith)
            requires 1 <= wi && 1 <= chi;
    }
    let row_width = img_width * pix_size;
    let mut i: usize = 0;
    while i < len
        invariant
            img@.len() == img_width * img_height * pix_size,
            edge_grad@.len() == img_width * img_height,
            1 <= pix_size,
            1 <= img_width,
            1 <= img_height,
            wi == img_width as int,
            hi == img_height as int,
            chi == pix_size as int,
            len == img@.len(),
            row_width == img_width * pix_size,
            1 <= row_width,
            (img_width * img_height) as int <= len as int,
            i <= len,
            out@.len() == i,
            forall|j: int| 0 <= j < i ==> #[trigger] out@[j] == cartoonified_at(
                img@, edge_grad@, wi, chi, j),
        decreases len - i,
    {
        proof {
            lemma_index_decompose(i as int, wi, hi, chi);
        }
        let x = (i % row_width) / pix_size;
        let y = i / row_width;
        proof {
            assert(x as int == col_of(i as int, wi, chi));
            assert(y as int == row_of(i as int, wi, chi));
            assert((y as int) * wi + (x as int) < wi * hi) by (nonlinear_arith)
                requires
                    0 <= (x as int) && (x as int) < wi,
                    0 <= (y as int) && (y as int) < hi;
            assert((y as int) * wi >= 0) by (nonlinear_arith)
                requires 0 <= y as int && 0 <= wi;
        }
        let gray_ind = x + y * img_width;
        if edge_grad[gray_ind] != 0 {
            out.push(0);
        } else {
            out.push(img[i]);
        }
        i = i + 1;
    }
    out
}

} // verus!
