use vstd::prelude::*;
use crate::model::{
    all_bounded, convolved_at, median_filtered_at, lemma_convolved_bound, SAMPLE_LIMIT,
    WEIGHT_LIMIT,
};
use crate::filters::{median_filt, spatial_filt};
use crate::edges::{edge_gradient, threshold, zero_crossings, threshold_val, is_clamped_root,
    zero_crossing_at};
use crate::compose::{cartoonify, cartoonified_at};

verus! {

/// Failure of a pipeline run before any stage executes.
#[derive(Debug, PartialEq, Eq, Structural, Clone, Copy)]
pub enum PipelineError {
    /// A configured filter size is even or below 3: the edge-radius
    /// arithmetic would silently produce wrong geometry, so the run is
    /// rejected outright.
    InvalidKernelSize,
}

/// The adjustable knobs of the fixed stage sequence.
#[derive(Debug, Clone, Copy)]
pub struct PipelineConfig {
    /// Side of the first, coarser median filter pass over the color image.
    pub median_first: usize,
    /// Side of the second, finer median filter pass.
    pub median_second: usize,
    /// Boundary for binarizing the gradient magnitude field.
    pub boundary: i64,
    /// Least straddle magnitude a zero crossing must reach.
    pub crossing_threshold: i64,
}

/// A filter side the sliding-window stages accept: odd and at least 3.
pub open spec fn valid_filter_size(k: int) -> bool {
    k % 2 == 1 && 3 <= k
}

/// Every sample is a displayable byte value.
pub open spec fn byte_bounded(s: Seq<i64>) -> bool {
    forall|i: int| 0 <= i < s.len() ==> 0 <= #[trigger] s[i] <= 255
}

/// The configuration of the 8-bit, gradient-threshold pipeline: median
/// passes of 5 then 3, and a magnitude boundary of 65.
pub fn gradient_config() -> (c: PipelineConfig)
    ensures
        c.median_first == 5,
        c.median_second == 3,
        c.boundary == 65,
        c.crossing_threshold == 0,
{
    PipelineConfig { median_first: 5, median_second: 3, boundary: 65, crossing_threshold: 0 }
}

/// The configuration of the dual-detector pipeline: median passes of 5
/// then 3, a magnitude boundary of 80, and zero crossings kept above 0.
pub fn dual_config() -> (c: PipelineConfig)
    ensures
        c.median_first == 5,
        c.median_second == 3,
        c.boundary == 80,
        c.crossing_threshold == 0,
{
    PipelineConfig { median_first: 5, median_second: 3, boundary: 80, crossing_threshold: 0 }
}

/// The 3x3 averaging (box blur) kernel: all ones over a divisor of 9.
pub open spec fn box_kernel_weights() -> Seq<i64> {
    seq![1i64, 1i64, 1i64, 1i64, 1i64, 1i64, 1i64, 1i64, 1i64]
}

/// The 3x3 Gaussian smoothing kernel: weights over a divisor of 16.
pub open spec fn gaussian_kernel_weights() -> Seq<i64> {
    seq![1i64, 2i64, 1i64, 2i64, 4i64, 2i64, 1i64, 2i64, 1i64]
}

/// The discrete 3x3 Laplacian kernel.
pub open spec fn laplacian_kernel_weights() -> Seq<i64> {
    seq![-1i64, -1i64, -1i64, -1i64, 8i64, -1i64, -1i64, -1i64, -1i64]
}

/// The Sobel kernel estimating the vertical-edge (horizontal gradient)
/// response.
pub open spec fn sobel_vertical_weights() -> Seq<i64> {
    seq![-1i64, 0i64, 1i64, -2i64, 0i64, 2i64, -1i64, 0i64, 1i64]
}

/// The Sobel kernel estimating the horizontal-edge (vertical gradient)
/// response.
pub open spec fn sobel_horizontal_weights() -> Seq<i64> {
    seq![1i64, 2i64, 1i64, 0i64, 0i64, 0i64, -1i64, -2i64, -1i64]
}

/// What the median filter stage produces over a whole buffer.
pub open spec fn median_stage(img: Seq<i64>, w: int, h: int, ch: int, k: int) -> Seq<i64> {
    Seq::new(img.len(), |i: int| median_filtered_at(img, w, h, ch, k, i))
}

/// What the convolution stage produces over a whole buffer.
pub open spec fn conv_stage(img: Seq<i64>, kern: Seq<i64>, w: int, h: int, ch: int, k: int,
    d: int) -> Seq<i64> {
    Seq::new(img.len(), |i: int| convolved_at(img, kern, w, h, ch, k, d, i) as i64)
}

fn push_nine(a: i64, b: i64, c: i64, d: i64, e: i64, f: i64, g: i64, h: i64, i: i64)
    -> (k: Vec<i64>)
    ensures
        k@ == seq![a, b, c, d, e, f, g, h, i],
{
    let mut k: Vec<i64> = Vec::new();
    k.push(a);
    k.push(b);
    k.push(c);
    k.push(d);
    k.push(e);
    k.push(f);
    k.push(g);
    k.push(h);
    k.push(i);
    proof {
        assert(k@ =~= seq![a, b, c, d, e, f, g, h, i]);
    }
    k
}

/// Every buffer the gradient-threshold pipeline materializes, in stage
/// order.
pub struct GradientOutputs {
    /// The color image after both median passes.
    pub denoised: Vec<i64>,
    /// The luma field after box-blur smoothing.
    pub blurred: Vec<i64>,
    /// Sobel vertical-edge response of the blurred luma.
    pub vert_edges: Vec<i64>,
    /// Sobel horizontal-edge response of the blurred luma.
    pub hor_edges: Vec<i64>,
    /// Gradient magnitude of the two Sobel responses.
    pub gradient: Vec<i64>,
    /// The magnitude field binarized at the configured boundary.
    pub edge_mask: Vec<i64>,
    /// The final composite: denoised color under the edge mask.
    pub cartoon: Vec<i64>,
}

/// Run the 8-bit gradient-threshold pipeline: median-filter the color
/// twice, box-blur the luma, take both Sobel responses, their magnitude,
/// binarize, and composite. Rejects invalid filter sizes and otherwise
/// always produces the full set of stage outputs.
pub fn run_gradient_pipeline(color: &Vec<i64>, gray: &Vec<i64>, img_width: usize,
    img_height: usize, pix_size: usize, config: &PipelineConfig)
    -> (r: Result<GradientOutputs, PipelineError>)
    requires
        color@.len() == img_width * img_height * pix_size,
        gray@.len() == img_width * img_height,
        1 <= pix_size,
        byte_bounded(color@),
        byte_bounded(gray@),
    ensures
        r is Err <==> !(valid_filter_size(config.median_first as int)
            && valid_filter_size(config.median_second as int)),
        r is Err ==> r->Err_0 == PipelineError::InvalidKernelSize,
        r is Ok ==> ({
            let o = r->Ok_0;
            let wi = img_width as int;
            let hi = img_height as int;
            let chi = pix_size as int;
            &&& o.denoised@ == median_stage(
                median_stage(color@, wi, hi, chi, config.median_first as int),
                wi, hi, chi, config.median_second as int)
            &&& o.blurred@ == conv_stage(gray@, box_kernel_weights(), wi, hi, 1, 3, 9)
            &&& o.vert_edges@ == conv_stage(o.blurred@, sobel_vertical_weights(), wi, hi, 1, 3, 1)
            &&& o.hor_edges@ == conv_stage(o.blurred@, sobel_horizontal_weights(), wi, hi, 1, 3, 1)
            &&& o.gradient@.len() == gray@.len()
            &&& forall|i: int| 0 <= i < o.gradient@.len() ==> is_clamped_root(
                (o.hor_edges@[i] as int) * (o.hor_edges@[i] as int)
                    + (o.vert_edges@[i] as int) * (o.vert_edges@[i] as int),
                #[trigger] o.gradient@[i] as int)
            &&& o.edge_mask@.len() == gray@.len()
            &&& forall|i: int| 0 <= i < o.edge_mask@.len() ==> #[trigger] o.edge_mask@[i]
                == threshold_val(o.gradient@[i], config.boundary)
            &&& o.cartoon@.len() == color@.len()
            &&& forall|i: int| 0 <= i < o.cartoon@.len() ==> #[trigger] o.cartoon@[i]
                == cartoonified_at(o.denoised@, o.edge_mask@, wi, chi, i)
        }),
{
    let ghost wi = img_width as int;
    let ghost hi = img_height as int;
    let ghost chi = pix_size as int;

    if !(config.median_first % 2 == 1 && config.median_first >= 3
        && config.median_second % 2 == 1 && config.median_second >= 3) {
        return Err(PipelineError::InvalidKernelSize);
    }

    let med1 = median_filt(color, img_width, img_height, pix_size, config.median_first);
    proof {
        assert(med1@ =~= median_stage(color@, wi, hi, chi, config.median_first as int));
    }
    let med2 = median_filt(&med1, img_width, img_height, pix_size, config.median_second);
    proof {
        assert(med2@ =~= median_stage(med1@, wi, hi, chi, config.median_second as int));
    }

    let kern = push_nine(1, 1, 1, 1, 1, 1, 1, 1, 1);
    proof {
        assert(kern@ == box_kernel_weights());
        assert(all_bounded(gray@, SAMPLE_LIMIT as int));
        assert(all_bounded(kern@, WEIGHT_LIMIT as int)) by {
            assert forall|j: int| 0 <= j < kern@.len() implies
                -WEIGHT_LIMIT <= #[trigger] kern@[j] <= WEIGHT_LIMIT by {
                assert(kern@[j] == box_kernel_weights()[j]);
            }
        }
        assert(gray@.len() == img_width * img_height * 1);
        assert(kern@.len() == 3 * 3);
    }
    let blurred = spatial_filt(gray, img_width, img_height, 1, &kern, 3, 9);
    proof {
        assert forall|i: int| 0 <= i < blurred@.len() implies
            -2295 <= #[trigger] blurred@[i] <= 2295
            && blurred@[i] == conv_stage(gray@, box_kernel_weights(), wi, hi, 1, 3, 9)[i] by {
            lemma_convolved_bound(gray@, kern@, wi, hi, 1, 3, 9, i, 255, 1);
        }
        assert(blurred@ =~= conv_stage(gray@, box_kernel_weights(), wi, hi, 1, 3, 9));
        assert(all_bounded(blurred@, 2295));
        assert(all_bounded(blurred@, SAMPLE_LIMIT as int));
    }

    let sv = push_nine(-1, 0, 1, -2, 0, 2, -1, 0, 1);
    let sh = push_nine(1, 2, 1, 0, 0, 0, -1, -2, -1);
    proof {
        assert(sv@ == sobel_vertical_weights());
        assert(sh@ == sobel_horizontal_weights());
        assert(all_bounded(sv@, WEIGHT_LIMIT as int)) by {
            assert forall|j: int| 0 <= j < sv@.len() implies
                -WEIGHT_LIMIT <= #[trigger] sv@[j] <= WEIGHT_LIMIT by {
                assert(sv@[j] == sobel_vertical_weights()[j]);
            }
        }
        assert(all_bounded(sh@, WEIGHT_LIMIT as int)) by {
            assert forall|j: int| 0 <= j < sh@.len() implies
                -WEIGHT_LIMIT <= #[trigger] sh@[j] <= WEIGHT_LIMIT by {
                assert(sh@[j] == sobel_horizontal_weights()[j]);
            }
        }
        assert(blurred@.len() == img_width * img_height * 1);
    }
    let vert_edges = spatial_filt(&blurred, img_width, img_height, 1, &sv, 3, 1);
    let hor_edges = spatial_filt(&blurred, img_width, img_height, 1, &sh, 3, 1);
    proof {
        assert forall|i: int| 0 <= i < vert_edges@.len() implies
            -41310 <= #[trigger] vert_edges@[i] <= 41310
            && vert_edges@[i]
                == conv_stage(blurred@, sobel_vertical_weights(), wi, hi, 1, 3, 1)[i] by {
            lemma_convolved_bound(blurred@, sv@, wi, hi, 1, 3, 1, i, 2295, 2);
        }
        assert(vert_edges@ =~= conv_stage(blurred@, sobel_vertical_weights(), wi, hi, 1, 3, 1));
        assert forall|i: int| 0 <= i < hor_edges@.len() implies
            -41310 <= #[trigger] hor_edges@[i] <= 41310
            && hor_edges@[i]
                == conv_stage(blurred@, sobel_horizontal_weights(), wi, hi, 1, 3, 1)[i] by {
            lemma_convolved_bound(blurred@, sh@, wi, hi, 1, 3, 1, i, 2295, 2);
        }
        assert(hor_edges@ =~= conv_stage(blurred@, sobel_horizontal_weights(), wi, hi, 1, 3, 1));
        assert(all_bounded(vert_edges@, SAMPLE_LIMIT as int));
        assert(all_bounded(hor_edges@, SAMPLE_LIMIT as int));
    }

    let gradient = edge_gradient(&hor_edges, &vert_edges, img_width, img_height);
    let edge_mask = threshold(&gradient, config.boundary);
    let cartoon = cartoonify(&med2, &edge_mask, img_width, img_height, pix_size);

    Ok(GradientOutputs {
        denoised: med2,
        blurred,
        vert_edges,
        hor_edges,
        gradient,
        edge_mask,
        cartoon,
    })
}

/// Every buffer the dual-detector pipeline materializes, in stage order.
pub struct DualOutputs {
    /// The color image after both median passes.
    pub denoised: Vec<i64>,
    /// The luma field after Gaussian smoothing.
    pub blurred: Vec<i64>,
    /// Laplacian response of the smoothed luma.
    pub laplacian: Vec<i64>,
    /// Sobel vertical-edge response of the smoothed luma.
    pub vert_edges: Vec<i64>,
    /// Sobel horizontal-edge response of the smoothed luma.
    pub hor_edges: Vec<i64>,
    /// Gradient magnitude of the two Sobel responses.
    pub gradient: Vec<i64>,
    /// The magnitude field binarized at the configured boundary.
    pub edge_mask: Vec<i64>,
    /// Zero crossings of the Laplacian response.
    pub crossings: Vec<i64>,
    /// The final composite: denoised color under the gradient edge mask.
    pub cartoon: Vec<i64>,
}

/// Run the dual-detector pipeline: median-filter the color twice,
/// Gaussian-blur the luma, take the Laplacian and both Sobel responses,
/// form the gradient-threshold mask and the zero-crossing mask, and
/// composite with the gradient mask. The zero-crossing mask is produced
/// for inspection alongside.
pub fn run_dual_pipeline(color: &Vec<i64>, gray: &Vec<i64>, img_width: usize,
    img_height: usize, pix_size: usize, config: &PipelineConfig)
    -> (r: Result<DualOutputs, PipelineError>)
    requires
        color@.len() == img_width * img_height * pix_size,
        gray@.len() == img_width * img_height,
        1 <= pix_size,
        byte_bounded(color@),
        byte_bounded(gray@),
    ensures
        r is Err <==> !(valid_filter_size(config.median_first as int)
            && valid_filter_size(config.median_second as int)),
        r is Err ==> r->Err_0 == PipelineError::InvalidKernelSize,
        r is Ok ==> ({
            let o = r->Ok_0;
            let wi = img_width as int;
            let hi = img_height as int;
            let chi = pix_size as int;
            &&& o.denoised@ == median_stage(
                median_stage(color@, wi, hi, chi, config.median_first as int),
                wi, hi, chi, config.median_second as int)
            &&& o.blurred@ == conv_stage(gray@, gaussian_kernel_weights(), wi, hi, 1, 3, 16)
            &&& o.laplacian@ == conv_stage(o.blurred@, laplacian_kernel_weights(), wi, hi, 1, 3, 1)
            &&& o.vert_edges@ == conv_stage(o.blurred@, sobel_vertical_weights(), wi, hi, 1, 3, 1)
            &&& o.hor_edges@ == conv_stage(o.blurred@, sobel_horizontal_weights(), wi, hi, 1, 3, 1)
            &&& o.gradient@.len() == gray@.len()
            &&& forall|i: int| 0 <= i < o.gradient@.len() ==> is_clamped_root(
                (o.hor_edges@[i] as int) * (o.hor_edges@[i] as int)
                    + (o.vert_edges@[i] as int) * (o.vert_edges@[i] as int),
                #[trigger] o.gradient@[i] as int)
            &&& o.edge_mask@.len() == gray@.len()
            &&& forall|i: int| 0 <= i < o.edge_mask@.len() ==> #[trigger] o.edge_mask@[i]
                == threshold_val(o.gradient@[i], config.boundary)
            &&& o.crossings@.len() == gray@.len()
            &&& forall|i: int| 0 <= i < o.crossings@.len() ==> #[trigger] o.crossings@[i]
                == zero_crossing_at(o.laplacian@, wi, hi, config.crossing_threshold as int, i)
            &&& o.cartoon@.len() == color@.len()
            &&& forall|i: int| 0 <= i < o.cartoon@.len() ==> #[trigger] o.cartoon@[i]
                == cartoonified_at(o.denoised@, o.edge_mask@, wi, chi, i)
        }),
{
    let ghost wi = img_width as int;
    let ghost hi = img_height as int;
    let ghost chi = pix_size as int;

    if !(config.median_first % 2 == 1 && config.median_first >= 3
        && config.median_second % 2 == 1 && config.median_second >= 3) {
        return Err(PipelineError::InvalidKernelSize);
    }

    let med1 = median_filt(color, img_width, img_height, pix_size, config.median_first);
    proof {
        assert(med1@ =~= median_stage(color@, wi, hi, chi, config.median_first as int));
    }
    let med2 = median_filt(&med1, img_width, img_height, pix_size, config.median_second);
    proof {
        assert(med2@ =~= median_stage(med1@, wi, hi, chi, config.median_second as int));
    }

    let kern = push_nine(1, 2, 1, 2, 4, 2, 1, 2, 1);
    proof {
        assert(kern@ == gaussian_kernel_weights());
        assert(all_bounded(gray@, SAMPLE_LIMIT as int));
        assert(all_bounded(kern@, WEIGHT_LIMIT as int)) by {
            assert forall|j: int| 0 <= j < kern@.len() implies
                -WEIGHT_LIMIT <= #[trigger] kern@[j] <= WEIGHT_LIMIT by {
                assert(kern@[j] == gaussian_kernel_weights()[j]);
            }
        }
        assert(gray@.len() == img_width * img_height * 1);
        assert(kern@.len() == 3 * 3);
    }
    let blurred = spatial_filt(gray, img_width, img_height, 1, &kern, 3, 16);
    proof {
        assert forall|i: int| 0 <= i < blurred@.len() implies
            -9180 <= #[trigger] blurred@[i] <= 9180
            && blurred@[i] == conv_stage(gray@, gaussian_kernel_weights(), wi, hi, 1, 3, 16)[i] by {
            lemma_convolved_bound(gray@, kern@, wi, hi, 1, 3, 16, i, 255, 4);
        }
        assert(blurred@ =~= conv_stage(gray@, gaussian_kernel_weights(), wi, hi, 1, 3, 16));
        assert(all_bounded(blurred@, 9180));
        assert(all_bounded(blurred@, SAMPLE_LIMIT as int));
        assert(blurred@.len() == img_width * img_height * 1);
    }

    let lk = push_nine(-1, -1, -1, -1, 8, -1, -1, -1, -1);
    proof {
        assert(lk@ == laplacian_kernel_weights());
        assert(all_bounded(lk@, WEIGHT_LIMIT as int)) by {
            assert forall|j: int| 0 <= j < lk@.len() implies
                -WEIGHT_LIMIT <= #[trigger] lk@[j] <= WEIGHT_LIMIT by {
                assert(lk@[j] == laplacian_kernel_weights()[j]);
            }
        }
    }
    let laplacian = spatial_filt(&blurred, img_width, img_height, 1, &lk, 3, 1);
    proof {
        assert forall|i: int| 0 <= i < laplacian@.len() implies
            -660960 <= #[trigger] laplacian@[i] <= 660960
            && laplacian@[i]
                == conv_stage(blurred@, laplacian_kernel_weights(), wi, hi, 1, 3, 1)[i] by {
            lemma_convolved_bound(blurred@, lk@, wi, hi, 1, 3, 1, i, 9180, 8);
        }
        assert(laplacian@ =~= conv_stage(blurred@, laplacian_kernel_weights(), wi, hi, 1, 3, 1));
        assert(all_bounded(laplacian@, SAMPLE_LIMIT as int));
    }

    let sv = push_nine(-1, 0, 1, -2, 0, 2, -1, 0, 1);
    let sh = push_nine(1, 2, 1, 0, 0, 0, -1, -2, -1);
    proof {
        assert(sv@ == sobel_vertical_weights());
        assert(sh@ == sobel_horizontal_weights());
        assert(all_bounded(sv@, WEIGHT_LIMIT as int)) by {
            assert forall|j: int| 0 <= j < sv@.len() implies
                -WEIGHT_LIMIT <= #[trigger] sv@[j] <= WEIGHT_LIMIT by {
                assert(sv@[j] == sobel_vertical_weights()[j]);
            }
        }
        assert(all_bounded(sh@, WEIGHT_LIMIT as int)) by {
            assert forall|j: int| 0 <= j < sh@.len() implies
                -WEIGHT_LIMIT <= #[trigger] sh@[j] <= WEIGHT_LIMIT by {
                assert(sh@[j] == sobel_horizontal_weights()[j]);
            }
        }
    }
    let vert_edges = spatial_filt(&blurred, img_width, img_height, 1, &sv, 3, 1);
    let hor_edges = spatial_filt(&blurred, img_width, img_height, 1, &sh, 3, 1);
    proof {
        assert forall|i: int| 0 <= i < vert_edges@.len() implies
            -165240 <= #[trigger] vert_edges@[i] <= 165240
            && vert_edges@[i]
                == conv_stage(blurred@, sobel_vertical_weights(), wi, hi, 1, 3, 1)[i] by {
            lemma_convolved_bound(blurred@, sv@, wi, hi, 1, 3, 1, i, 9180, 2);
        }
        assert(vert_edges@ =~= conv_stage(blurred@, sobel_vertical_weights(), wi, hi, 1, 3, 1));
        assert forall|i: int| 0 <= i < hor_edges@.len() implies
            -165240 <= #[trigger] hor_edges@[i] <= 165240
            && hor_edges@[i]
                == conv_stage(blurred@, sobel_horizontal_weights(), wi, hi, 1, 3, 1)[i] by {
            lemma_convolved_bound(blurred@, sh@, wi, hi, 1, 3, 1, i, 9180, 2);
        }
        assert(hor_edges@ =~= conv_stage(blurred@, sobel_horizontal_weights(), wi, hi, 1, 3, 1));
        assert(all_bounded(vert_edges@, SAMPLE_LIMIT as int));
        assert(all_bounded(hor_edges@, SAMPLE_LIMIT as int));
    }

    let gradient = edge_gradient(&hor_edges, &vert_edges, img_width, img_height);
    let edge_mask = threshold(&gradient, config.boundary);
    let crossings = zero_crossings(&laplacian, img_width, img_height, config.crossing_threshold);
    let cartoon = cartoonify(&med2, &edge_mask, img_width, img_height, pix_size);

    Ok(DualOutputs {
        denoised: med2,
        blurred,
        laplacian,
        vert_edges,
        hor_edges,
        gradient,
        edge_mask,
        crossings,
        cartoon,
    })
}

} // verus!
