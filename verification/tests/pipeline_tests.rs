use cartoon_pipeline::pipeline::{
    dual_config, gradient_config, run_dual_pipeline, run_gradient_pipeline, PipelineConfig,
    PipelineError,
};

#[test]
fn gradient_config_holds_the_fixed_stage_constants() {
    let c = gradient_config();
    assert_eq!(c.median_first, 5);
    assert_eq!(c.median_second, 3);
    assert_eq!(c.boundary, 65);
}

#[test]
fn dual_config_holds_the_fixed_stage_constants() {
    let c = dual_config();
    assert_eq!(c.median_first, 5);
    assert_eq!(c.median_second, 3);
    assert_eq!(c.boundary, 80);
    assert_eq!(c.crossing_threshold, 0);
}

#[test]
fn even_kernel_sizes_are_rejected() {
    let color: Vec<i64> = vec![10; 4 * 4 * 3];
    let gray: Vec<i64> = vec![10; 4 * 4];
    let config = PipelineConfig {
        median_first: 4,
        median_second: 3,
        boundary: 65,
        crossing_threshold: 0,
    };
    let r = run_gradient_pipeline(&color, &gray, 4, 4, 3, &config);
    assert_eq!(r.err(), Some(PipelineError::InvalidKernelSize));

    let config = PipelineConfig {
        median_first: 5,
        median_second: 2,
        boundary: 80,
        crossing_threshold: 0,
    };
    let r = run_dual_pipeline(&color, &gray, 4, 4, 3, &config);
    assert_eq!(r.err(), Some(PipelineError::InvalidKernelSize));
}

#[test]
fn uniform_four_by_four_image_end_to_end() {
    // A 4x4 three-channel image of uniform color (100, 50, 70), with its
    // uniform luma, through the gradient-threshold pipeline.
    let mut color: Vec<i64> = Vec::new();
    for _ in 0..16 {
        color.push(100);
        color.push(50);
        color.push(70);
    }
    let gray: Vec<i64> = vec![67; 16];

    let o = run_gradient_pipeline(&color, &gray, 4, 4, 3, &gradient_config()).unwrap();

    // Every stage preserves its buffer dimensions.
    assert_eq!(o.denoised.len(), 48);
    assert_eq!(o.blurred.len(), 16);
    assert_eq!(o.vert_edges.len(), 16);
    assert_eq!(o.hor_edges.len(), 16);
    assert_eq!(o.gradient.len(), 16);
    assert_eq!(o.edge_mask.len(), 16);
    assert_eq!(o.cartoon.len(), 48);

    // The first median pass is 5x5: no pixel of a 4x4 image is far enough
    // from the border to be computed, so the denoised image is all zero.
    assert_eq!(o.denoised, vec![0; 48]);

    // The box blur keeps the constant luma at its four interior pixels
    // and zeroes the border ring.
    for y in 0..4usize {
        for x in 0..4usize {
            let expect = if (1..3).contains(&x) && (1..3).contains(&y) { 67 } else { 0 };
            assert_eq!(o.blurred[x + y * 4], expect);
        }
    }

    // No edge mask sample can resurrect color: the cartoon equals the
    // median-filtered image.
    assert_eq!(o.cartoon, o.denoised);
}

#[test]
fn larger_uniform_image_keeps_color_in_the_deep_interior() {
    // On a 9x9 uniform image the 5x5-then-3x3 median passes leave the
    // deep interior at the original color.
    let w = 9usize;
    let mut color: Vec<i64> = Vec::new();
    for _ in 0..(w * w) {
        color.push(100);
        color.push(50);
        color.push(70);
    }
    let gray: Vec<i64> = vec![67; w * w];

    let o = run_gradient_pipeline(&color, &gray, w, w, 3, &gradient_config()).unwrap();

    // After a 5x5 pass (radius 2) and a 3x3 pass (radius 1), pixels at
    // least 3 from every border hold the original color.
    for y in 3..6usize {
        for x in 3..6usize {
            let base = (x + y * w) * 3;
            assert_eq!(o.denoised[base], 100);
            assert_eq!(o.denoised[base + 1], 50);
            assert_eq!(o.denoised[base + 2], 70);
        }
    }
    // The center of a uniform field has no gradient: its magnitude is
    // zero and the mask leaves it alone.
    let center = 4 + 4 * w;
    assert_eq!(o.gradient[center], 0);
    assert_eq!(o.edge_mask[center], 0);
    let base = center * 3;
    assert_eq!(o.cartoon[base], 100);
    assert_eq!(o.cartoon[base + 1], 50);
    assert_eq!(o.cartoon[base + 2], 70);
}

#[test]
fn dual_pipeline_produces_both_edge_candidates() {
    let w = 7usize;
    let mut color: Vec<i64> = Vec::new();
    for _ in 0..(w * w) {
        color.push(100);
        color.push(50);
        color.push(70);
    }
    let gray: Vec<i64> = vec![67; w * w];

    let o = run_dual_pipeline(&color, &gray, w, w, 3, &dual_config()).unwrap();

    assert_eq!(o.laplacian.len(), w * w);
    assert_eq!(o.crossings.len(), w * w);
    assert_eq!(o.gradient.len(), w * w);
    assert_eq!(o.cartoon.len(), w * w * 3);

    // The Laplacian of a constant region is zero at the center, so the
    // center cannot be a zero crossing.
    let center = 3 + 3 * w;
    assert_eq!(o.laplacian[center], 0);
    assert_eq!(o.crossings[center], 0);
}
