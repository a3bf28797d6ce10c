use cartoon_pipeline::clamp;
use cartoon_pipeline::compose::cartoonify;
use cartoon_pipeline::convert::{samples_to_u8_slice, u8_slice_to_samples};
use cartoon_pipeline::edges::{edge_gradient, threshold, zero_crossings};
use cartoon_pipeline::filters::{median_filt, spatial_filt};
use cartoon_pipeline::sorting::sort_samples;

#[test]
fn clamp_passes_in_range_values() {
    assert_eq!(clamp(5, 0, 255), 5);
    assert_eq!(clamp(0, 0, 255), 0);
    assert_eq!(clamp(255, 0, 255), 255);
}

#[test]
fn clamp_cuts_values_outside_the_range() {
    assert_eq!(clamp(-1, 0, 3), 0);
    assert_eq!(clamp(9, 0, 3), 3);
}

#[test]
fn sort_samples_orders_and_keeps_elements() {
    let v: Vec<i64> = vec![3, 1, 2, 9, 5, 7, 4, 8, 6];
    let s = sort_samples(&v);
    assert_eq!(s, vec![1, 2, 3, 4, 5, 6, 7, 8, 9]);
}

#[test]
fn median_of_three_by_three_is_middle_rank() {
    // 3x3 single-channel image: only the center pixel is interior, and it
    // takes the true median of all nine samples.
    let img: Vec<i64> = vec![3, 1, 2, 9, 5, 7, 4, 8, 6];
    let out = median_filt(&img, 3, 3, 1, 3);
    assert_eq!(out.len(), img.len());
    assert_eq!(out[4], 5);
    for (i, v) in out.iter().enumerate() {
        if i != 4 {
            assert_eq!(*v, 0);
        }
    }
}

#[test]
fn median_keeps_constant_interior() {
    // 5x5 constant image: every interior pixel of a 3x3 median pass keeps
    // the constant, the one-pixel border goes to zero.
    let img: Vec<i64> = vec![7; 25];
    let out = median_filt(&img, 5, 5, 1, 3);
    assert_eq!(out.len(), 25);
    for y in 0..5usize {
        for x in 0..5usize {
            let expect = if (1..4).contains(&x) && (1..4).contains(&y) { 7 } else { 0 };
            assert_eq!(out[x + y * 5], expect);
        }
    }
}

#[test]
fn median_border_zero_whatever_the_content() {
    let img: Vec<i64> = (0..25).map(|v| 100 - 3 * v).collect();
    let out = median_filt(&img, 5, 5, 1, 5);
    assert_eq!(out.len(), 25);
    // A 5x5 filter on a 5x5 image leaves no pixel far enough from the
    // border except the center.
    for i in 0..25usize {
        if i != 12 {
            assert_eq!(out[i], 0);
        }
    }
}

#[test]
fn median_filters_channels_independently() {
    // 3x3 two-channel image: channel 0 constant 10, channel 1 constant 20.
    let mut img: Vec<i64> = Vec::new();
    for _ in 0..9 {
        img.push(10);
        img.push(20);
    }
    let out = median_filt(&img, 3, 3, 2, 3);
    assert_eq!(out.len(), 18);
    // Center pixel is interior: both channels keep their constants.
    assert_eq!(out[1 * 2 + 1 * 6], 10);
    assert_eq!(out[1 * 2 + 1 * 6 + 1], 20);
}

#[test]
fn convolution_identity_kernel_reproduces_interior() {
    let img: Vec<i64> = (1..=16).collect();
    let kern: Vec<i64> = vec![0, 0, 0, 0, 1, 0, 0, 0, 0];
    let out = spatial_filt(&img, 4, 4, 1, &kern, 3, 1);
    assert_eq!(out.len(), 16);
    for y in 0..4usize {
        for x in 0..4usize {
            let i = x + y * 4;
            let expect = if (1..3).contains(&x) && (1..3).contains(&y) {
                img[i]
            } else {
                0
            };
            assert_eq!(out[i], expect);
        }
    }
}

#[test]
fn convolution_box_blur_averages_the_window() {
    // 3x3 image; the box kernel over divisor 9 takes the exact mean.
    let img: Vec<i64> = vec![1, 2, 3, 4, 5, 6, 7, 8, 9];
    let kern: Vec<i64> = vec![1; 9];
    let out = spatial_filt(&img, 3, 3, 1, &kern, 3, 9);
    assert_eq!(out[4], 5); // 45 / 9
}

#[test]
fn convolution_keeps_raw_signed_output() {
    // A negated-center kernel must write the raw negative sum unclamped.
    let img: Vec<i64> = vec![1, 2, 3, 4, 5, 6, 7, 8, 9];
    let kern: Vec<i64> = vec![0, 0, 0, 0, -1, 0, 0, 0, 0];
    let out = spatial_filt(&img, 3, 3, 1, &kern, 3, 1);
    assert_eq!(out[4], -5);
}

#[test]
fn convolution_pairs_kernel_rows_with_image_rows() {
    // An asymmetric kernel pins the indexing: row r of the kernel weighs
    // row r of the neighborhood, column c weighs column c.
    let img: Vec<i64> = vec![1, 2, 3, 4, 5, 6, 7, 8, 9];
    let hor: Vec<i64> = vec![1, 2, 1, 0, 0, 0, -1, -2, -1];
    let out = spatial_filt(&img, 3, 3, 1, &hor, 3, 1);
    assert_eq!(out[4], (1 + 4 + 3) - (7 + 16 + 9)); // -24
    let vert: Vec<i64> = vec![-1, 0, 1, -2, 0, 2, -1, 0, 1];
    let out = spatial_filt(&img, 3, 3, 1, &vert, 3, 1);
    assert_eq!(out[4], (3 - 1) + (12 - 8) + (9 - 7)); // 8
}

#[test]
fn convolution_divides_toward_zero() {
    // Sum of the window is -7; dividing by 9 truncates toward zero.
    let img: Vec<i64> = vec![-1, -1, -1, -1, 1, -1, -1, -1, -1];
    let kern: Vec<i64> = vec![1; 9];
    let out = spatial_filt(&img, 3, 3, 1, &kern, 3, 9);
    assert_eq!(out[4], 0);
}

#[test]
fn threshold_is_strictly_greater_than() {
    let img: Vec<i64> = vec![64, 65, 66, 0, 255];
    let out = threshold(&img, 65);
    assert_eq!(out, vec![0, 0, 255, 0, 255]);
}

#[test]
fn edge_gradient_takes_root_of_squares() {
    let hor: Vec<i64> = vec![3, 0, 300, 1];
    let vert: Vec<i64> = vec![4, 0, 400, 1];
    let out = edge_gradient(&hor, &vert, 4, 1);
    assert_eq!(out[0], 5); // sqrt(9 + 16)
    assert_eq!(out[1], 0);
    assert_eq!(out[2], 255); // sqrt(250000) = 500, clamped
    assert_eq!(out[3], 1); // sqrt(2) rounds down to 1
}

#[test]
fn zero_crossing_marks_a_clean_straddle() {
    // Single row: the middle pixel's flanks straddle zero with magnitude
    // 10, above the threshold of 0.
    let img: Vec<i64> = vec![-5, 0, 5];
    let out = zero_crossings(&img, 3, 1, 0);
    assert_eq!(out, vec![0, 255, 0]);
}

#[test]
fn zero_crossing_respects_the_magnitude_threshold() {
    // The same straddle of magnitude 10 is suppressed when it does not
    // exceed the threshold.
    let img: Vec<i64> = vec![-5, 0, 5];
    let out = zero_crossings(&img, 3, 1, 10);
    assert_eq!(out, vec![0, 0, 0]);
}

#[test]
fn zero_crossing_vertical_pass_overwrites_horizontal() {
    // The center pixel straddles zero horizontally, but its vertical
    // flanks do not; the vertical pass runs last and writes zero over the
    // horizontal mark.
    let img: Vec<i64> = vec![
        0, 9, 0,
        -5, 7, 5,
        0, 9, 0,
    ];
    let out = zero_crossings(&img, 3, 3, 0);
    assert_eq!(out[4], 0);
}

#[test]
fn zero_crossing_border_stays_zero() {
    let img: Vec<i64> = vec![-9, 9, -9, 9, -9, 9, -9, 9, -9];
    let out = zero_crossings(&img, 3, 3, 0);
    // Corners are covered by neither pass.
    assert_eq!(out[0], 0);
    assert_eq!(out[2], 0);
    assert_eq!(out[6], 0);
    assert_eq!(out[8], 0);
}

#[test]
fn cartoonify_zero_mask_passes_color_through() {
    let img: Vec<i64> = (1..=12).collect(); // 2x2, 3 channels
    let mask: Vec<i64> = vec![0; 4];
    let out = cartoonify(&img, &mask, 2, 2, 3);
    assert_eq!(out, img);
}

#[test]
fn cartoonify_full_mask_blacks_everything() {
    let img: Vec<i64> = (1..=12).collect();
    let mask: Vec<i64> = vec![255; 4];
    let out = cartoonify(&img, &mask, 2, 2, 3);
    assert_eq!(out, vec![0; 12]);
}

#[test]
fn cartoonify_blacks_on_any_nonzero_mask_sample() {
    // A negative mask sample is nonzero and must black the pixel too.
    let img: Vec<i64> = vec![7, 8, 9];
    let mask: Vec<i64> = vec![-1];
    let out = cartoonify(&img, &mask, 1, 1, 3);
    assert_eq!(out, vec![0, 0, 0]);
}

#[test]
fn cartoonify_blacks_only_masked_pixels() {
    let img: Vec<i64> = (1..=12).collect();
    let mask: Vec<i64> = vec![255, 0, 0, 255];
    let out = cartoonify(&img, &mask, 2, 2, 3);
    assert_eq!(out, vec![0, 0, 0, 4, 5, 6, 7, 8, 9, 0, 0, 0]);
}

#[test]
fn byte_conversions_round_trip_and_clamp() {
    let bytes: Vec<u8> = vec![0, 1, 127, 254, 255];
    let samples = u8_slice_to_samples(&bytes);
    assert_eq!(samples, vec![0, 1, 127, 254, 255]);
    let back = samples_to_u8_slice(&samples);
    assert_eq!(back, bytes);

    let wild: Vec<i64> = vec![-5, 300, 42];
    let clamped = samples_to_u8_slice(&wild);
    assert_eq!(clamped, vec![0, 255, 42]);
}
