use cv_rusty::convolution::{reflect_coordinate, wrap_coordinate};
use cv_rusty::{BorderMode, Kernel, Kernel1d, Matrix1, Matrix3};

#[test]
fn test_kernel_new() {
    let kernel = Kernel::new(3, 3, vec![1; 9], 1);
    assert_eq!(kernel.width(), 3);
    assert_eq!(kernel.height(), 3);
    assert_eq!(kernel.data().len(), 9);
}

#[test]
fn test_box_blur() {
    let kernel = Kernel::box_blur(3);
    assert_eq!(kernel.width(), 3);
    assert_eq!(kernel.height(), 3);
    let expected_value = 1.0 / 9.0;
    let den = kernel.den() as f64;
    for &value in kernel.data() {
        assert!((value as f64 / den - expected_value).abs() < 1e-6);
    }
}

#[test]
fn test_sobel_kernels() {
    let sobel_x = Kernel::sobel_x();
    let sobel_y = Kernel::sobel_y();
    assert_eq!(sobel_x.width(), 3);
    assert_eq!(sobel_y.width(), 3);
}

#[test]
fn test_laplacian_and_sharpen_kernels() {
    let lap = Kernel::laplacian();
    assert_eq!(lap.data(), &[0, 1, 0, 1, -4, 1, 0, 1, 0]);
    assert_eq!(lap.den(), 1);
    let sharpen = Kernel::sharpen();
    assert_eq!(sharpen.data(), &[0, -1, 0, -1, 5, -1, 0, -1, 0]);
    assert_eq!(sharpen.den(), 1);
}

#[test]
fn test_matrix1_convolve_identity() {
    let mut data = vec![0u8; 10 * 10];
    data[5 * 10 + 5] = 255; // Single bright pixel in center

    let mat = Matrix1::new(10, 10, data);
    let kernel = Kernel::new(3, 3, vec![0, 0, 0, 0, 1, 0, 0, 0, 0], 1);

    let result = mat.convolve(&kernel, BorderMode::Zero);
    assert_eq!(result.get_pixel(5, 5), Some(255));
}

#[test]
fn test_matrix3_convolve() {
    let data = vec![128u8; 10 * 10 * 3];
    let mat = Matrix3::new(10, 10, data);
    let kernel = Kernel::box_blur(3);

    let result = mat.convolve(&kernel, BorderMode::Replicate);
    assert_eq!(result.width(), 10);
    assert_eq!(result.height(), 10);
}

#[test]
fn test_border_modes() {
    let mat = Matrix1::new(5, 5, vec![100u8; 25]);

    // Test different border modes don't panic
    let kernel = Kernel::box_blur(3);
    let _ = mat.convolve(&kernel, BorderMode::Zero);
    let _ = mat.convolve(&kernel, BorderMode::Replicate);
    let _ = mat.convolve(&kernel, BorderMode::Reflect);
    let _ = mat.convolve(&kernel, BorderMode::Wrap);
}

#[test]
fn test_separable_convolution() {
    let mat = Matrix1::new(10, 10, vec![128u8; 100]);
    let kernel_1d = Kernel1d::new(vec![1, 2, 1], 4); // taps 0.25, 0.5, 0.25

    let result = mat.convolve_separable(&kernel_1d, &kernel_1d, BorderMode::Replicate);
    assert_eq!(result.width(), 10);
    assert_eq!(result.height(), 10);
}

#[test]
fn test_reflect_coordinate() {
    assert_eq!(reflect_coordinate(-1, 10), 0);
    assert_eq!(reflect_coordinate(0, 10), 0);
    assert_eq!(reflect_coordinate(9, 10), 9);
    assert_eq!(reflect_coordinate(10, 10), 9);
    assert_eq!(reflect_coordinate(11, 10), 8);
}

#[test]
fn test_wrap_coordinate() {
    assert_eq!(wrap_coordinate(-1, 10), 9);
    assert_eq!(wrap_coordinate(0, 10), 0);
    assert_eq!(wrap_coordinate(9, 10), 9);
    assert_eq!(wrap_coordinate(10, 10), 0);
    assert_eq!(wrap_coordinate(11, 10), 1);
}

#[test]
fn test_normalized_kernel_weights_sum_to_denominator() {
    // A sampled bell: the normalizing constructor makes the weights sum to
    // exactly one as a rational (the denominator is the magnitude sum).
    let mags: Vec<u16> = vec![1, 2, 1, 2, 4, 2, 1, 2, 1];
    let kernel = Kernel::normalized(3, 3, mags.clone());
    let total: u64 = mags.iter().map(|&m| m as u64).sum();
    assert_eq!(kernel.den(), total);
    let weight_total: i64 = kernel.data().iter().map(|&w| w as i64).sum();
    assert_eq!(weight_total as u64, kernel.den());
}

#[test]
fn test_box_blur_smooths_step() {
    // A hard step blurred by a 3x3 box: the exact rational average,
    // truncated. Middle column neighbors average (3*0 + 6*255) / 9 = 170.
    let mut data = vec![0u8; 6 * 3];
    for y in 0..3 {
        for x in 3..6 {
            data[y * 6 + x] = 255;
        }
    }
    let mat = Matrix1::new(6, 3, data);
    let out = mat.convolve(&Kernel::box_blur(3), BorderMode::Replicate);
    assert_eq!(out.get_pixel(0, 1), Some(0));
    assert_eq!(out.get_pixel(2, 1), Some(85)); // (6*0 + 3*255) / 9
    assert_eq!(out.get_pixel(3, 1), Some(170)); // (3*0 + 6*255) / 9
    assert_eq!(out.get_pixel(5, 1), Some(255));
}
