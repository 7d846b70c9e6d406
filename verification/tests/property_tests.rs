use cv_rusty::window::{gray_display_buffer, rgb_display_buffer};
use cv_rusty::{BorderMode, InterpolationMethod, Kernel, Kernel1d, Matrix1, Matrix3, RotationAngle};

/// A small deterministic pseudo-random byte stream for test images.
struct Lcg(u64);

impl Lcg {
    fn next_byte(&mut self) -> u8 {
        self.0 = self.0.wrapping_mul(6364136223846793005).wrapping_add(1442695040888963407);
        (self.0 >> 33) as u8
    }
}

fn random_matrix1(w: usize, h: usize, seed: u64) -> Matrix1 {
    let mut rng = Lcg(seed);
    let data: Vec<u8> = (0..w * h).map(|_| rng.next_byte()).collect();
    Matrix1::new(w, h, data)
}

fn random_matrix3(w: usize, h: usize, seed: u64) -> Matrix3 {
    let mut rng = Lcg(seed);
    let data: Vec<u8> = (0..w * h * 3).map(|_| rng.next_byte()).collect();
    Matrix3::new(w, h, data)
}

fn identity_kernel() -> Kernel {
    Kernel::new(3, 3, vec![0, 0, 0, 0, 1, 0, 0, 0, 0], 1)
}

#[test]
fn test_identity_kernel_leaves_image_unchanged() {
    let img = random_matrix1(17, 11, 7);
    let out = img.convolve(&identity_kernel(), BorderMode::Zero);
    assert_eq!(out.data(), img.data());

    let img3 = random_matrix3(9, 13, 21);
    let out3 = img3.convolve(&identity_kernel(), BorderMode::Zero);
    assert_eq!(out3.data(), img3.data());
}

#[test]
fn test_box_blur_one_is_identity() {
    let img = random_matrix1(12, 8, 99);
    for mode in [
        BorderMode::Zero,
        BorderMode::Replicate,
        BorderMode::Reflect,
        BorderMode::Wrap,
    ] {
        let out = img.convolve(&Kernel::box_blur(1), mode);
        assert_eq!(out.data(), img.data());
    }
}

#[test]
fn test_parallel_matches_sequential() {
    // Byte-identical output across randomized images, every border mode and
    // several kernel sizes.
    let kernels = [Kernel::box_blur(3), Kernel::box_blur(5), Kernel::sobel_x()];
    let modes = [
        BorderMode::Zero,
        BorderMode::Replicate,
        BorderMode::Reflect,
        BorderMode::Wrap,
    ];
    for (i, (w, h)) in [(16usize, 16usize), (64, 33), (256, 256)].iter().enumerate() {
        let img = random_matrix1(*w, *h, 1000 + i as u64);
        for kernel in &kernels {
            for mode in modes {
                let seq = img.convolve(kernel, mode);
                let par = img.convolve_parallel(kernel, mode);
                assert_eq!(seq.data(), par.data());
            }
        }
    }
    let img3 = random_matrix3(64, 47, 5);
    for kernel in &kernels {
        for mode in modes {
            let seq = img3.convolve(kernel, mode);
            let par = img3.convolve_parallel(kernel, mode);
            assert_eq!(seq.data(), par.data());
        }
    }
}

#[test]
fn test_separable_matches_direct_within_one() {
    // The separable pass with taps [1/4, 1/2, 1/4] against the direct
    // convolution with the outer-product 3x3 kernel, within one unit per
    // pixel (the intermediate row pass is stored at 8-bit precision).
    let img = random_matrix1(32, 24, 4242);
    let k1 = Kernel1d::new(vec![1, 2, 1], 4);
    let sep = img.convolve_separable(&k1, &k1, BorderMode::Replicate);
    let outer = Kernel::new(3, 3, vec![1, 2, 1, 2, 4, 2, 1, 2, 1], 16);
    let direct = img.convolve(&outer, BorderMode::Replicate);
    for (a, b) in sep.data().iter().zip(direct.data().iter()) {
        assert!((*a as i16 - *b as i16).abs() <= 1);
    }
}

#[test]
fn test_separable_matches_direct_within_one_rgb() {
    let img = random_matrix3(24, 18, 777);
    let k1 = Kernel1d::new(vec![1, 2, 1], 4);
    let sep = img.convolve_separable(&k1, &k1, BorderMode::Replicate);
    let outer = Kernel::new(3, 3, vec![1, 2, 1, 2, 4, 2, 1, 2, 1], 16);
    let direct = img.convolve(&outer, BorderMode::Replicate);
    for (a, b) in sep.data().iter().zip(direct.data().iter()) {
        assert!((*a as i16 - *b as i16).abs() <= 1);
    }
}

#[test]
fn test_resize_constant_image() {
    let img = Matrix1::new(9, 7, vec![77u8; 63]);
    for method in [
        InterpolationMethod::NearestNeighbor,
        InterpolationMethod::Bilinear,
    ] {
        let out = img.resize(5, 13, method);
        assert!(out.data().iter().all(|&v| v == 77));
    }
    let img3 = Matrix3::new(9, 7, vec![201u8; 63 * 3]);
    for method in [
        InterpolationMethod::NearestNeighbor,
        InterpolationMethod::Bilinear,
    ] {
        let out = img3.resize(14, 3, method);
        assert!(out.data().iter().all(|&v| v == 201));
    }
}

#[test]
fn test_rotate_dimension_swap_and_involution() {
    let img = random_matrix1(20, 30, 8);
    let r90 = img.rotate(RotationAngle::Rotate90);
    assert_eq!(r90.width(), 30);
    assert_eq!(r90.height(), 20);

    let twice = img
        .rotate(RotationAngle::Rotate180)
        .rotate(RotationAngle::Rotate180);
    assert_eq!(twice.data(), img.data());

    let img3 = random_matrix3(13, 5, 17);
    let r90c = img3.rotate(RotationAngle::Rotate90);
    assert_eq!(r90c.width(), 5);
    assert_eq!(r90c.height(), 13);
    let twice3 = img3
        .rotate(RotationAngle::Rotate180)
        .rotate(RotationAngle::Rotate180);
    assert_eq!(twice3.data(), img3.data());
}

#[test]
fn test_crop_fails_iff_region_overruns() {
    let img = Matrix1::zeros(10, 10);
    assert!(img.crop(0, 0, 10, 10).is_some());
    assert!(img.crop(5, 5, 5, 5).is_some());
    assert!(img.crop(5, 5, 6, 5).is_none()); // x + w > width
    assert!(img.crop(5, 5, 5, 6).is_none()); // y + h > height
    assert!(img.crop(10, 0, 1, 1).is_none());
    assert!(img.crop(0, 10, 1, 1).is_none());

    let img3 = Matrix3::zeros(4, 6);
    assert!(img3.crop(1, 2, 3, 4).is_some());
    assert!(img3.crop(2, 2, 3, 4).is_none());
}

#[test]
fn test_identity_convolution_scenario() {
    // 10x10 single-channel image, all zero except pixel (5,5) = 255;
    // 3x3 identity kernel with zero-fill border: output equals input.
    let mut data = vec![0u8; 10 * 10];
    data[5 * 10 + 5] = 255;
    let img = Matrix1::new(10, 10, data);
    let out = img.convolve(&identity_kernel(), BorderMode::Zero);
    assert_eq!(out.get_pixel(5, 5), Some(255));
    assert_eq!(out.data(), img.data());
}

#[test]
fn test_display_buffer_packing() {
    let mut gray = Matrix1::zeros(2, 1);
    gray.set_pixel(0, 0, 0x12);
    gray.set_pixel(1, 0, 0xFF);
    assert_eq!(gray_display_buffer(&gray), vec![0x121212, 0xFFFFFF]);

    let mut rgb = Matrix3::zeros(1, 1);
    rgb.set_pixel(0, 0, 0x12, 0x34, 0x56);
    assert_eq!(rgb_display_buffer(&rgb), vec![0x123456]);
}
