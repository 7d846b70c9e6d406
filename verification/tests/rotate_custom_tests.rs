use cv_rusty::{InterpolationMethod, Matrix1, Matrix3};

const PI: f32 = core::f32::consts::PI;
const DEN: u64 = 1 << 24;

/// The rational rotation coefficients for an angle in radians, as the
/// surrounding code computes them.
fn coefficients(angle_rad: f32) -> (i64, i64) {
    let limit = DEN as i64;
    let c = (libm::roundf(libm::cosf(angle_rad) * DEN as f32) as i64).clamp(-limit, limit);
    let s = (libm::roundf(libm::sinf(angle_rad) * DEN as f32) as i64).clamp(-limit, limit);
    (c, s)
}

fn degrees(deg: f32) -> (i64, i64) {
    coefficients(deg * PI / 180.0)
}

#[test]
fn test_rotate_custom_degrees_matrix1() {
    let image = Matrix1::zeros(100, 100);

    // Test 0 degrees (should keep same dimensions approximately)
    let (c, s) = degrees(0.0);
    let rotated = image.rotate_custom(c, s, DEN, InterpolationMethod::Bilinear);
    assert_eq!(rotated.width(), 100);
    assert_eq!(rotated.height(), 100);

    // Test 45 degrees (should increase dimensions)
    let (c, s) = degrees(45.0);
    let rotated = image.rotate_custom(c, s, DEN, InterpolationMethod::Bilinear);
    assert!(rotated.width() > 100);
    assert!(rotated.height() > 100);

    // Test 90 degrees (should swap dimensions approximately)
    let (c, s) = degrees(90.0);
    let rotated = image.rotate_custom(c, s, DEN, InterpolationMethod::NearestNeighbor);
    assert!(rotated.width() >= 100 && rotated.width() <= 101);
    assert!(rotated.height() >= 100 && rotated.height() <= 101);
}

#[test]
fn test_rotate_custom_radians_matrix1() {
    let image = Matrix1::zeros(100, 100);

    // Test PI/4 radians (45 degrees)
    let (c, s) = coefficients(PI / 4.0);
    let rotated = image.rotate_custom(c, s, DEN, InterpolationMethod::Bilinear);
    assert!(rotated.width() > 100);
    assert!(rotated.height() > 100);

    // Test PI/2 radians (90 degrees)
    let (c, s) = coefficients(PI / 2.0);
    let rotated = image.rotate_custom(c, s, DEN, InterpolationMethod::Bilinear);
    assert!(rotated.width() >= 100 && rotated.width() <= 101);
}

#[test]
fn test_rotate_custom_degrees_matrix3() {
    let image = Matrix3::zeros(100, 100);

    // Test 0 degrees
    let (c, s) = degrees(0.0);
    let rotated = image.rotate_custom(c, s, DEN, InterpolationMethod::Bilinear);
    assert_eq!(rotated.width(), 100);
    assert_eq!(rotated.height(), 100);

    // Test 45 degrees
    let (c, s) = degrees(45.0);
    let rotated = image.rotate_custom(c, s, DEN, InterpolationMethod::Bilinear);
    assert!(rotated.width() > 100);
    assert!(rotated.height() > 100);

    // Test 180 degrees (should keep same dimensions)
    let (c, s) = degrees(180.0);
    let rotated = image.rotate_custom(c, s, DEN, InterpolationMethod::NearestNeighbor);
    assert!(rotated.width() >= 100 && rotated.width() <= 101);
    assert!(rotated.height() >= 100 && rotated.height() <= 101);
}

#[test]
fn test_rotate_custom_radians_matrix3() {
    let image = Matrix3::zeros(100, 100);

    // Test PI/6 radians (30 degrees)
    let (c, s) = coefficients(PI / 6.0);
    let rotated = image.rotate_custom(c, s, DEN, InterpolationMethod::Bilinear);
    assert!(rotated.width() > 100);
    assert!(rotated.height() > 100);

    // Test PI radians (180 degrees)
    let (c, s) = coefficients(PI);
    let rotated = image.rotate_custom(c, s, DEN, InterpolationMethod::Bilinear);
    assert!(rotated.width() >= 100 && rotated.width() <= 101);
}

#[test]
fn test_rotate_custom_preserves_data() {
    // Create a larger 10x10 image with a bright center region
    let mut data = vec![0u8; 10 * 10];
    // Set a 3x3 bright region in the center
    for y in 4..7 {
        for x in 4..7 {
            data[y * 10 + x] = 255;
        }
    }
    let image = Matrix1::new(10, 10, data);

    // Rotate by a small angle and check that bright region is preserved
    let (c, s) = degrees(10.0);
    let rotated = image.rotate_custom(c, s, DEN, InterpolationMethod::Bilinear);

    // Find the brightest pixel in rotated image
    let max_val = rotated.data().iter().max().unwrap();
    assert!(*max_val > 200); // Should still have bright pixels
}

#[test]
fn test_rotate_custom_zero_angle_is_identity() {
    // An exact zero rotation (cosine one, sine zero) keeps the canvas and
    // every pixel, for both interpolation methods.
    let mut data = vec![0u8; 8 * 5];
    for (i, v) in data.iter_mut().enumerate() {
        *v = (i * 7 % 256) as u8;
    }
    let image = Matrix1::new(8, 5, data);
    for method in [
        InterpolationMethod::NearestNeighbor,
        InterpolationMethod::Bilinear,
    ] {
        let rotated = image.rotate_custom(DEN as i64, 0, DEN, method);
        assert_eq!(rotated.width(), 8);
        assert_eq!(rotated.height(), 5);
        assert_eq!(rotated.data(), image.data());
    }

    let mut data3 = vec![0u8; 4 * 6 * 3];
    for (i, v) in data3.iter_mut().enumerate() {
        *v = (i * 11 % 256) as u8;
    }
    let image3 = Matrix3::new(4, 6, data3);
    for method in [
        InterpolationMethod::NearestNeighbor,
        InterpolationMethod::Bilinear,
    ] {
        let rotated = image3.rotate_custom(DEN as i64, 0, DEN, method);
        assert_eq!(rotated.width(), 4);
        assert_eq!(rotated.height(), 6);
        assert_eq!(rotated.data(), image3.data());
    }
}

#[test]
fn test_rotate_custom_empty_image() {
    // Rotation is defined for empty sources: the canvas follows the
    // rotated extents and every destination pixel is zero-filled.
    let empty = Matrix1::zeros(0, 0);
    let (c, s) = degrees(45.0);
    for method in [
        InterpolationMethod::NearestNeighbor,
        InterpolationMethod::Bilinear,
    ] {
        let r = empty.rotate_custom(c, s, DEN, method);
        assert_eq!(r.width(), 0);
        assert_eq!(r.height(), 0);
    }

    let column = Matrix1::zeros(0, 5);
    for method in [
        InterpolationMethod::NearestNeighbor,
        InterpolationMethod::Bilinear,
    ] {
        let r = column.rotate_custom(c, s, DEN, method);
        assert!(r.width() >= 1);
        assert!(r.data().iter().all(|&v| v == 0));
    }

    let empty3 = Matrix3::zeros(4, 0);
    let r3 = empty3.rotate_custom(c, s, DEN, InterpolationMethod::Bilinear);
    assert!(r3.height() >= 1);
    assert!(r3.data().iter().all(|&v| v == 0));
}
