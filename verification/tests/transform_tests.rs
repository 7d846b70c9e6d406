use cv_rusty::{InterpolationMethod, Matrix1, Matrix3, RotationAngle};

#[test]
fn test_resize_nearest_matrix1() {
    let mut data = vec![0u8; 4 * 4];
    for (i, pixel) in data.iter_mut().enumerate().take(16) {
        *pixel = (i * 16) as u8;
    }
    let image = Matrix1::new(4, 4, data);
    let resized = image.resize(2, 2, InterpolationMethod::NearestNeighbor);

    assert_eq!(resized.width(), 2);
    assert_eq!(resized.height(), 2);
}

#[test]
fn test_resize_bilinear_matrix1() {
    let data = vec![255u8; 10 * 10];
    let image = Matrix1::new(10, 10, data);
    let resized = image.resize(5, 5, InterpolationMethod::Bilinear);

    assert_eq!(resized.width(), 5);
    assert_eq!(resized.height(), 5);
    // All pixels should still be 255
    assert!(resized.data().iter().all(|&x| x == 255));
}

#[test]
fn test_crop_matrix1() {
    let mut data = vec![0u8; 10 * 10];
    for (i, pixel) in data.iter_mut().enumerate().take(100) {
        *pixel = (i % 256) as u8;
    }
    let image = Matrix1::new(10, 10, data);
    let cropped = image.crop(2, 2, 5, 5).unwrap();

    assert_eq!(cropped.width(), 5);
    assert_eq!(cropped.height(), 5);
}

#[test]
fn test_crop_invalid_matrix1() {
    let image = Matrix1::zeros(10, 10);
    let cropped = image.crop(8, 8, 5, 5);
    assert!(cropped.is_none());
}

#[test]
fn test_rotate_90_matrix1() {
    let mut data = vec![0u8; 3 * 2];
    data[0] = 1;
    data[1] = 2;
    data[2] = 3;
    data[3] = 4;
    data[4] = 5;
    data[5] = 6;

    let image = Matrix1::new(3, 2, data);
    let rotated = image.rotate(RotationAngle::Rotate90);

    assert_eq!(rotated.width(), 2);
    assert_eq!(rotated.height(), 3);
}

#[test]
fn test_rotate_180_matrix1() {
    let data = vec![1, 2, 3, 4];
    let image = Matrix1::new(2, 2, data);
    let rotated = image.rotate(RotationAngle::Rotate180);

    assert_eq!(rotated.width(), 2);
    assert_eq!(rotated.height(), 2);
    assert_eq!(rotated.data()[0], 4);
    assert_eq!(rotated.data()[3], 1);
}

#[test]
fn test_rotate_270_matrix1() {
    let mut data = vec![0u8; 3 * 2];
    for (i, pixel) in data.iter_mut().enumerate().take(6) {
        *pixel = (i + 1) as u8;
    }

    let image = Matrix1::new(3, 2, data);
    let rotated = image.rotate(RotationAngle::Rotate270);

    assert_eq!(rotated.width(), 2);
    assert_eq!(rotated.height(), 3);
}

#[test]
fn test_resize_nearest_matrix3() {
    let mut data = vec![0u8; 4 * 4 * 3];
    for (i, pixel) in data.iter_mut().enumerate().take(4 * 4 * 3) {
        *pixel = (i % 256) as u8;
    }
    let image = Matrix3::new(4, 4, data);
    let resized = image.resize(2, 2, InterpolationMethod::NearestNeighbor);

    assert_eq!(resized.width(), 2);
    assert_eq!(resized.height(), 2);
}

#[test]
fn test_resize_bilinear_matrix3() {
    let data = vec![128u8; 10 * 10 * 3];
    let image = Matrix3::new(10, 10, data);
    let resized = image.resize(5, 5, InterpolationMethod::Bilinear);

    assert_eq!(resized.width(), 5);
    assert_eq!(resized.height(), 5);
    // All pixels should still be 128
    assert!(resized.data().iter().all(|&x| x == 128));
}

#[test]
fn test_crop_matrix3() {
    let mut data = vec![0u8; 10 * 10 * 3];
    for (i, pixel) in data.iter_mut().enumerate().take(10 * 10 * 3) {
        *pixel = (i % 256) as u8;
    }
    let image = Matrix3::new(10, 10, data);
    let cropped = image.crop(2, 2, 5, 5).unwrap();

    assert_eq!(cropped.width(), 5);
    assert_eq!(cropped.height(), 5);
}

#[test]
fn test_crop_invalid_matrix3() {
    let image = Matrix3::zeros(10, 10);
    let cropped = image.crop(8, 8, 5, 5);
    assert!(cropped.is_none());
}

#[test]
fn test_rotate_90_matrix3() {
    let mut data = vec![0u8; 3 * 2 * 3];
    for (i, pixel) in data.iter_mut().enumerate().take(18) {
        *pixel = (i % 256) as u8;
    }

    let image = Matrix3::new(3, 2, data);
    let rotated = image.rotate(RotationAngle::Rotate90);

    assert_eq!(rotated.width(), 2);
    assert_eq!(rotated.height(), 3);
}

#[test]
fn test_rotate_180_matrix3() {
    let mut data = vec![0u8; 2 * 2 * 3];
    for (i, pixel) in data.iter_mut().enumerate().take(12) {
        *pixel = (i + 1) as u8;
    }
    let image = Matrix3::new(2, 2, data);
    let rotated = image.rotate(RotationAngle::Rotate180);

    assert_eq!(rotated.width(), 2);
    assert_eq!(rotated.height(), 2);
}

#[test]
fn test_rotate_270_matrix3() {
    let mut data = vec![0u8; 3 * 2 * 3];
    for (i, pixel) in data.iter_mut().enumerate().take(18) {
        *pixel = (i % 256) as u8;
    }

    let image = Matrix3::new(3, 2, data);
    let rotated = image.rotate(RotationAngle::Rotate270);

    assert_eq!(rotated.width(), 2);
    assert_eq!(rotated.height(), 3);
}
