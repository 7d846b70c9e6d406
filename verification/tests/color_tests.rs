use cv_rusty::{GrayscaleMethod, Matrix1, Matrix3};

#[test]
fn test_grayscale_methods() {
    let mut mat = Matrix3::zeros(2, 2);
    mat.set_pixel(0, 0, 255, 0, 0);
    mat.set_pixel(1, 0, 0, 255, 0);
    mat.set_pixel(0, 1, 0, 0, 255);
    mat.set_pixel(1, 1, 255, 255, 255);

    // Test all three methods
    let gray_lum = mat.to_grayscale();
    let gray_avg = mat.to_grayscale_average();
    let gray_light = mat.to_grayscale_lightness();

    assert_eq!(gray_lum.width(), 2);
    assert_eq!(gray_avg.width(), 2);
    assert_eq!(gray_light.width(), 2);

    // White should be 255 in all methods
    assert_eq!(gray_avg.get_pixel(1, 1), Some(255));
    assert_eq!(gray_light.get_pixel(1, 1), Some(255));
}

#[test]
fn test_grayscale_luminosity_values() {
    // The luminosity formula is the exact truncated (299 R + 587 G + 114 B) / 1000.
    let mut mat = Matrix3::zeros(2, 2);
    mat.set_pixel(0, 0, 255, 0, 0);
    mat.set_pixel(1, 0, 0, 255, 0);
    mat.set_pixel(0, 1, 0, 0, 255);
    mat.set_pixel(1, 1, 255, 255, 255);
    let gray: Matrix1 = mat.to_grayscale_with_method(GrayscaleMethod::Luminosity);
    assert_eq!(gray.get_pixel(0, 0), Some(76)); // 299 * 255 / 1000
    assert_eq!(gray.get_pixel(1, 0), Some(149)); // 587 * 255 / 1000
    assert_eq!(gray.get_pixel(0, 1), Some(29)); // 114 * 255 / 1000
    assert_eq!(gray.get_pixel(1, 1), Some(255));
}

#[test]
fn test_grayscale_average_values() {
    let mut mat = Matrix3::zeros(1, 1);
    mat.set_pixel(0, 0, 10, 20, 40);
    let gray = mat.to_grayscale_with_method(GrayscaleMethod::Average);
    assert_eq!(gray.get_pixel(0, 0), Some(23)); // (10 + 20 + 40) / 3
}

#[test]
fn test_grayscale_lightness_values() {
    let mut mat = Matrix3::zeros(1, 1);
    mat.set_pixel(0, 0, 10, 200, 41);
    let gray = mat.to_grayscale_with_method(GrayscaleMethod::Lightness);
    assert_eq!(gray.get_pixel(0, 0), Some(105)); // (200 + 10) / 2
}
