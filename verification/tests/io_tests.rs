use cv_rusty::io::{cmyk_to_rgb, gray_alpha_to_rgb, gray_to_rgb, rgba_to_rgb};
use cv_rusty::ImageError;

#[test]
fn test_image_error_display() {
    let err = ImageError::JpegDecode("test error".to_string());
    assert_eq!(err.message(), "JPEG decode error: test error");

    let err = ImageError::PngDecode("png error".to_string());
    assert_eq!(err.message(), "PNG decode error: png error");

    let err = ImageError::JpegEncode("encode error".to_string());
    assert_eq!(err.message(), "JPEG encode error: encode error");

    let err = ImageError::PngEncode("encode error".to_string());
    assert_eq!(err.message(), "PNG encode error: encode error");
}

#[test]
fn test_unsupported_format_error() {
    let err = ImageError::UnsupportedFormat("RGBA".to_string());
    assert!(err.message().contains("Unsupported format"));
}

#[test]
fn test_io_error_message() {
    let err = ImageError::Io("missing".to_string());
    assert_eq!(err.message(), "I/O error: missing");
}

#[test]
fn test_gray_to_rgb_expansion() {
    let gray = vec![7u8, 200u8];
    let rgb = gray_to_rgb(&gray);
    assert_eq!(rgb, vec![7, 7, 7, 200, 200, 200]);
}

#[test]
fn test_rgba_strips_alpha() {
    let rgba = vec![1u8, 2, 3, 255, 4, 5, 6, 0];
    let rgb = rgba_to_rgb(&rgba);
    assert_eq!(rgb, vec![1, 2, 3, 4, 5, 6]);
}

#[test]
fn test_gray_alpha_to_rgb_expansion() {
    let ga = vec![9u8, 255, 30, 0];
    let rgb = gray_alpha_to_rgb(&ga);
    assert_eq!(rgb, vec![9, 9, 9, 30, 30, 30]);
}

#[test]
fn test_cmyk_to_rgb_values() {
    // Pure key black and no-ink white.
    let cmyk = vec![0u8, 0, 0, 255, 0, 0, 0, 0];
    let rgb = cmyk_to_rgb(&cmyk);
    assert_eq!(rgb, vec![0, 0, 0, 255, 255, 255]);

    // (255 - 51) * (255 - 0) / 255 == 204
    let cmyk = vec![51u8, 102, 153, 0];
    let rgb = cmyk_to_rgb(&cmyk);
    assert_eq!(rgb, vec![204, 153, 102]);
}
