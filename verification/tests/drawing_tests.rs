use cv_rusty::{Color, DrawTarget, HexParseError, Matrix1, Matrix3};

#[test]
fn test_color_conversions() {
    let gray = Color::gray(128);
    assert_eq!(gray.to_gray(), 128);
    assert_eq!(gray.to_rgb(), (128, 128, 128));

    let rgb = Color::rgb(255, 128, 64);
    assert_eq!(rgb.to_rgb(), (255, 128, 64));
}

#[test]
fn test_hex_parsing_6_digit() {
    // With hash
    assert_eq!(Color::from_hex("#FF0000").unwrap(), Color::rgb(255, 0, 0));
    assert_eq!(Color::from_hex("#00FF00").unwrap(), Color::rgb(0, 255, 0));
    assert_eq!(Color::from_hex("#0000FF").unwrap(), Color::rgb(0, 0, 255));
    assert_eq!(
        Color::from_hex("#FFFFFF").unwrap(),
        Color::rgb(255, 255, 255)
    );
    assert_eq!(Color::from_hex("#000000").unwrap(), Color::rgb(0, 0, 0));

    // Without hash
    assert_eq!(Color::from_hex("FF0000").unwrap(), Color::rgb(255, 0, 0));
    assert_eq!(Color::from_hex("00FF00").unwrap(), Color::rgb(0, 255, 0));
    assert_eq!(Color::from_hex("0000FF").unwrap(), Color::rgb(0, 0, 255));

    // Lowercase
    assert_eq!(Color::from_hex("#ff0000").unwrap(), Color::rgb(255, 0, 0));
    assert_eq!(Color::from_hex("00ff00").unwrap(), Color::rgb(0, 255, 0));

    // Mixed case
    assert_eq!(Color::from_hex("#Ff00fF").unwrap(), Color::rgb(255, 0, 255));
}

#[test]
fn test_hex_parsing_3_digit() {
    // With hash
    assert_eq!(Color::from_hex("#F00").unwrap(), Color::rgb(255, 0, 0));
    assert_eq!(Color::from_hex("#0F0").unwrap(), Color::rgb(0, 255, 0));
    assert_eq!(Color::from_hex("#00F").unwrap(), Color::rgb(0, 0, 255));
    assert_eq!(Color::from_hex("#FFF").unwrap(), Color::rgb(255, 255, 255));
    assert_eq!(Color::from_hex("#000").unwrap(), Color::rgb(0, 0, 0));

    // Without hash
    assert_eq!(Color::from_hex("F00").unwrap(), Color::rgb(255, 0, 0));
    assert_eq!(Color::from_hex("0F0").unwrap(), Color::rgb(0, 255, 0));
    assert_eq!(Color::from_hex("00F").unwrap(), Color::rgb(0, 0, 255));

    // Lowercase
    assert_eq!(Color::from_hex("#f00").unwrap(), Color::rgb(255, 0, 0));
    assert_eq!(Color::from_hex("0f0").unwrap(), Color::rgb(0, 255, 0));

    // Test expansion: 3 -> 33, 9 -> 99, etc.
    assert_eq!(Color::from_hex("#369").unwrap(), Color::rgb(51, 102, 153));
    assert_eq!(Color::from_hex("#ABC").unwrap(), Color::rgb(170, 187, 204));
}

#[test]
fn test_hex_parsing_errors() {
    // Invalid length
    assert!(Color::from_hex("").is_err());
    assert!(Color::from_hex("#").is_err());
    assert!(Color::from_hex("FF").is_err());
    assert!(Color::from_hex("#FF").is_err());
    assert!(Color::from_hex("FFFF").is_err());
    assert!(Color::from_hex("#FFFFFFF").is_err());

    // Invalid characters
    assert!(Color::from_hex("GGGGGG").is_err());
    assert!(Color::from_hex("#ZZZZZ").is_err());
    assert!(Color::from_hex("FF00GG").is_err());
    assert!(Color::from_hex("#12345Z").is_err());
}

#[test]
fn test_hex_error_variants() {
    assert_eq!(
        Color::from_hex("#FF"),
        Err(HexParseError::InvalidLength(2))
    );
    assert_eq!(
        Color::from_hex("FF00GG"),
        Err(HexParseError::InvalidHexChar('G'))
    );
    assert_eq!(
        Color::from_hex("#Z00"),
        Err(HexParseError::InvalidHexChar('Z'))
    );
}

#[test]
fn test_hex_from_str() {
    // Test FromStr trait implementation
    let red: Color = "#FF0000".parse().unwrap();
    assert_eq!(red, Color::rgb(255, 0, 0));

    let green: Color = "00FF00".parse().unwrap();
    assert_eq!(green, Color::rgb(0, 255, 0));

    let blue: Color = "#00F".parse().unwrap();
    assert_eq!(blue, Color::rgb(0, 0, 255));

    // Test error case
    let result: Result<Color, _> = "invalid".parse();
    assert!(result.is_err());
}

#[test]
fn test_common_colors() {
    // Test common named colors
    assert_eq!(Color::from_hex("#FF0000").unwrap(), Color::rgb(255, 0, 0)); // Red
    assert_eq!(Color::from_hex("#00FF00").unwrap(), Color::rgb(0, 255, 0)); // Green
    assert_eq!(Color::from_hex("#0000FF").unwrap(), Color::rgb(0, 0, 255)); // Blue
    assert_eq!(Color::from_hex("#FFFF00").unwrap(), Color::rgb(255, 255, 0)); // Yellow
    assert_eq!(Color::from_hex("#FF00FF").unwrap(), Color::rgb(255, 0, 255)); // Magenta
    assert_eq!(Color::from_hex("#00FFFF").unwrap(), Color::rgb(0, 255, 255)); // Cyan
    assert_eq!(Color::from_hex("#000000").unwrap(), Color::rgb(0, 0, 0)); // Black
    assert_eq!(
        Color::from_hex("#FFFFFF").unwrap(),
        Color::rgb(255, 255, 255)
    ); // White
    assert_eq!(
        Color::from_hex("#808080").unwrap(),
        Color::rgb(128, 128, 128)
    ); // Gray
}

#[test]
fn test_draw_target_trait() {
    // Test that both Matrix1 and Matrix3 implement DrawTarget
    let mut rgb = Matrix3::zeros(10, 10);
    let mut gray = Matrix1::zeros(10, 10);

    assert_eq!(DrawTarget::width(&rgb), 10);
    assert_eq!(DrawTarget::height(&rgb), 10);
    assert_eq!(DrawTarget::width(&gray), 10);
    assert_eq!(DrawTarget::height(&gray), 10);

    assert!(rgb.set_pixel_color(5, 5, Color::rgb(255, 0, 0)));
    assert!(gray.set_pixel_color(5, 5, Color::gray(128)));
}

#[test]
fn test_set_pixel_color_writes_exact_pixel() {
    let mut gray = Matrix1::zeros(3, 2);
    assert!(gray.set_pixel_color(1, 1, Color::rgb(255, 0, 0)));
    // Luminosity of pure red, truncated: 299 * 255 / 1000.
    assert_eq!(gray.get_pixel(1, 1), Some(76));
    assert_eq!(gray.get_pixel(0, 1), Some(0));
    assert!(!gray.set_pixel_color(3, 0, Color::gray(9)));

    let mut rgb = Matrix3::zeros(3, 2);
    assert!(rgb.set_pixel_color(2, 0, Color::gray(7)));
    assert_eq!(rgb.get_pixel(2, 0), Some((7, 7, 7)));
    assert_eq!(rgb.get_pixel(1, 0), Some((0, 0, 0)));
    assert!(!rgb.set_pixel_color(0, 2, Color::black()));
}
