use cv_rusty::Matrix3;

#[test]
fn test_new_matrix() {
    let data = vec![0u8; 100 * 100 * 3];
    let mat = Matrix3::new(100, 100, data);
    assert_eq!(mat.width(), 100);
    assert_eq!(mat.height(), 100);
    assert_eq!(mat.data().len(), 100 * 100 * 3);
}

#[test]
fn test_zeros() {
    let mat = Matrix3::zeros(50, 50);
    assert_eq!(mat.width(), 50);
    assert_eq!(mat.height(), 50);
    assert!(mat.data().iter().all(|&x| x == 0));
}

#[test]
fn test_get_set_pixel() {
    let mut mat = Matrix3::zeros(10, 10);
    assert!(mat.set_pixel(5, 5, 255, 128, 64));
    assert_eq!(mat.get_pixel(5, 5), Some((255, 128, 64)));
    assert_eq!(mat.get_pixel(10, 10), None);
}

#[test]
fn test_data_mut_writes_through() {
    let mut mat = Matrix3::zeros(2, 2);
    mat.data_mut()[0] = 9;
    assert_eq!(mat.data()[0], 9);
    assert_eq!(mat.get_pixel(0, 0), Some((9, 0, 0)));
}

#[test]
fn test_dimensions_and_into_raw() {
    let mat = Matrix3::zeros(7, 4);
    assert_eq!(mat.dimensions(), (7, 4));
    let raw = mat.into_raw();
    assert_eq!(raw.len(), 7 * 4 * 3);
}
