use platform_core::pixels::pixel_buffer;

#[test]
fn buffer_repeats_the_pixel() {
    let buf = pixel_buffer(2, 3, (10, 20, 30, 255));
    assert_eq!(buf.len(), 24);
    for p in 0..6 {
        assert_eq!(buf[4 * p], 10);
        assert_eq!(buf[4 * p + 1], 20);
        assert_eq!(buf[4 * p + 2], 30);
        assert_eq!(buf[4 * p + 3], 255);
    }
}

#[test]
fn single_pixel_buffer() {
    let buf = pixel_buffer(1, 1, (1, 2, 3, 4));
    assert_eq!(buf, vec![1, 2, 3, 4]);
}

#[test]
fn empty_buffer() {
    assert_eq!(pixel_buffer(0, 5, (9, 9, 9, 9)).len(), 0);
    assert_eq!(pixel_buffer(5, 0, (9, 9, 9, 9)).len(), 0);
}
