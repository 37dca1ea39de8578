use mandelbrot::image::{decimal_digits, ppm_bytes, ppm_header};

#[test]
fn header_of_small_grid() {
    assert_eq!(ppm_header(4), b"P6\n4 4\n255\n".to_vec());
    assert_eq!(ppm_header(1000), b"P6\n1000 1000\n255\n".to_vec());
}

#[test]
fn decimal_of_numbers() {
    assert_eq!(decimal_digits(0), b"0".to_vec());
    assert_eq!(decimal_digits(907), b"907".to_vec());
}

#[test]
fn small_image_has_header_and_48_rgb_bytes() {
    let colors: Vec<u32> = (0..16u32).map(|i| 0xff00_0000 | (i << 16) | (2 * i) << 8 | (3 * i)).collect();
    let out = ppm_bytes(4, &colors);
    let header = b"P6\n4 4\n255\n";
    assert_eq!(&out[..header.len()], header);
    assert_eq!(out.len(), header.len() + 48);
    assert_eq!(&out[header.len()..header.len() + 6], &[0, 0, 0, 1, 2, 3]);
    assert_eq!(&out[out.len() - 3..], &[15, 30, 45]);
}
