use raytracing_rs::ppm::{dec_bytes, ppm_image, Pixel};

fn px(r: u8, g: u8, b: u8) -> Pixel {
    Pixel { r, g, b }
}

#[test]
fn decimal_numerals() {
    assert_eq!(dec_bytes(0), b"0");
    assert_eq!(dec_bytes(7), b"7");
    assert_eq!(dec_bytes(10), b"10");
    assert_eq!(dec_bytes(255), b"255");
    assert_eq!(dec_bytes(1200), b"1200");
    assert_eq!(dec_bytes(4294967295), b"4294967295");
}

#[test]
fn single_pixel_image() {
    let pixels = vec![px(255, 255, 255)];
    let out = ppm_image(1, 1, &pixels);
    assert_eq!(String::from_utf8(out).unwrap(), "P3\n1 1\n255\n255 255 255\n");
}

#[test]
fn rows_come_out_top_to_bottom() {
    let pixels = vec![px(1, 2, 3), px(4, 5, 6), px(7, 8, 9), px(10, 11, 12)];
    let out = ppm_image(2, 2, &pixels);
    assert_eq!(
        String::from_utf8(out).unwrap(),
        "P3\n2 2\n255\n1 2 3\n4 5 6\n7 8 9\n10 11 12\n"
    );
}

#[test]
fn header_of_an_empty_grid() {
    let pixels: Vec<Pixel> = Vec::new();
    let out = ppm_image(3, 0, &pixels);
    assert_eq!(String::from_utf8(out).unwrap(), "P3\n3 0\n255\n");
}

#[test]
fn black_pixels_print_zeroes() {
    let pixels = vec![px(0, 0, 0), px(0, 0, 0)];
    let out = ppm_image(2, 1, &pixels);
    assert_eq!(String::from_utf8(out).unwrap(), "P3\n2 1\n255\n0 0 0\n0 0 0\n");
}
