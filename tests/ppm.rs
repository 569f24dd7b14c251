use pathrs_renderer::ppm::{encode_ppm, push_decimal};

#[test]
fn decimal_digits() {
    let mut out = Vec::new();
    push_decimal(&mut out, 0);
    push_decimal(&mut out, 7);
    push_decimal(&mut out, 4096);
    assert_eq!(out, b"074096".to_vec());
    let mut max = Vec::new();
    push_decimal(&mut max, u32::MAX);
    assert_eq!(max, u32::MAX.to_string().into_bytes());
}

#[test]
fn ppm_header_and_lines() {
    let text = encode_ppm(2, 1, &[[255, 0, 12], [1, 128, 99]]);
    assert_eq!(String::from_utf8(text).unwrap(), "P3\n2 1\n255\n255 0 12\n1 128 99\n");
}

#[test]
fn ppm_without_pixels_is_header() {
    assert_eq!(encode_ppm(0, 0, &[]), b"P3\n0 0\n255\n".to_vec());
}
