use img2array::emit::render;
use img2array::text::{push_aligned, push_decimal};

fn text(bytes: Vec<u8>) -> String {
    String::from_utf8(bytes).unwrap()
}

fn decimal(n: usize) -> String {
    let mut out = Vec::new();
    push_decimal(&mut out, n);
    text(out)
}

fn aligned(value: u8) -> String {
    let mut out = Vec::new();
    push_aligned(&mut out, value);
    text(out)
}

#[test]
fn push_decimal_writes_plain_decimal() {
    assert_eq!(decimal(0), "0");
    assert_eq!(decimal(7), "7");
    assert_eq!(decimal(10), "10");
    assert_eq!(decimal(255), "255");
    assert_eq!(decimal(1024), "1024");
    assert_eq!(decimal(9876543210), "9876543210");
    assert_eq!(decimal(usize::MAX), format!("{}", usize::MAX));
}

#[test]
fn push_decimal_keeps_what_was_there() {
    let mut out = b"x = ".to_vec();
    push_decimal(&mut out, 42);
    assert_eq!(text(out), "x = 42");
}

#[test]
fn push_aligned_fills_three_characters() {
    assert_eq!(aligned(0), "  0");
    assert_eq!(aligned(9), "  9");
    assert_eq!(aligned(10), " 10");
    assert_eq!(aligned(85), " 85");
    assert_eq!(aligned(99), " 99");
    assert_eq!(aligned(100), "100");
    assert_eq!(aligned(255), "255");
    for value in 0..=255u8 {
        assert_eq!(aligned(value), format!("{:3}", value));
    }
}

#[test]
fn render_one_packed_byte() {
    let rows = vec![vec![255u8]];
    assert_eq!(
        text(render(8, 1, true, &rows)),
        "#include <inttypes.h>\n\n#define IMG_WIDTH 1\n#define IMG_HEIGHT 1\n\nstatic const uint8_t img[IMG_HEIGHT][IMG_WIDTH] = {\n    { 255 }\n};\n"
    );
}

#[test]
fn render_pads_packed_bytes() {
    let rows = vec![vec![0u8, 85, 170], vec![7, 10, 255]];
    assert_eq!(
        text(render(24, 2, true, &rows)),
        "#include <inttypes.h>\n\n#define IMG_WIDTH 3\n#define IMG_HEIGHT 2\n\nstatic const uint8_t img[IMG_HEIGHT][IMG_WIDTH] = {\n    {   0,  85, 170 },\n    {   7,  10, 255 }\n};\n"
    );
}

#[test]
fn render_single_bits_unpadded() {
    let rows = vec![vec![1u8, 1], vec![1, 1]];
    assert_eq!(
        text(render(2, 2, false, &rows)),
        "#include <inttypes.h>\n\n#define IMG_WIDTH 2\n#define IMG_HEIGHT 2\n\nstatic const uint8_t img[IMG_HEIGHT][IMG_WIDTH] = {\n    { 1, 1 },\n    { 1, 1 }\n};\n"
    );
}

#[test]
fn render_separates_all_rows_but_the_last() {
    let rows = vec![vec![0u8, 1, 0], vec![1, 0, 1], vec![0, 0, 0]];
    let out = text(render(3, 3, false, &rows));
    assert!(out.ends_with("    { 0, 1, 0 },\n    { 1, 0, 1 },\n    { 0, 0, 0 }\n};\n"));
    assert!(out.contains("#define IMG_WIDTH 3\n#define IMG_HEIGHT 3\n"));
}

#[test]
fn render_without_rows() {
    let rows: Vec<Vec<u8>> = Vec::new();
    assert_eq!(
        text(render(16, 0, true, &rows)),
        "#include <inttypes.h>\n\n#define IMG_WIDTH 2\n#define IMG_HEIGHT 0\n\nstatic const uint8_t img[IMG_HEIGHT][IMG_WIDTH] = {\n};\n"
    );
}

#[test]
fn render_rows_without_values() {
    let rows: Vec<Vec<u8>> = vec![Vec::new(), Vec::new()];
    assert_eq!(
        text(render(0, 2, false, &rows)),
        "#include <inttypes.h>\n\n#define IMG_WIDTH 0\n#define IMG_HEIGHT 2\n\nstatic const uint8_t img[IMG_HEIGHT][IMG_WIDTH] = {\n    {  },\n    {  }\n};\n"
    );
}

#[test]
fn render_declares_the_width_in_bytes_when_packed() {
    let rows = vec![vec![1u8; 16]];
    let packed = text(render(128, 1, true, &rows));
    assert!(packed.contains("#define IMG_WIDTH 16\n"));
    let plain = text(render(128, 1, false, &rows));
    assert!(plain.contains("#define IMG_WIDTH 128\n"));
}
