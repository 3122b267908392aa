use vban_emitter::icon::{icon_rgba, ICON_SIZE};

fn pixel(rgba: &[u8], x: usize, y: usize) -> [u8; 4] {
    let i = (y * 16 + x) * 4;
    [rgba[i], rgba[i + 1], rgba[i + 2], rgba[i + 3]]
}

const BLUE: [u8; 4] = [0x22, 0x66, 0xCC, 0xFF];
const WHITE: [u8; 4] = [0xFF, 0xFF, 0xFF, 0xFF];

#[test]
fn icon_size() {
    assert_eq!(icon_rgba().len(), 16 * 16 * 4);
    assert_eq!(ICON_SIZE, 16);
}

#[test]
fn icon_background_is_blue() {
    let rgba = icon_rgba();
    assert_eq!(pixel(&rgba, 0, 0), BLUE);
    assert_eq!(pixel(&rgba, 15, 15), BLUE);
    assert_eq!(pixel(&rgba, 8, 6), BLUE);
    assert_eq!(pixel(&rgba, 7, 7), BLUE);
}

#[test]
fn icon_glyph_is_white() {
    let rgba = icon_rgba();
    assert_eq!(pixel(&rgba, 8, 7), WHITE);
    assert_eq!(pixel(&rgba, 7, 8), WHITE);
    assert_eq!(pixel(&rgba, 9, 8), WHITE);
    assert_eq!(pixel(&rgba, 5, 13), WHITE);
    assert_eq!(pixel(&rgba, 11, 13), WHITE);
    assert_eq!(pixel(&rgba, 4, 13), BLUE);
    assert_eq!(pixel(&rgba, 12, 13), BLUE);
    assert_eq!(pixel(&rgba, 8, 14), BLUE);
}

#[test]
fn icon_glyph_pixel_count() {
    let rgba = icon_rgba();
    let white = (0..256).filter(|&p| rgba[p * 4] == 0xFF).count();
    // rows 7..=13 have widths 1, 3, 3, 5, 5, 7, 7
    assert_eq!(white, 31);
}
