//! The 16x16 tray icon: a white speaker-cone triangle on a blue square.
use vstd::prelude::*;

verus! {

/// Width and height of the icon in pixels.
pub const ICON_SIZE: u32 = 16;

/// The pixel at column `x`, row `y` belongs to the white glyph: rows 7 to
/// 13, widening by one pixel on each side every second row, centred
/// around column 8.
pub open spec fn icon_glyph(x: int, y: int) -> bool {
    let cx = x - 8;
    let cy = y - 4;
    &&& 2 < cy < 10
    &&& 1 - cy / 2 <= cx <= cy / 2 - 1
}

/// Byte `i` of the icon's RGBA data, pixels row by row: opaque white on the
/// glyph, opaque blue (0x22, 0x66, 0xCC) elsewhere.
pub open spec fn icon_byte(i: int) -> u8 {
    let p = i / 4;
    let c = i % 4;
    let x = p % 16;
    let y = p / 16;
    if c == 3 || icon_glyph(x, y) {
        0xFFu8
    } else if c == 0 {
        0x22u8
    } else if c == 1 {
        0x66u8
    } else {
        0xCCu8
    }
}

proof fn lemma_pixel_index(x: int, y: int, c: int)
    requires
        0 <= x < 16,
        0 <= y < 16,
        0 <= c < 4,
    ensures
        ((y * 16 + x) * 4 + c) / 4 == y * 16 + x,
        ((y * 16 + x) * 4 + c) % 4 == c,
        (y * 16 + x) % 16 == x,
        (y * 16 + x) / 16 == y,
{
}

/// Byte index of colour channel `c` of the pixel at column `x`, row `y`.
pub open spec fn pixel_byte(x: int, y: int, c: int) -> int {
    (y * 16 + x) * 4 + c
}

/// Law (icon shape): every pixel is opaque; a pixel is white exactly when it
/// lies in rows 7 to 13 within `(y - 6) / 2` columns of column 8 (one pixel
/// in row 7, three in rows 8 and 9, five in rows 10 and 11, seven in rows
/// 12 and 13), and blue (0x22, 0x66, 0xCC) everywhere else.
pub proof fn law_icon_shape(x: int, y: int, c: int)
    requires
        0 <= x < 16,
        0 <= y < 16,
        0 <= c < 4,
    ensures
        c == 3 ==> icon_byte(pixel_byte(x, y, c)) == 0xFF,
        c < 3 && 7 <= y <= 13 && 8 - (y - 6) / 2 <= x <= 8 + (y - 6) / 2 ==> icon_byte(pixel_byte(x, y, c)) == 0xFF,
        c < 3 && !(7 <= y <= 13 && 8 - (y - 6) / 2 <= x <= 8 + (y - 6) / 2) ==>
            icon_byte(pixel_byte(x, y, c)) == (if c == 0 { 0x22u8 } else if c == 1 { 0x66u8 } else { 0xCCu8 }),
{
    lemma_pixel_index(x, y, c);
}

/// Law (symmetry): the icon is symmetric about column 8: columns `8 + d`
/// and `8 - d` hold the same colour in every row.
pub proof fn law_icon_symmetric(d: int, y: int, c: int)
    requires
        0 <= d < 8,
        0 <= y < 16,
        0 <= c < 4,
    ensures
        icon_byte(pixel_byte(8 + d, y, c)) == icon_byte(pixel_byte(8 - d, y, c)),
{
    law_icon_shape(8 + d, y, c);
    law_icon_shape(8 - d, y, c);
}

/// Law (rows are runs): in every row the white pixels form one contiguous
/// run: a pixel between two white pixels of its row is white.
pub proof fn law_icon_rows_contiguous(x1: int, x: int, x2: int, y: int)
    requires
        0 <= x1 <= x <= x2 < 16,
        0 <= y < 16,
        icon_byte(pixel_byte(x1, y, 0)) == 0xFF,
        icon_byte(pixel_byte(x2, y, 0)) == 0xFF,
    ensures
        icon_byte(pixel_byte(x, y, 0)) == 0xFF,
{
    law_icon_shape(x1, y, 0);
    law_icon_shape(x, y, 0);
    law_icon_shape(x2, y, 0);
}

/// The RGBA bytes of the tray icon.
pub fn icon_rgba() -> (rgba: Vec<u8>)
    ensures
        rgba@.len() == 16 * 16 * 4,
        forall|i: int| 0 <= i < rgba@.len() ==> rgba@[i] == icon_byte(i),
        forall|x: int, y: int, c: int| 0 <= x < 16 && 0 <= y < 16 && 0 <= c < 4 ==>
            #[trigger] rgba@[pixel_byte(x, y, c)] == icon_byte(pixel_byte(x, y, c)),
{
    let mut rgba: Vec<u8> = Vec::new();
    let mut y: u32 = 0;
    while y < 16
        invariant
            y <= 16,
            rgba@.len() == y * 64,
            forall|i: int| 0 <= i < rgba@.len() ==> rgba@[i] == icon_byte(i),
        decreases 16 - y,
    {
        let mut x: u32 = 0;
        while x < 16
            invariant
                y < 16,
                x <= 16,
                rgba@.len() == y * 64 + x * 4,
                forall|i: int| 0 <= i < rgba@.len() ==> rgba@[i] == icon_byte(i),
            decreases 16 - x,
        {
            let cx = x as i32 - 8;
            let cy = y as i32 - 4;
            let mut white = false;
            if cy >= 0 && cy < 10 {
                let half = cy / 2;
                let left_edge = -half + 1;
                let right_edge = half - 1;
                if cx >= left_edge && cx <= right_edge && cy > 2 {
                    white = true;
                }
            }
            let ghost base = rgba@.len() as int;
            proof {
                assert(white == icon_glyph(x as int, y as int));
                lemma_pixel_index(x as int, y as int, 0);
                lemma_pixel_index(x as int, y as int, 1);
                lemma_pixel_index(x as int, y as int, 2);
                lemma_pixel_index(x as int, y as int, 3);
                assert(base == (y * 16 + x) * 4);
            }
            if white {
                rgba.push(0xFF);
                rgba.push(0xFF);
                rgba.push(0xFF);
            } else {
                rgba.push(0x22);
                rgba.push(0x66);
                rgba.push(0xCC);
            }
            rgba.push(0xFF);
            x = x + 1;
        }
        y = y + 1;
    }
    rgba
}

} // verus!
