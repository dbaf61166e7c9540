//! What a host needs to drive the machine: the geometry of the display, the
//! rectangles to paint for it, and the keyboard layout of the keypad.
//!
//! Nothing here opens a window or reads a keyboard. Physical keys are named
//! by their scancode number, the USB usage code of the key's position, so
//! that any windowing library's key reports can be handed in.

use crate::display::{is_grid, Framebuffer, HEIGHT, WIDTH};
use crate::keypad::{Keypad, KEY_COUNT};
use vstd::prelude::*;

verus! {

/// Pixels in a row of the display.
pub const DISPLAY_WIDTH: u8 = 128;

/// Rows of the display.
pub const DISPLAY_HEIGHT: u8 = 64;

/// The side of the square that one pixel of the display is painted as.
pub const PIXEL_SIZE: u32 = 8;

/// The scancode of the key that stands for keypad key `key`, for `key` from
/// 0x0 to 0xF. The keypad
///
/// ```text
/// 1 2 3 C          1 2 3 4
/// 4 5 6 D   is on  Q W E R
/// 7 8 9 E          A S D F
/// A 0 B F          Z X C V
/// ```
pub open spec fn key_scancode(key: u8) -> i32 {
    if key == 0x0 {
        27
    } else if key == 0x1 {
        30
    } else if key == 0x2 {
        31
    } else if key == 0x3 {
        32
    } else if key == 0x4 {
        20
    } else if key == 0x5 {
        26
    } else if key == 0x6 {
        8
    } else if key == 0x7 {
        4
    } else if key == 0x8 {
        22
    } else if key == 0x9 {
        7
    } else if key == 0xA {
        29
    } else if key == 0xB {
        6
    } else if key == 0xC {
        33
    } else if key == 0xD {
        21
    } else if key == 0xE {
        9
    } else {
        25
    }
}

/// The layout gives no two keypad keys the same scancode.
pub proof fn lemma_layout_injective(a: u8, b: u8)
    requires
        a < KEY_COUNT,
        b < KEY_COUNT,
        key_scancode(a) == key_scancode(b),
    ensures
        a == b,
{
}

/// The scancode of the key that stands for keypad key `byte`, or `None` if
/// `byte` is above 0xF and names no key.
pub fn byte_to_scancode(byte: u8) -> (code: Option<i32>)
    ensures
        byte < KEY_COUNT ==> code == Some(key_scancode(byte)),
        byte >= KEY_COUNT ==> code.is_none(),
{
    match byte {
        0x0 => Some(27),
        0x1 => Some(30),
        0x2 => Some(31),
        0x3 => Some(32),
        0x4 => Some(20),
        0x5 => Some(26),
        0x6 => Some(8),
        0x7 => Some(4),
        0x8 => Some(22),
        0x9 => Some(7),
        0xA => Some(29),
        0xB => Some(6),
        0xC => Some(33),
        0xD => Some(21),
        0xE => Some(9),
        0xF => Some(25),
        _ => None,
    }
}

/// The keypad key that the key with this scancode stands for, or `None` if
/// it stands for none. This is the inverse of `byte_to_scancode`.
pub fn scancode_to_byte(scancode: i32) -> (key: Option<u8>)
    ensures
        match key {
            Some(k) => k < KEY_COUNT && key_scancode(k) == scancode,
            None => forall|k: u8| k < KEY_COUNT ==> key_scancode(k) != scancode,
        },
{
    match scancode {
        27 => Some(0x0),
        30 => Some(0x1),
        31 => Some(0x2),
        32 => Some(0x3),
        20 => Some(0x4),
        26 => Some(0x5),
        8 => Some(0x6),
        4 => Some(0x7),
        22 => Some(0x8),
        7 => Some(0x9),
        29 => Some(0xA),
        6 => Some(0xB),
        33 => Some(0xC),
        21 => Some(0xD),
        9 => Some(0xE),
        25 => Some(0xF),
        _ => None,
    }
}

/// The keypad as the keyboard shows it: a keypad key is held exactly if the
/// scancode of its key is among `pressed`. Scancodes of other keys are
/// ignored.
pub fn keypad_from_scancodes(pressed: &[i32]) -> (pad: Keypad)
    ensures
        pad@.len() == KEY_COUNT,
        forall|k: u8| k < KEY_COUNT ==> pad@[k as int] == pressed@.contains(key_scancode(k)),
{
    let mut pad = Keypad::new();
    let mut i: usize = 0;
    while i < pressed.len()
        invariant
            i <= pressed@.len(),
            pad@.len() == KEY_COUNT,
            forall|k: u8|
                k < KEY_COUNT ==> pad@[k as int] == pressed@.take(i as int).contains(
                    key_scancode(k),
                ),
        decreases pressed@.len() - i,
    {
        let ghost before = pad@;
        let key: Option<u8> = scancode_to_byte(pressed[i]);
        match key {
            Some(k) => {
                pad.set(k, true);
            },
            None => {},
        }
        proof {
            let seen = pressed@.take(i as int);
            let now = pressed@.take(i as int + 1);
            assert(now =~= seen.push(pressed@[i as int]));
            assert forall|k: u8| k < KEY_COUNT implies pad@[k as int] == now.contains(
                key_scancode(k),
            ) by {
                if seen.contains(key_scancode(k)) {
                    let j = choose|j: int| 0 <= j < seen.len() && seen[j] == key_scancode(k);
                    assert(now[j] == key_scancode(k));
                }
                if pressed@[i as int] == key_scancode(k) {
                    assert(now[i as int] == key_scancode(k));
                    assert(key == Some(k)) by {
                        lemma_layout_injective(key->Some_0, k);
                    }
                }
                if now.contains(key_scancode(k)) {
                    let j = choose|j: int| 0 <= j < now.len() && now[j] == key_scancode(k);
                    if j < i {
                        assert(seen[j] == key_scancode(k));
                    }
                }
            }
        }
        i = i + 1;
    }
    assert(pressed@.take(pressed@.len() as int) =~= pressed@);
    pad
}

/// A rectangle of the window, in window pixels.
#[derive(Clone, Copy, Debug, PartialEq, Eq, Structural)]
pub struct PixelRect {
    pub x: i32,
    pub y: i32,
    pub width: u32,
    pub height: u32,
}

/// The square that the pixel in column `x` of row `y` is painted as.
pub open spec fn rect_at(x: int, y: int) -> PixelRect {
    PixelRect {
        x: (x * PIXEL_SIZE) as i32,
        y: (y * PIXEL_SIZE) as i32,
        width: PIXEL_SIZE,
        height: PIXEL_SIZE,
    }
}

/// The squares of the lit pixels among the first `cells` pixels of the
/// display, counted row by row from the top left.
pub open spec fn lit_rects_upto(fb: Seq<Seq<bool>>, cells: int) -> Seq<PixelRect>
    decreases cells,
{
    if cells <= 0 {
        Seq::empty()
    } else {
        let k = cells - 1;
        let before = lit_rects_upto(fb, k);
        if fb[k / (WIDTH as int)][k % (WIDTH as int)] {
            before.push(rect_at(k % (WIDTH as int), k / (WIDTH as int)))
        } else {
            before
        }
    }
}

/// The squares to paint for a display: one for each lit pixel, row by row
/// from the top left.
pub open spec fn lit_rects_of(fb: Seq<Seq<bool>>) -> Seq<PixelRect> {
    lit_rects_upto(fb, WIDTH * HEIGHT)
}

/// The squares to paint for the display: one for each lit pixel, row by row
/// from the top left, each `PIXEL_SIZE` wide and high.
pub fn lit_rects(fb: &Framebuffer) -> (rects: Vec<PixelRect>)
    ensures
        rects@ == lit_rects_of(fb@),
{
    let mut rects: Vec<PixelRect> = Vec::new();
    let mut y: usize = 0;
    while y < HEIGHT
        invariant
            y <= HEIGHT,
            rects@ == lit_rects_upto(fb@, y * WIDTH),
        decreases HEIGHT - y,
    {
        let mut x: usize = 0;
        while x < WIDTH
            invariant
                y < HEIGHT,
                x <= WIDTH,
                rects@ == lit_rects_upto(fb@, y * WIDTH + x),
            decreases WIDTH - x,
        {
            let ghost k: int = y * WIDTH + x;
            assert(k / (WIDTH as int) == y && k % (WIDTH as int) == x);
            if fb.pixel(x, y) {
                rects.push(
                    PixelRect {
                        x: x as i32 * 8,
                        y: y as i32 * 8,
                        width: PIXEL_SIZE,
                        height: PIXEL_SIZE,
                    },
                );
            }
            x = x + 1;
        }
        y = y + 1;
    }
    rects
}

/// A square is painted exactly for the lit pixels: the list holds the square
/// of a pixel if and only if the pixel is lit.
pub proof fn lemma_lit_rects_are_lit_pixels(fb: Seq<Seq<bool>>, x: int, y: int)
    requires
        is_grid(fb),
        0 <= x < WIDTH,
        0 <= y < HEIGHT,
    ensures
        lit_rects_of(fb).contains(rect_at(x, y)) == fb[y][x],
{
    lemma_upto_contains(fb, WIDTH * HEIGHT, x, y);
}

proof fn lemma_upto_contains(fb: Seq<Seq<bool>>, cells: int, x: int, y: int)
    requires
        0 <= cells <= WIDTH * HEIGHT,
        0 <= x < WIDTH,
        0 <= y < HEIGHT,
    ensures
        lit_rects_upto(fb, cells).contains(rect_at(x, y)) == (fb[y][x] && y * WIDTH + x < cells),
    decreases cells,
{
    if cells > 0 {
        let k = cells - 1;
        let kx = k % (WIDTH as int);
        let ky = k / (WIDTH as int);
        lemma_upto_contains(fb, k, x, y);
        let before = lit_rects_upto(fb, k);
        if fb[ky][kx] {
            let now = before.push(rect_at(kx, ky));
            assert(now[before.len() as int] == rect_at(kx, ky));
            if rect_at(kx, ky) == rect_at(x, y) {
                assert(kx == x && ky == y);
            }
            if before.contains(rect_at(x, y)) {
                let j = choose|j: int| 0 <= j < before.len() && before[j] == rect_at(x, y);
                assert(now[j] == rect_at(x, y));
            }
            if now.contains(rect_at(x, y)) {
                let j = choose|j: int| 0 <= j < now.len() && now[j] == rect_at(x, y);
                if j < before.len() {
                    assert(before[j] == rect_at(x, y));
                }
            }
        }
    }
}

} // verus!
