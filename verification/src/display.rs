//! The monochrome framebuffer and the XOR sprite draw.

use vstd::arithmetic::power2::{lemma2_to64, pow2};
use vstd::prelude::*;

verus! {

/// Pixels in a row.
pub const WIDTH: usize = 128;

/// Rows of the display.
pub const HEIGHT: usize = 64;

/// The most rows a sprite can have: the count is one nibble of the opcode.
pub const MAX_SPRITE_ROWS: usize = 15;

/// A display as a sequence of rows, each a sequence of pixels.
pub open spec fn is_grid(fb: Seq<Seq<bool>>) -> bool {
    &&& fb.len() == HEIGHT
    &&& forall|y: int| 0 <= y < HEIGHT ==> (#[trigger] fb[y]).len() == WIDTH
}

/// The display with every pixel off.
pub open spec fn blank() -> Seq<Seq<bool>> {
    Seq::new(HEIGHT as nat, |y: int| Seq::new(WIDTH as nat, |x: int| false))
}

/// Pixel `col` of a sprite row, counted from the left: the most significant
/// bit is column 0.
pub open spec fn sprite_bit(row: u8, col: int) -> bool {
    (row as int / pow2((7 - col) as nat) as int) % 2 == 1
}

/// Whether the sprite drawn with its top left corner at (`ox`, `oy`) has a
/// set bit on the pixel (`px`, `py`). Columns and rows that would fall off
/// the right or bottom edge come back in at the left or top.
pub open spec fn sprite_covers(sprite: Seq<u8>, ox: int, oy: int, px: int, py: int) -> bool {
    let dx = (px - ox) % (WIDTH as int);
    let dy = (py - oy) % (HEIGHT as int);
    dx < 8 && dy < sprite.len() && sprite_bit(sprite[dy], dx)
}

/// The display after the sprite was drawn on it: every covered pixel is
/// flipped, every other pixel stays.
pub open spec fn blit(fb: Seq<Seq<bool>>, sprite: Seq<u8>, ox: int, oy: int) -> Seq<Seq<bool>> {
    Seq::new(
        HEIGHT as nat,
        |py: int| Seq::new(WIDTH as nat, |px: int| fb[py][px] != sprite_covers(sprite, ox, oy, px, py)),
    )
}

/// Whether drawing the sprite turns a lit pixel off.
pub open spec fn collides(fb: Seq<Seq<bool>>, sprite: Seq<u8>, ox: int, oy: int) -> bool {
    exists|px: int, py: int|
        0 <= px < WIDTH && 0 <= py < HEIGHT && fb[py][px] && #[trigger] sprite_covers(
            sprite,
            ox,
            oy,
            px,
            py,
        )
}

/// Whether any bit of the sprite is set.
pub open spec fn has_set_bit(sprite: Seq<u8>) -> bool {
    exists|r: int, c: int| 0 <= r < sprite.len() && 0 <= c < 8 && #[trigger] sprite_bit(sprite[r], c)
}

/// The framebuffer: `HEIGHT` rows of `WIDTH` pixels, each on or off.
#[derive(Debug)]
pub struct Framebuffer {
    cells: [[bool; 128]; 64],
}

impl Framebuffer {
    /// The rows of the display, top to bottom.
    pub closed spec fn view(&self) -> Seq<Seq<bool>> {
        Seq::new(HEIGHT as nat, |y: int| self.cells[y]@)
    }

    /// The view of a framebuffer always has the display's shape.
    pub proof fn lemma_view_is_grid(&self)
        ensures
            is_grid(self@),
    {
    }

    /// A display with every pixel off.
    pub fn new() -> (fb: Framebuffer)
        ensures
            fb@ == blank(),
    {
        let fb = Framebuffer { cells: [[false; 128]; 64] };
        assert(fb@ =~~= blank());
        fb
    }

    /// Turns every pixel off.
    pub fn clear(&mut self)
        ensures
            final(self)@ == blank(),
    {
        self.cells = [[false; 128]; 64];
        assert(self@ =~~= blank());
    }

    /// The pixel in column `x` of row `y`.
    pub fn pixel(&self, x: usize, y: usize) -> (lit: bool)
        requires
            x < WIDTH,
            y < HEIGHT,
        ensures
            lit == self@[y as int][x as int],
    {
        self.cells[y][x]
    }

    /// Flips one pixel and says whether it was lit.
    fn toggle(&mut self, x: usize, y: usize) -> (was_lit: bool)
        requires
            x < WIDTH,
            y < HEIGHT,
        ensures
            was_lit == old(self)@[y as int][x as int],
            final(self)@ == old(self)@.update(
                y as int,
                old(self)@[y as int].update(x as int, !was_lit),
            ),
    {
        let was_lit: bool = self.cells[y][x];
        self.cells[y][x] = !was_lit;
        assert(self@ =~~= old(self)@.update(
            y as int,
            old(self)@[y as int].update(x as int, !was_lit),
        ));
        was_lit
    }

    /// Draws a sprite with its top left corner at (`ox`, `oy`): each set bit
    /// flips the pixel under it, wrapping at the right and bottom edges.
    /// Returns whether a lit pixel was turned off.
    pub fn draw_sprite(&mut self, sprite: &[u8], ox: u8, oy: u8) -> (collision: bool)
        requires
            sprite@.len() <= MAX_SPRITE_ROWS,
        ensures
            final(self)@ == blit(old(self)@, sprite@, ox as int, oy as int),
            collision == collides(old(self)@, sprite@, ox as int, oy as int),
    {
        let rows: usize = sprite.len();
        let mut collision: bool = false;
        let mut r: usize = 0;
        proof {
            old(self).lemma_view_is_grid();
        }
        while r < rows
            invariant
                rows == sprite@.len(),
                rows <= MAX_SPRITE_ROWS,
                r <= rows,
                is_grid(old(self)@),
                is_grid(self@),
                forall|px: int, py: int|
                    0 <= px < WIDTH && 0 <= py < HEIGHT ==> self@[py][px] == (old(self)@[py][px]
                        != #[trigger] covers_before(sprite@, ox as int, oy as int, px, py, r as int, 0)),
                collision == collides_before(old(self)@, sprite@, ox as int, oy as int, r as int, 0),
            decreases rows - r,
        {
            let byte: u8 = sprite[r];
            let y: usize = (oy as usize + r) % HEIGHT;
            let mut c: usize = 0;
            let mut mask: u8 = 128;
            proof {
                lemma2_to64();
            }
            while c < 8
                invariant
                    rows == sprite@.len(),
                    rows <= MAX_SPRITE_ROWS,
                    r < rows,
                    c <= 8,
                    byte == sprite@[r as int],
                    y == (oy as int + r as int) % (HEIGHT as int),
                    c < 8 ==> mask as int == pow2((7 - c) as nat),
                    is_grid(old(self)@),
                    is_grid(self@),
                    forall|px: int, py: int|
                        0 <= px < WIDTH && 0 <= py < HEIGHT ==> self@[py][px] == (old(
                            self,
                        )@[py][px] != #[trigger] covers_before(
                            sprite@,
                            ox as int,
                            oy as int,
                            px,
                            py,
                            r as int,
                            c as int,
                        )),
                    collision == collides_before(
                        old(self)@,
                        sprite@,
                        ox as int,
                        oy as int,
                        r as int,
                        c as int,
                    ),
                decreases 8 - c,
            {
                let x: usize = (ox as usize + c) % WIDTH;
                let ghost before = self@;
                let ghost hit_before = collision;
                proof {
                    lemma2_to64();
                }
                let set: bool = (byte / mask) % 2 == 1;
                assert(set == sprite_bit(byte, c as int));
                if set {
                    let was_lit: bool = self.toggle(x, y);
                    if was_lit {
                        collision = true;
                    }
                }
                proof {
                    lemma_step(
                        old(self)@,
                        before,
                        self@,
                        sprite@,
                        ox as int,
                        oy as int,
                        r as int,
                        c as int,
                        hit_before,
                        collision,
                    );
                }
                if c < 7 {
                    mask = mask / 2;
                }
                c = c + 1;
            }
            proof {
                lemma_row_done(old(self)@, sprite@, ox as int, oy as int, r as int, r as int + 1);
            }
            r = r + 1;
        }
        proof {
            lemma_all_rows_done(old(self)@, self@, sprite@, ox as int, oy as int);
        }
        collision
    }
}

/// Whether drawing the sprite turns on a pixel that is off.
pub open spec fn lights(fb: Seq<Seq<bool>>, sprite: Seq<u8>, ox: int, oy: int) -> bool {
    exists|px: int, py: int|
        0 <= px < WIDTH && 0 <= py < HEIGHT && !fb[py][px] && #[trigger] sprite_covers(
            sprite,
            ox,
            oy,
            px,
            py,
        )
}

/// A sprite row has a set bit exactly if it is not zero.
pub proof fn lemma_row_has_bit(row: u8)
    ensures
        (exists|c: int| 0 <= c < 8 && #[trigger] sprite_bit(row, c)) <==> row != 0,
{
    lemma2_to64();
    assert(sprite_bit(row, 0) == ((row / 128) % 2 == 1));
    assert(sprite_bit(row, 1) == ((row / 64) % 2 == 1));
    assert(sprite_bit(row, 2) == ((row / 32) % 2 == 1));
    assert(sprite_bit(row, 3) == ((row / 16) % 2 == 1));
    assert(sprite_bit(row, 4) == ((row / 8) % 2 == 1));
    assert(sprite_bit(row, 5) == ((row / 4) % 2 == 1));
    assert(sprite_bit(row, 6) == ((row / 2) % 2 == 1));
    assert(sprite_bit(row, 7) == ((row / 1) % 2 == 1));
    if row != 0 {
        if sprite_bit(row, 0) || sprite_bit(row, 1) || sprite_bit(row, 2) || sprite_bit(row, 3)
            || sprite_bit(row, 4) || sprite_bit(row, 5) || sprite_bit(row, 6) || sprite_bit(row, 7) {
        } else {
            assert(false);
        }
    }
}

/// A sprite has a set bit exactly if one of its rows is not zero.
pub proof fn lemma_has_set_bit_is_nonzero_row(sprite: Seq<u8>)
    ensures
        has_set_bit(sprite) <==> exists|r: int| 0 <= r < sprite.len() && #[trigger] sprite[r] != 0,
{
    if has_set_bit(sprite) {
        let (r, c) = choose|r: int, c: int|
            0 <= r < sprite.len() && 0 <= c < 8 && #[trigger] sprite_bit(sprite[r], c);
        lemma_row_has_bit(sprite[r]);
    }
    if exists|r: int| 0 <= r < sprite.len() && #[trigger] sprite[r] != 0 {
        let r = choose|r: int| 0 <= r < sprite.len() && #[trigger] sprite[r] != 0;
        lemma_row_has_bit(sprite[r]);
        let c = choose|c: int| 0 <= c < 8 && #[trigger] sprite_bit(sprite[r], c);
        assert(sprite_bit(sprite[r], c));
    }
}

/// Bit `c` of row `r` of a sprite lands on column `(ox + c) mod WIDTH` of row
/// `(oy + r) mod HEIGHT`, which is a pixel of the display wherever the origin
/// lies, and no other bit of the sprite lands there.
pub proof fn lemma_bit_lands(sprite: Seq<u8>, ox: int, oy: int, r: int, c: int)
    requires
        sprite.len() <= MAX_SPRITE_ROWS,
        0 <= r < sprite.len(),
        0 <= c < 8,
    ensures
        0 <= (ox + c) % (WIDTH as int) < WIDTH,
        0 <= (oy + r) % (HEIGHT as int) < HEIGHT,
        sprite_covers(sprite, ox, oy, (ox + c) % (WIDTH as int), (oy + r) % (HEIGHT as int))
            == sprite_bit(sprite[r], c),
{
    let px = (ox + c) % (WIDTH as int);
    let py = (oy + r) % (HEIGHT as int);
    assert((px - ox) % (WIDTH as int) == c);
    assert((py - oy) % (HEIGHT as int) == r);
}

/// A sprite drawn at the bottom right pixel wraps: its first column and row
/// stay on the last column and row of the display, every later column `c`
/// lands on column `c - 1` and every later row `r` on row `r - 1`.
pub proof fn lemma_corner_wraps(sprite: Seq<u8>, r: int, c: int)
    requires
        sprite.len() <= MAX_SPRITE_ROWS,
        0 <= r < sprite.len(),
        0 <= c < 8,
    ensures
        sprite_covers(
            sprite,
            WIDTH as int - 1,
            HEIGHT as int - 1,
            if c == 0 {
                WIDTH as int - 1
            } else {
                c - 1
            },
            if r == 0 {
                HEIGHT as int - 1
            } else {
                r - 1
            },
        ) == sprite_bit(sprite[r], c),
{
    lemma_bit_lands(sprite, WIDTH as int - 1, HEIGHT as int - 1, r, c);
}

/// A sprite has a set bit exactly if drawing it touches a pixel.
pub proof fn lemma_set_bit_touches(sprite: Seq<u8>, ox: int, oy: int)
    requires
        sprite.len() <= MAX_SPRITE_ROWS,
    ensures
        has_set_bit(sprite) <==> exists|px: int, py: int|
            0 <= px < WIDTH && 0 <= py < HEIGHT && #[trigger] sprite_covers(sprite, ox, oy, px, py),
{
    if has_set_bit(sprite) {
        let (r, c) = choose|r: int, c: int|
            0 <= r < sprite.len() && 0 <= c < 8 && #[trigger] sprite_bit(sprite[r], c);
        lemma_bit_lands(sprite, ox, oy, r, c);
        assert(sprite_covers(sprite, ox, oy, (ox + c) % (WIDTH as int), (oy + r) % (HEIGHT as int)));
    }
    if exists|px: int, py: int|
        0 <= px < WIDTH && 0 <= py < HEIGHT && #[trigger] sprite_covers(sprite, ox, oy, px, py) {
        let (px, py) = choose|px: int, py: int|
            0 <= px < WIDTH && 0 <= py < HEIGHT && #[trigger] sprite_covers(sprite, ox, oy, px, py);
        let dx = (px - ox) % (WIDTH as int);
        let dy = (py - oy) % (HEIGHT as int);
        assert(sprite_bit(sprite[dy], dx));
    }
}

/// Drawing is its own inverse: the same sprite drawn twice at the same place
/// leaves the display as it was. The second draw reports a collision exactly
/// if the first one turned a pixel on.
pub proof fn lemma_draw_twice_restores(fb: Seq<Seq<bool>>, sprite: Seq<u8>, ox: int, oy: int)
    requires
        is_grid(fb),
    ensures
        blit(blit(fb, sprite, ox, oy), sprite, ox, oy) == fb,
        collides(blit(fb, sprite, ox, oy), sprite, ox, oy) == lights(fb, sprite, ox, oy),
{
    let once = blit(fb, sprite, ox, oy);
    let twice = blit(once, sprite, ox, oy);
    assert forall|py: int| 0 <= py < HEIGHT implies twice[py] =~= fb[py] by {
        assert forall|px: int| 0 <= px < WIDTH implies twice[py][px] == fb[py][px] by {
            assert(once[py][px] == (fb[py][px] != sprite_covers(sprite, ox, oy, px, py)));
        }
    }
    assert(twice =~= fb);
    if collides(once, sprite, ox, oy) {
        let (px, py) = choose|px: int, py: int|
            0 <= px < WIDTH && 0 <= py < HEIGHT && once[py][px] && #[trigger] sprite_covers(
                sprite,
                ox,
                oy,
                px,
                py,
            );
        assert(!fb[py][px]);
    }
    if lights(fb, sprite, ox, oy) {
        let (px, py) = choose|px: int, py: int|
            0 <= px < WIDTH && 0 <= py < HEIGHT && !fb[py][px] && #[trigger] sprite_covers(
                sprite,
                ox,
                oy,
                px,
                py,
            );
        assert(once[py][px]);
    }
}

/// Where the first draw turns at least one pixel on whenever the sprite has
/// a set bit (as on a blank display), the second draw of the same sprite at
/// the same place reports a collision exactly if the sprite has a set bit.
pub proof fn lemma_second_draw_collides(fb: Seq<Seq<bool>>, sprite: Seq<u8>, ox: int, oy: int)
    requires
        is_grid(fb),
        sprite.len() <= MAX_SPRITE_ROWS,
        has_set_bit(sprite) ==> lights(fb, sprite, ox, oy),
    ensures
        collides(blit(fb, sprite, ox, oy), sprite, ox, oy) == has_set_bit(sprite),
{
    lemma_draw_twice_restores(fb, sprite, ox, oy);
    lemma_set_bit_touches(sprite, ox, oy);
}

/// On a blank display a sprite with a set bit always turns a pixel on.
pub proof fn lemma_blank_lights(sprite: Seq<u8>, ox: int, oy: int)
    requires
        sprite.len() <= MAX_SPRITE_ROWS,
    ensures
        lights(blank(), sprite, ox, oy) == has_set_bit(sprite),
        !collides(blank(), sprite, ox, oy),
{
    lemma_set_bit_touches(sprite, ox, oy);
    if has_set_bit(sprite) {
        let (px, py) = choose|px: int, py: int|
            0 <= px < WIDTH && 0 <= py < HEIGHT && #[trigger] sprite_covers(sprite, ox, oy, px, py);
        assert(!blank()[py][px]);
    }
}

/// Whether the part of the sprite that lies before column `cols` of row
/// `rows`, in drawing order, has a set bit on the pixel (`px`, `py`).
pub open spec fn covers_before(
    sprite: Seq<u8>,
    ox: int,
    oy: int,
    px: int,
    py: int,
    rows: int,
    cols: int,
) -> bool {
    let dx = (px - ox) % (WIDTH as int);
    let dy = (py - oy) % (HEIGHT as int);
    sprite_covers(sprite, ox, oy, px, py) && (dy < rows || (dy == rows && dx < cols))
}

/// Whether drawing the part of the sprite before column `cols` of row `rows`
/// turns a lit pixel off.
pub open spec fn collides_before(
    fb: Seq<Seq<bool>>,
    sprite: Seq<u8>,
    ox: int,
    oy: int,
    rows: int,
    cols: int,
) -> bool {
    exists|px: int, py: int|
        0 <= px < WIDTH && 0 <= py < HEIGHT && fb[py][px] && #[trigger] covers_before(
            sprite,
            ox,
            oy,
            px,
            py,
            rows,
            cols,
        )
}

/// One column of the draw: the display and the collision flag after bit
/// (`r`, `c`) was handled are those of the sprite's part before (`r`, `c + 1`).
proof fn lemma_step(
    start: Seq<Seq<bool>>,
    before: Seq<Seq<bool>>,
    after: Seq<Seq<bool>>,
    sprite: Seq<u8>,
    ox: int,
    oy: int,
    r: int,
    c: int,
    hit_before: bool,
    hit_after: bool,
)
    requires
        is_grid(start),
        is_grid(before),
        0 <= ox < 256,
        0 <= oy < 256,
        0 <= r < sprite.len() <= MAX_SPRITE_ROWS,
        0 <= c < 8,
        forall|px: int, py: int|
            0 <= px < WIDTH && 0 <= py < HEIGHT ==> before[py][px] == (start[py][px]
                != #[trigger] covers_before(sprite, ox, oy, px, py, r, c)),
        hit_before == collides_before(start, sprite, ox, oy, r, c),
        ({
            let x = (ox + c) % (WIDTH as int);
            let y = (oy + r) % (HEIGHT as int);
            if sprite_bit(sprite[r], c) {
                &&& after == before.update(y, before[y].update(x, !before[y][x]))
                &&& hit_after == (hit_before || before[y][x])
            } else {
                &&& after == before
                &&& hit_after == hit_before
            }
        }),
    ensures
        is_grid(after),
        forall|px: int, py: int|
            0 <= px < WIDTH && 0 <= py < HEIGHT ==> after[py][px] == (start[py][px]
                != #[trigger] covers_before(sprite, ox, oy, px, py, r, c + 1)),
        hit_after == collides_before(start, sprite, ox, oy, r, c + 1),
{
    let x = (ox + c) % (WIDTH as int);
    let y = (oy + r) % (HEIGHT as int);
    assert((x - ox) % (WIDTH as int) == c);
    assert((y - oy) % (HEIGHT as int) == r);
    assert forall|px: int, py: int| 0 <= px < WIDTH && 0 <= py < HEIGHT implies after[py][px] == (
    start[py][px] != #[trigger] covers_before(sprite, ox, oy, px, py, r, c + 1)) by {
        let dx = (px - ox) % (WIDTH as int);
        let dy = (py - oy) % (HEIGHT as int);
        assert(before[py][px] == (start[py][px] != covers_before(sprite, ox, oy, px, py, r, c)));
        if px == x && py == y {
            assert(dx == c && dy == r);
        } else {
            assert(!(dx == c && dy == r));
        }
    }
    assert(!covers_before(sprite, ox, oy, x, y, r, c));
    assert(before[y][x] == start[y][x]);
    if hit_after {
        if hit_before {
            let (qx, qy) = choose|qx: int, qy: int|
                0 <= qx < WIDTH && 0 <= qy < HEIGHT && start[qy][qx] && #[trigger] covers_before(
                    sprite,
                    ox,
                    oy,
                    qx,
                    qy,
                    r,
                    c,
                );
            assert(covers_before(sprite, ox, oy, qx, qy, r, c + 1));
        } else {
            assert(covers_before(sprite, ox, oy, x, y, r, c + 1));
        }
    } else {
        assert forall|qx: int, qy: int|
            0 <= qx < WIDTH && 0 <= qy < HEIGHT && start[qy][qx] implies !#[trigger] covers_before(
            sprite,
            ox,
            oy,
            qx,
            qy,
            r,
            c + 1,
        ) by {
            let dx = (qx - ox) % (WIDTH as int);
            let dy = (qy - oy) % (HEIGHT as int);
            assert(!covers_before(sprite, ox, oy, qx, qy, r, c));
            if qx == x && qy == y {
            } else {
                assert(!(dx == c && dy == r));
            }
        }
    }
}

/// The part of the sprite before the end of row `r` is the part before the
/// start of the row after it.
proof fn lemma_row_done(
    start: Seq<Seq<bool>>,
    sprite: Seq<u8>,
    ox: int,
    oy: int,
    r: int,
    next: int,
)
    requires
        next == r + 1,
    ensures
        forall|px: int, py: int|
            #![trigger covers_before(sprite, ox, oy, px, py, r, 8)]
            #![trigger covers_before(sprite, ox, oy, px, py, next, 0)]
            covers_before(sprite, ox, oy, px, py, r, 8) == covers_before(
                sprite,
                ox,
                oy,
                px,
                py,
                next,
                0,
            ),
        collides_before(start, sprite, ox, oy, r, 8) == collides_before(
            start,
            sprite,
            ox,
            oy,
            next,
            0,
        ),
{
    if collides_before(start, sprite, ox, oy, r, 8) {
        let (qx, qy) = choose|qx: int, qy: int|
            0 <= qx < WIDTH && 0 <= qy < HEIGHT && start[qy][qx] && #[trigger] covers_before(
                sprite,
                ox,
                oy,
                qx,
                qy,
                r,
                8,
            );
        assert(covers_before(sprite, ox, oy, qx, qy, next, 0));
    }
    if collides_before(start, sprite, ox, oy, next, 0) {
        let (qx, qy) = choose|qx: int, qy: int|
            0 <= qx < WIDTH && 0 <= qy < HEIGHT && start[qy][qx] && #[trigger] covers_before(
                sprite,
                ox,
                oy,
                qx,
                qy,
                next,
                0,
            );
        assert(covers_before(sprite, ox, oy, qx, qy, r, 8));
    }
}

/// Once every row was handled the whole sprite has been drawn.
proof fn lemma_all_rows_done(
    start: Seq<Seq<bool>>,
    end: Seq<Seq<bool>>,
    sprite: Seq<u8>,
    ox: int,
    oy: int,
)
    requires
        is_grid(start),
        is_grid(end),
        forall|px: int, py: int|
            0 <= px < WIDTH && 0 <= py < HEIGHT ==> end[py][px] == (start[py][px]
                != #[trigger] covers_before(sprite, ox, oy, px, py, sprite.len() as int, 0)),
    ensures
        end == blit(start, sprite, ox, oy),
        collides_before(start, sprite, ox, oy, sprite.len() as int, 0) == collides(
            start,
            sprite,
            ox,
            oy,
        ),
{
    let n = sprite.len() as int;
    assert forall|px: int, py: int|
        covers_before(sprite, ox, oy, px, py, n, 0) == sprite_covers(sprite, ox, oy, px, py) by {}
    assert forall|py: int| 0 <= py < HEIGHT implies end[py] =~= blit(start, sprite, ox, oy)[py] by {
        assert forall|px: int| 0 <= px < WIDTH implies end[py][px] == blit(
            start,
            sprite,
            ox,
            oy,
        )[py][px] by {
            assert(end[py][px] == (start[py][px] != covers_before(sprite, ox, oy, px, py, n, 0)));
        }
    }
    assert(end =~= blit(start, sprite, ox, oy));
    if collides_before(start, sprite, ox, oy, n, 0) {
        let (qx, qy) = choose|qx: int, qy: int|
            0 <= qx < WIDTH && 0 <= qy < HEIGHT && start[qy][qx] && #[trigger] covers_before(
                sprite,
                ox,
                oy,
                qx,
                qy,
                n,
                0,
            );
        assert(sprite_covers(sprite, ox, oy, qx, qy));
    }
    if collides(start, sprite, ox, oy) {
        let (qx, qy) = choose|qx: int, qy: int|
            0 <= qx < WIDTH && 0 <= qy < HEIGHT && start[qy][qx] && #[trigger] sprite_covers(
                sprite,
                ox,
                oy,
                qx,
                qy,
            );
        assert(covers_before(sprite, ox, oy, qx, qy, n, 0));
    }
}

} // verus!
