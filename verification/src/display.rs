//! The monochrome video buffer: a 64x32 grid of one-bit pixels stored
//! row-major, with XOR sprite drawing, collision detection and
//! coordinate wraparound.

use vstd::arithmetic::div_mod::{
    lemma_add_mod_noop, lemma_fundamental_div_mod_converse, lemma_small_mod,
};
use vstd::prelude::*;

verus! {

/// Width of the pixel grid.
pub const WIDTH: usize = 64;

/// Height of the pixel grid.
pub const HEIGHT: usize = 32;

/// Number of cells in the pixel grid.
pub const GRID: usize = 2048;

/// Bit `i` of a sprite row, counting the most significant bit as bit 0,
/// so that bit `i` governs the pixel `i` columns right of the sprite's
/// origin.
pub open spec fn sprite_bit(row: u8, i: int) -> bool {
    (row >> ((7 - i) as u8)) & 1 == 1
}

/// A lit pixel toggles off; an unlit pixel toggles on.
pub open spec fn flip(cell: u8) -> u8 {
    if cell == 1 {
        0u8
    } else {
        1u8
    }
}

/// Whether some set bit of the sprite drawn at `(x, y)` lands on the
/// pixel `(px, py)`; columns wrap modulo 64 and rows modulo 32.
pub open spec fn sprite_hits(x: int, y: int, sprite: Seq<u8>, px: int, py: int) -> bool {
    exists|j: int, i: int|
        0 <= j < sprite.len() && 0 <= i < 8 && #[trigger] sprite_bit(sprite[j], i) && (x + i) % 64
            == px && (y + j) % 32 == py
}

/// The screen after XOR-drawing `sprite` at `(x, y)`: every pixel some
/// set sprite bit lands on is toggled, every other pixel is unchanged.
/// Faithful to the drawing loop only while the sprite has at most 32
/// rows, so that no two sprite bits land on the same pixel.
pub open spec fn draw_result(screen: Seq<u8>, x: int, y: int, sprite: Seq<u8>) -> Seq<u8> {
    Seq::new(
        2048,
        |p: int|
            if sprite_hits(x, y, sprite, p % 64, p / 64) {
                flip(screen[p])
            } else {
                screen[p]
            },
    )
}

/// Whether some set bit of the sprite lands on a pixel that was already
/// lit before the draw.
pub open spec fn draw_collision(screen: Seq<u8>, x: int, y: int, sprite: Seq<u8>) -> bool {
    exists|j: int, i: int|
        0 <= j < sprite.len() && 0 <= i < 8 && #[trigger] sprite_bit(sprite[j], i) && screen[(x + i)
            % 64 + ((y + j) % 32) * 64] == 1
}

/// The all-unlit screen.
pub open spec fn blank_screen() -> Seq<u8> {
    Seq::new(GRID as nat, |p: int| 0u8)
}

/// One sprite row drawn at column `x` into screen row `y`, with `x`
/// and `y` already reduced modulo the grid size.
spec fn row_hits(x: int, y: int, row: u8, i0: int, px: int, py: int) -> bool {
    exists|i: int| 0 <= i < i0 && #[trigger] sprite_bit(row, i) && (x + i) % 64 == px && y == py
}

spec fn row_result(screen: Seq<u8>, x: int, y: int, row: u8, i0: int) -> Seq<u8> {
    Seq::new(
        2048,
        |p: int|
            if row_hits(x, y, row, i0, p % 64, p / 64) {
                flip(screen[p])
            } else {
                screen[p]
            },
    )
}

spec fn row_collision(screen: Seq<u8>, x: int, y: int, row: u8, i0: int) -> bool {
    exists|i: int|
        0 <= i < i0 && #[trigger] sprite_bit(row, i) && screen[(x + i) % 64 + y * 64] == 1
}

/// For offsets below the modulus, adding after reducing is adding
/// before reducing.
proof fn lemma_mod_shift(x: int, i: int, m: int)
    requires
        0 <= x,
        0 <= i < m,
    ensures
        (x % m + i) % m == (x + i) % m,
{
    lemma_small_mod(i as nat, m as nat);
    lemma_add_mod_noop(x, i, m);
}

/// Offsets below the modulus that wrap to the same cell are equal, so
/// the eight columns of a sprite row land on eight distinct pixels,
/// and up to 32 sprite rows land on distinct screen rows.
proof fn lemma_offset_injective(x: int, a: int, b: int, m: int)
    requires
        0 <= x < m,
        0 <= a < m,
        0 <= b < m,
        (x + a) % m == (x + b) % m,
    ensures
        a == b,
{
    if x + a < m {
        lemma_small_mod((x + a) as nat, m as nat);
    } else {
        lemma_fundamental_div_mod_converse(x + a, m, 1, x + a - m);
    }
    if x + b < m {
        lemma_small_mod((x + b) as nat, m as nat);
    } else {
        lemma_fundamental_div_mod_converse(x + b, m, 1, x + b - m);
    }
}

/// A pixel index below 2048 splits uniquely into a column below 64 and
/// a row below 32.
proof fn lemma_pixel_split(px: int, py: int)
    requires
        0 <= px < 64,
        0 <= py < 32,
    ensures
        (px + py * 64) % 64 == px,
        (px + py * 64) / 64 == py,
        0 <= px + py * 64 < 2048,
{
    lemma_fundamental_div_mod_converse(px + py * 64, 64, py, px);
}

/// The video buffer.  Each cell of `memory` is 0 (unlit) or 1 (lit).
pub struct Display {
    pub memory: Vec<u8>,
}

impl View for Display {
    type V = Seq<u8>;

    open spec fn view(&self) -> Seq<u8> {
        self.memory@
    }
}

impl Display {
    /// A well-formed buffer has exactly 64 * 32 cells, each 0 or 1.
    pub open spec fn wf(&self) -> bool {
        &&& self@.len() == GRID
        &&& forall|p: int| 0 <= p < GRID ==> self@[p] == 0 || self@[p] == 1
    }

    /// A fresh buffer with every pixel unlit.
    pub fn new() -> (d: Display)
        ensures
            d.wf(),
            d@ == blank_screen(),
    {
        let mut memory: Vec<u8> = Vec::new();
        let mut p: usize = 0;
        while p < GRID
            invariant
                p <= GRID,
                memory@.len() == p,
                forall|q: int| 0 <= q < p ==> memory@[q] == 0,
            decreases GRID - p,
        {
            memory.push(0);
            p += 1;
        }
        proof {
            assert(memory@ =~= blank_screen());
        }
        Display { memory }
    }

    /// Turns every pixel off.
    pub fn clear_screen(&mut self)
        requires
            old(self).wf(),
        ensures
            final(self).wf(),
            final(self)@ == blank_screen(),
    {
        let mut p: usize = 0;
        while p < GRID
            invariant
                p <= GRID,
                self@.len() == GRID,
                forall|q: int| 0 <= q < p ==> self@[q] == 0,
            decreases GRID - p,
        {
            self.memory[p] = 0;
            p += 1;
        }
        proof {
            assert(self@ =~= blank_screen());
        }
    }

    /// Draws one 8-bit sprite row whose set bits toggle the pixels of
    /// screen row `y` starting at column `x`, wrapping columns modulo
    /// 64.  Returns whether any toggled pixel was already lit.
    fn draw_row(&mut self, x: usize, y: usize, row: u8) -> (hit: bool)
        requires
            old(self).wf(),
            x < WIDTH,
            y < HEIGHT,
        ensures
            final(self).wf(),
            final(self)@ == row_result(old(self)@, x as int, y as int, row, 8),
            hit == row_collision(old(self)@, x as int, y as int, row, 8),
    {
        let mut i: usize = 0;
        let mut hit = false;
        while i < 8
            invariant
                self@.len() == GRID,
                forall|p: int| 0 <= p < GRID ==> self@[p] == 0 || self@[p] == 1,
                x < WIDTH,
                y < HEIGHT,
                i <= 8,
                self@ == row_result(old(self)@, x as int, y as int, row, i as int),
                hit == row_collision(old(self)@, x as int, y as int, row, i as int),
                old(self).wf(),
            decreases 8 - i,
        {
            let ghost pre = self@;
            let ghost orig = old(self)@;
            let ghost prev_hit = hit;
            let bit = (row >> ((7 - i) as u8)) & 1;
            if bit == 1 {
                let xi = (x + i) % WIDTH;
                let idx = xi + y * WIDTH;
                proof {
                    lemma_pixel_split(xi as int, y as int);
                }
                let lit = self.memory[idx] == 1;
                if lit {
                    hit = true;
                }
                self.memory[idx] = if lit {
                    0
                } else {
                    1
                };
                proof {
                    let xii = xi as int;
                    let yy = y as int;
                    let xx = x as int;
                    let ii = i as int;
                    let pidx = idx as int;
                    assert(sprite_bit(row, ii));
                    // The pixel just written was untouched by earlier bits:
                    // an earlier bit at the same column would equal this one.
                    assert(!row_hits(xx, yy, row, ii, xii, yy)) by {
                        if row_hits(xx, yy, row, ii, xii, yy) {
                            let i2 = choose|i2: int|
                                0 <= i2 < ii && #[trigger] sprite_bit(row, i2) && (xx + i2) % 64
                                    == xii && yy == yy;
                            lemma_offset_injective(xx, i2, ii, 64);
                        }
                    }
                    assert(pre[pidx] == orig[pidx]);
                    // The screen now matches the row drawn up to bit i + 1.
                    assert forall|p: int| 0 <= p < 2048 implies self@[p] == row_result(
                        orig,
                        xx,
                        yy,
                        row,
                        ii + 1,
                    )[p] by {
                        if p == pidx {
                            assert((xx + ii) % 64 == p % 64 && yy == p / 64);
                            assert(row_hits(xx, yy, row, ii + 1, p % 64, p / 64));
                        } else {
                            assert(p % 64 + (p / 64) * 64 == p) by {
                                vstd::arithmetic::div_mod::lemma_fundamental_div_mod(p, 64);
                            }
                            assert(0 <= p % 64 < 64 && 0 <= p / 64 < 32) by {
                                vstd::arithmetic::div_mod::lemma_mod_bound(p, 64);
                                vstd::arithmetic::div_mod::lemma_div_nonincreasing(p, 64);
                                assert(p / 64 < 32) by (nonlinear_arith)
                                    requires 0 <= p < 2048;
                                assert(p / 64 >= 0) by (nonlinear_arith)
                                    requires 0 <= p;
                            }
                            if row_hits(xx, yy, row, ii + 1, p % 64, p / 64) {
                                let i2 = choose|i2: int|
                                    0 <= i2 < ii + 1 && #[trigger] sprite_bit(row, i2) && (xx + i2)
                                        % 64 == p % 64 && yy == p / 64;
                                if i2 == ii {
                                    lemma_pixel_split(p % 64, p / 64);
                                    assert(p == xii + yy * 64);
                                    assert(false);
                                }
                                assert(row_hits(xx, yy, row, ii, p % 64, p / 64));
                            } else {
                                assert(!row_hits(xx, yy, row, ii, p % 64, p / 64));
                            }
                        }
                    }
                    assert(self@ =~= row_result(orig, xx, yy, row, ii + 1));
                    // Collision tracking: bit i examined pixel pidx in its
                    // pre-draw state, and earlier bits may already have
                    // collided.
                    if lit {
                        assert(orig[(xx + ii) % 64 + yy * 64] == 1);
                        assert(row_collision(orig, xx, yy, row, ii + 1));
                    } else if prev_hit {
                        let i2 = choose|i2: int|
                            0 <= i2 < ii && #[trigger] sprite_bit(row, i2) && orig[(xx + i2) % 64
                                + yy * 64] == 1;
                        assert(row_collision(orig, xx, yy, row, ii + 1));
                    } else {
                        assert(!row_collision(orig, xx, yy, row, ii + 1)) by {
                            if row_collision(orig, xx, yy, row, ii + 1) {
                                let i2 = choose|i2: int|
                                    0 <= i2 < ii + 1 && #[trigger] sprite_bit(row, i2) && orig[(xx
                                        + i2) % 64 + yy * 64] == 1;
                                if i2 == ii {
                                    assert(orig[pidx] == 1);
                                    assert(false);
                                } else {
                                    assert(row_collision(orig, xx, yy, row, ii));
                                    assert(false);
                                }
                            }
                        }
                    }
                }
            } else {
                proof {
                    let xx = x as int;
                    let yy = y as int;
                    let ii = i as int;
                    assert(!sprite_bit(row, ii));
                    assert forall|px: int, py: int|
                        row_hits(xx, yy, row, ii + 1, px, py) == row_hits(
                            xx,
                            yy,
                            row,
                            ii,
                            px,
                            py,
                        ) by {
                        if row_hits(xx, yy, row, ii + 1, px, py) {
                            let i2 = choose|i2: int|
                                0 <= i2 < ii + 1 && #[trigger] sprite_bit(row, i2) && (xx + i2) % 64
                                    == px && yy == py;
                            assert(i2 != ii);
                            assert(row_hits(xx, yy, row, ii, px, py));
                        }
                    }
                    assert(self@ =~= row_result(old(self)@, xx, yy, row, ii + 1));
                    assert(row_collision(old(self)@, xx, yy, row, ii + 1) == row_collision(
                        old(self)@,
                        xx,
                        yy,
                        row,
                        ii,
                    )) by {
                        if row_collision(old(self)@, xx, yy, row, ii + 1) {
                            let i2 = choose|i2: int|
                                0 <= i2 < ii + 1 && #[trigger] sprite_bit(row, i2) && old(
                                    self,
                                )@[(xx + i2) % 64 + yy * 64] == 1;
                            assert(i2 != ii);
                            assert(row_collision(old(self)@, xx, yy, row, ii));
                        }
                        if row_collision(old(self)@, xx, yy, row, ii) {
                            let i3 = choose|i3: int|
                                0 <= i3 < ii && #[trigger] sprite_bit(row, i3) && old(self)@[(xx
                                    + i3) % 64 + yy * 64] == 1;
                            assert(row_collision(old(self)@, xx, yy, row, ii + 1));
                        }
                    }
                }
            }
            i += 1;
        }
        hit
    }

    /// XOR-draws a sprite of up to 32 rows at `(x, y)`: each set sprite
    /// bit toggles its pixel, columns wrapping modulo 64 and rows modulo
    /// 32.  Returns 1 when some toggled pixel was already lit, else 0.
    pub fn draw(&mut self, x: usize, y: usize, sprite: &[u8]) -> (collision: u8)
        requires
            old(self).wf(),
            sprite@.len() <= HEIGHT,
        ensures
            final(self).wf(),
            final(self)@ == draw_result(old(self)@, x as int, y as int, sprite@),
            collision == (if draw_collision(old(self)@, x as int, y as int, sprite@) {
                1u8
            } else {
                0u8
            }),
    {
        let rows = sprite.len();
        let xm = x % WIDTH;
        let ym = y % HEIGHT;
        let mut j: usize = 0;
        let mut collision: u8 = 0;
        proof {
            assert(old(self)@ =~= draw_result(old(self)@, x as int, y as int, sprite@.take(0)));
        }
        while j < rows
            invariant
                rows == sprite@.len() <= HEIGHT,
                xm == x as int % 64,
                ym == y as int % 32,
                xm < WIDTH,
                ym < HEIGHT,
                j <= rows,
                self@.len() == GRID,
                forall|p: int| 0 <= p < GRID ==> self@[p] == 0 || self@[p] == 1,
                self@ == draw_result(old(self)@, x as int, y as int, sprite@.take(j as int)),
                collision == (if draw_collision(
                    old(self)@,
                    x as int,
                    y as int,
                    sprite@.take(j as int),
                ) {
                    1u8
                } else {
                    0u8
                }),
                old(self).wf(),
            decreases rows - j,
        {
            let yj = (ym + j) % HEIGHT;
            proof {
                lemma_mod_shift(y as int, j as int, 32);
                assert(yj == (y as int + j as int) % 32);
            }
            let row = sprite[j];
            let hit = self.draw_row(xm, yj, row);
            if hit {
                collision = 1;
            }
            proof {
                lemma_draw_step(old(self)@, x as int, y as int, sprite@, j as int);
            }
            j += 1;
        }
        proof {
            assert(sprite@.take(rows as int) =~= sprite@);
        }
        collision
    }
}

/// Drawing row `j` of the sprite on top of the first `j` rows' result
/// equals drawing the first `j + 1` rows on the original screen, and
/// row `j` examines pixels that the earlier rows left untouched.
proof fn lemma_draw_step(orig: Seq<u8>, x: int, y: int, sprite: Seq<u8>, j: int)
    requires
        orig.len() == 2048,
        0 <= x,
        0 <= y,
        0 <= j < sprite.len() <= 32,
    ensures
        row_result(
            draw_result(orig, x, y, sprite.take(j)),
            x % 64,
            (y + j) % 32,
            sprite[j],
            8,
        ) =~= draw_result(orig, x, y, sprite.take(j + 1)),
        row_collision(draw_result(orig, x, y, sprite.take(j)), x % 64, (y + j) % 32, sprite[j], 8)
            == row_collision(orig, x % 64, (y + j) % 32, sprite[j], 8),
        draw_collision(orig, x, y, sprite.take(j + 1)) == (draw_collision(
            orig,
            x,
            y,
            sprite.take(j),
        ) || row_collision(orig, x % 64, (y + j) % 32, sprite[j], 8)),
{
    let part = draw_result(orig, x, y, sprite.take(j));
    let xm = x % 64;
    let yj = (y + j) % 32;
    let rj = sprite[j];
    vstd::arithmetic::div_mod::lemma_mod_bound(x, 64);
    vstd::arithmetic::div_mod::lemma_mod_bound(y + j, 32);
    // Earlier rows land on other screen rows, so they neither toggle
    // nor examine row j's pixels.
    assert forall|px: int, py: int|
        0 <= px < 64 && 0 <= py < 32 && yj == py implies !sprite_hits(
        x,
        y,
        sprite.take(j),
        px,
        py,
    ) by {
        if sprite_hits(x, y, sprite.take(j), px, py) {
            let (j2, i2) = choose|j2: int, i2: int|
                0 <= j2 < sprite.take(j).len() && 0 <= i2 < 8 && #[trigger] sprite_bit(
                    sprite.take(j)[j2],
                    i2,
                ) && (x + i2) % 64 == px && (y + j2) % 32 == py;
            lemma_mod_shift(y, j2, 32);
            lemma_mod_shift(y, j, 32);
            vstd::arithmetic::div_mod::lemma_mod_bound(y, 32);
            lemma_offset_injective(y % 32, j2, j, 32);
        }
    }
    // Part and orig agree on every pixel of screen row yj.
    assert forall|px: int| 0 <= px < 64 implies #[trigger] part[px + yj * 64] == orig[px + yj
        * 64] by {
        lemma_pixel_split(px, yj);
    }
    // Collision agreement for row j.
    assert(row_collision(part, xm, yj, rj, 8) == row_collision(orig, xm, yj, rj, 8)) by {
        if row_collision(part, xm, yj, rj, 8) {
            let i2 = choose|i2: int|
                0 <= i2 < 8 && #[trigger] sprite_bit(rj, i2) && part[(xm + i2) % 64 + yj * 64]
                    == 1;
            vstd::arithmetic::div_mod::lemma_mod_bound(xm + i2, 64);
            assert(orig[(xm + i2) % 64 + yj * 64] == 1);
            assert(row_collision(orig, xm, yj, rj, 8));
        }
        if row_collision(orig, xm, yj, rj, 8) {
            let i2 = choose|i2: int|
                0 <= i2 < 8 && #[trigger] sprite_bit(rj, i2) && orig[(xm + i2) % 64 + yj * 64]
                    == 1;
            vstd::arithmetic::div_mod::lemma_mod_bound(xm + i2, 64);
            assert(part[(xm + i2) % 64 + yj * 64] == 1);
            assert(row_collision(part, xm, yj, rj, 8));
        }
    }
    // Screen equality, pixel by pixel.
    assert forall|p: int| 0 <= p < 2048 implies row_result(part, xm, yj, rj, 8)[p] == draw_result(
        orig,
        x,
        y,
        sprite.take(j + 1),
    )[p] by {
        let px = p % 64;
        let py = p / 64;
        vstd::arithmetic::div_mod::lemma_fundamental_div_mod(p, 64);
        vstd::arithmetic::div_mod::lemma_mod_bound(p, 64);
        assert(0 <= py < 32) by (nonlinear_arith)
            requires 0 <= p < 2048, py == p / 64;
        assert(p == px + py * 64);
        if row_hits(xm, yj, rj, 8, px, py) {
            // Hit by row j: untouched by earlier rows, toggled now.
            let i2 = choose|i2: int|
                0 <= i2 < 8 && #[trigger] sprite_bit(rj, i2) && (xm + i2) % 64 == px && yj == py;
            lemma_mod_shift(x, i2, 64);
            assert(sprite.take(j + 1)[j] == rj);
            assert(sprite_hits(x, y, sprite.take(j + 1), px, py));
            assert(!sprite_hits(x, y, sprite.take(j), px, py));
            assert(part[p] == orig[p]);
        } else {
            // Not hit by row j: hits up to j + 1 are hits up to j.
            assert(sprite_hits(x, y, sprite.take(j + 1), px, py) == sprite_hits(
                x,
                y,
                sprite.take(j),
                px,
                py,
            )) by {
                if sprite_hits(x, y, sprite.take(j + 1), px, py) {
                    let (j2, i2) = choose|j2: int, i2: int|
                        0 <= j2 < sprite.take(j + 1).len() && 0 <= i2 < 8 && #[trigger] sprite_bit(
                            sprite.take(j + 1)[j2],
                            i2,
                        ) && (x + i2) % 64 == px && (y + j2) % 32 == py;
                    if j2 == j {
                        lemma_mod_shift(x, i2, 64);
                        assert(row_hits(xm, yj, rj, 8, px, py));
                        assert(false);
                    }
                    assert(sprite.take(j)[j2] == sprite.take(j + 1)[j2]);
                    assert(sprite_bit(sprite.take(j)[j2], i2));
                    assert(sprite_hits(x, y, sprite.take(j), px, py));
                }
                if sprite_hits(x, y, sprite.take(j), px, py) {
                    let (j2, i2) = choose|j2: int, i2: int|
                        0 <= j2 < sprite.take(j).len() && 0 <= i2 < 8 && #[trigger] sprite_bit(
                            sprite.take(j)[j2],
                            i2,
                        ) && (x + i2) % 64 == px && (y + j2) % 32 == py;
                    assert(sprite.take(j + 1)[j2] == sprite.take(j)[j2]);
                    assert(sprite_bit(sprite.take(j + 1)[j2], i2));
                    assert(sprite_hits(x, y, sprite.take(j + 1), px, py));
                }
            }
        }
    }
    // Collision accumulation.
    assert(draw_collision(orig, x, y, sprite.take(j + 1)) == (draw_collision(
        orig,
        x,
        y,
        sprite.take(j),
    ) || row_collision(orig, xm, yj, rj, 8))) by {
        if draw_collision(orig, x, y, sprite.take(j + 1)) {
            let (j2, i2) = choose|j2: int, i2: int|
                0 <= j2 < sprite.take(j + 1).len() && 0 <= i2 < 8 && #[trigger] sprite_bit(
                    sprite.take(j + 1)[j2],
                    i2,
                ) && orig[(x + i2) % 64 + ((y + j2) % 32) * 64] == 1;
            if j2 == j {
                assert(sprite_bit(rj, i2));
                assert((xm + i2) % 64 == (x + i2) % 64) by { lemma_mod_shift(x, i2, 64); }
                assert(row_collision(orig, xm, yj, rj, 8));
            } else {
                assert(sprite.take(j)[j2] == sprite.take(j + 1)[j2]);
                assert(sprite_bit(sprite.take(j)[j2], i2));
                assert(draw_collision(orig, x, y, sprite.take(j)));
            }
        }
        if draw_collision(orig, x, y, sprite.take(j)) {
            let (j2, i2) = choose|j2: int, i2: int|
                0 <= j2 < sprite.take(j).len() && 0 <= i2 < 8 && #[trigger] sprite_bit(
                    sprite.take(j)[j2],
                    i2,
                ) && orig[(x + i2) % 64 + ((y + j2) % 32) * 64] == 1;
            assert(sprite.take(j + 1)[j2] == sprite.take(j)[j2]);
            assert(sprite_bit(sprite.take(j + 1)[j2], i2));
            assert(draw_collision(orig, x, y, sprite.take(j + 1)));
        }
        if row_collision(orig, xm, yj, rj, 8) {
            let i2 = choose|i2: int|
                0 <= i2 < 8 && #[trigger] sprite_bit(rj, i2) && orig[(xm + i2) % 64 + yj * 64]
                    == 1;
            assert((xm + i2) % 64 == (x + i2) % 64) by { lemma_mod_shift(x, i2, 64); }
            assert(sprite.take(j + 1)[j] == rj);
            assert(sprite_bit(sprite.take(j + 1)[j], i2));
            assert(draw_collision(orig, x, y, sprite.take(j + 1)));
        }
    }
}

/// Law: drawing the identical sprite at the identical location twice in
/// succession restores every pixel to its pre-draw state, and the
/// second draw reports a collision exactly when some set sprite bit
/// lands on a pixel that was unlit before the first draw — the first
/// draw lit it, so the second finds it lit.
pub proof fn lemma_draw_twice_restores(screen: Seq<u8>, x: int, y: int, sprite: Seq<u8>)
    requires
        screen.len() == 2048,
        forall|p: int| 0 <= p < 2048 ==> screen[p] == 0 || screen[p] == 1,
        0 <= x,
        0 <= y,
    ensures
        draw_result(draw_result(screen, x, y, sprite), x, y, sprite) =~= screen,
        draw_collision(draw_result(screen, x, y, sprite), x, y, sprite) == (exists|
            j: int,
            i: int,
        |
            0 <= j < sprite.len() && 0 <= i < 8 && #[trigger] sprite_bit(sprite[j], i)
                && screen[(x + i) % 64 + ((y + j) % 32) * 64] == 0),
{
    let d1 = draw_result(screen, x, y, sprite);
    assert forall|p: int| 0 <= p < 2048 implies draw_result(d1, x, y, sprite)[p] == screen[p] by {
        if sprite_hits(x, y, sprite, p % 64, p / 64) {
            assert(draw_result(d1, x, y, sprite)[p] == flip(flip(screen[p])));
        }
    }
    assert(draw_result(d1, x, y, sprite) =~= screen);
    if draw_collision(d1, x, y, sprite) {
        let (j2, i2) = choose|j2: int, i2: int|
            0 <= j2 < sprite.len() && 0 <= i2 < 8 && #[trigger] sprite_bit(sprite[j2], i2)
                && d1[(x + i2) % 64 + ((y + j2) % 32) * 64] == 1;
        let px = (x + i2) % 64;
        let py = (y + j2) % 32;
        vstd::arithmetic::div_mod::lemma_mod_bound(x + i2, 64);
        vstd::arithmetic::div_mod::lemma_mod_bound(y + j2, 32);
        lemma_pixel_split(px, py);
        assert(sprite_hits(x, y, sprite, px, py));
        assert(d1[px + py * 64] == flip(screen[px + py * 64]));
        assert(screen[(x + i2) % 64 + ((y + j2) % 32) * 64] == 0);
    }
    if exists|j2: int, i2: int|
        0 <= j2 < sprite.len() && 0 <= i2 < 8 && #[trigger] sprite_bit(sprite[j2], i2) && screen[(x
            + i2) % 64 + ((y + j2) % 32) * 64] == 0 {
        let (j2, i2) = choose|j2: int, i2: int|
            0 <= j2 < sprite.len() && 0 <= i2 < 8 && #[trigger] sprite_bit(sprite[j2], i2)
                && screen[(x + i2) % 64 + ((y + j2) % 32) * 64] == 0;
        let px = (x + i2) % 64;
        let py = (y + j2) % 32;
        vstd::arithmetic::div_mod::lemma_mod_bound(x + i2, 64);
        vstd::arithmetic::div_mod::lemma_mod_bound(y + j2, 32);
        lemma_pixel_split(px, py);
        assert(sprite_hits(x, y, sprite, px, py));
        assert(d1[px + py * 64] == flip(screen[px + py * 64]));
        assert(d1[(x + i2) % 64 + ((y + j2) % 32) * 64] == 1);
        assert(draw_collision(d1, x, y, sprite));
    }
}

/// Law: coordinates wrap rather than clip.  A sprite column that
/// extends past x = 63 lands at x + i - 64, i.e. wraps to the left
/// edge; a row past y = 31 wraps to the top edge alike.
pub proof fn lemma_wrap_coordinates(x: int, y: int, i: int, j: int)
    requires
        0 <= x < 64,
        0 <= y < 32,
        0 <= i < 8,
        0 <= j < 32,
    ensures
        (x + i) % 64 == (if x + i < 64 {
            x + i
        } else {
            x + i - 64
        }),
        (y + j) % 32 == (if y + j < 32 {
            y + j
        } else {
            y + j - 32
        }),
{
    if x + i < 64 {
        lemma_small_mod((x + i) as nat, 64);
    } else {
        lemma_fundamental_div_mod_converse(x + i, 64, 1, x + i - 64);
    }
    if y + j < 32 {
        lemma_small_mod((y + j) as nat, 32);
    } else {
        lemma_fundamental_div_mod_converse(y + j, 32, 1, y + j - 32);
    }
}

/// Law: a set sprite bit toggles exactly the pixel at its wrapped
/// coordinates.
pub proof fn lemma_draw_toggles_wrapped_pixel(
    screen: Seq<u8>,
    x: int,
    y: int,
    sprite: Seq<u8>,
    i: int,
    j: int,
)
    requires
        screen.len() == 2048,
        0 <= x,
        0 <= y,
        0 <= j < sprite.len(),
        0 <= i < 8,
        sprite_bit(sprite[j], i),
    ensures
        draw_result(screen, x, y, sprite)[(x + i) % 64 + ((y + j) % 32) * 64] == flip(
            screen[(x + i) % 64 + ((y + j) % 32) * 64],
        ),
{
    let px = (x + i) % 64;
    let py = (y + j) % 32;
    vstd::arithmetic::div_mod::lemma_mod_bound(x + i, 64);
    vstd::arithmetic::div_mod::lemma_mod_bound(y + j, 32);
    lemma_pixel_split(px, py);
    assert(sprite_hits(x, y, sprite, px, py));
}

} // verus!
