//! The 64x32 monochrome framebuffer.
//!
//! The screen is a flat row-major grid of 2048 pixels.  Sprites are 8 pixels
//! wide and up to 15 rows tall; drawing XORs their bits into the grid and
//! reports whether any lit pixel was turned off (a collision).  Rows and
//! columns that would run past the screen edge are clipped, never wrapped.
//! Presenting the grid on an actual window is an outside concern.

use vstd::prelude::*;

verus! {

/// Pixel `col` of a sprite row byte; column 0 is the most significant bit.
pub open spec fn bit_at(b: u8, col: int) -> bool
    recommends
        0 <= col < 8,
{
    ((b >> ((7 - col) as u8)) & 1) == 1
}

/// The screen with every pixel off.
pub open spec fn blank_screen() -> Seq<bool> {
    Seq::new(2048, |j: int| false)
}

/// One sprite row XORed into the screen at row `py`, columns `x..x+8`,
/// clipped at the right edge.
pub open spec fn row_drawn(screen: Seq<bool>, x: int, py: int, row: u8) -> Seq<bool> {
    Seq::new(2048, |idx: int|
        if idx / 64 == py && x <= idx % 64 < x + 8 {
            screen[idx] != bit_at(row, idx % 64 - x)
        } else {
            screen[idx]
        })
}

/// Whether XORing `row` in at `(x, py)` turns some lit pixel off.
pub open spec fn row_hits(screen: Seq<bool>, x: int, py: int, row: u8) -> bool {
    exists|c: int|
        0 <= c < 8 && x + c < 64 && 0 <= py < 32 && screen[py * 64 + x + c]
            && #[trigger] bit_at(row, c)
}

/// The screen after a whole sprite is XORed in at `(x, y)`, rows growing
/// downward.  Pixels outside the sprite's clipped rectangle keep their value.
pub open spec fn drawn(screen: Seq<bool>, x: int, y: int, sprite: Seq<u8>) -> Seq<bool> {
    Seq::new(2048, |idx: int|
        if y <= idx / 64 < y + sprite.len() && x <= idx % 64 < x + 8 {
            screen[idx] != bit_at(sprite[idx / 64 - y], idx % 64 - x)
        } else {
            screen[idx]
        })
}

/// Whether drawing the sprite at `(x, y)` turns some lit pixel off.
pub open spec fn collides(screen: Seq<bool>, x: int, y: int, sprite: Seq<u8>) -> bool {
    exists|r: int, c: int|
        0 <= r < sprite.len() && y + r < 32 && 0 <= c < 8 && x + c < 64
            && screen[(y + r) * 64 + (x + c)] && #[trigger] bit_at(sprite[r], c)
}

/// Sprites clip at the screen edges instead of wrapping: every pixel
/// outside the sprite's rectangle — above, below, left of `x` or at
/// `x + 8` and beyond — keeps its value.
pub proof fn lemma_draw_clips(screen: Seq<bool>, x: int, y: int, sprite: Seq<u8>, idx: int)
    requires
        screen.len() == 2048,
        0 <= idx < 2048,
        !(y <= idx / 64 < y + sprite.len() && x <= idx % 64 < x + 8),
    ensures
        drawn(screen, x, y, sprite)[idx] == screen[idx],
{
}

proof fn lemma_row_col(py: int, k: int)
    requires
        0 <= py,
        0 <= k < 64,
    ensures
        (py * 64 + k) / 64 == py,
        (py * 64 + k) % 64 == k,
{
    assert((py * 64 + k) / 64 == py && (py * 64 + k) % 64 == k) by (nonlinear_arith)
        requires
            0 <= py,
            0 <= k < 64,
    ;
}

pub struct Display {
    screen: Vec<bool>,
}

impl View for Display {
    type V = Seq<bool>;

    closed spec fn view(&self) -> Seq<bool> {
        self.screen@
    }
}

fn blank_vec() -> (v: Vec<bool>)
    ensures
        v@ == blank_screen(),
{
    let mut v: Vec<bool> = Vec::new();
    let mut j: usize = 0;
    while j < 2048
        invariant
            j <= 2048,
            v@.len() == j,
            forall|m: int| 0 <= m < j ==> !v@[m],
        decreases 2048 - j,
    {
        v.push(false);
        j = j + 1;
    }
    proof {
        assert(v@ =~= blank_screen());
    }
    v
}

impl Display {
    pub open spec fn wf(&self) -> bool {
        self@.len() == 2048
    }

    pub fn new() -> (d: Display)
        ensures
            d.wf(),
            d@ == blank_screen(),
    {
        Display { screen: blank_vec() }
    }

    pub fn clear(&mut self)
        ensures
            final(self).wf(),
            final(self)@ == blank_screen(),
    {
        self.screen = blank_vec();
    }

    pub fn pixel(&self, x: usize, y: usize) -> (r: bool)
        requires
            self.wf(),
            x < 64,
            y < 32,
        ensures
            r == self@[y * 64 + x],
    {
        self.screen[y * 64 + x]
    }

    fn draw_row(&mut self, x: usize, py: usize, row: u8) -> (hit: bool)
        requires
            old(self).wf(),
            x < 64,
            py < 32,
        ensures
            final(self).wf(),
            final(self)@ == row_drawn(old(self)@, x as int, py as int, row),
            hit == row_hits(old(self)@, x as int, py as int, row),
    {
        let mut hit = false;
        let cols: usize = if 64 - x < 8 { 64 - x } else { 8 };
        let mut c: usize = 0;
        while c < cols
            invariant
                self.wf(),
                old(self).wf(),
                x < 64,
                py < 32,
                c <= cols,
                cols == (if 64 - x < 8 { 64 - (x as int) } else { 8int }),
                forall|idx: int| 0 <= idx < 2048 ==> #[trigger] self@[idx] == (
                    if idx / 64 == py && x <= idx % 64 < x + c {
                        old(self)@[idx] != bit_at(row, idx % 64 - x)
                    } else {
                        old(self)@[idx]
                    }),
                hit == (exists|cc: int|
                    0 <= cc < c && old(self)@[py * 64 + x + cc] && #[trigger] bit_at(row, cc)),
            decreases cols - c,
        {
            let idx: usize = py * 64 + x + c;
            let bit: bool = ((row >> ((7 - c) as u8)) & 1) == 1;
            let cur: bool = self.screen[idx];
            proof {
                lemma_row_col(py as int, (x + c) as int);
                assert(bit == bit_at(row, c as int));
                assert(cur == old(self)@[idx as int]);
            }
            self.screen.set(idx, cur != bit);
            if cur && bit {
                hit = true;
                proof {
                    assert(old(self)@[py * 64 + x + (c as int)] && bit_at(row, c as int));
                }
            }
            c = c + 1;
        }
        proof {
            assert(self@ =~= row_drawn(old(self)@, x as int, py as int, row));
            assert(hit == row_hits(old(self)@, x as int, py as int, row));
        }
        hit
    }

    pub fn draw_sprite(&mut self, x: usize, y: usize, sprite: &Vec<u8>) -> (collision: bool)
        requires
            old(self).wf(),
            x < 64,
            y < 32,
        ensures
            final(self).wf(),
            final(self)@ == drawn(old(self)@, x as int, y as int, sprite@),
            collision == collides(old(self)@, x as int, y as int, sprite@),
    {
        let mut collision = false;
        let rows: usize = if sprite.len() < 32 - y { sprite.len() } else { 32 - y };
        let mut r: usize = 0;
        proof {
            assert(self@ =~= drawn(old(self)@, x as int, y as int, sprite@.take(0)));
        }
        while r < rows
            invariant
                self.wf(),
                old(self).wf(),
                x < 64,
                y < 32,
                r <= rows,
                rows <= sprite@.len(),
                y + rows <= 32,
                rows == sprite@.len() || y + rows == 32,
                self@ == drawn(old(self)@, x as int, y as int, sprite@.take(r as int)),
                collision == collides(old(self)@, x as int, y as int, sprite@.take(r as int)),
            decreases rows - r,
        {
            let byte = sprite[r];
            let hit = self.draw_row(x, y + r, byte);
            proof {
                lemma_draw_step(old(self)@, x as int, y as int, sprite@, r as int);
            }
            if hit {
                collision = true;
            }
            r = r + 1;
        }
        proof {
            lemma_draw_clip(old(self)@, x as int, y as int, sprite@, rows as int);
        }
        collision
    }
}

/// Drawing one more row on top of the first `r` rows gives the first `r + 1`
/// rows, and its collision is independent of the rows already drawn, since
/// distinct sprite rows touch distinct screen rows.
proof fn lemma_draw_step(screen: Seq<bool>, x: int, y: int, sprite: Seq<u8>, r: int)
    requires
        screen.len() == 2048,
        0 <= x < 64,
        0 <= y < 32,
        0 <= r < sprite.len(),
        y + r < 32,
    ensures
        row_drawn(drawn(screen, x, y, sprite.take(r)), x, y + r, sprite[r])
            =~= drawn(screen, x, y, sprite.take(r + 1)),
        row_hits(drawn(screen, x, y, sprite.take(r)), x, y + r, sprite[r])
            == row_hits(screen, x, y + r, sprite[r]),
        collides(screen, x, y, sprite.take(r + 1))
            == (collides(screen, x, y, sprite.take(r)) || row_hits(screen, x, y + r, sprite[r])),
{
    let part = drawn(screen, x, y, sprite.take(r));
    if row_hits(part, x, y + r, sprite[r]) {
        let cc = choose|cc: int|
            0 <= cc < 8 && x + cc < 64 && 0 <= y + r < 32 && part[(y + r) * 64 + x + cc]
                && #[trigger] bit_at(sprite[r], cc);
        lemma_row_col(y + r, x + cc);
        assert(screen[(y + r) * 64 + x + cc]);
        assert(row_hits(screen, x, y + r, sprite[r]));
    }
    if row_hits(screen, x, y + r, sprite[r]) {
        let cc = choose|cc: int|
            0 <= cc < 8 && x + cc < 64 && 0 <= y + r < 32 && screen[(y + r) * 64 + x + cc]
                && #[trigger] bit_at(sprite[r], cc);
        lemma_row_col(y + r, x + cc);
        assert(part[(y + r) * 64 + x + cc]);
        assert(row_hits(part, x, y + r, sprite[r]));
    }
    if collides(screen, x, y, sprite.take(r + 1)) {
        let (rr, cc) = choose|rr: int, cc: int|
            0 <= rr < sprite.take(r + 1).len() && y + rr < 32 && 0 <= cc < 8 && x + cc < 64
                && screen[(y + rr) * 64 + (x + cc)] && #[trigger] bit_at(sprite.take(r + 1)[rr], cc);
        if rr < r {
            assert(bit_at(sprite.take(r)[rr], cc));
            assert(collides(screen, x, y, sprite.take(r)));
        } else {
            assert(bit_at(sprite[r], cc));
            assert(row_hits(screen, x, y + r, sprite[r]));
        }
    }
    if collides(screen, x, y, sprite.take(r)) {
        let (rr, cc) = choose|rr: int, cc: int|
            0 <= rr < sprite.take(r).len() && y + rr < 32 && 0 <= cc < 8 && x + cc < 64
                && screen[(y + rr) * 64 + (x + cc)] && #[trigger] bit_at(sprite.take(r)[rr], cc);
        assert(bit_at(sprite.take(r + 1)[rr], cc));
        assert(collides(screen, x, y, sprite.take(r + 1)));
    }
    if row_hits(screen, x, y + r, sprite[r]) {
        let cc = choose|cc: int|
            0 <= cc < 8 && x + cc < 64 && 0 <= y + r < 32 && screen[(y + r) * 64 + x + cc]
                && #[trigger] bit_at(sprite[r], cc);
        assert(bit_at(sprite.take(r + 1)[r], cc));
        assert(screen[(y + (r)) * 64 + (x + cc)]);
        assert(collides(screen, x, y, sprite.take(r + 1)));
    }
}

/// Rows that would fall below the bottom edge change nothing: drawing the
/// first `rows` rows draws the whole sprite.
proof fn lemma_draw_clip(screen: Seq<bool>, x: int, y: int, sprite: Seq<u8>, rows: int)
    requires
        screen.len() == 2048,
        0 <= x < 64,
        0 <= y < 32,
        0 <= rows <= sprite.len(),
        y + rows <= 32,
        rows == sprite.len() || y + rows == 32,
    ensures
        drawn(screen, x, y, sprite.take(rows)) =~= drawn(screen, x, y, sprite),
        collides(screen, x, y, sprite.take(rows)) == collides(screen, x, y, sprite),
{
    if collides(screen, x, y, sprite.take(rows)) {
        let (rr, cc) = choose|rr: int, cc: int|
            0 <= rr < sprite.take(rows).len() && y + rr < 32 && 0 <= cc < 8 && x + cc < 64
                && screen[(y + rr) * 64 + (x + cc)] && #[trigger] bit_at(sprite.take(rows)[rr], cc);
        assert(bit_at(sprite[rr], cc));
        assert(collides(screen, x, y, sprite));
    }
    if collides(screen, x, y, sprite) {
        let (rr, cc) = choose|rr: int, cc: int|
            0 <= rr < sprite.len() && y + rr < 32 && 0 <= cc < 8 && x + cc < 64
                && screen[(y + rr) * 64 + (x + cc)] && #[trigger] bit_at(sprite[rr], cc);
        assert(rr < rows);
        assert(bit_at(sprite.take(rows)[rr], cc));
        assert(collides(screen, x, y, sprite.take(rows)));
    }
}

} // verus!
