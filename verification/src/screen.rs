//! The 64x32 toroidal monochrome bit-plane. Drawing XORs sprite bits onto
//! pixels with wrap-around coordinates; a draw reports a collision when it
//! turns any lit pixel off.

use vstd::prelude::*;
use crate::arch::Sprite;
use crate::constants::{WIDTH, HEIGHT, PIXELS};

verus! {

/// Whether bit `c` of a sprite row is set, bit 0 being the leftmost
/// (most significant) pixel.
pub open spec fn spec_sprite_bit(row: u8, c: int) -> bool {
    (row >> ((7 - c) as u8)) & 1 == 1
}

/// The bit-plane and collision flag after XOR-compositing the leftmost `c`
/// bits of one sprite row onto pixel row `py`, starting at column `x`
/// (wrapping mod the display width).
pub open spec fn spec_draw_row_upto(s: Seq<bool>, row: u8, x: int, py: int, c: nat) -> (Seq<
    bool,
>, bool)
    decreases c,
{
    if c == 0 {
        (s, false)
    } else {
        let (s1, f1) = spec_draw_row_upto(s, row, x, py, (c - 1) as nat);
        let px = (x + c - 1) % (WIDTH as int);
        let ix = py * (WIDTH as int) + px;
        let bit = spec_sprite_bit(row, c - 1);
        (s1.update(ix, s1[ix] != bit), f1 || (s1[ix] && bit))
    }
}

/// The bit-plane and collision flag after drawing the first `r` rows of a
/// sprite at `(x, y)`, each row at pixel row `(y + row index) mod` the
/// display height.
pub open spec fn spec_draw_upto(s: Seq<bool>, sprite: Seq<u8>, x: int, y: int, r: nat) -> (Seq<
    bool,
>, bool)
    decreases r,
{
    if r == 0 {
        (s, false)
    } else {
        let (s1, f1) = spec_draw_upto(s, sprite, x, y, (r - 1) as nat);
        let py = (y + r - 1) % (HEIGHT as int);
        let (s2, f2) = spec_draw_row_upto(s1, sprite[r - 1], x, py, 8);
        (s2, f1 || f2)
    }
}

/// The bit-plane and collision flag after drawing a whole sprite at
/// `(x, y)`: the XOR of every sprite bit onto its (wrapped) pixel, and the
/// OR over all pixels of "was lit and the sprite bit was set".
pub open spec fn spec_draw(s: Seq<bool>, sprite: Seq<u8>, x: int, y: int) -> (Seq<bool>, bool) {
    spec_draw_upto(s, sprite, x, y, sprite.len())
}

/// The display bit-plane, row-major: pixel `(x, y)` lives at index
/// `y * WIDTH + x`.
pub struct Screen {
    pixels: Vec<bool>,
}

impl View for Screen {
    type V = Seq<bool>;

    closed spec fn view(&self) -> Seq<bool> {
        self.pixels@
    }
}

impl Screen {
    /// The bit-plane always holds exactly [`PIXELS`] pixels.
    pub open spec fn wf(&self) -> bool {
        self@.len() == PIXELS
    }

    /// A fresh, fully dark bit-plane.
    pub fn new() -> (s: Screen)
        ensures
            s.wf(),
            forall|k: int| 0 <= k < PIXELS ==> !s@[k],
    {
        let mut pixels: Vec<bool> = Vec::new();
        let mut i: usize = 0;
        while i < PIXELS
            invariant
                i <= PIXELS,
                pixels@.len() == i,
                forall|k: int| 0 <= k < i ==> !pixels@[k],
            decreases PIXELS - i,
        {
            pixels.push(false);
            i += 1;
        }
        Screen { pixels }
    }

    /// Turn every pixel off.
    pub fn clear(&mut self)
        requires
            old(self).wf(),
        ensures
            final(self).wf(),
            forall|k: int| 0 <= k < PIXELS ==> !final(self)@[k],
    {
        let mut i: usize = 0;
        while i < PIXELS
            invariant
                i <= PIXELS,
                self.wf(),
                forall|k: int| 0 <= k < i ==> !self@[k],
            decreases PIXELS - i,
        {
            self.pixels[i] = false;
            i += 1;
        }
    }

    /// The pixel at row-major index `ix`.
    pub fn pixel(&self, ix: usize) -> (r: bool)
        requires
            self.wf(),
            ix < PIXELS,
        ensures
            r == self@[ix as int],
    {
        self.pixels[ix]
    }

    /// The pixel at column `x`, row `y`.
    pub fn pixel_at(&self, x: usize, y: usize) -> (r: bool)
        requires
            self.wf(),
            x < WIDTH,
            y < HEIGHT,
        ensures
            r == self@[y * WIDTH + x],
    {
        self.pixels[y * WIDTH + x]
    }

    /// XOR-composite a sprite onto the bit-plane at `(x, y)`, row
    /// coordinates wrapping mod the height and columns mod the width, and
    /// report whether any lit pixel was turned off.
    pub fn draw(&mut self, sprite: &Sprite<'_>, x: u8, y: u8) -> (collision: bool)
        requires
            old(self).wf(),
            sprite@.len() <= 15,
        ensures
            final(self).wf(),
            (final(self)@, collision) == spec_draw(old(self)@, sprite@, x as int, y as int),
    {
        let rows = sprite.0.len();
        let mut coll = false;
        let mut r: usize = 0;
        while r < rows
            invariant
                self.wf(),
                r <= rows,
                rows == sprite@.len(),
                rows <= 15,
                (self@, coll) == spec_draw_upto(old(self)@, sprite@, x as int, y as int, r as nat),
            decreases rows - r,
        {
            let row = sprite.0[r];
            let py = (y as usize + r) % HEIGHT;
            let ghost s_row = self@;
            let ghost f_row = coll;
            let mut rowcoll = false;
            let mut c: usize = 0;
            while c < 8
                invariant
                    self.wf(),
                    c <= 8,
                    py as int == (y as int + r as int) % (HEIGHT as int),
                    py < HEIGHT,
                    (self@, rowcoll) == spec_draw_row_upto(s_row, row, x as int, py as int, c as nat),
                decreases 8 - c,
            {
                let px = (x as usize + c) % WIDTH;
                let ix = py * WIDTH + px;
                let bit = ((row >> ((7 - c) as u8)) & 1) == 1;
                let old_pix = self.pixels[ix];
                self.pixels[ix] = old_pix != bit;
                if old_pix && bit {
                    rowcoll = true;
                }
                c += 1;
            }
            coll = coll || rowcoll;
            r += 1;
            proof {
                assert((self@, coll) == spec_draw_upto(
                    old(self)@,
                    sprite@,
                    x as int,
                    y as int,
                    r as nat,
                ));
            }
        }
        coll
    }
}

} // verus!

verus! {

/// The row-major index of the pixel that column bit `cc` of a sprite row
/// lands on when the row is drawn at pixel row `py` starting at column `x`.
pub open spec fn row_pixel_index(x: int, py: int, cc: int) -> int {
    py * (WIDTH as int) + ((x + cc) % (WIDTH as int))
}

/// The row-major index of the pixel that bit `cc` of sprite row `rr` lands
/// on when the sprite is drawn at `(x, y)`, wrapping toroidally.
pub open spec fn sprite_pixel_index(x: int, y: int, rr: int, cc: int) -> int {
    row_pixel_index(x, (y + rr) % (HEIGHT as int), cc)
}

proof fn lemma_draw_row_frame(s: Seq<bool>, row: u8, x: int, py: int, c: nat, p: int)
    requires
        s.len() == PIXELS,
        0 <= py < (HEIGHT as int),
        forall|cc: int| 0 <= cc < c ==> p != #[trigger] row_pixel_index(x, py, cc),
    ensures
        spec_draw_row_upto(s, row, x, py, c).0.len() == s.len(),
        0 <= p < s.len() ==> spec_draw_row_upto(s, row, x, py, c).0[p] == s[p],
    decreases c,
{
    if c > 0 {
        lemma_draw_row_frame(s, row, x, py, (c - 1) as nat, p);
        assert(p != row_pixel_index(x, py, c - 1));
    }
}

proof fn lemma_draw_frame(s: Seq<bool>, sprite: Seq<u8>, x: int, y: int, r: nat, p: int)
    requires
        s.len() == PIXELS,
        forall|rr: int, cc: int|
            0 <= rr < r && 0 <= cc < 8 ==> p != #[trigger] sprite_pixel_index(x, y, rr, cc),
    ensures
        spec_draw_upto(s, sprite, x, y, r).0.len() == s.len(),
        0 <= p < s.len() ==> spec_draw_upto(s, sprite, x, y, r).0[p] == s[p],
    decreases r,
{
    if r > 0 {
        lemma_draw_frame(s, sprite, x, y, (r - 1) as nat, p);
        let s1 = spec_draw_upto(s, sprite, x, y, (r - 1) as nat).0;
        let py = (y + r - 1) % (HEIGHT as int);
        assert forall|cc: int| 0 <= cc < 8 implies p != #[trigger] row_pixel_index(x, py, cc) by {
            assert(p != sprite_pixel_index(x, y, r - 1, cc));
        }
        lemma_draw_row_frame(s1, sprite[r - 1], x, py, 8, p);
    }
}

/// Law: a draw never changes the size of the bit-plane, and leaves every
/// pixel outside the sprite's toroidal footprint (rows wrapped mod the
/// height, columns mod the width) exactly as it was.
pub proof fn lemma_draw_leaves_rest(s: Seq<bool>, sprite: Seq<u8>, x: int, y: int, p: int)
    requires
        s.len() == PIXELS,
        0 <= p < s.len(),
        forall|rr: int, cc: int|
            0 <= rr < sprite.len() && 0 <= cc < 8 ==> p != #[trigger] sprite_pixel_index(
                x,
                y,
                rr,
                cc,
            ),
    ensures
        spec_draw(s, sprite, x, y).0.len() == s.len(),
        spec_draw(s, sprite, x, y).0[p] == s[p],
{
    lemma_draw_frame(s, sprite, x, y, sprite.len(), p);
}

} // verus!

verus! {

proof fn lemma_wrap_distinct(a: int, k: int, w: int)
    requires
        0 < k < w,
    ensures
        a % w != (a + k) % w,
{
    let ra = a % w;
    let rb = (a + k) % w;
    vstd::arithmetic::div_mod::lemma_fundamental_div_mod(a, w);
    vstd::arithmetic::div_mod::lemma_fundamental_div_mod(a + k, w);
    assert(ra == a - w * (a / w));
    assert(rb == (a + k) - w * ((a + k) / w));
    if ra == rb {
        let q = (a + k) / w - a / w;
        assert(k == w * q) by (nonlinear_arith)
            requires
                ra == rb,
                ra == a - w * (a / w),
                rb == (a + k) - w * ((a + k) / w),
                q == (a + k) / w - a / w,
        ;
        assert(0 < w * q < w);
        assert(false) by (nonlinear_arith)
            requires
                0 < w * q < w,
                w > 0,
        ;
    }
}

proof fn lemma_pixel_index_distinct(x: int, y: int, r1: int, c1: int, r2: int, c2: int, n: int)
    requires
        n <= 15,
        0 <= r1 < n,
        0 <= c1 < 8,
        0 <= r2 < n,
        0 <= c2 < 8,
        (r1, c1) != (r2, c2),
    ensures
        sprite_pixel_index(x, y, r1, c1) != sprite_pixel_index(x, y, r2, c2),
{
    let py1 = (y + r1) % (HEIGHT as int);
    let py2 = (y + r2) % (HEIGHT as int);
    let px1 = (x + c1) % (WIDTH as int);
    let px2 = (x + c2) % (WIDTH as int);
    if r1 != r2 {
        if r1 < r2 {
            lemma_wrap_distinct(y + r1, r2 - r1, HEIGHT as int);
        } else {
            lemma_wrap_distinct(y + r2, r1 - r2, HEIGHT as int);
        }
        assert(py1 != py2);
    } else {
        if c1 < c2 {
            lemma_wrap_distinct(x + c1, c2 - c1, WIDTH as int);
        } else {
            lemma_wrap_distinct(x + c2, c1 - c2, WIDTH as int);
        }
        assert(px1 != px2);
    }
}

proof fn lemma_draw_row_len(s: Seq<bool>, row: u8, x: int, py: int, c: nat)
    requires
        s.len() == PIXELS,
        0 <= py < (HEIGHT as int),
    ensures
        spec_draw_row_upto(s, row, x, py, c).0.len() == s.len(),
    decreases c,
{
    if c > 0 {
        lemma_draw_row_len(s, row, x, py, (c - 1) as nat);
    }
}

proof fn lemma_draw_len(s: Seq<bool>, sprite: Seq<u8>, x: int, y: int, r: nat)
    requires
        s.len() == PIXELS,
    ensures
        spec_draw_upto(s, sprite, x, y, r).0.len() == s.len(),
    decreases r,
{
    if r > 0 {
        lemma_draw_len(s, sprite, x, y, (r - 1) as nat);
        lemma_draw_row_len(
            spec_draw_upto(s, sprite, x, y, (r - 1) as nat).0,
            sprite[r - 1],
            x,
            (y + r - 1) % (HEIGHT as int),
            8,
        );
    }
}

proof fn lemma_draw_row_pixel(s: Seq<bool>, row: u8, x: int, py: int, c: nat, cc: int)
    requires
        s.len() == PIXELS,
        0 <= py < (HEIGHT as int),
        0 <= cc < c <= 8,
        forall|c2: int|
            0 <= c2 < 8 && c2 != cc ==> #[trigger] row_pixel_index(x, py, c2) != row_pixel_index(
                x,
                py,
                cc,
            ),
    ensures
        spec_draw_row_upto(s, row, x, py, c).0[row_pixel_index(x, py, cc)] == (s[row_pixel_index(
            x,
            py,
            cc,
        )] != spec_sprite_bit(row, cc)),
    decreases c,
{
    let p = row_pixel_index(x, py, cc);
    lemma_draw_row_len(s, row, x, py, (c - 1) as nat);
    if cc == c - 1 {
        assert forall|c2: int| 0 <= c2 < (c - 1) as nat implies p != #[trigger] row_pixel_index(
            x,
            py,
            c2,
        ) by {
            assert(row_pixel_index(x, py, c2) != row_pixel_index(x, py, cc));
        }
        lemma_draw_row_frame(s, row, x, py, (c - 1) as nat, p);
    } else {
        lemma_draw_row_pixel(s, row, x, py, (c - 1) as nat, cc);
        assert(row_pixel_index(x, py, c - 1) != p);
    }
}

proof fn lemma_draw_pixel_upto(s: Seq<bool>, sprite: Seq<u8>, x: int, y: int, r: nat, rr: int, cc: int)
    requires
        s.len() == PIXELS,
        sprite.len() <= 15,
        r <= sprite.len(),
        0 <= rr < r,
        0 <= cc < 8,
    ensures
        spec_draw_upto(s, sprite, x, y, r).0[sprite_pixel_index(x, y, rr, cc)] == (s[
            sprite_pixel_index(x, y, rr, cc)] != spec_sprite_bit(sprite[rr], cc)),
    decreases r,
{
    let p = sprite_pixel_index(x, y, rr, cc);
    let prev = spec_draw_upto(s, sprite, x, y, (r - 1) as nat).0;
    let py = (y + r - 1) % (HEIGHT as int);
    if rr == r - 1 {
        assert forall|r2: int, c2: int|
            0 <= r2 < (r - 1) as nat && 0 <= c2 < 8 implies p != #[trigger] sprite_pixel_index(
            x,
            y,
            r2,
            c2,
        ) by {
            lemma_pixel_index_distinct(x, y, rr, cc, r2, c2, sprite.len() as int);
        }
        lemma_draw_frame(s, sprite, x, y, (r - 1) as nat, p);
        assert forall|c2: int|
            0 <= c2 < 8 && c2 != cc implies #[trigger] row_pixel_index(x, py, c2)
            != row_pixel_index(x, py, cc) by {
            lemma_pixel_index_distinct(x, y, rr, c2, rr, cc, sprite.len() as int);
        }
        lemma_draw_row_pixel(prev, sprite[r - 1], x, py, 8, cc);
        assert(row_pixel_index(x, py, cc) == p);
    } else {
        lemma_draw_pixel_upto(s, sprite, x, y, (r - 1) as nat, rr, cc);
        lemma_draw_len(s, sprite, x, y, (r - 1) as nat);
        assert forall|c2: int| 0 <= c2 < 8 implies p != #[trigger] row_pixel_index(x, py, c2) by {
            lemma_pixel_index_distinct(x, y, rr, cc, r - 1, c2, sprite.len() as int);
            assert(sprite_pixel_index(x, y, r - 1, c2) == row_pixel_index(x, py, c2));
        }
        lemma_draw_row_frame(prev, sprite[r - 1], x, py, 8, p);
    }
}

/// Law: a draw XORs each sprite bit onto exactly the pixel its wrapped
/// coordinates name: bit `cc` of row `rr` lands on pixel row
/// `(y + rr) mod` height, column `(x + cc) mod` width, and that pixel's
/// new value is its old value XOR the bit. With [`lemma_draw_leaves_rest`]
/// this pins every pixel of a draw.
pub proof fn lemma_draw_pixel(s: Seq<bool>, sprite: Seq<u8>, x: int, y: int, rr: int, cc: int)
    requires
        s.len() == PIXELS,
        sprite.len() <= 15,
        0 <= rr < sprite.len(),
        0 <= cc < 8,
    ensures
        spec_draw(s, sprite, x, y).0[sprite_pixel_index(x, y, rr, cc)] == (s[sprite_pixel_index(
            x,
            y,
            rr,
            cc,
        )] != spec_sprite_bit(sprite[rr], cc)),
{
    lemma_draw_pixel_upto(s, sprite, x, y, sprite.len(), rr, cc);
}

} // verus!
