use vstd::prelude::*;

verus! {

/// Width of the framebuffer in pixels.
pub const WIDTH: usize = 64;

/// Height of the framebuffer in pixels.
pub const HEIGHT: usize = 32;

/// Number of pixels in the framebuffer.
pub const PIXELS: usize = 2048;

/// Bit `k` of a sprite row, counted from the most significant bit, as 0 or 1.
pub open spec fn bit_of(byte: u8, k: int) -> u8 {
    (byte >> ((7 - k) as u8)) & 1u8
}

/// Row-major index of the pixel at column `x`, row `y`, both wrapped onto the screen.
pub open spec fn pixel_index(x: int, y: int) -> int {
    (y % 32) * 64 + x % 64
}

/// How many columns to the right of column `x` (wrapping) the pixel `i` lies.
pub open spec fn col_offset(i: int, x: int) -> int {
    (i % 64 - x) % 64
}

/// How many rows below row `y` (wrapping) the pixel `i` lies.
pub open spec fn row_offset(i: int, y: int) -> int {
    (i / 64 - y) % 32
}

/// The screen `s` after XOR-drawing the sprite whose rows are `rows`, with
/// its top-left corner at column `x`, row `y`: each pixel that the sprite
/// covers is flipped where the sprite's bit is set.
pub open spec fn drawn_sprite(s: Seq<u8>, rows: Seq<u8>, x: int, y: int) -> Seq<u8> {
    Seq::new(
        s.len(),
        |i: int|
            if row_offset(i, y) < rows.len() && col_offset(i, x) < 8 {
                s[i] ^ bit_of(rows[row_offset(i, y)], col_offset(i, x))
            } else {
                s[i]
            },
    )
}

/// Whether bit `k` of row `r` of the sprite is set and falls on a lit pixel.
pub open spec fn erases_at(s: Seq<u8>, rows: Seq<u8>, x: int, y: int, r: int, k: int) -> bool {
    0 <= r < rows.len() && 0 <= k < 8 && bit_of(rows[r], k) == 1 && s[pixel_index(x + k, y + r)]
        == 1
}

/// Whether drawing `rows` at (`x`, `y`) on `s` turns some lit pixel off.
pub open spec fn sprite_erases(s: Seq<u8>, rows: Seq<u8>, x: int, y: int) -> bool {
    exists|r: int, k: int| #[trigger] erases_at(s, rows, x, y, r, k)
}

/// A screen of the right size whose pixels are all 0 or 1.
pub open spec fn valid_screen(s: Seq<u8>) -> bool {
    s.len() == 2048 && forall|i: int| 0 <= i < 2048 ==> #[trigger] s[i] <= 1
}

/// The 64 by 32 monochrome framebuffer, one byte (0 or 1) per pixel, row-major.
pub struct Display {
    screen: Vec<u8>,
}

impl View for Display {
    type V = Seq<u8>;

    closed spec fn view(&self) -> Seq<u8> {
        self.screen@
    }
}

proof fn lemma_xor_bit(a: u8, b: u8)
    requires
        a <= 1,
        b <= 1,
    ensures
        a ^ b <= 1,
        (a == 1 && a ^ b == 0) == (a == 1 && b == 1),
{
    assert(a ^ b <= 1 && ((a == 1 && a ^ b == 0) == (a == 1 && b == 1))) by (bit_vector)
        requires
            a <= 1 && b <= 1,
    ;
}

proof fn lemma_bit_of_le_one(byte: u8, k: int)
    requires
        0 <= k < 8,
    ensures
        bit_of(byte, k) <= 1,
{
    let s = (7 - k) as u8;
    assert((byte >> s) & 1u8 <= 1u8) by (bit_vector);
}

impl Display {
    /// The framebuffer holds 2048 pixels, each 0 or 1.
    pub open spec fn wf(&self) -> bool {
        valid_screen(self@)
    }

    /// A framebuffer with every pixel off.
    pub fn new() -> (r: Display)
        ensures
            r.wf(),
            r@ == Seq::new(2048, |i: int| 0u8),
    {
        let screen: Vec<u8> = vec![0u8; PIXELS];
        let r = Display { screen };
        assert(r@ =~= Seq::new(2048, |i: int| 0u8));
        r
    }

    /// A copy of the pixels, row-major, one byte (0 or 1) each.
    pub fn get_display_memory(&self) -> (r: Vec<u8>)
        ensures
            r@ == self@,
    {
        self.screen.clone()
    }

    /// Turns the pixel at column `x`, row `y` on or off.
    pub fn set_pixel(&mut self, x: usize, y: usize, on: bool)
        requires
            old(self).wf(),
            x < 64,
            y < 32,
        ensures
            final(self).wf(),
            final(self)@ == old(self)@.update(y * 64 + x, if on { 1u8 } else { 0u8 }),
    {
        let index = Display::get_index_from_coords(x, y);
        self.screen.set(index, if on { 1u8 } else { 0u8 });
    }

    /// The row-major index of the pixel at column `x`, row `y`.
    pub fn get_index_from_coords(x: usize, y: usize) -> (r: usize)
        requires
            x < 64,
            y < 32,
        ensures
            r == y * 64 + x,
            r < 2048,
    {
        y * WIDTH + x
    }

    /// XOR-draws the 8 bits of `byte`, most significant first, on row `y`
    /// from column `x` on, both wrapping around the screen. Returns whether
    /// some pixel went from on to off.
    pub fn debug_draw_byte(&mut self, byte: u8, x: u8, y: u8) -> (erased: bool)
        requires
            old(self).wf(),
        ensures
            final(self).wf(),
            final(self)@ == drawn_sprite(old(self)@, seq![byte], x as int, y as int),
            erased == sprite_erases(old(self)@, seq![byte], x as int, y as int),
    {
        let ghost s = self@;
        let ghost rows = seq![byte];
        let mut erased = false;
        let coord_y: usize = y as usize % HEIGHT;
        let mut k: usize = 0;
        while k < 8
            invariant
                0 <= k <= 8,
                self.wf(),
                s.len() == 2048,
                coord_y == (y as int) % 32,
                forall|i: int|
                    0 <= i < 2048 ==> #[trigger] self@[i] == if row_offset(i, y as int) < 1
                        && col_offset(i, x as int) < k {
                        s[i] ^ bit_of(byte, col_offset(i, x as int))
                    } else {
                        s[i]
                    },
                erased == exists|kk: int|
                    0 <= kk < k && bit_of(byte, kk) == 1 && s[pixel_index(
                        x + kk,
                        y as int,
                    )] == 1,
            decreases 8 - k,
        {
            let coord_x: usize = (x as usize + k) % WIDTH;
            let index = Display::get_index_from_coords(coord_x, coord_y);
            let bit: u8 = (byte >> (7 - k as u8)) & 1;
            let prev_value = self.screen[index];
            let new_value = prev_value ^ bit;
            proof {
                lemma_bit_of_le_one(byte, k as int);
                lemma_xor_bit(prev_value, bit);
                assert(bit == bit_of(byte, k as int));
                assert(index as int == pixel_index(x + k, y as int));
                assert(row_offset(index as int, y as int) == 0);
                assert(col_offset(index as int, x as int) == k);
                assert forall|i: int|
                    0 <= i < 2048 && i != index && row_offset(i, y as int) < 1 implies col_offset(
                        i,
                        x as int,
                    ) != k by {}
                assert(prev_value == s[index as int]);
            }
            if prev_value == 1 && new_value == 0 {
                erased = true;
            }
            self.set_pixel(coord_x, coord_y, if new_value == 0 { false } else { true });
            k = k + 1;
        }
        proof {
            assert(self@ =~= drawn_sprite(s, rows, x as int, y as int));
            assert(erased == sprite_erases(s, rows, x as int, y as int)) by {
                if erased {
                    let kk = choose|kk: int|
                        0 <= kk < 8 && bit_of(byte, kk) == 1 && s[pixel_index(x + kk, y as int)]
                            == 1;
                    assert(rows[0] == byte);
                    assert(pixel_index(x + kk, y + 0) == pixel_index(x + kk, y as int));
                    assert(erases_at(s, rows, x as int, y as int, 0, kk));
                }
                if sprite_erases(s, rows, x as int, y as int) {
                    let (r, kk) = choose|r: int, kk: int| #[trigger] erases_at(s, rows, x as int, y as int, r, kk);
                    assert(r == 0);
                    assert(pixel_index(x + kk, y + r) == pixel_index(x + kk, y as int));
                }
            }
        }
        erased
    }

    /// Turns every pixel off.
    pub fn clear(&mut self)
        requires
            old(self).wf(),
        ensures
            final(self).wf(),
            final(self)@ == Seq::new(2048, |i: int| 0u8),
    {
        let mut i: usize = 0;
        while i < PIXELS
            invariant
                0 <= i <= 2048,
                self@.len() == 2048,
                forall|j: int| 0 <= j < i ==> #[trigger] self@[j] == 0u8,
                forall|j: int| 0 <= j < 2048 ==> #[trigger] self@[j] <= 1u8,
            decreases 2048 - i,
        {
            self.screen.set(i, 0u8);
            i = i + 1;
        }
        assert(self@ =~= Seq::new(2048, |i: int| 0u8));
    }
}

} // verus!
