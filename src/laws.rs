use vstd::prelude::*;
use crate::cpu::{draw_spec, step, valid_state, CpuState};
use crate::display::{bit_of, col_offset, drawn_sprite, erases_at, pixel_index, row_offset, sprite_erases, valid_screen};
use crate::error::Chip8Error;

verus! {

proof fn lemma_decode(f: u8, x: u8)
    requires
        f < 16,
        x < 16,
    ensures
        ((f * 16 + x) as u8) >> 4u8 == f,
        ((f * 16 + x) as u8) & 0x0Fu8 == x,
{
    assert(((f * 16 + x) as u8) >> 4u8 == f && ((f * 16 + x) as u8) & 0x0Fu8 == x) by (bit_vector)
        requires
            f < 16 && x < 16,
    ;
}

/// Loading `nn` into Vx with `6xnn` and then running `3xnn` skips the
/// next instruction (the program counter moves on by 4), and running
/// `4xnn` instead does not (it moves on by 2).
pub proof fn lemma_load_then_compare(s: CpuState, x: u8, nn: u8, op: u8)
    requires
        valid_state(s),
        x < 16,
        op == 3 || op == 4,
        s.pc + 3 < 4096,
        s.mem[s.pc as int] == 0x60 + x,
        s.mem[s.pc + 1] == nn,
        s.mem[s.pc + 2] == op * 16 + x,
        s.mem[s.pc + 3] == nn,
    ensures
        step(s) is Ok,
        step(step(s)->Ok_0) is Ok,
        step(step(s)->Ok_0)->Ok_0.pc == step(s)->Ok_0.pc + if op == 3 { 4int } else { 2int },
{
    lemma_decode(6, x);
    lemma_decode(op, x);
    assert((6 * 16 + x) as u8 == 0x60 + x);
}

/// A return with an empty call stack is a stack underflow fault.
pub proof fn lemma_return_on_empty_stack(s: CpuState)
    requires
        valid_state(s),
        s.stack.len() == 0,
        s.pc + 1 < 4096,
        s.mem[s.pc as int] == 0x00,
        s.mem[s.pc + 1] == 0xEE,
    ensures
        step(s) == Err::<CpuState, Chip8Error>(Chip8Error::StackUnderflow),
{
    assert(0u8 >> 4u8 == 0) by (bit_vector);
}

/// Storing V0..Vx with `Fx55` and later loading them back with `Fx65` from
/// the same `I`, over the memory the store left, gives back V0..Vx.
pub proof fn lemma_store_load_round_trip(s: CpuState, w: CpuState, x: u8)
    requires
        valid_state(s),
        valid_state(w),
        x < 16,
        s.pc + 1 < 4096,
        s.mem[s.pc as int] == 0xF0 + x,
        s.mem[s.pc + 1] == 0x55,
        s.i + x + 1 <= 4096,
        step(s) is Ok ==> w.mem == step(s)->Ok_0.mem,
        w.i == s.i,
        w.pc + 1 < 4096,
        w.mem[w.pc as int] == 0xF0 + x,
        w.mem[w.pc + 1] == 0x65,
    ensures
        step(s) is Ok,
        step(w) is Ok,
        forall|r: int| 0 <= r <= x ==> #[trigger] step(w)->Ok_0.v[r] == s.v[r],
{
    lemma_decode(0xF, x);
    assert((0xF * 16 + x) as u8 == 0xF0 + x);
}

/// Drawing a sprite of at most 32 rows twice at the same place gives back
/// the screen as it was.
pub proof fn lemma_draw_twice_restores(s: Seq<u8>, rows: Seq<u8>, x: int, y: int)
    requires
        valid_screen(s),
        rows.len() <= 32,
    ensures
        drawn_sprite(drawn_sprite(s, rows, x, y), rows, x, y) == s,
{
    let d = drawn_sprite(s, rows, x, y);
    assert forall|i: int| 0 <= i < s.len() implies #[trigger] drawn_sprite(d, rows, x, y)[i] == s[i] by {
        if row_offset(i, y) < rows.len() && col_offset(i, x) < 8 {
            let b = bit_of(rows[row_offset(i, y)], col_offset(i, x));
            let a = s[i];
            assert((a ^ b) ^ b == a) by (bit_vector);
        }
    }
    assert(drawn_sprite(d, rows, x, y) =~= s);
}

/// When every pixel a sprite covers is off and the sprite has a set bit,
/// drawing it a second time at the same place reports an erasure.
pub proof fn lemma_second_draw_erases(s: Seq<u8>, rows: Seq<u8>, x: int, y: int)
    requires
        valid_screen(s),
        rows.len() <= 32,
        forall|r: int, k: int|
            0 <= r < rows.len() && 0 <= k < 8 ==> #[trigger] s[pixel_index(x + k, y + r)] == 0,
        exists|r: int, k: int| 0 <= r < rows.len() && 0 <= k < 8 && #[trigger] bit_of(rows[r], k) == 1,
    ensures
        sprite_erases(drawn_sprite(s, rows, x, y), rows, x, y),
{
    let d = drawn_sprite(s, rows, x, y);
    let (r, k) = choose|r: int, k: int| 0 <= r < rows.len() && 0 <= k < 8 && #[trigger] bit_of(rows[r], k) == 1;
    let p = pixel_index(x + k, y + r);
    assert(row_offset(p, y) == r && col_offset(p, x) == k && 0 <= p < 2048);
    assert(s[p] == 0);
    let b = bit_of(rows[r], k);
    assert(0u8 ^ b == b) by (bit_vector);
    assert(d[p] == 1);
    assert(erases_at(d, rows, x, y, r, k));
}

/// Running the same draw instruction `Dxyn` twice in a row, with neither
/// coordinate held in VF, gives back the screen as it was; when the pixels
/// the sprite covers were all off and the sprite has a set bit, the second
/// draw sets VF to 1.
pub proof fn lemma_draw_instruction_twice(s: CpuState, x: u8, y: u8, n: u8)
    requires
        valid_state(s),
        x < 15,
        y < 15,
        n < 16,
        s.pc + 3 < 4096,
        s.i + n <= 4096,
        s.mem[s.pc as int] == 0xD0 + x,
        s.mem[s.pc + 1] == y * 16 + n,
        s.mem[s.pc + 2] == 0xD0 + x,
        s.mem[s.pc + 3] == y * 16 + n,
    ensures
        step(s) is Ok,
        step(step(s)->Ok_0) is Ok,
        step(step(s)->Ok_0)->Ok_0.screen == s.screen,
        ({
            let rows = Seq::new(n as nat, |j: int| s.mem[s.i + j]);
            let cx = s.v[x as int] as int;
            let cy = s.v[y as int] as int;
            (forall|r: int, k: int|
                0 <= r < rows.len() && 0 <= k < 8 ==> #[trigger] s.screen[pixel_index(cx + k, cy + r)] == 0)
                && (exists|r: int, k: int| 0 <= r < rows.len() && 0 <= k < 8 && #[trigger] bit_of(rows[r], k) == 1)
                ==> step(step(s)->Ok_0)->Ok_0.v[15] == 1
        }),
{
    lemma_decode(0xD, x);
    lemma_decode(y, n);
    assert((0xD * 16 + x) as u8 == 0xD0 + x);
    assert((y * 16 + n) as u8 == y * 16 + n);
    let rows = Seq::new(n as nat, |j: int| s.mem[s.i + j]);
    let cx = s.v[x as int] as int;
    let cy = s.v[y as int] as int;
    let t = step(s)->Ok_0;
    assert(t.screen == drawn_sprite(s.screen, rows, cx, cy));
    assert(t.v[x as int] == s.v[x as int] && t.v[y as int] == s.v[y as int]);
    assert(t.mem == s.mem && t.i == s.i);
    let rows_t = Seq::new(n as nat, |j: int| t.mem[t.i + j]);
    assert(rows_t =~= rows);
    lemma_draw_twice_restores(s.screen, rows, cx, cy);
    if (forall|r: int, k: int|
        0 <= r < rows.len() && 0 <= k < 8 ==> #[trigger] s.screen[pixel_index(cx + k, cy + r)] == 0)
        && (exists|r: int, k: int| 0 <= r < rows.len() && 0 <= k < 8 && #[trigger] bit_of(rows[r], k) == 1) {
        lemma_second_draw_erases(s.screen, rows, cx, cy);
    }
}

/// Drawing the same sprite twice at the same place, with neither
/// coordinate held in VF, changes only the screen and VF, and gives back
/// the screen as it was; when the pixels the sprite covers were all off and
/// the sprite has a set bit, the second drawing sets VF to 1.
pub proof fn lemma_draw_twice_in_state(s: CpuState, x: u8, y: u8, n: u8)
    requires
        valid_state(s),
        x < 15,
        y < 15,
        n < 16,
        s.i + n <= 4096,
    ensures
        draw_spec(s, x as int, y as int, n) is Ok,
        draw_spec(draw_spec(s, x as int, y as int, n)->Ok_0, x as int, y as int, n) is Ok,
        ({
            let u = draw_spec(draw_spec(s, x as int, y as int, n)->Ok_0, x as int, y as int, n)->Ok_0;
            u == (CpuState { v: u.v, ..s }) && u.v == s.v.update(15, u.v[15])
        }),
        ({
            let rows = Seq::new(n as nat, |j: int| s.mem[s.i + j]);
            let cx = s.v[x as int] as int;
            let cy = s.v[y as int] as int;
            let u = draw_spec(draw_spec(s, x as int, y as int, n)->Ok_0, x as int, y as int, n)->Ok_0;
            (forall|r: int, k: int|
                0 <= r < rows.len() && 0 <= k < 8 ==> #[trigger] s.screen[pixel_index(cx + k, cy + r)] == 0)
                && (exists|r: int, k: int| 0 <= r < rows.len() && 0 <= k < 8 && #[trigger] bit_of(rows[r], k) == 1)
                ==> u.v[15] == 1
        }),
{
    let rows = Seq::new(n as nat, |j: int| s.mem[s.i + j]);
    let cx = s.v[x as int] as int;
    let cy = s.v[y as int] as int;
    let t = draw_spec(s, x as int, y as int, n)->Ok_0;
    let rows_t = Seq::new(n as nat, |j: int| t.mem[t.i + j]);
    assert(rows_t =~= rows);
    let u = draw_spec(t, x as int, y as int, n)->Ok_0;
    lemma_draw_twice_restores(s.screen, rows, cx, cy);
    assert(u.v =~= s.v.update(15, u.v[15]));
    if (forall|r: int, k: int|
        0 <= r < rows.len() && 0 <= k < 8 ==> #[trigger] s.screen[pixel_index(cx + k, cy + r)] == 0)
        && (exists|r: int, k: int| 0 <= r < rows.len() && 0 <= k < 8 && #[trigger] bit_of(rows[r], k) == 1) {
        lemma_second_draw_erases(s.screen, rows, cx, cy);
    }
}

} // verus!
