use vstd::prelude::*;
use crate::display::{bit_of, drawn_sprite, erases_at, pixel_index, row_offset, sprite_erases, valid_screen, Display};
use crate::error::Chip8Error;
use crate::keyboard::Keyboard;
use crate::rand::{cmwc_step, ComplementaryMultiplyWithCarryGen};
use crate::ram::Ram;

verus! {

/// Address of the first instruction of a loaded program.
pub const PROGRAM_START: u16 = 0x200;

/// Largest number of return addresses the call stack holds.
pub const STACK_LIMIT: usize = 16;

/// Largest program that fits between the program start and the end of memory.
pub const MAX_PROGRAM_LEN: usize = 3584;

/// Seed of the generator behind the random-number instruction.
pub const RANDOM_SEED: u32 = 1;

/// The whole machine as mathematical values.
pub struct CpuState {
    pub v: Seq<u8>,
    pub pc: u16,
    pub i: u16,
    pub stack: Seq<u16>,
    pub delay: u8,
    pub sound: u8,
    pub mem: Seq<u8>,
    pub screen: Seq<u8>,
    pub keys: Seq<bool>,
    pub rng: (u32, u32),
}

/// Sizes of the machine's parts, and pixels that are 0 or 1.
pub open spec fn valid_state(s: CpuState) -> bool {
    &&& s.v.len() == 16
    &&& s.stack.len() <= 16
    &&& s.mem.len() == 4096
    &&& valid_screen(s.screen)
    &&& s.keys.len() == 16
}

/// The built-in hexadecimal font: sixteen 5-byte glyphs, digits 0 to F.
pub open spec fn font() -> Seq<u8> {
    seq![
        0xF0u8, 0x90, 0x90, 0x90, 0xF0,
        0x20, 0x60, 0x20, 0x20, 0x70,
        0xF0, 0x10, 0xF0, 0x80, 0xF0,
        0xF0, 0x10, 0xF0, 0x10, 0xF0,
        0x90, 0x90, 0xF0, 0x10, 0x10,
        0xF0, 0x80, 0xF0, 0x10, 0xF0,
        0xF0, 0x80, 0xF0, 0x90, 0xF0,
        0xF0, 0x10, 0x20, 0x40, 0x40,
        0xF0, 0x90, 0xF0, 0x90, 0xF0,
        0xF0, 0x90, 0xF0, 0x10, 0xF0,
        0xF0, 0x90, 0xF0, 0x90, 0x90,
        0xE0, 0x90, 0xE0, 0x90, 0xE0,
        0xF0, 0x80, 0x80, 0x80, 0xF0,
        0xE0, 0x90, 0x90, 0x90, 0xE0,
        0xF0, 0x80, 0xF0, 0x80, 0xF0,
        0xF0, 0x80, 0xF0, 0x80, 0x80,
    ]
}

/// Memory right after loading `program`: the font from address 0, as much
/// of the program as fits from address 0x200 on, zero elsewhere.
pub open spec fn initial_mem(program: Seq<u8>) -> Seq<u8> {
    Seq::new(
        4096,
        |a: int|
            if a < 80 {
                font()[a]
            } else if 0x200 <= a < 0x200 + program.len() {
                program[a - 0x200]
            } else {
                0u8
            },
    )
}

/// The machine right after loading `program`.
pub open spec fn initial_state(program: Seq<u8>) -> CpuState {
    CpuState {
        v: Seq::new(16, |r: int| 0u8),
        pc: 0x200,
        i: 0,
        stack: Seq::empty(),
        delay: 0,
        sound: 0,
        mem: initial_mem(program),
        screen: Seq::new(2048, |p: int| 0u8),
        keys: Seq::new(16, |k: int| false),
        rng: (1, 362436),
    }
}

/// The 16-bit instruction word made of the bytes `hi` and `lo`.
pub open spec fn instruction_word(hi: u8, lo: u8) -> u16 {
    (hi * 256 + lo) as u16
}

/// `s` with the program counter moved on by `k` bytes.
pub open spec fn advance(s: CpuState, k: int) -> CpuState {
    CpuState { pc: (s.pc + k) as u16, ..s }
}

/// `s` moved on past the next instruction when `cond` holds, to it otherwise.
pub open spec fn skip_if(s: CpuState, cond: bool) -> CpuState {
    advance(s, if cond { 4 } else { 2 })
}

/// `s` with register `x` set to `val`.
pub open spec fn set_reg(s: CpuState, x: int, val: u8) -> CpuState {
    CpuState { v: s.v.update(x, val), ..s }
}

/// The fault for an instruction word that names no instruction.
pub open spec fn unknown(s: CpuState, hi: u8, lo: u8) -> Result<CpuState, Chip8Error> {
    Err(Chip8Error::UnknownOpcode { pc: s.pc, instruction: instruction_word(hi, lo) })
}

/// The fault for an access that runs from address `start` past the end of memory.
pub open spec fn overrun(start: int) -> Chip8Error {
    Chip8Error::AddressingFault { addr: (if start >= 4096 { start } else { 4096 }) as usize }
}

/// The lowest code from `from` on of a held key, or the number of keys if none is held.
pub open spec fn first_pressed(keys: Seq<bool>, from: int) -> int
    decreases keys.len() - from,
{
    if from < 0 || from >= keys.len() {
        keys.len() as int
    } else if keys[from] {
        from
    } else {
        first_pressed(keys, from + 1)
    }
}

/// Instructions of family 0: clear the screen, return from a subroutine.
pub open spec fn sys_spec(s: CpuState, hi: u8, lo: u8) -> Result<CpuState, Chip8Error> {
    if hi == 0 && lo == 0xE0 {
        Ok(advance(CpuState { screen: Seq::new(2048, |p: int| 0u8), ..s }, 2))
    } else if hi == 0 && lo == 0xEE {
        if s.stack.len() == 0 {
            Err(Chip8Error::StackUnderflow)
        } else {
            Ok(CpuState { pc: s.stack.last(), stack: s.stack.drop_last(), ..s })
        }
    } else {
        unknown(s, hi, lo)
    }
}

/// Register file after an arithmetic instruction `8xyn`, or `None` for an unknown `n`.
pub open spec fn alu_regs(v: Seq<u8>, x: int, y: int, n: u8) -> Option<Seq<u8>> {
    let vx = v[x];
    let vy = v[y];
    if n == 0 {
        Some(v.update(x, vy))
    } else if n == 2 {
        Some(v.update(x, vx & vy))
    } else if n == 3 {
        Some(v.update(x, vx ^ vy))
    } else if n == 4 {
        Some(v.update(15, if vx + vy > 255 { 1u8 } else { 0u8 }).update(x, ((vx + vy) % 256) as u8))
    } else if n == 5 {
        Some(v.update(15, if vx > vy { 1u8 } else { 0u8 }).update(x, ((vx - vy + 256) % 256) as u8))
    } else if n == 6 {
        Some(v.update(15, vx & 1u8).update(x, vx >> 1u8))
    } else if n == 7 {
        Some(v.update(15, if vy > vx { 1u8 } else { 0u8 }).update(x, ((vy - vx + 256) % 256) as u8))
    } else if n == 0xE {
        Some(v.update(15, (vx & 0x80u8) >> 7u8).update(x, ((vx * 2) % 256) as u8))
    } else {
        None
    }
}

/// The sprite drawing of `Dxyn`: the `n` rows stored from `I` on are drawn
/// at (Vx, Vy) and VF tells whether a lit pixel went off. Only the screen
/// and VF change; moving the program counter on is left to the instruction.
pub open spec fn draw_spec(s: CpuState, x: int, y: int, n: u8) -> Result<CpuState, Chip8Error> {
    if n > 0 && s.i + n > 4096 {
        Err(overrun(s.i as int))
    } else {
        let rows = Seq::new(n as nat, |j: int| s.mem[s.i + j]);
        Ok(
            CpuState {
                screen: drawn_sprite(s.screen, rows, s.v[x] as int, s.v[y] as int),
                v: s.v.update(
                    15,
                    if sprite_erases(s.screen, rows, s.v[x] as int, s.v[y] as int) {
                        1u8
                    } else {
                        0u8
                    },
                ),
                ..s
            },
        )
    }
}

/// Instructions of family F: timers, keys, the index register and memory
/// transfers. `I` is not masked to 12 bits: `Fx1E` wraps it at 16 bits,
/// and `Fx55`/`Fx65` move it past the bytes they moved. An `I` beyond the
/// end of memory is no fault by itself; an access through it is one.
pub open spec fn misc_spec(s: CpuState, hi: u8, lo: u8) -> Result<CpuState, Chip8Error> {
    let x = (hi & 0x0Fu8) as int;
    let vx = s.v[x];
    if lo == 0x07 {
        Ok(advance(set_reg(s, x, s.delay), 2))
    } else if lo == 0x0A {
        let k = first_pressed(s.keys, 0);
        if k < 16 {
            Ok(advance(set_reg(s, x, k as u8), 2))
        } else {
            Ok(s)
        }
    } else if lo == 0x15 {
        Ok(advance(CpuState { delay: vx, ..s }, 2))
    } else if lo == 0x18 {
        Ok(advance(CpuState { sound: vx, ..s }, 2))
    } else if lo == 0x1E {
        Ok(advance(CpuState { i: ((s.i + vx) % 65536) as u16, ..s }, 2))
    } else if lo == 0x29 {
        Ok(advance(CpuState { i: (vx * 5) as u16, ..s }, 2))
    } else if lo == 0x33 {
        if s.i + 3 > 4096 {
            Err(overrun(s.i as int))
        } else {
            Ok(
                advance(
                    CpuState {
                        mem: s.mem.update(s.i as int, (vx / 100) as u8).update(
                            s.i + 1,
                            ((vx % 100) / 10) as u8,
                        ).update(s.i + 2, (vx % 10) as u8),
                        ..s
                    },
                    2,
                ),
            )
        }
    } else if lo == 0x55 {
        if s.i + x + 1 > 4096 {
            Err(overrun(s.i as int))
        } else {
            Ok(
                advance(
                    CpuState {
                        mem: Seq::new(
                            4096,
                            |a: int|
                                if s.i <= a <= s.i + x {
                                    s.v[a - s.i]
                                } else {
                                    s.mem[a]
                                },
                        ),
                        i: (s.i + x + 1) as u16,
                        ..s
                    },
                    2,
                ),
            )
        }
    } else if lo == 0x65 {
        if s.i + x + 1 > 4096 {
            Err(overrun(s.i as int))
        } else {
            Ok(
                advance(
                    CpuState {
                        v: Seq::new(16, |r: int| if r <= x { s.mem[s.i + r] } else { s.v[r] }),
                        i: (s.i + x + 1) as u16,
                        ..s
                    },
                    2,
                ),
            )
        }
    } else {
        unknown(s, hi, lo)
    }
}

/// The effect of the instruction made of bytes `hi` and `lo` on `s`.
pub open spec fn execute(s: CpuState, hi: u8, lo: u8) -> Result<CpuState, Chip8Error> {
    let f = hi >> 4u8;
    let x = (hi & 0x0Fu8) as int;
    let y = (lo >> 4u8) as int;
    let n = lo & 0x0Fu8;
    let nnn = (hi & 0x0Fu8) * 256 + lo;
    if f == 0 {
        sys_spec(s, hi, lo)
    } else if f == 1 {
        Ok(CpuState { pc: nnn as u16, ..s })
    } else if f == 2 {
        if s.stack.len() >= 16 {
            Err(Chip8Error::StackOverflow)
        } else {
            Ok(CpuState { stack: s.stack.push((s.pc + 2) as u16), pc: nnn as u16, ..s })
        }
    } else if f == 3 {
        Ok(skip_if(s, s.v[x] == lo))
    } else if f == 4 {
        Ok(skip_if(s, s.v[x] != lo))
    } else if f == 5 {
        if n == 0 {
            Ok(skip_if(s, s.v[x] == s.v[y]))
        } else {
            unknown(s, hi, lo)
        }
    } else if f == 6 {
        Ok(advance(set_reg(s, x, lo), 2))
    } else if f == 7 {
        Ok(advance(set_reg(s, x, ((s.v[x] + lo) % 256) as u8), 2))
    } else if f == 8 {
        match alu_regs(s.v, x, y, n) {
            Some(v) => Ok(advance(CpuState { v, ..s }, 2)),
            None => unknown(s, hi, lo),
        }
    } else if f == 9 {
        if n == 0 {
            Ok(skip_if(s, s.v[x] != s.v[y]))
        } else {
            unknown(s, hi, lo)
        }
    } else if f == 0xA {
        Ok(advance(CpuState { i: nnn as u16, ..s }, 2))
    } else if f == 0xB {
        Ok(CpuState { pc: (s.v[0] + nnn) as u16, ..s })
    } else if f == 0xC {
        let next = cmwc_step(s.rng.0, s.rng.1);
        Ok(advance(CpuState { rng: next, v: s.v.update(x, (next.0 as u8) & lo), ..s }, 2))
    } else if f == 0xD {
        match draw_spec(s, x, y, n) {
            Ok(t) => Ok(advance(t, 2)),
            Err(e) => Err(e),
        }
    } else if f == 0xE {
        if lo == 0x9E {
            if s.v[x] >= 16 {
                Err(Chip8Error::KeyOutOfRange { pc: s.pc, key: s.v[x] })
            } else {
                Ok(skip_if(s, s.keys[s.v[x] as int]))
            }
        } else if lo == 0xA1 {
            if s.v[x] >= 16 {
                Err(Chip8Error::KeyOutOfRange { pc: s.pc, key: s.v[x] })
            } else {
                Ok(skip_if(s, !s.keys[s.v[x] as int]))
            }
        } else {
            unknown(s, hi, lo)
        }
    } else {
        misc_spec(s, hi, lo)
    }
}

/// One fetch-decode-execute step: read the big-endian instruction word at
/// the program counter and apply it.
pub open spec fn step(s: CpuState) -> Result<CpuState, Chip8Error> {
    if s.pc + 1 >= 4096 {
        Err(Chip8Error::AddressingFault { addr: (if s.pc >= 4096 { s.pc as int } else { s.pc + 1 }) as usize })
    } else {
        execute(s, s.mem[s.pc as int], s.mem[s.pc + 1])
    }
}

/// The machine after one timer tick: both timers count down, stopping at zero.
pub open spec fn ticked(s: CpuState) -> CpuState {
    CpuState {
        delay: if s.delay > 0 { (s.delay - 1) as u8 } else { 0 },
        sound: if s.sound > 0 { (s.sound - 1) as u8 } else { 0 },
        ..s
    }
}

/// What a call that can fail owes: on success the machine went from
/// `before` to the state `expected` holds, on failure it returned that
/// error and left the machine as it was.
pub open spec fn follows(
    r: Result<(), Chip8Error>,
    before: CpuState,
    after: CpuState,
    expected: Result<CpuState, Chip8Error>,
) -> bool {
    match expected {
        Ok(t) => r is Ok && after == t,
        Err(e) => r == Err::<(), Chip8Error>(e) && after == before,
    }
}

/// Bounds of the instruction fields.
proof fn lemma_fields(hi: u8, lo: u8)
    ensures
        hi >> 4u8 <= 15,
        hi & 0x0Fu8 <= 15,
        lo >> 4u8 <= 15,
        lo & 0x0Fu8 <= 15,
{
    assert(hi >> 4u8 <= 15 && hi & 0x0Fu8 <= 15 && lo >> 4u8 <= 15 && lo & 0x0Fu8 <= 15)
        by (bit_vector);
}

/// Drawing the sprite one row at a time: row `r` drawn on the screen that
/// already shows rows `0..r` gives the screen showing rows `0..r + 1`, and
/// the erasures add up the same way.
proof fn lemma_draw_step(s: Seq<u8>, rows: Seq<u8>, x: int, y: int, r: int)
    requires
        valid_screen(s),
        0 <= r < rows.len() <= 15,
        0 <= x < 256,
        0 <= y < 256,
    ensures
        drawn_sprite(drawn_sprite(s, rows.take(r), x, y), seq![rows[r]], x, (y + r) % 256)
            == drawn_sprite(s, rows.take(r + 1), x, y),
        sprite_erases(s, rows.take(r + 1), x, y) == (sprite_erases(s, rows.take(r), x, y)
            || sprite_erases(drawn_sprite(s, rows.take(r), x, y), seq![rows[r]], x, (y + r) % 256)),
{
    let d = drawn_sprite(s, rows.take(r), x, y);
    let yr = (y + r) % 256;
    assert forall|i: int| 0 <= i < 2048 implies (row_offset(i, yr) < 1) == (row_offset(i, y) == r) by {}
    assert(drawn_sprite(d, seq![rows[r]], x, yr) =~= drawn_sprite(s, rows.take(r + 1), x, y));
    assert forall|k: int| 0 <= k < 8 implies #[trigger] pixel_index(x + k, yr + 0) == pixel_index(x + k, y + r)
        && row_offset(pixel_index(x + k, y + r), y) == r
        && 0 <= pixel_index(x + k, y + r) < 2048
        && d[pixel_index(x + k, y + r)] == s[pixel_index(x + k, y + r)] by {}
    if sprite_erases(s, rows.take(r + 1), x, y) {
        let (rr, k) = choose|rr: int, k: int| #[trigger] erases_at(s, rows.take(r + 1), x, y, rr, k);
        if rr < r {
            assert(rows.take(r)[rr] == rows[rr]);
            assert(erases_at(s, rows.take(r), x, y, rr, k));
        } else {
            assert(seq![rows[r]][0] == rows[r]);
            assert(erases_at(d, seq![rows[r]], x, yr, 0, k));
        }
    }
    if sprite_erases(s, rows.take(r), x, y) {
        let (rr, k) = choose|rr: int, k: int| #[trigger] erases_at(s, rows.take(r), x, y, rr, k);
        assert(rows.take(r + 1)[rr] == rows[rr]);
        assert(erases_at(s, rows.take(r + 1), x, y, rr, k));
    }
    if sprite_erases(d, seq![rows[r]], x, yr) {
        let (rr, k) = choose|rr: int, k: int| #[trigger] erases_at(d, seq![rows[r]], x, yr, rr, k);
        assert(rr == 0);
        assert(rows.take(r + 1)[r] == rows[r]);
        assert(erases_at(s, rows.take(r + 1), x, y, r, k));
    }
}

/// The lowest code of a held key, or 16 if none is held.
fn first_pressed_key(kb: &Keyboard) -> (r: u8)
    ensures
        r == first_pressed(kb@, 0),
{
    let mut k: u8 = 0;
    while k < 16 && !kb.is_key_pressed(k)
        invariant
            0 <= k <= 16,
            kb@.len() == 16,
            first_pressed(kb@, 0) == first_pressed(kb@, k as int),
        decreases 16 - k,
    {
        k = k + 1;
    }
    k
}

/// The interpreter: registers, timers, call stack, random generator, and
/// the memory, framebuffer and keypad it works on.
pub struct Cpu {
    vx: [u8; 16],
    pc: u16,
    i: u16,
    ret_stack: Vec<u16>,
    rand: ComplementaryMultiplyWithCarryGen,
    ram: Ram,
    display: Display,
    keyboard: Keyboard,
    delay_timer: u8,
    sound_timer: u8,
}

impl View for Cpu {
    type V = CpuState;

    closed spec fn view(&self) -> CpuState {
        CpuState {
            v: self.vx@,
            pc: self.pc,
            i: self.i,
            stack: self.ret_stack@,
            delay: self.delay_timer,
            sound: self.sound_timer,
            mem: self.ram@,
            screen: self.display@,
            keys: self.keyboard@,
            rng: (self.rand.x, self.rand.c),
        }
    }
}

/// The font as bytes, glyph after glyph.
fn font_bytes() -> (r: Vec<u8>)
    ensures
        r@ == font(),
{
    let r: Vec<u8> = vec![
        0xF0u8, 0x90, 0x90, 0x90, 0xF0,
        0x20, 0x60, 0x20, 0x20, 0x70,
        0xF0, 0x10, 0xF0, 0x80, 0xF0,
        0xF0, 0x10, 0xF0, 0x10, 0xF0,
        0x90, 0x90, 0xF0, 0x10, 0x10,
        0xF0, 0x80, 0xF0, 0x10, 0xF0,
        0xF0, 0x80, 0xF0, 0x90, 0xF0,
        0xF0, 0x10, 0x20, 0x40, 0x40,
        0xF0, 0x90, 0xF0, 0x90, 0xF0,
        0xF0, 0x90, 0xF0, 0x10, 0xF0,
        0xF0, 0x90, 0xF0, 0x90, 0x90,
        0xE0, 0x90, 0xE0, 0x90, 0xE0,
        0xF0, 0x80, 0x80, 0x80, 0xF0,
        0xE0, 0x90, 0x90, 0x90, 0xE0,
        0xF0, 0x80, 0xF0, 0x80, 0xF0,
        0xF0, 0x80, 0xF0, 0x80, 0x80,
    ];
    assert(r@ =~= font());
    r
}

impl Cpu {
    /// The parts of the machine have their sizes and the pixels are 0 or 1.
    pub open spec fn wf(&self) -> bool {
        valid_state(self@)
    }

    /// A machine with `data` loaded at 0x200 (truncated to the 3584 bytes
    /// that fit), the font at 0, and everything else reset.
    pub fn new(data: &[u8]) -> (r: Cpu)
        ensures
            r.wf(),
            r@ == initial_state(
                if data@.len() <= 3584 { data@ } else { data@.subrange(0, 3584) },
            ),
    {
        let ghost program = if data@.len() <= 3584 { data@ } else { data@.subrange(0, 3584) };
        let mut ram = Ram::new();
        let glyphs = font_bytes();
        let mut k: usize = 0;
        while k < 80
            invariant
                0 <= k <= 80,
                glyphs@ == font(),
                ram.wf(),
                forall|a: int|
                    0 <= a < 4096 ==> #[trigger] ram@[a] == if a < k {
                        font()[a]
                    } else {
                        0u8
                    },
            decreases 80 - k,
        {
            let _ = ram.write_byte(k, glyphs[k]);
            k = k + 1;
        }
        let len: usize = if data.len() <= MAX_PROGRAM_LEN { data.len() } else { MAX_PROGRAM_LEN };
        let mut p: usize = 0;
        while p < len
            invariant
                0 <= p <= len,
                len == program.len(),
                len <= data@.len(),
                len <= 3584,
                forall|j: int| 0 <= j < len ==> program[j] == data@[j],
                ram.wf(),
                forall|a: int|
                    0 <= a < 4096 ==> #[trigger] ram@[a] == if a < 80 {
                        font()[a]
                    } else if 0x200 <= a < 0x200 + p {
                        program[a - 0x200]
                    } else {
                        0u8
                    },
            decreases len - p,
        {
            let _ = ram.write_byte(0x200 + p, data[p]);
            p = p + 1;
        }
        let r = Cpu {
            vx: [0u8; 16],
            pc: PROGRAM_START,
            i: 0,
            ret_stack: Vec::new(),
            rand: ComplementaryMultiplyWithCarryGen::new(RANDOM_SEED),
            ram,
            display: Display::new(),
            keyboard: Keyboard::new(),
            delay_timer: 0,
            sound_timer: 0,
        };
        assert(r@.mem =~= initial_mem(program));
        assert(r@.v =~= Seq::new(16, |j: int| 0u8));
        assert(r@.stack =~= Seq::<u16>::empty());
        r
    }

    /// A machine with no program loaded: the font at 0 and everything else reset.
    pub fn cpu_refresh() -> (r: Cpu)
        ensures
            r.wf(),
            r@ == initial_state(Seq::empty()),
    {
        let empty: Vec<u8> = Vec::new();
        let r = Cpu::new(empty.as_slice());
        assert(empty@ =~= Seq::<u8>::empty());
        r
    }

    /// Releases the key with code `key`.
    pub fn key_up(&mut self, key: u8)
        requires
            old(self).wf(),
            key < 16,
        ensures
            final(self).wf(),
            final(self)@ == (CpuState { keys: old(self)@.keys.update(key as int, false), ..old(self)@ }),
    {
        self.keyboard.key_up(key);
    }

    /// Presses the key with code `key`.
    pub fn key_down(&mut self, key: u8)
        requires
            old(self).wf(),
            key < 16,
        ensures
            final(self).wf(),
            final(self)@ == (CpuState { keys: old(self)@.keys.update(key as int, true), ..old(self)@ }),
    {
        self.keyboard.key_down(key);
    }

    /// The framebuffer's pixels, row-major, one byte (0 or 1) each.
    pub fn get_display_memory(&self) -> (r: Vec<u8>)
        ensures
            r@ == self@.screen,
    {
        self.display.get_display_memory()
    }

    /// The whole memory image.
    pub fn get_memory(&self) -> (r: Vec<u8>)
        ensures
            r@ == self@.mem,
    {
        self.ram.get_memory()
    }

    /// One timer tick: the delay and sound timers each count down by one,
    /// stopping at zero.
    pub fn tick(&mut self)
        requires
            old(self).wf(),
        ensures
            final(self).wf(),
            final(self)@ == ticked(old(self)@),
    {
        if self.sound_timer > 0 {
            self.sound_timer = self.sound_timer - 1;
        }
        if self.delay_timer > 0 {
            self.delay_timer = self.delay_timer - 1;
        }
    }

    /// Sets register V`index` to `value`.
    pub fn write_reg_vx(&mut self, index: u8, value: u8)
        requires
            old(self).wf(),
            index < 16,
        ensures
            final(self).wf(),
            final(self)@ == set_reg(old(self)@, index as int, value),
    {
        self.vx.set(index as usize, value);
    }

    /// The value of register V`index`.
    pub fn read_reg_vx(&self, index: u8) -> (r: u8)
        requires
            self.wf(),
            index < 16,
        ensures
            r == self@.v[index as int],
    {
        self.vx[index as usize]
    }

    /// The program counter.
    pub fn get_pc(&self) -> (r: u16)
        ensures
            r == self@.pc,
    {
        self.pc
    }

    /// The index register `I`.
    pub fn get_i(&self) -> (r: u16)
        ensures
            r == self@.i,
    {
        self.i
    }

    /// Instructions of family 0: clear the screen, return from a subroutine.
    fn exec_sys(&mut self, hi: u8, lo: u8) -> (r: Result<(), Chip8Error>)
        requires
            old(self).wf(),
            old(self)@.pc < 4095,
            hi >> 4u8 == 0,
        ensures
            final(self).wf(),
            follows(r, old(self)@, final(self)@, execute(old(self)@, hi, lo)),
    {
        if hi == 0 && lo == 0xE0 {
            self.display.clear();
            self.pc = self.pc + 2;
            Ok(())
        } else if hi == 0 && lo == 0xEE {
            match self.ret_stack.pop() {
                Some(addr) => {
                    self.pc = addr;
                    Ok(())
                },
                None => Err(Chip8Error::StackUnderflow),
            }
        } else {
            Err(Chip8Error::UnknownOpcode { pc: self.pc, instruction: hi as u16 * 256 + lo as u16 })
        }
    }

    /// Instructions of family 8: register-to-register arithmetic.
    fn exec_alu(&mut self, hi: u8, lo: u8) -> (r: Result<(), Chip8Error>)
        requires
            old(self).wf(),
            old(self)@.pc < 4095,
            hi >> 4u8 == 8,
        ensures
            final(self).wf(),
            follows(r, old(self)@, final(self)@, execute(old(self)@, hi, lo)),
    {
        proof {
            lemma_fields(hi, lo);
        }
        let x = hi & 0x0F;
        let y = lo >> 4;
        let n = lo & 0x0F;
        let vx = self.read_reg_vx(x);
        let vy = self.read_reg_vx(y);
        if n == 0 {
            self.write_reg_vx(x, vy);
        } else if n == 2 {
            self.write_reg_vx(x, vx & vy);
        } else if n == 3 {
            self.write_reg_vx(x, vx ^ vy);
        } else if n == 4 {
            let sum: u16 = vx as u16 + vy as u16;
            self.write_reg_vx(0xF, if sum > 255 { 1 } else { 0 });
            self.write_reg_vx(x, (sum % 256) as u8);
        } else if n == 5 {
            self.write_reg_vx(0xF, if vx > vy { 1 } else { 0 });
            self.write_reg_vx(x, ((vx as u16 + 256 - vy as u16) % 256) as u8);
        } else if n == 6 {
            self.write_reg_vx(0xF, vx & 1);
            self.write_reg_vx(x, vx >> 1);
        } else if n == 7 {
            self.write_reg_vx(0xF, if vy > vx { 1 } else { 0 });
            self.write_reg_vx(x, ((vy as u16 + 256 - vx as u16) % 256) as u8);
        } else if n == 0xE {
            self.write_reg_vx(0xF, (vx & 0x80) >> 7);
            self.write_reg_vx(x, ((vx as u16 * 2) % 256) as u8);
        } else {
            return Err(
                Chip8Error::UnknownOpcode { pc: self.pc, instruction: hi as u16 * 256 + lo as u16 },
            );
        }
        self.pc = self.pc + 2;
        Ok(())
    }

    /// The drawing of `Dxyn`: reads the `height` sprite rows at `I`, draws
    /// them at (V`xr`, V`yr`) and sets VF to whether some lit pixel went off.
    /// Nothing else changes, the program counter included.
    fn debug_draw_sprite(&mut self, xr: u8, yr: u8, height: u8) -> (r: Result<(), Chip8Error>)
        requires
            old(self).wf(),
            xr < 16,
            yr < 16,
            height < 16,
        ensures
            final(self).wf(),
            follows(r, old(self)@, final(self)@, draw_spec(old(self)@, xr as int, yr as int, height)),
    {
        let ghost s = self@;
        let x = self.read_reg_vx(xr);
        let y = self.read_reg_vx(yr);
        let base = self.i as usize;
        let mut rows: Vec<u8> = Vec::new();
        let mut r: u8 = 0;
        while r < height
            invariant
                0 <= r <= height,
                height <= 15,
                s == old(self)@,
                self@ == s,
                self.wf(),
                base == s.i,
                valid_state(s),
                rows@.len() == r,
                forall|j: int| 0 <= j < r ==> base + j < 4096 && #[trigger] rows@[j] == s.mem[base + j],
            decreases height - r,
        {
            match self.ram.read_byte(base + r as usize) {
                Ok(b) => rows.push(b),
                Err(e) => {
                    proof {
                        if r > 0 {
                            assert(rows@[r - 1] == s.mem[base + r - 1]);
                        }
                    }
                    return Err(e);
                },
            }
            r = r + 1;
        }
        let ghost all = rows@;
        assert(all =~= Seq::new(height as nat, |j: int| s.mem[s.i + j]));
        if height > 0 {
            assert(rows@[height - 1] == s.mem[base + height - 1]);
        }
        let mut erased = false;
        let mut r: u8 = 0;
        while r < height
            invariant
                0 <= r <= height,
                height <= 15,
                s == old(self)@,
                xr < 16,
                yr < 16,
                height > 0 ==> s.i + height <= 4096,
                x == s.v[xr as int],
                y == s.v[yr as int],
                all.len() == height,
                rows@ == all,
                valid_state(s),
                self.wf(),
                self@ == (CpuState { screen: self@.screen, ..s }),
                self@.screen == drawn_sprite(s.screen, all.take(r as int), x as int, y as int),
                erased == sprite_erases(s.screen, all.take(r as int), x as int, y as int),
            decreases height - r,
        {
            proof {
                lemma_draw_step(s.screen, all, x as int, y as int, r as int);
            }
            let row_y: u8 = ((y as u16 + r as u16) % 256) as u8;
            if self.display.debug_draw_byte(rows[r as usize], x, row_y) {
                erased = true;
            }
            r = r + 1;
        }
        assert(all.take(height as int) =~= all);
        self.write_reg_vx(0xF, if erased { 1 } else { 0 });
        proof {
            let rows = Seq::new(height as nat, |j: int| s.mem[s.i + j]);
            assert(all == rows);
            assert(self@.screen == drawn_sprite(s.screen, rows, x as int, y as int));
            assert(erased == sprite_erases(s.screen, rows, x as int, y as int));
            assert(self@.v == s.v.update(15, if erased { 1u8 } else { 0u8 }));
        }
        Ok(())
    }

    /// Instructions of family E: skip on the state of the key named by Vx.
    fn exec_keys(&mut self, hi: u8, lo: u8) -> (r: Result<(), Chip8Error>)
        requires
            old(self).wf(),
            old(self)@.pc < 4095,
            hi >> 4u8 == 0xE,
        ensures
            final(self).wf(),
            follows(r, old(self)@, final(self)@, execute(old(self)@, hi, lo)),
    {
        proof {
            lemma_fields(hi, lo);
        }
        let key = self.read_reg_vx(hi & 0x0F);
        if (lo == 0x9E || lo == 0xA1) && key >= 16 {
            return Err(Chip8Error::KeyOutOfRange { pc: self.pc, key });
        }
        let held = key < 16 && self.keyboard.is_key_pressed(key);
        if lo == 0x9E {
            self.pc = if held { self.pc + 4 } else { self.pc + 2 };
            Ok(())
        } else if lo == 0xA1 {
            self.pc = if !held { self.pc + 4 } else { self.pc + 2 };
            Ok(())
        } else {
            Err(Chip8Error::UnknownOpcode { pc: self.pc, instruction: hi as u16 * 256 + lo as u16 })
        }
    }

    /// Instructions of family F: timers, keys, the index register and
    /// memory transfers.
    fn exec_misc(&mut self, hi: u8, lo: u8) -> (r: Result<(), Chip8Error>)
        requires
            old(self).wf(),
            old(self)@.pc < 4095,
            hi >> 4u8 == 0xF,
        ensures
            final(self).wf(),
            follows(r, old(self)@, final(self)@, execute(old(self)@, hi, lo)),
    {
        proof {
            lemma_fields(hi, lo);
        }
        let ghost s = self@;
        let x = hi & 0x0F;
        let vx = self.read_reg_vx(x);
        if lo == 0x07 {
            self.write_reg_vx(x, self.delay_timer);
        } else if lo == 0x0A {
            let k = first_pressed_key(&self.keyboard);
            if k < 16 {
                self.write_reg_vx(x, k);
            } else {
                return Ok(());
            }
        } else if lo == 0x15 {
            self.delay_timer = vx;
        } else if lo == 0x18 {
            self.sound_timer = vx;
        } else if lo == 0x1E {
            self.i = ((self.i as u32 + vx as u32) % 65536) as u16;
        } else if lo == 0x29 {
            self.i = vx as u16 * 5;
        } else if lo == 0x33 {
            let base = self.i as usize;
            if base + 3 > 4096 {
                return Err(
                    Chip8Error::AddressingFault { addr: if base >= 4096 { base } else { 4096 } },
                );
            }
            let _ = self.ram.write_byte(base, vx / 100);
            let _ = self.ram.write_byte(base + 1, (vx % 100) / 10);
            let _ = self.ram.write_byte(base + 2, vx % 10);
        } else if lo == 0x55 {
            let base = self.i as usize;
            if base + x as usize + 1 > 4096 {
                return Err(
                    Chip8Error::AddressingFault { addr: if base >= 4096 { base } else { 4096 } },
                );
            }
            let mut k: u8 = 0;
            while k <= x
                invariant
                    0 <= k <= x + 1,
                    x <= 15,
                    base == s.i,
                    base + x + 1 <= 4096,
                    self.wf(),
                    self@ == (CpuState { mem: self@.mem, ..s }),
                    forall|a: int|
                        0 <= a < 4096 ==> #[trigger] self@.mem[a] == if base <= a < base + k {
                            s.v[a - base]
                        } else {
                            s.mem[a]
                        },
                decreases x + 1 - k,
            {
                let value = self.read_reg_vx(k);
                let _ = self.ram.write_byte(base + k as usize, value);
                k = k + 1;
            }
            self.i = (base + x as usize + 1) as u16;
            proof {
                let t = Seq::new(
                    4096,
                    |a: int| if s.i <= a <= s.i + x { s.v[a - s.i] } else { s.mem[a] },
                );
                assert(self@.mem =~= t);
            }
        } else if lo == 0x65 {
            let base = self.i as usize;
            if base + x as usize + 1 > 4096 {
                return Err(
                    Chip8Error::AddressingFault { addr: if base >= 4096 { base } else { 4096 } },
                );
            }
            let mut k: u8 = 0;
            while k <= x
                invariant
                    0 <= k <= x + 1,
                    x <= 15,
                    base == s.i,
                    base + x + 1 <= 4096,
                    self.wf(),
                    self@ == (CpuState { v: self@.v, ..s }),
                    forall|r: int|
                        0 <= r < 16 ==> #[trigger] self@.v[r] == if r < k {
                            s.mem[base + r]
                        } else {
                            s.v[r]
                        },
                decreases x + 1 - k,
            {
                let value = match self.ram.read_byte(base + k as usize) {
                    Ok(b) => b,
                    Err(e) => {
                        return Err(e);
                    },
                };
                self.write_reg_vx(k, value);
                k = k + 1;
            }
            self.i = (base + x as usize + 1) as u16;
            proof {
                let t = Seq::new(16, |r: int| if r <= x { s.mem[s.i + r] } else { s.v[r] });
                assert(self@.v =~= t);
            }
        } else {
            return Err(
                Chip8Error::UnknownOpcode { pc: self.pc, instruction: hi as u16 * 256 + lo as u16 },
            );
        }
        self.pc = self.pc + 2;
        Ok(())
    }

    /// Fetches the big-endian instruction word at the program counter,
    /// decodes it and executes it. On a fault the machine is left as it was.
    pub fn run_instruction(&mut self) -> (r: Result<(), Chip8Error>)
        requires
            old(self).wf(),
        ensures
            final(self).wf(),
            follows(r, old(self)@, final(self)@, step(old(self)@)),
    {
        let hi = match self.ram.read_byte(self.pc as usize) {
            Ok(b) => b,
            Err(e) => {
                return Err(e);
            },
        };
        let lo = match self.ram.read_byte(self.pc as usize + 1) {
            Ok(b) => b,
            Err(e) => {
                return Err(e);
            },
        };
        proof {
            lemma_fields(hi, lo);
        }
        let family = hi >> 4;
        let x = hi & 0x0F;
        let y = lo >> 4;
        let n = lo & 0x0F;
        let nnn: u16 = x as u16 * 256 + lo as u16;
        if family == 0 {
            self.exec_sys(hi, lo)
        } else if family == 1 {
            self.pc = nnn;
            Ok(())
        } else if family == 2 {
            if self.ret_stack.len() >= STACK_LIMIT {
                Err(Chip8Error::StackOverflow)
            } else {
                self.ret_stack.push(self.pc + 2);
                self.pc = nnn;
                Ok(())
            }
        } else if family == 3 || family == 4 || family == 5 || family == 9 {
            if (family == 5 || family == 9) && n != 0 {
                return Err(
                    Chip8Error::UnknownOpcode { pc: self.pc, instruction: hi as u16 * 256 + lo as u16 },
                );
            }
            let vx = self.read_reg_vx(x);
            let operand = if family == 3 || family == 4 { lo } else { self.read_reg_vx(y) };
            let equal = vx == operand;
            let skip = if family == 3 || family == 5 { equal } else { !equal };
            self.pc = if skip { self.pc + 4 } else { self.pc + 2 };
            Ok(())
        } else if family == 6 {
            self.write_reg_vx(x, lo);
            self.pc = self.pc + 2;
            Ok(())
        } else if family == 7 {
            let vx = self.read_reg_vx(x);
            self.write_reg_vx(x, ((vx as u16 + lo as u16) % 256) as u8);
            self.pc = self.pc + 2;
            Ok(())
        } else if family == 8 {
            self.exec_alu(hi, lo)
        } else if family == 0xA {
            self.i = nnn;
            self.pc = self.pc + 2;
            Ok(())
        } else if family == 0xB {
            self.pc = self.read_reg_vx(0) as u16 + nnn;
            Ok(())
        } else if family == 0xC {
            let number = self.rand.random() as u8;
            self.write_reg_vx(x, number & lo);
            self.pc = self.pc + 2;
            Ok(())
        } else if family == 0xD {
            match self.debug_draw_sprite(x, y, n) {
                Ok(()) => {
                    self.pc = self.pc + 2;
                    Ok(())
                },
                Err(e) => Err(e),
            }
        } else if family == 0xE {
            self.exec_keys(hi, lo)
        } else {
            self.exec_misc(hi, lo)
        }
    }
}

} // verus!
