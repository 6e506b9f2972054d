use chip8::display::Display;
use chip8::{Chip8Error, ComplementaryMultiplyWithCarryGen, Keyboard, Ram};

#[test]
fn keyboard_starts_released() {
    let kb = Keyboard::new();
    for k in 0..16u8 {
        assert!(!kb.is_key_pressed(k));
    }
}

#[test]
fn keyboard_down_and_up() {
    let mut kb = Keyboard::new();
    kb.key_down(3);
    kb.key_down(15);
    assert!(kb.is_key_pressed(3));
    assert!(kb.is_key_pressed(15));
    assert!(!kb.is_key_pressed(4));
    kb.key_up(3);
    assert!(!kb.is_key_pressed(3));
    assert!(kb.is_key_pressed(15));
}

#[test]
fn ram_last_address_reads_and_writes() {
    let mut ram = Ram::new();
    assert_eq!(ram.write_byte(4095, 0xAB), Ok(()));
    assert_eq!(ram.read_byte(4095), Ok(0xAB));
}

#[test]
fn ram_past_end_is_addressing_fault() {
    let mut ram = Ram::new();
    assert_eq!(ram.read_byte(4096), Err(Chip8Error::AddressingFault { addr: 4096 }));
    assert_eq!(
        ram.write_byte(4096, 1),
        Err(Chip8Error::AddressingFault { addr: 4096 })
    );
    assert_eq!(ram.get_memory(), vec![0u8; 4096]);
}

#[test]
fn display_starts_blank() {
    let d = Display::new();
    assert_eq!(d.get_display_memory(), vec![0u8; 2048]);
}

#[test]
fn display_draw_byte_msb_first() {
    let mut d = Display::new();
    let erased = d.debug_draw_byte(0b1010_0001, 2, 3);
    assert!(!erased);
    let m = d.get_display_memory();
    let row: Vec<u8> = m[3 * 64 + 2..3 * 64 + 10].to_vec();
    assert_eq!(row, vec![1, 0, 1, 0, 0, 0, 0, 1]);
    assert_eq!(m.iter().map(|p| *p as u32).sum::<u32>(), 3);
}

#[test]
fn display_draw_byte_wraps_both_ways() {
    let mut d = Display::new();
    d.debug_draw_byte(0xFF, 60, 33);
    let m = d.get_display_memory();
    for c in [60usize, 61, 62, 63, 0, 1, 2, 3] {
        assert_eq!(m[64 + c], 1);
    }
    assert_eq!(m.iter().map(|p| *p as u32).sum::<u32>(), 8);
}

#[test]
fn display_draw_twice_erases_and_restores() {
    let mut d = Display::new();
    let glyph = [0xF0u8, 0x90, 0x90, 0x90, 0xF0, 0x20, 0x60, 0x70];
    for (r, b) in glyph.iter().enumerate() {
        assert!(!d.debug_draw_byte(*b, 10, 4 + r as u8));
    }
    let mut any = false;
    for (r, b) in glyph.iter().enumerate() {
        if d.debug_draw_byte(*b, 10, 4 + r as u8) {
            any = true;
        }
    }
    assert!(any);
    assert_eq!(d.get_display_memory(), vec![0u8; 2048]);
}

#[test]
fn display_set_pixel_and_clear() {
    let mut d = Display::new();
    d.set_pixel(5, 7, true);
    assert_eq!(Display::get_index_from_coords(5, 7), 7 * 64 + 5);
    assert_eq!(d.get_display_memory()[7 * 64 + 5], 1);
    d.clear();
    assert_eq!(d.get_display_memory(), vec![0u8; 2048]);
}

#[test]
fn generator_first_values() {
    let mut g = ComplementaryMultiplyWithCarryGen::new(1);
    assert_eq!(g.random(), 4294614490);
    assert_eq!(g.c, 1);
    let second = g.random();
    let t: u64 = 4294957665u64 * 4294614490u64 + 1;
    assert_eq!(second as u64, 0xFFFF_FFFF - (t & 0xFFFF_FFFF));
    assert_eq!(g.c as u64, t >> 32);
}
