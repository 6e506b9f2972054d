use chip8::{Chip8Error, Cpu};

fn run(program: &[u8], steps: usize) -> Cpu {
    let mut cpu = Cpu::new(program);
    for _ in 0..steps {
        cpu.run_instruction().unwrap();
    }
    cpu
}

#[test]
fn new_loads_font_and_program() {
    let cpu = Cpu::new(&[0x12, 0x34]);
    let mem = cpu.get_memory();
    assert_eq!(&mem[0..5], &[0xF0, 0x90, 0x90, 0x90, 0xF0]);
    assert_eq!(&mem[10..15], &[0xF0, 0x10, 0xF0, 0x80, 0xF0]);
    assert_eq!(&mem[15..20], &[0xF0, 0x10, 0xF0, 0x10, 0xF0]);
    assert_eq!(&mem[75..80], &[0xF0, 0x80, 0xF0, 0x80, 0x80]);
    assert_eq!(mem[80], 0);
    assert_eq!(&mem[0x200..0x203], &[0x12, 0x34, 0x00]);
    assert_eq!(cpu.get_pc(), 0x200);
    assert_eq!(cpu.get_i(), 0);
}

#[test]
fn new_truncates_oversized_program() {
    let data = vec![0x77u8; 5000];
    let cpu = Cpu::new(&data);
    let mem = cpu.get_memory();
    assert_eq!(mem.len(), 4096);
    assert_eq!(mem[4095], 0x77);
    assert_eq!(mem[0x1FF], 0);
}

#[test]
fn refresh_has_font_only() {
    let cpu = Cpu::cpu_refresh();
    let mem = cpu.get_memory();
    assert_eq!(&mem[0..5], &[0xF0, 0x90, 0x90, 0x90, 0xF0]);
    assert!(mem[0x200..].iter().all(|b| *b == 0));
}

#[test]
fn load_then_skip_if_equal() {
    for nn in [0x00u8, 0x42, 0xFF] {
        let cpu = run(&[0x63, nn, 0x33, nn], 1);
        assert_eq!(cpu.get_pc(), 0x202);
        let mut cpu = cpu;
        cpu.run_instruction().unwrap();
        assert_eq!(cpu.get_pc(), 0x206);
        let mut cpu = run(&[0x63, nn, 0x43, nn], 1);
        cpu.run_instruction().unwrap();
        assert_eq!(cpu.get_pc(), 0x204);
    }
}

#[test]
fn add_with_carry() {
    let cpu = run(&[0x61, 0xFF, 0x62, 0x01, 0x81, 0x24], 3);
    assert_eq!(cpu.read_reg_vx(1), 0x00);
    assert_eq!(cpu.read_reg_vx(0xF), 1);
    let cpu = run(&[0x61, 0x01, 0x62, 0x01, 0x81, 0x24], 3);
    assert_eq!(cpu.read_reg_vx(1), 0x02);
    assert_eq!(cpu.read_reg_vx(0xF), 0);
}

#[test]
fn subtract_with_borrow() {
    let cpu = run(&[0x61, 0x05, 0x62, 0x03, 0x81, 0x25], 3);
    assert_eq!(cpu.read_reg_vx(1), 0x02);
    assert_eq!(cpu.read_reg_vx(0xF), 1);
    let cpu = run(&[0x61, 0x03, 0x62, 0x05, 0x81, 0x25], 3);
    assert_eq!(cpu.read_reg_vx(1), 0xFE);
    assert_eq!(cpu.read_reg_vx(0xF), 0);
}

#[test]
fn other_arithmetic() {
    // V1 = 0x81, V2 = 0x0F
    let base = [0x61u8, 0x81, 0x62, 0x0F];
    let with = |op: [u8; 2]| {
        let mut p = base.to_vec();
        p.extend_from_slice(&op);
        run(&p, 3)
    };
    let cpu = with([0x81, 0x20]);
    assert_eq!(cpu.read_reg_vx(1), 0x0F);
    let cpu = with([0x81, 0x22]);
    assert_eq!(cpu.read_reg_vx(1), 0x01);
    let cpu = with([0x81, 0x23]);
    assert_eq!(cpu.read_reg_vx(1), 0x8E);
    let cpu = with([0x81, 0x26]);
    assert_eq!((cpu.read_reg_vx(1), cpu.read_reg_vx(0xF)), (0x40, 1));
    let cpu = with([0x81, 0x27]);
    assert_eq!((cpu.read_reg_vx(1), cpu.read_reg_vx(0xF)), (0x8E, 0));
    let cpu = with([0x81, 0x2E]);
    assert_eq!((cpu.read_reg_vx(1), cpu.read_reg_vx(0xF)), (0x02, 1));
    let cpu = with([0x71, 0x80]);
    assert_eq!(cpu.read_reg_vx(1), 0x01);
    assert_eq!(cpu.get_pc(), 0x206);
}

#[test]
fn or_is_not_an_instruction() {
    let mut cpu = run(&[0x61, 0x01, 0x81, 0x21], 1);
    assert_eq!(
        cpu.run_instruction(),
        Err(Chip8Error::UnknownOpcode { pc: 0x202, instruction: 0x8121 })
    );
    assert_eq!(cpu.get_pc(), 0x202);
}

#[test]
fn unknown_opcode_leaves_machine_unchanged() {
    let mut cpu = Cpu::new(&[0x01, 0x23]);
    assert_eq!(
        cpu.run_instruction(),
        Err(Chip8Error::UnknownOpcode { pc: 0x200, instruction: 0x0123 })
    );
    assert_eq!(cpu.get_pc(), 0x200);
}

#[test]
fn store_then_load_registers() {
    // V0..V3 = 1,2,3,4; I = 0x300; store; clobber; I = 0x300; load.
    let p = [
        0x60, 0x01, 0x61, 0x02, 0x62, 0x03, 0x63, 0x04, 0xA3, 0x00, 0xF3, 0x55, 0x60, 0x00,
        0x61, 0x00, 0x62, 0x00, 0x63, 0x00, 0xA3, 0x00, 0xF3, 0x65,
    ];
    let cpu = run(&p, 6);
    assert_eq!(&cpu.get_memory()[0x300..0x305], &[1, 2, 3, 4, 0]);
    assert_eq!(cpu.get_i(), 0x304);
    let cpu = run(&p, 12);
    for r in 0..4u8 {
        assert_eq!(cpu.read_reg_vx(r), r + 1);
    }
    assert_eq!(cpu.get_i(), 0x304);
}

#[test]
fn draw_font_zero_at_origin() {
    let cpu = run(&[0x60, 0x00, 0x61, 0x00, 0xA0, 0x00, 0xD0, 0x15], 4);
    let screen = cpu.get_display_memory();
    let glyph = [0xF0u8, 0x90, 0x90, 0x90, 0xF0];
    for (r, b) in glyph.iter().enumerate() {
        for c in 0..8 {
            assert_eq!(screen[r * 64 + c], (b >> (7 - c)) & 1);
        }
    }
    assert_eq!(cpu.read_reg_vx(0xF), 0);
    assert_eq!(cpu.get_pc(), 0x208);
}

#[test]
fn draw_twice_sets_flag_and_clears() {
    let cpu = run(&[0xA0, 0x00, 0xD0, 0x08, 0xD0, 0x08], 3);
    assert_eq!(cpu.get_display_memory(), vec![0u8; 2048]);
    assert_eq!(cpu.read_reg_vx(0xF), 1);
}

#[test]
fn draw_past_memory_end_faults() {
    let mut cpu = run(&[0xAF, 0xFE, 0xD0, 0x03], 1);
    assert_eq!(cpu.run_instruction(), Err(Chip8Error::AddressingFault { addr: 4096 }));
    assert_eq!(cpu.get_display_memory(), vec![0u8; 2048]);
}

#[test]
fn return_on_empty_stack_underflows() {
    let mut cpu = Cpu::new(&[0x00, 0xEE]);
    assert_eq!(cpu.run_instruction(), Err(Chip8Error::StackUnderflow));
    assert_eq!(cpu.get_pc(), 0x200);
}

#[test]
fn call_and_return() {
    // 0x200: call 0x206; 0x202: V0 = 9; 0x204: jump 0x204; 0x206: V1 = 7; return
    let cpu = run(&[0x22, 0x06, 0x60, 0x09, 0x12, 0x04, 0x61, 0x07, 0x00, 0xEE], 4);
    assert_eq!(cpu.read_reg_vx(1), 7);
    assert_eq!(cpu.read_reg_vx(0), 9);
    assert_eq!(cpu.get_pc(), 0x204);
}

#[test]
fn deep_calls_overflow() {
    let mut cpu = Cpu::new(&[0x22, 0x00]);
    for _ in 0..16 {
        cpu.run_instruction().unwrap();
    }
    assert_eq!(cpu.run_instruction(), Err(Chip8Error::StackOverflow));
}

#[test]
fn fetch_past_memory_end_faults() {
    let mut cpu = run(&[0x1F, 0xFF], 1);
    assert_eq!(cpu.get_pc(), 0xFFF);
    assert_eq!(cpu.run_instruction(), Err(Chip8Error::AddressingFault { addr: 4096 }));
}

#[test]
fn jump_with_offset_and_index_ops() {
    let cpu = run(&[0x60, 0x10, 0xB3, 0x00], 2);
    assert_eq!(cpu.get_pc(), 0x310);
    let cpu = run(&[0x65, 0x0B, 0xF5, 0x29], 2);
    assert_eq!(cpu.get_i(), 55);
    let cpu = run(&[0xA1, 0x00, 0x65, 0xFF, 0xF5, 0x1E], 3);
    assert_eq!(cpu.get_i(), 0x1FF);
}

#[test]
fn bcd_of_register() {
    let cpu = run(&[0x64, 234, 0xA3, 0x00, 0xF4, 0x33], 3);
    assert_eq!(&cpu.get_memory()[0x300..0x303], &[2, 3, 4]);
}

#[test]
fn random_is_masked() {
    let cpu = run(&[0xC2, 0xFF], 1);
    assert_eq!(cpu.read_reg_vx(2), 218);
    let cpu = run(&[0xC2, 0x0F], 1);
    assert_eq!(cpu.read_reg_vx(2), 218 & 0x0F);
}

#[test]
fn timers_count_down_and_stop() {
    // V3 = 2; delay = V3; sound = V3; then V4 = delay after the ticks.
    let program = [0x63, 0x02, 0xF3, 0x15, 0xF3, 0x18, 0xF4, 0x07, 0xF5, 0x07];
    let mut cpu = run(&program, 3);
    cpu.tick();
    cpu.run_instruction().unwrap();
    assert_eq!(cpu.read_reg_vx(4), 1);
    cpu.tick();
    cpu.tick();
    cpu.run_instruction().unwrap();
    assert_eq!(cpu.read_reg_vx(5), 0);
}

#[test]
fn write_and_read_register() {
    let mut cpu = Cpu::new(&[]);
    cpu.write_reg_vx(0xA, 0x5C);
    assert_eq!(cpu.read_reg_vx(0xA), 0x5C);
    assert_eq!(cpu.read_reg_vx(0xB), 0);
}

#[test]
fn key_skips() {
    let mut cpu = run(&[0x65, 0x07, 0xE5, 0x9E], 1);
    cpu.key_down(7);
    cpu.run_instruction().unwrap();
    assert_eq!(cpu.get_pc(), 0x206);
    let mut cpu = run(&[0x65, 0x07, 0xE5, 0xA1], 1);
    cpu.key_down(7);
    cpu.key_up(7);
    cpu.run_instruction().unwrap();
    assert_eq!(cpu.get_pc(), 0x206);
    let mut cpu = run(&[0x65, 0x07, 0xE5, 0x9E], 1);
    cpu.run_instruction().unwrap();
    assert_eq!(cpu.get_pc(), 0x204);
}

#[test]
fn key_code_out_of_range_faults() {
    for op in [0x9Eu8, 0xA1] {
        let mut cpu = run(&[0x65, 0x20, 0xE5, op], 1);
        assert_eq!(
            cpu.run_instruction(),
            Err(Chip8Error::KeyOutOfRange { pc: 0x202, key: 0x20 })
        );
        assert_eq!(cpu.get_pc(), 0x202);
    }
}

#[test]
fn wait_for_key() {
    let mut cpu = Cpu::new(&[0xF6, 0x0A]);
    cpu.run_instruction().unwrap();
    assert_eq!(cpu.get_pc(), 0x200);
    cpu.key_down(9);
    cpu.key_down(5);
    cpu.run_instruction().unwrap();
    assert_eq!(cpu.get_pc(), 0x202);
    assert_eq!(cpu.read_reg_vx(6), 5);
}

#[test]
fn clear_screen() {
    let cpu = run(&[0xA0, 0x00, 0xD0, 0x05, 0x00, 0xE0], 3);
    assert_eq!(cpu.get_display_memory(), vec![0u8; 2048]);
    assert_eq!(cpu.get_pc(), 0x206);
}

#[test]
fn end_to_end_font_zero_glyph() {
    // I = 0; draw 5 rows at (V0, V0) with V0 = 0.
    let cpu = run(&[0xA0, 0x00, 0xD0, 0x05], 2);
    let screen = cpu.get_display_memory();
    let expected: [[u8; 8]; 5] = [
        [1, 1, 1, 1, 0, 0, 0, 0],
        [1, 0, 0, 1, 0, 0, 0, 0],
        [1, 0, 0, 1, 0, 0, 0, 0],
        [1, 0, 0, 1, 0, 0, 0, 0],
        [1, 1, 1, 1, 0, 0, 0, 0],
    ];
    for r in 0..5 {
        assert_eq!(&screen[r * 64..r * 64 + 8], &expected[r]);
    }
    assert_eq!(screen.iter().map(|p| *p as u32).sum::<u32>(), 14);
}
