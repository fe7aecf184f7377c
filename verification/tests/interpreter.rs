//! Programs driven through whole interpreter cycles.

use chip8::cpu::CPU;
use chip8::display::Display;
use chip8::isa::Chip8Error;

fn boot(prog: Vec<u8>) -> CPU {
    let mut cpu = CPU::new(Display::new());
    cpu.load_program(&prog).unwrap();
    cpu
}

fn step(cpu: &mut CPU) {
    cpu.execute_cycle().unwrap();
}

#[test]
fn ld_imm_reads_back_for_every_register() {
    for x in 0u8..16 {
        for imm in [0u8, 1, 0x7F, 0xAB, 0xFF] {
            let mut cpu = boot(vec![0x60 | x, imm]);
            step(&mut cpu);
            assert_eq!(cpu.reg(x as usize), imm);
        }
    }
}

#[test]
fn add_reg_sets_carry_iff_sum_overflows() {
    for a in 0u16..=255 {
        for b in [0u16, 1, 100, 155, 200, 255] {
            let mut cpu = boot(vec![0x60, a as u8, 0x61, b as u8, 0x80, 0x14]);
            step(&mut cpu);
            step(&mut cpu);
            step(&mut cpu);
            assert_eq!(cpu.reg(0) as u16, (a + b) % 256);
            assert_eq!(cpu.reg(0xF), if a + b >= 256 { 1 } else { 0 });
        }
    }
}

#[test]
fn sub_not_borrow_concrete_pairs() {
    let cases = [(5u8, 3u8, 2u8, 1u8), (3, 5, 254, 0), (7, 7, 0, 0), (255, 1, 254, 1)];
    for (a, b, diff, flag) in cases {
        let mut cpu = boot(vec![0x60, a, 0x61, b, 0x80, 0x15]);
        step(&mut cpu);
        step(&mut cpu);
        step(&mut cpu);
        assert_eq!(cpu.reg(0), diff);
        assert_eq!(cpu.reg(0xF), flag);
    }
}

#[test]
fn subn_not_borrow() {
    // Vy - Vx into Vx: 3 - 5 wraps, 5 - 3 sets the flag.
    let cases = [(5u8, 3u8, 254u8, 0u8), (3, 5, 2, 1)];
    for (a, b, diff, flag) in cases {
        let mut cpu = boot(vec![0x60, a, 0x61, b, 0x80, 0x17]);
        step(&mut cpu);
        step(&mut cpu);
        step(&mut cpu);
        assert_eq!(cpu.reg(0), diff);
        assert_eq!(cpu.reg(0xF), flag);
    }
}

#[test]
fn shr_captures_low_bit_for_all_values() {
    for v in 0u16..=255 {
        let mut cpu = boot(vec![0x62, v as u8, 0x82, 0x06]);
        step(&mut cpu);
        step(&mut cpu);
        assert_eq!(cpu.reg(0xF), (v & 1) as u8);
        assert_eq!(cpu.reg(2), (v >> 1) as u8);
    }
}

#[test]
fn shl_captures_high_bit_for_all_values() {
    for v in 0u16..=255 {
        let mut cpu = boot(vec![0x62, v as u8, 0x82, 0x0E]);
        step(&mut cpu);
        step(&mut cpu);
        assert_eq!(cpu.reg(0xF), (v >> 7) as u8);
        assert_eq!(cpu.reg(2), ((v << 1) % 256) as u8);
    }
}

#[test]
fn add_imm_wraps_without_carry() {
    let mut cpu = boot(vec![0x60, 250, 0x70, 10]);
    step(&mut cpu);
    step(&mut cpu);
    assert_eq!(cpu.reg(0), 4);
    assert_eq!(cpu.reg(0xF), 0);
}

#[test]
fn or_and_xor_ld_between_registers() {
    for (low, expected) in [(0x11u8, 0xEEu8), (0x12, 0x88), (0x13, 0x66), (0x10, 0xAA)] {
        let mut cpu = boot(vec![0x60, 0xCC, 0x61, 0xAA, 0x80, low]);
        step(&mut cpu);
        step(&mut cpu);
        step(&mut cpu);
        assert_eq!(cpu.reg(0), expected);
        assert_eq!(cpu.reg(1), 0xAA);
    }
}

#[test]
fn bcd_writes_decimal_digits() {
    let mut cpu = boot(vec![0x60, 234, 0xA3, 0x00, 0xF0, 0x33]);
    step(&mut cpu);
    step(&mut cpu);
    step(&mut cpu);
    assert_eq!(cpu.mem(0x300), 2);
    assert_eq!(cpu.mem(0x301), 3);
    assert_eq!(cpu.mem(0x302), 4);

    let mut cpu = boot(vec![0x60, 7, 0xA3, 0x10, 0xF0, 0x33]);
    step(&mut cpu);
    step(&mut cpu);
    step(&mut cpu);
    assert_eq!(cpu.mem(0x310), 0);
    assert_eq!(cpu.mem(0x311), 0);
    assert_eq!(cpu.mem(0x312), 7);
}

#[test]
fn drw_clips_at_right_edge() {
    // An 8x5 block of lit bits drawn at (60, 0): only columns 60..64 are
    // plotted, nothing wraps around to columns 0..4.
    let prog = vec![
        0x62, 0x3C, // V2 := 60
        0x63, 0x00, // V3 := 0
        0xA2, 0x0A, // I := 0x20A
        0xD2, 0x35, // draw 5 rows at (V2, V3)
        0x12, 0x08, // spin
        0xFF, 0xFF, 0xFF, 0xFF, 0xFF, // sprite rows
    ];
    let mut cpu = boot(prog);
    for _ in 0..4 {
        step(&mut cpu);
    }
    assert_eq!(cpu.reg(0xF), 0);
    for row in 0..32 {
        for col in 0..64 {
            let expected = row < 5 && (60..64).contains(&col);
            assert_eq!(cpu.pixel(col, row), expected, "pixel ({col}, {row})");
        }
    }
}

#[test]
fn drw_xor_collision_and_cls() {
    let prog = vec![
        0x60, 0x00, // V0 := 0
        0xA2, 0x0C, // I := 0x20C
        0xD0, 0x01, // draw 1 row at (0, 0)
        0xD0, 0x01, // draw it again: XOR erases, collision
        0x00, 0xE0, // clear screen
        0x12, 0x0A, // spin
        0x80, // sprite row: single lit pixel at column 0
    ];
    let mut cpu = boot(prog);
    step(&mut cpu);
    step(&mut cpu);
    step(&mut cpu);
    assert!(cpu.pixel(0, 0));
    assert_eq!(cpu.reg(0xF), 0);
    step(&mut cpu);
    assert!(!cpu.pixel(0, 0));
    assert_eq!(cpu.reg(0xF), 1);
    step(&mut cpu);
    for row in 0..32 {
        for col in 0..64 {
            assert!(!cpu.pixel(col, row));
        }
    }
}

#[test]
fn call_ret_restores_pc_for_16_levels() {
    // Sixteen nested calls at 0x200, 0x210, ..., 0x2F0, then a chain of
    // returns unwinding to the instruction after each call.
    let mut prog = vec![0u8; 0x102];
    for k in 0..16u16 {
        let target = 0x210 + 0x10 * k;
        let op = 0x2000 | target;
        prog[(0x10 * k) as usize] = (op >> 8) as u8;
        prog[(0x10 * k) as usize + 1] = op as u8;
        prog[(0x10 * k) as usize + 2] = 0x00;
        prog[(0x10 * k) as usize + 3] = 0xEE;
    }
    prog[0x100] = 0x00;
    prog[0x101] = 0xEE;
    let mut cpu = boot(prog);
    for k in 0..16u16 {
        step(&mut cpu);
        assert_eq!(cpu.pc(), (0x210 + 0x10 * k) as usize);
    }
    for k in (0..16u16).rev() {
        step(&mut cpu);
        assert_eq!(cpu.pc(), (0x200 + 0x10 * k + 2) as usize);
    }
}

#[test]
fn call_overflow_is_reported() {
    // A call that calls itself: the 17th call finds the stack full, is
    // reported as a bounds fault and falls through to the next word.
    let mut cpu = boot(vec![0x22, 0x00]);
    for _ in 0..16 {
        step(&mut cpu);
        assert_eq!(cpu.pc(), 0x200);
    }
    assert_eq!(cpu.execute_cycle(), Err(Chip8Error::OutOfBounds));
    assert_eq!(cpu.pc(), 0x202);
}

#[test]
fn ret_underflow_is_reported() {
    let mut cpu = boot(vec![0x00, 0xEE]);
    assert_eq!(cpu.execute_cycle(), Err(Chip8Error::OutOfBounds));
    assert_eq!(cpu.pc(), 0x202);
}

#[test]
fn font_glyphs_distinct_and_in_table() {
    let table: [u8; 80] = [
        0xF0, 0x90, 0x90, 0x90, 0xF0, 0x20, 0x60, 0x20, 0x20, 0x70, 0xF0, 0x10, 0xF0, 0x80,
        0xF0, 0xF0, 0x10, 0xF0, 0x10, 0xF0, 0x90, 0x90, 0xF0, 0x10, 0x10, 0xF0, 0x80, 0xF0,
        0x10, 0xF0, 0xF0, 0x80, 0xF0, 0x90, 0xF0, 0xF0, 0x10, 0x20, 0x40, 0x40, 0xF0, 0x90,
        0xF0, 0x90, 0xF0, 0xF0, 0x90, 0xF0, 0x10, 0xF0, 0xF0, 0x90, 0xF0, 0x90, 0x90, 0xE0,
        0x90, 0xE0, 0x90, 0xE0, 0xF0, 0x80, 0x80, 0x80, 0xF0, 0xE0, 0x90, 0x90, 0x90, 0xE0,
        0xF0, 0x80, 0xF0, 0x80, 0xF0, 0xF0, 0x80, 0xF0, 0x80, 0x80,
    ];
    let cpu = CPU::new(Display::new());
    for j in 0..80 {
        assert_eq!(cpu.mem(0x50 + j), table[j]);
    }
    let mut addrs = Vec::new();
    for d in 0u8..16 {
        let mut cpu = boot(vec![0x60, d, 0xF0, 0x29]);
        step(&mut cpu);
        step(&mut cpu);
        addrs.push(cpu.index());
    }
    for d1 in 0..16 {
        assert!((0x50..0xA0).contains(&addrs[d1]));
        assert!(addrs[d1] + 5 <= 0xA0);
        for d2 in 0..16 {
            if d1 != d2 {
                // distinct, non-overlapping 5-byte ranges
                assert!(addrs[d1] + 5 <= addrs[d2] || addrs[d2] + 5 <= addrs[d1]);
            }
        }
    }
}

#[test]
fn illegal_opcode_is_reported_not_fatal() {
    for word in [[0x0Fu8, 0xFF], [0x50, 0x01], [0x80, 0x08], [0xE0, 0x00], [0xF0, 0xFF]] {
        let mut cpu = boot(word.to_vec());
        let opcode = ((word[0] as u16) << 8) | word[1] as u16;
        assert_eq!(
            cpu.execute_cycle(),
            Err(Chip8Error::IllegalInstruction { opcode, addr: 0x200 })
        );
        assert_eq!(cpu.pc(), 0x202);
        for x in 0..16 {
            assert_eq!(cpu.reg(x), 0);
        }
        assert_eq!(cpu.index(), 0);
        assert_eq!(cpu.mem(0x300), 0);
    }
}

#[test]
fn end_to_end_load_add_and_spin() {
    let mut cpu = boot(vec![0x60, 0x05, 0x70, 0x03, 0x12, 0x04]);
    step(&mut cpu);
    assert_eq!(cpu.reg(0), 5);
    step(&mut cpu);
    assert_eq!(cpu.reg(0), 8);
    assert_eq!(cpu.pc(), 0x204);
    for _ in 0..10 {
        step(&mut cpu);
        assert_eq!(cpu.reg(0), 8);
        assert_eq!(cpu.pc(), 0x204);
    }
}

#[test]
fn timers_decrement_each_cycle_and_saturate() {
    let mut cpu = boot(vec![0x60, 0x03, 0xF0, 0x15, 0xF0, 0x18, 0x12, 0x06]);
    step(&mut cpu); // V0 := 3
    step(&mut cpu); // DT := 3, then ticks to 2
    assert_eq!(cpu.delay(), 2);
    step(&mut cpu); // ST := 3, then ticks to 2; DT to 1
    assert_eq!(cpu.delay(), 1);
    assert_eq!(cpu.sound(), 2);
    step(&mut cpu);
    assert_eq!(cpu.delay(), 0);
    assert_eq!(cpu.sound(), 1);
    step(&mut cpu);
    assert_eq!(cpu.delay(), 0);
    assert_eq!(cpu.sound(), 0);
    step(&mut cpu);
    assert_eq!(cpu.delay(), 0);
    assert_eq!(cpu.sound(), 0);
}

#[test]
fn ld_from_delay_timer() {
    let mut cpu = boot(vec![0x60, 0x05, 0xF0, 0x15, 0xF1, 0x07]);
    step(&mut cpu);
    step(&mut cpu); // DT := 5, ticks to 4
    step(&mut cpu); // V1 := 4, DT ticks to 3
    assert_eq!(cpu.reg(1), 4);
    assert_eq!(cpu.delay(), 3);
}

#[test]
fn rnd_is_masked_by_the_immediate() {
    let mut cpu = boot(vec![0xC0, 0x00, 0xC1, 0x0F]);
    step(&mut cpu);
    assert_eq!(cpu.reg(0), 0);
    step(&mut cpu);
    assert_eq!(cpu.reg(1) & 0xF0, 0);
}

#[test]
fn se_sne_skip_on_immediates_and_registers() {
    // SE V0,7 with V0 == 7 skips the load of V1.
    let mut cpu = boot(vec![0x60, 0x07, 0x30, 0x07, 0x61, 0x01, 0x62, 0x02]);
    step(&mut cpu);
    step(&mut cpu);
    step(&mut cpu);
    assert_eq!(cpu.reg(1), 0);
    assert_eq!(cpu.reg(2), 2);

    // SE V0,8 with V0 == 7 does not skip.
    let mut cpu = boot(vec![0x60, 0x07, 0x30, 0x08, 0x61, 0x01]);
    step(&mut cpu);
    step(&mut cpu);
    step(&mut cpu);
    assert_eq!(cpu.reg(1), 1);

    // SNE V0,8 skips.
    let mut cpu = boot(vec![0x60, 0x07, 0x40, 0x08, 0x61, 0x01, 0x62, 0x02]);
    step(&mut cpu);
    step(&mut cpu);
    step(&mut cpu);
    assert_eq!(cpu.reg(1), 0);
    assert_eq!(cpu.reg(2), 2);

    // SE V0,V1 on equal registers skips; SNE V0,V1 does not.
    let mut cpu = boot(vec![0x60, 0x07, 0x61, 0x07, 0x50, 0x10, 0x62, 0x02, 0x90, 0x10, 0x63, 0x03]);
    step(&mut cpu);
    step(&mut cpu);
    step(&mut cpu);
    assert_eq!(cpu.reg(2), 0);
    step(&mut cpu);
    step(&mut cpu);
    assert_eq!(cpu.reg(3), 3);
}

#[test]
fn jp_and_jp_v0_offset() {
    let mut cpu = boot(vec![0x13, 0x00]);
    step(&mut cpu);
    assert_eq!(cpu.pc(), 0x300);

    let mut cpu = boot(vec![0x60, 0x10, 0xB3, 0x00]);
    step(&mut cpu);
    step(&mut cpu);
    assert_eq!(cpu.pc(), 0x310);
}

#[test]
fn add_to_index_register() {
    let mut cpu = boot(vec![0x60, 0x05, 0xAF, 0xFF, 0xF0, 0x1E]);
    step(&mut cpu);
    step(&mut cpu);
    assert_eq!(cpu.index(), 0xFFF);
    step(&mut cpu);
    assert_eq!(cpu.index(), 0x1004);
}

#[test]
fn store_and_load_register_block() {
    let prog = vec![
        0x60, 1, // V0 := 1
        0x61, 2, // V1 := 2
        0x62, 3, // V2 := 3
        0xA4, 0x00, // I := 0x400
        0xF2, 0x55, // store V0..V2 at I
        0x60, 0, // clobber V0
        0x61, 0, // clobber V1
        0x62, 0, // clobber V2
        0xF2, 0x65, // load V0..V2 back from I
    ];
    let mut cpu = boot(prog);
    for _ in 0..5 {
        step(&mut cpu);
    }
    assert_eq!(cpu.mem(0x400), 1);
    assert_eq!(cpu.mem(0x401), 2);
    assert_eq!(cpu.mem(0x402), 3);
    assert_eq!(cpu.mem(0x403), 0);
    for _ in 0..4 {
        step(&mut cpu);
    }
    assert_eq!(cpu.reg(0), 1);
    assert_eq!(cpu.reg(1), 2);
    assert_eq!(cpu.reg(2), 3);
    assert_eq!(cpu.reg(3), 0);
    assert_eq!(cpu.index(), 0x400);
}

#[test]
fn skp_sknp_follow_key_state() {
    // Key 4 up: SKP falls through, SKNP skips.
    let mut cpu = boot(vec![0x60, 0x04, 0xE0, 0x9E, 0x61, 0x01, 0xE0, 0xA1, 0x62, 0x02, 0x63, 0x03]);
    step(&mut cpu);
    step(&mut cpu);
    step(&mut cpu);
    assert_eq!(cpu.reg(1), 1);
    step(&mut cpu);
    step(&mut cpu);
    assert_eq!(cpu.reg(2), 0);
    assert_eq!(cpu.reg(3), 3);

    // Key 4 down: SKP skips, SKNP falls through.
    let mut cpu = boot(vec![0x60, 0x04, 0xE0, 0x9E, 0x61, 0x01, 0xE0, 0xA1, 0x62, 0x02, 0x63, 0x03]);
    cpu.keypad.press(4, true);
    step(&mut cpu);
    step(&mut cpu);
    step(&mut cpu);
    assert_eq!(cpu.reg(1), 0);
    step(&mut cpu);
    step(&mut cpu);
    assert_eq!(cpu.reg(2), 2);
}

#[test]
fn wait_key_re_executes_until_a_key_arrives() {
    let mut cpu = boot(vec![0xF0, 0x0A]);
    for _ in 0..3 {
        step(&mut cpu);
        assert_eq!(cpu.pc(), 0x200);
    }
    cpu.keypad.press(9, true);
    step(&mut cpu);
    assert_eq!(cpu.reg(0), 9);
    assert_eq!(cpu.pc(), 0x202);
}

#[test]
fn fetch_out_of_bounds_is_reported() {
    let mut cpu = boot(vec![0x1F, 0xFF]);
    step(&mut cpu);
    assert_eq!(cpu.pc(), 0xFFF);
    assert_eq!(cpu.execute_cycle(), Err(Chip8Error::OutOfBounds));
    assert_eq!(cpu.pc(), 0xFFF);
}

#[test]
fn sprite_read_past_memory_end_is_reported() {
    let mut cpu = boot(vec![0xAF, 0xFF, 0xD0, 0x02]);
    step(&mut cpu);
    assert_eq!(cpu.execute_cycle(), Err(Chip8Error::OutOfBounds));
    assert_eq!(cpu.pc(), 0x204);
    for row in 0..32 {
        for col in 0..64 {
            assert!(!cpu.pixel(col, row));
        }
    }
}

#[test]
fn bcd_and_register_blocks_past_memory_end_are_reported() {
    let mut cpu = boot(vec![0xAF, 0xFE, 0xF0, 0x33]);
    step(&mut cpu);
    assert_eq!(cpu.execute_cycle(), Err(Chip8Error::OutOfBounds));

    let mut cpu = boot(vec![0xAF, 0xFE, 0xF2, 0x55]);
    step(&mut cpu);
    assert_eq!(cpu.execute_cycle(), Err(Chip8Error::OutOfBounds));

    let mut cpu = boot(vec![0xAF, 0xFE, 0xF2, 0x65]);
    step(&mut cpu);
    assert_eq!(cpu.execute_cycle(), Err(Chip8Error::OutOfBounds));
}
