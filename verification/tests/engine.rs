use chip8::display::{Display, DISPLAY_HEIGHT, DISPLAY_WIDTH};
use chip8::keyboard::Keyboard;
use chip8::sound::Sound;
use chip8::timer::Timer;
use chip8::vm::{
    decode_addr, decode_byte, decode_nibb, decode_x, decode_y, VirtualMachine, VmError,
};

fn machine(program: &[u8]) -> (VirtualMachine, Timer, Sound, Display, Keyboard) {
    let mut vm = VirtualMachine::new();
    let bytes: Vec<u8> = program.to_vec();
    vm.load_bytes(&bytes).expect("program fits in memory");
    (vm, Timer::new(), Sound::new(), Display::new(), Keyboard::new())
}

fn run_steps(
    vm: &mut VirtualMachine,
    t: &mut Timer,
    s: &mut Sound,
    d: &mut Display,
    k: &mut Keyboard,
    n: usize,
) {
    for _ in 0..n {
        vm.step(t, s, d, k).expect("step succeeds");
    }
}

#[test]
fn decode_extracts_every_field() {
    assert_eq!(decode_x(0xABCD), 0xB);
    assert_eq!(decode_y(0xABCD), 0xC);
    assert_eq!(decode_addr(0xABCD), 0xBCD);
    assert_eq!(decode_byte(0xABCD), 0xCD);
    assert_eq!(decode_nibb(0xABCD), 0xD);
    assert_eq!(decode_x(0x0000), 0);
    assert_eq!(decode_y(0xFFFF), 0xF);
    assert_eq!(decode_addr(0xF000), 0x000);
    assert_eq!(decode_byte(0x1234), 0x34);
    assert_eq!(decode_nibb(0x8FF6), 0x6);
}

#[test]
fn new_machine_installs_font_and_start_address() {
    let vm = VirtualMachine::new();
    assert_eq!(vm.pc, 0x200);
    assert_eq!(vm.i, 0);
    assert_eq!(vm.sp, 0);
    assert_eq!(vm.memory[0], 0xF0);
    assert_eq!(vm.memory[0x4F], 0x80);
    assert_eq!(vm.memory[0x200], 0);
    for r in 0..16 {
        assert_eq!(vm.v[r], 0);
    }
}

#[test]
fn load_rejects_oversized_program() {
    let mut vm = VirtualMachine::new();
    let too_big: Vec<u8> = vec![0u8; 4096 - 512 + 1];
    assert_eq!(vm.load_bytes(&too_big), Err(VmError::ProgramTooLarge));
    // Nothing was written.
    assert_eq!(vm.memory[0x200], 0);
    let just_fits: Vec<u8> = vec![0xABu8; 4096 - 512];
    assert_eq!(vm.load_bytes(&just_fits), Ok(()));
    assert_eq!(vm.memory[0x200], 0xAB);
    assert_eq!(vm.memory[4095], 0xAB);
}

#[test]
fn clear_screen_program() {
    // One step of `00E0` against a framebuffer with lit pixels clears it.
    let (mut vm, mut t, mut s, mut d, mut k) = machine(&[0x00, 0xE0]);
    d.set(3, 4, true);
    d.set(63, 31, true);
    run_steps(&mut vm, &mut t, &mut s, &mut d, &mut k, 1);
    for y in 0..DISPLAY_HEIGHT {
        for x in 0..DISPLAY_WIDTH {
            assert!(!d.get(x, y));
        }
    }
    assert_eq!(vm.pc, 0x202);
}

#[test]
fn load_then_add_immediate_program() {
    // `6A02` loads register 10 with 2, `7A05` adds 5: register 10 holds 7.
    let (mut vm, mut t, mut s, mut d, mut k) = machine(&[0x6A, 0x02, 0x7A, 0x05]);
    run_steps(&mut vm, &mut t, &mut s, &mut d, &mut k, 2);
    assert_eq!(vm.v[10], 7);
    assert_eq!(vm.pc, 0x204);
}

#[test]
fn add_immediate_wraps_without_flag() {
    let (mut vm, mut t, mut s, mut d, mut k) = machine(&[0x60, 0xFF, 0x70, 0x03]);
    run_steps(&mut vm, &mut t, &mut s, &mut d, &mut k, 2);
    assert_eq!(vm.v[0], 2);
    assert_eq!(vm.v[15], 0);
}

#[test]
fn alu_add_sets_carry_flag() {
    // 250 + 10 wraps to 4 with flag 1.
    let (mut vm, mut t, mut s, mut d, mut k) =
        machine(&[0x61, 0xFA, 0x62, 0x0A, 0x81, 0x24]);
    run_steps(&mut vm, &mut t, &mut s, &mut d, &mut k, 3);
    assert_eq!(vm.v[1], 4);
    assert_eq!(vm.v[15], 1);
    // 10 + 20 is 30 with flag 0.
    let (mut vm, mut t, mut s, mut d, mut k) =
        machine(&[0x61, 0x0A, 0x62, 0x14, 0x81, 0x24]);
    run_steps(&mut vm, &mut t, &mut s, &mut d, &mut k, 3);
    assert_eq!(vm.v[1], 30);
    assert_eq!(vm.v[15], 0);
}

#[test]
fn alu_sub_borrow_convention() {
    // 5 - 10 wraps to 251 with flag 0 (a borrow happened).
    let (mut vm, mut t, mut s, mut d, mut k) =
        machine(&[0x61, 0x05, 0x62, 0x0A, 0x81, 0x25]);
    run_steps(&mut vm, &mut t, &mut s, &mut d, &mut k, 3);
    assert_eq!(vm.v[1], 251);
    assert_eq!(vm.v[15], 0);
    // 10 - 5 is 5 with flag 1 (no borrow).
    let (mut vm, mut t, mut s, mut d, mut k) =
        machine(&[0x61, 0x0A, 0x62, 0x05, 0x81, 0x25]);
    run_steps(&mut vm, &mut t, &mut s, &mut d, &mut k, 3);
    assert_eq!(vm.v[1], 5);
    assert_eq!(vm.v[15], 1);
}

#[test]
fn alu_reverse_sub_and_logic() {
    // SUBN: v1 = v2 - v1 = 10 - 5 = 5, flag 1.
    let (mut vm, mut t, mut s, mut d, mut k) =
        machine(&[0x61, 0x05, 0x62, 0x0A, 0x81, 0x27]);
    run_steps(&mut vm, &mut t, &mut s, &mut d, &mut k, 3);
    assert_eq!(vm.v[1], 5);
    assert_eq!(vm.v[15], 1);
    // OR, AND, XOR in place.
    let (mut vm, mut t, mut s, mut d, mut k) =
        machine(&[0x61, 0xF0, 0x62, 0x3C, 0x81, 0x21]);
    run_steps(&mut vm, &mut t, &mut s, &mut d, &mut k, 3);
    assert_eq!(vm.v[1], 0xFC);
    let (mut vm, mut t, mut s, mut d, mut k) =
        machine(&[0x61, 0xF0, 0x62, 0x3C, 0x81, 0x22]);
    run_steps(&mut vm, &mut t, &mut s, &mut d, &mut k, 3);
    assert_eq!(vm.v[1], 0x30);
    let (mut vm, mut t, mut s, mut d, mut k) =
        machine(&[0x61, 0xF0, 0x62, 0x3C, 0x81, 0x23]);
    run_steps(&mut vm, &mut t, &mut s, &mut d, &mut k, 3);
    assert_eq!(vm.v[1], 0xCC);
}

#[test]
fn alu_shifts_report_shifted_out_bit() {
    // SHR on an odd value: flag is the old low bit.
    let (mut vm, mut t, mut s, mut d, mut k) = machine(&[0x61, 0x05, 0x81, 0x06]);
    run_steps(&mut vm, &mut t, &mut s, &mut d, &mut k, 2);
    assert_eq!(vm.v[1], 2);
    assert_eq!(vm.v[15], 1);
    // SHL on a value with the high bit set: flag is the old high bit.
    let (mut vm, mut t, mut s, mut d, mut k) = machine(&[0x61, 0x81, 0x81, 0x0E]);
    run_steps(&mut vm, &mut t, &mut s, &mut d, &mut k, 2);
    assert_eq!(vm.v[1], 0x02);
    assert_eq!(vm.v[15], 1);
}

#[test]
fn conditional_skips() {
    // 3xkk skips on equality.
    let (mut vm, mut t, mut s, mut d, mut k) = machine(&[0x61, 0x07, 0x31, 0x07]);
    run_steps(&mut vm, &mut t, &mut s, &mut d, &mut k, 2);
    assert_eq!(vm.pc, 0x206);
    // 4xkk skips on inequality; here the values match, so no skip.
    let (mut vm, mut t, mut s, mut d, mut k) = machine(&[0x61, 0x07, 0x41, 0x07]);
    run_steps(&mut vm, &mut t, &mut s, &mut d, &mut k, 2);
    assert_eq!(vm.pc, 0x204);
    // 5xy0 compares two registers; a nonzero trailing nibble never skips.
    let (mut vm, mut t, mut s, mut d, mut k) =
        machine(&[0x61, 0x07, 0x62, 0x07, 0x51, 0x20]);
    run_steps(&mut vm, &mut t, &mut s, &mut d, &mut k, 3);
    assert_eq!(vm.pc, 0x208);
    let (mut vm, mut t, mut s, mut d, mut k) =
        machine(&[0x61, 0x07, 0x62, 0x07, 0x51, 0x21]);
    run_steps(&mut vm, &mut t, &mut s, &mut d, &mut k, 3);
    assert_eq!(vm.pc, 0x206);
    // 9xy0 skips when the registers differ.
    let (mut vm, mut t, mut s, mut d, mut k) =
        machine(&[0x61, 0x07, 0x62, 0x08, 0x91, 0x20]);
    run_steps(&mut vm, &mut t, &mut s, &mut d, &mut k, 3);
    assert_eq!(vm.pc, 0x208);
}

#[test]
fn jumps_and_index_register() {
    let (mut vm, mut t, mut s, mut d, mut k) = machine(&[0x13, 0x45]);
    run_steps(&mut vm, &mut t, &mut s, &mut d, &mut k, 1);
    assert_eq!(vm.pc, 0x345);
    let (mut vm, mut t, mut s, mut d, mut k) = machine(&[0xA3, 0x45]);
    run_steps(&mut vm, &mut t, &mut s, &mut d, &mut k, 1);
    assert_eq!(vm.i, 0x345);
    // Bnnn jumps to the address plus register 0.
    let (mut vm, mut t, mut s, mut d, mut k) = machine(&[0x60, 0x10, 0xB3, 0x00]);
    run_steps(&mut vm, &mut t, &mut s, &mut d, &mut k, 2);
    assert_eq!(vm.pc, 0x310);
}

#[test]
fn random_byte_is_masked() {
    let (mut vm, mut t, mut s, mut d, mut k) = machine(&[0xC4, 0x0F]);
    run_steps(&mut vm, &mut t, &mut s, &mut d, &mut k, 1);
    assert!(vm.v[4] <= 0x0F);
}

#[test]
fn call_then_ret_restores_counter() {
    // CALL 0x204 at 0x200; RET at 0x204: the counter lands back after the
    // call and the stack pointer is restored.
    let (mut vm, mut t, mut s, mut d, mut k) =
        machine(&[0x22, 0x04, 0x00, 0x00, 0x00, 0xEE]);
    run_steps(&mut vm, &mut t, &mut s, &mut d, &mut k, 1);
    assert_eq!(vm.pc, 0x204);
    assert_eq!(vm.sp, 1);
    run_steps(&mut vm, &mut t, &mut s, &mut d, &mut k, 1);
    assert_eq!(vm.pc, 0x202);
    assert_eq!(vm.sp, 0);
}

#[test]
fn bare_ret_fails_with_empty_call_stack() {
    let (mut vm, mut t, mut s, mut d, mut k) = machine(&[0x00, 0xEE]);
    let res = vm.step(&mut t, &mut s, &mut d, &mut k);
    assert_eq!(res, Err(VmError::EmptyCallStack));
    // The counter has already advanced past the faulting instruction;
    // everything else is untouched.
    assert_eq!(vm.pc, 0x202);
    assert_eq!(vm.sp, 0);
    assert_eq!(vm.i, 0);
}

#[test]
fn seventeenth_nested_call_overflows() {
    // The instruction at 0x200 calls 0x200 again, nesting one call per step.
    let (mut vm, mut t, mut s, mut d, mut k) = machine(&[0x22, 0x00]);
    for depth in 1..=16u8 {
        let res = vm.step(&mut t, &mut s, &mut d, &mut k);
        assert_eq!(res, Ok(()));
        assert_eq!(vm.sp, depth);
        assert_eq!(vm.pc, 0x200);
    }
    let res = vm.step(&mut t, &mut s, &mut d, &mut k);
    assert_eq!(res, Err(VmError::CallStackOverflow));
    assert_eq!(vm.sp, 16);
}

#[test]
fn blocking_key_read_waits_then_consumes() {
    // `F50A` blocks for a key into register 5.
    let (mut vm, mut t, mut s, mut d, mut k) = machine(&[0xF5, 0x0A]);
    for _ in 0..3 {
        let res = vm.step(&mut t, &mut s, &mut d, &mut k);
        assert_eq!(res, Ok(()));
        // No key: the counter is rewound so the same instruction repeats.
        assert_eq!(vm.pc, 0x200);
    }
    k.set(0xA, true);
    let res = vm.step(&mut t, &mut s, &mut d, &mut k);
    assert_eq!(res, Ok(()));
    assert_eq!(vm.v[5], 0xA);
    assert_eq!(vm.pc, 0x202);
}

#[test]
fn key_skip_opcodes() {
    // Ex9E skips when the key in the register is pressed.
    let (mut vm, mut t, mut s, mut d, mut k) = machine(&[0x61, 0x03, 0xE1, 0x9E]);
    k.set(3, true);
    run_steps(&mut vm, &mut t, &mut s, &mut d, &mut k, 2);
    assert_eq!(vm.pc, 0x206);
    // ExA1 skips when it is not pressed.
    let (mut vm, mut t, mut s, mut d, mut k) = machine(&[0x61, 0x03, 0xE1, 0xA1]);
    run_steps(&mut vm, &mut t, &mut s, &mut d, &mut k, 2);
    assert_eq!(vm.pc, 0x206);
}

#[test]
fn timer_and_sound_transfers() {
    // Fx15 writes the delay timer, Fx07 reads it back, Fx18 writes sound.
    let (mut vm, mut t, mut s, mut d, mut k) =
        machine(&[0x61, 0x09, 0xF1, 0x15, 0xF2, 0x07, 0xF1, 0x18]);
    run_steps(&mut vm, &mut t, &mut s, &mut d, &mut k, 2);
    assert_eq!(t.read(), 9);
    run_steps(&mut vm, &mut t, &mut s, &mut d, &mut k, 1);
    assert_eq!(vm.v[2], 9);
    run_steps(&mut vm, &mut t, &mut s, &mut d, &mut k, 1);
    assert_eq!(s.value, 9);
}

#[test]
fn add_register_to_index() {
    let (mut vm, mut t, mut s, mut d, mut k) =
        machine(&[0xA1, 0x00, 0x61, 0x22, 0xF1, 0x1E]);
    run_steps(&mut vm, &mut t, &mut s, &mut d, &mut k, 3);
    assert_eq!(vm.i, 0x122);
}

#[test]
fn font_address_uses_low_nibble() {
    // Register holds 0xA7; the glyph picked is 7, at offset 7 * 5.
    let (mut vm, mut t, mut s, mut d, mut k) = machine(&[0x6B, 0xA7, 0xFB, 0x29]);
    run_steps(&mut vm, &mut t, &mut s, &mut d, &mut k, 2);
    assert_eq!(vm.i, 35);
}

#[test]
fn bcd_store_decomposes_decimal_digits() {
    let (mut vm, mut t, mut s, mut d, mut k) =
        machine(&[0x63, 0x89, 0xA3, 0x00, 0xF3, 0x33]);
    run_steps(&mut vm, &mut t, &mut s, &mut d, &mut k, 3);
    assert_eq!(vm.memory[0x300], 1);
    assert_eq!(vm.memory[0x301], 3);
    assert_eq!(vm.memory[0x302], 7);
}

#[test]
fn register_block_store_and_load() {
    // Store registers 0..=2 at I, clobber them, load them back.
    let (mut vm, mut t, mut s, mut d, mut k) = machine(&[
        0x60, 0x11, 0x61, 0x22, 0x62, 0x33, 0xA3, 0x00, 0xF2, 0x55, 0x60, 0x00, 0x61, 0x00,
        0x62, 0x00, 0xF2, 0x65,
    ]);
    run_steps(&mut vm, &mut t, &mut s, &mut d, &mut k, 5);
    assert_eq!(vm.memory[0x300], 0x11);
    assert_eq!(vm.memory[0x301], 0x22);
    assert_eq!(vm.memory[0x302], 0x33);
    run_steps(&mut vm, &mut t, &mut s, &mut d, &mut k, 4);
    assert_eq!(vm.v[0], 0x11);
    assert_eq!(vm.v[1], 0x22);
    assert_eq!(vm.v[2], 0x33);
}

#[test]
fn unrecognized_sub_opcodes_are_no_ops() {
    let (mut vm, mut t, mut s, mut d, mut k) = machine(&[0x00, 0x12, 0xE1, 0x55, 0xF1, 0x99]);
    run_steps(&mut vm, &mut t, &mut s, &mut d, &mut k, 3);
    assert_eq!(vm.pc, 0x206);
    assert_eq!(vm.sp, 0);
    assert_eq!(vm.v[1], 0);
}

#[test]
fn draw_reports_collision_on_second_identical_draw() {
    // Draw an 8x1 stripe at (10, 5), then draw it again: the first draw has
    // no collision, the second turns every pixel off and sets the flag.
    let (mut vm, mut t, mut s, mut d, mut k) = machine(&[
        0x60, 0x0A, 0x61, 0x05, 0xA2, 0x0A, 0xD0, 0x15, 0xD0, 0x15, 0xFF,
    ]);
    run_steps(&mut vm, &mut t, &mut s, &mut d, &mut k, 4);
    for col in 0..8 {
        assert!(d.get(10 + col, 5));
    }
    assert_eq!(vm.v[15], 0);
    run_steps(&mut vm, &mut t, &mut s, &mut d, &mut k, 1);
    for col in 0..8 {
        assert!(!d.get(10 + col, 5));
    }
    assert_eq!(vm.v[15], 1);
}

#[test]
fn draw_wraps_at_display_edges() {
    // Drawing at (64, 32) lands exactly where a draw at (0, 0) does.
    let program_wrapped: [u8; 10] =
        [0x60, 0x40, 0x61, 0x20, 0xA2, 0x08, 0xD0, 0x12, 0xA5, 0xC3];
    let program_origin: [u8; 10] =
        [0x60, 0x00, 0x61, 0x00, 0xA2, 0x08, 0xD0, 0x12, 0xA5, 0xC3];
    let (mut vm1, mut t1, mut s1, mut d1, mut k1) = machine(&program_wrapped);
    run_steps(&mut vm1, &mut t1, &mut s1, &mut d1, &mut k1, 4);
    let (mut vm2, mut t2, mut s2, mut d2, mut k2) = machine(&program_origin);
    run_steps(&mut vm2, &mut t2, &mut s2, &mut d2, &mut k2, 4);
    for y in 0..DISPLAY_HEIGHT {
        for x in 0..DISPLAY_WIDTH {
            assert_eq!(d1.get(x, y), d2.get(x, y));
        }
    }
    assert!(d1.get(0, 0));
    assert_eq!(vm1.v[15], 0);
    assert_eq!(vm2.v[15], 0);
}

#[test]
fn draw_tall_sprite_reads_rows_from_memory() {
    // A 2-row glyph drawn from the built-in font: glyph 1's first two rows
    // are 0x20 and 0x60.
    let (mut vm, mut t, mut s, mut d, mut k) =
        machine(&[0x60, 0x00, 0x61, 0x00, 0xA0, 0x05, 0xD0, 0x12]);
    run_steps(&mut vm, &mut t, &mut s, &mut d, &mut k, 4);
    // 0x20: only bit 2 (column 2) is lit in row 0.
    assert!(!d.get(0, 0));
    assert!(!d.get(1, 0));
    assert!(d.get(2, 0));
    assert!(!d.get(3, 0));
    // 0x60: columns 1 and 2 lit in row 1.
    assert!(d.get(1, 1));
    assert!(d.get(2, 1));
    assert!(!d.get(3, 1));
}
