use chip8_vm::conf::{FONTSET_SIZE, RAM_SIZE, SCREEN_HEIGHT, SCREEN_WIDTH, START_ADDR};
use chip8_vm::error::VmError;
use chip8_vm::vm::Chip8VM;

fn vm_with(ops: &[u16]) -> Chip8VM {
    let mut vm = Chip8VM::new(Vec::new());
    let mut bytes: Vec<u8> = Vec::new();
    for op in ops {
        bytes.push((op >> 8) as u8);
        bytes.push((op & 0xFF) as u8);
    }
    vm.load(&bytes).unwrap();
    vm
}

#[test]
fn initial_state_has_font_and_low_resolution() {
    let vm = Chip8VM::new(Vec::new());
    assert_eq!(vm.cpu.ctx.pc, START_ADDR);
    assert_eq!(vm.cpu.ctx.current_width, SCREEN_WIDTH);
    assert_eq!(vm.cpu.ctx.current_height, SCREEN_HEIGHT);
    assert_eq!(vm.cpu.ctx.sp, 0);
    let font = chip8_vm::conf::fontset();
    assert_eq!(font.len(), FONTSET_SIZE);
    assert_eq!(font[0], 0xF0);
    for k in 0..FONTSET_SIZE {
        assert_eq!(vm.cpu.ctx.memory[k], font[k]);
    }
    for k in FONTSET_SIZE..RAM_SIZE {
        assert_eq!(vm.cpu.ctx.memory[k], 0);
    }
}

#[test]
fn reset_restores_initial_state() {
    let mut vm = vm_with(&[0x6042]);
    vm.tick().unwrap();
    assert_eq!(vm.cpu.ctx.registers[0], 0x42);
    vm.cpu.reset();
    assert_eq!(vm.cpu.ctx.pc, START_ADDR);
    assert_eq!(vm.cpu.ctx.registers[0], 0);
    assert_eq!(vm.cpu.ctx.memory[0x200], 0);
    assert_eq!(vm.cpu.ctx.memory[0], 0xF0);
}

#[test]
fn load_rejects_an_image_that_runs_past_memory() {
    let mut vm = Chip8VM::new(Vec::new());
    let too_big = vec![0u8; RAM_SIZE - START_ADDR as usize + 1];
    assert_eq!(vm.load(&too_big), Err(VmError::RomTooLarge));
    assert_eq!(vm.cpu.ctx.memory[0x200], 0);
    // An image that fills memory to its last byte is an exact fit, not too
    // large.
    let fits = vec![7u8; RAM_SIZE - START_ADDR as usize];
    assert_eq!(vm.load(&fits), Ok(()));
    assert_eq!(vm.cpu.ctx.memory[0x200], 7);
    assert_eq!(vm.cpu.ctx.memory[RAM_SIZE - 1], 7);
}

#[test]
fn keypress_rejects_an_out_of_range_index() {
    let mut vm = Chip8VM::new(Vec::new());
    assert_eq!(vm.keypress(16, true), Err(VmError::InvalidKeyIndex));
    assert_eq!(vm.keypress(5, true), Ok(()));
    assert!(vm.cpu.ctx.keys[5]);
    assert_eq!(vm.keypress(5, false), Ok(()));
    assert!(!vm.cpu.ctx.keys[5]);
}

#[test]
fn clear_screen_clears_the_viewport_and_advances_pc() {
    let mut vm = vm_with(&[0x00E0]);
    vm.cpu.ctx.screen[0] = true;
    vm.cpu.ctx.screen[63 + 31 * 128] = true;
    vm.tick().unwrap();
    let (w, h, screen) = vm.get_display_config();
    for y in 0..h {
        for x in 0..w {
            assert!(!screen[x + y * 128]);
        }
    }
    assert_eq!(vm.cpu.ctx.pc, 0x202);
}

#[test]
fn clearing_twice_leaves_it_cleared_with_no_error() {
    let mut vm = vm_with(&[0x00E0, 0x00E0]);
    vm.cpu.ctx.screen[10] = true;
    vm.tick().unwrap();
    let after_once = vm.cpu.ctx.screen.clone();
    vm.tick().unwrap();
    assert_eq!(vm.cpu.ctx.screen, after_once);
    assert!(!vm.cpu.ctx.screen[10]);
}

#[test]
fn skip_if_equal_immediate_is_taken() {
    let mut vm = vm_with(&[0x3042]);
    vm.cpu.ctx.registers[0] = 0x42;
    vm.tick().unwrap();
    assert_eq!(vm.cpu.ctx.pc, 0x204);
}

#[test]
fn skip_if_equal_immediate_is_not_taken() {
    let mut vm = vm_with(&[0x3042]);
    vm.cpu.ctx.registers[0] = 0x41;
    vm.tick().unwrap();
    assert_eq!(vm.cpu.ctx.pc, 0x202);
}

#[test]
fn bcd_writes_hundreds_tens_ones() {
    let mut vm = vm_with(&[0xF033]);
    vm.cpu.ctx.i_register = 0x300;
    vm.cpu.ctx.registers[0] = 123;
    vm.tick().unwrap();
    assert_eq!(vm.cpu.ctx.memory[0x300], 1);
    assert_eq!(vm.cpu.ctx.memory[0x301], 2);
    assert_eq!(vm.cpu.ctx.memory[0x302], 3);
    assert_eq!(vm.cpu.ctx.pc, 0x202);
}

#[test]
fn bcd_at_the_end_of_memory_is_out_of_bounds() {
    let mut vm = vm_with(&[0xF033]);
    vm.cpu.ctx.i_register = 0xFFF;
    assert_eq!(vm.tick(), Err(VmError::MemoryOutOfBounds));
}

#[test]
fn block_store_at_the_last_possible_address_succeeds() {
    let mut vm = vm_with(&[0xFF55]);
    vm.cpu.ctx.i_register = (RAM_SIZE - 16) as u16;
    for k in 0..16 {
        vm.cpu.ctx.registers[k] = k as u8 + 1;
    }
    assert_eq!(vm.tick(), Ok(()));
    for k in 0..16 {
        assert_eq!(vm.cpu.ctx.memory[RAM_SIZE - 16 + k], k as u8 + 1);
    }
}

#[test]
fn block_store_one_byte_further_is_out_of_bounds() {
    let mut vm = vm_with(&[0xFF55]);
    vm.cpu.ctx.i_register = (RAM_SIZE - 15) as u16;
    assert_eq!(vm.tick(), Err(VmError::MemoryOutOfBounds));
}

#[test]
fn block_store_then_load_restores_registers() {
    let mut vm = vm_with(&[0xF355, 0x6399, 0xF365]);
    vm.cpu.ctx.i_register = 0x400;
    for k in 0..4 {
        vm.cpu.ctx.registers[k] = 10 + k as u8;
    }
    vm.tick().unwrap();
    vm.tick().unwrap();
    assert_eq!(vm.cpu.ctx.registers[3], 0x99);
    vm.tick().unwrap();
    for k in 0..4 {
        assert_eq!(vm.cpu.ctx.registers[k], 10 + k as u8);
    }
}

#[test]
fn add_with_carry_sets_the_flag() {
    let mut vm = vm_with(&[0x8014]);
    vm.cpu.ctx.registers[0] = 200;
    vm.cpu.ctx.registers[1] = 100;
    vm.tick().unwrap();
    assert_eq!(vm.cpu.ctx.registers[0], 44);
    assert_eq!(vm.cpu.ctx.registers[15], 1);
}

#[test]
fn subtract_reports_borrow_in_the_flag() {
    let mut vm = vm_with(&[0x8015, 0x8235]);
    vm.cpu.ctx.registers[0] = 5;
    vm.cpu.ctx.registers[1] = 10;
    vm.cpu.ctx.registers[2] = 10;
    vm.cpu.ctx.registers[3] = 5;
    vm.tick().unwrap();
    assert_eq!(vm.cpu.ctx.registers[0], 251);
    assert_eq!(vm.cpu.ctx.registers[15], 0);
    vm.tick().unwrap();
    assert_eq!(vm.cpu.ctx.registers[2], 5);
    assert_eq!(vm.cpu.ctx.registers[15], 1);
}

#[test]
fn reverse_subtract_uses_the_other_order() {
    let mut vm = vm_with(&[0x8017]);
    vm.cpu.ctx.registers[0] = 5;
    vm.cpu.ctx.registers[1] = 10;
    vm.tick().unwrap();
    assert_eq!(vm.cpu.ctx.registers[0], 5);
    assert_eq!(vm.cpu.ctx.registers[15], 1);
}

#[test]
fn shifts_report_the_dropped_bit() {
    let mut vm = vm_with(&[0x8006, 0x810E]);
    vm.cpu.ctx.registers[0] = 0b101;
    vm.cpu.ctx.registers[1] = 0x81;
    vm.tick().unwrap();
    assert_eq!(vm.cpu.ctx.registers[0], 0b10);
    assert_eq!(vm.cpu.ctx.registers[15], 1);
    vm.tick().unwrap();
    assert_eq!(vm.cpu.ctx.registers[1], 0x02);
    assert_eq!(vm.cpu.ctx.registers[15], 1);
}

#[test]
fn bitwise_ops_write_the_destination() {
    let mut vm = vm_with(&[0x8010, 0x8231, 0x8452, 0x8673]);
    vm.cpu.ctx.registers[1] = 0xAA;
    vm.cpu.ctx.registers[2] = 0xF0;
    vm.cpu.ctx.registers[3] = 0x0F;
    vm.cpu.ctx.registers[4] = 0xFF;
    vm.cpu.ctx.registers[5] = 0x0F;
    vm.cpu.ctx.registers[6] = 0xFF;
    vm.cpu.ctx.registers[7] = 0x0F;
    vm.tick().unwrap();
    assert_eq!(vm.cpu.ctx.registers[0], 0xAA);
    vm.tick().unwrap();
    assert_eq!(vm.cpu.ctx.registers[2], 0xFF);
    vm.tick().unwrap();
    assert_eq!(vm.cpu.ctx.registers[4], 0x0F);
    vm.tick().unwrap();
    assert_eq!(vm.cpu.ctx.registers[6], 0xF0);
}

#[test]
fn add_immediate_wraps_without_flag() {
    let mut vm = vm_with(&[0x70FF]);
    vm.cpu.ctx.registers[0] = 2;
    vm.cpu.ctx.registers[15] = 7;
    vm.tick().unwrap();
    assert_eq!(vm.cpu.ctx.registers[0], 1);
    assert_eq!(vm.cpu.ctx.registers[15], 7);
}

#[test]
fn jump_and_indexed_jump_set_the_pc() {
    let mut vm = vm_with(&[0x1ABC]);
    vm.tick().unwrap();
    assert_eq!(vm.cpu.ctx.pc, 0xABC);

    let mut vm2 = vm_with(&[0xB300]);
    vm2.cpu.ctx.registers[0] = 4;
    vm2.tick().unwrap();
    assert_eq!(vm2.cpu.ctx.pc, 0x304);
}

#[test]
fn call_pushes_and_return_pops() {
    let mut vm = vm_with(&[0x2300]);
    vm.cpu.ctx.memory[0x300] = 0x00;
    vm.cpu.ctx.memory[0x301] = 0xEE;
    vm.tick().unwrap();
    assert_eq!(vm.cpu.ctx.pc, 0x300);
    assert_eq!(vm.cpu.ctx.sp, 1);
    assert_eq!(vm.cpu.ctx.stack[0], 0x202);
    vm.tick().unwrap();
    assert_eq!(vm.cpu.ctx.pc, 0x202);
    assert_eq!(vm.cpu.ctx.sp, 0);
}

#[test]
fn stack_discipline_over_seventeen_calls_and_returns() {
    let mut bytes: Vec<u8> = Vec::new();
    for k in 0..16u16 {
        let target = 0x204 + 4 * k;
        bytes.push(0x20 | (target >> 8) as u8);
        bytes.push((target & 0xFF) as u8);
        bytes.push(0x00);
        bytes.push(0xEE);
    }
    bytes.push(0x22);
    bytes.push(0x00);
    bytes.push(0x00);
    bytes.push(0xEE);
    let mut vm = Chip8VM::new(Vec::new());
    vm.load(&bytes).unwrap();
    for _ in 0..16 {
        assert_eq!(vm.tick(), Ok(()));
    }
    assert_eq!(vm.cpu.ctx.sp, 16);
    assert_eq!(vm.tick(), Err(VmError::StackOverflow));
    for _ in 0..16 {
        assert_eq!(vm.tick(), Ok(()));
    }
    assert_eq!(vm.cpu.ctx.sp, 0);
    assert_eq!(vm.tick(), Err(VmError::StackUnderflow));
}

#[test]
fn unknown_opcode_is_a_fatal_fault() {
    let mut vm = vm_with(&[0x5001]);
    assert_eq!(vm.tick(), Err(VmError::UnknownOpcode));
}

#[test]
fn random_with_a_zero_mask_yields_zero() {
    let mut vm = vm_with(&[0xC000, 0xC1FF]);
    vm.cpu.ctx.registers[0] = 9;
    vm.tick().unwrap();
    assert_eq!(vm.cpu.ctx.registers[0], 0);
    assert_eq!(vm.tick(), Ok(()));
}

#[test]
fn index_register_opcodes() {
    let mut vm = vm_with(&[0xA123, 0xF01E, 0xF029]);
    vm.cpu.ctx.registers[0] = 2;
    vm.tick().unwrap();
    assert_eq!(vm.cpu.ctx.i_register, 0x123);
    vm.tick().unwrap();
    assert_eq!(vm.cpu.ctx.i_register, 0x125);
    vm.cpu.ctx.registers[0] = 0xA;
    vm.tick().unwrap();
    assert_eq!(vm.cpu.ctx.i_register, 50);
}

#[test]
fn index_increment_wraps_at_sixteen_bits() {
    let mut vm = vm_with(&[0xF01E]);
    vm.cpu.ctx.i_register = 0xFFFF;
    vm.cpu.ctx.registers[0] = 1;
    vm.tick().unwrap();
    assert_eq!(vm.cpu.ctx.i_register, 0);
}

#[test]
fn timer_opcodes_and_external_advance() {
    let mut vm = vm_with(&[0x6005, 0xF015, 0xF118, 0xF207]);
    vm.cpu.ctx.registers[1] = 2;
    vm.tick().unwrap();
    vm.tick().unwrap();
    vm.tick().unwrap();
    assert_eq!(vm.cpu.ctx.delay_timer, 5);
    assert_eq!(vm.cpu.ctx.sound_timer, 2);
    assert_eq!(vm.tick_timers(), (4, 1));
    assert_eq!(vm.tick_timers(), (3, 0));
    assert_eq!(vm.tick_timers(), (2, 0));
    vm.tick().unwrap();
    assert_eq!(vm.cpu.ctx.registers[2], 2);
}

#[test]
fn key_skip_opcodes() {
    let mut vm = vm_with(&[0xE09E, 0xE1A1]);
    vm.cpu.ctx.registers[0] = 5;
    vm.cpu.ctx.registers[1] = 5;
    vm.keypress(5, true).unwrap();
    vm.tick().unwrap();
    assert_eq!(vm.cpu.ctx.pc, 0x204);
    vm.tick().unwrap();
    assert_eq!(vm.cpu.ctx.pc, 0x206);
}

#[test]
fn key_skip_with_an_out_of_range_register_is_fatal() {
    let mut vm = vm_with(&[0xE09E]);
    vm.cpu.ctx.registers[0] = 20;
    assert_eq!(vm.tick(), Err(VmError::InvalidKeyIndex));
}

#[test]
fn wait_for_key_backs_off_until_a_key_is_pressed() {
    let mut vm = vm_with(&[0xF00A]);
    vm.tick().unwrap();
    assert_eq!(vm.cpu.ctx.pc, 0x200);
    vm.keypress(7, true).unwrap();
    vm.tick().unwrap();
    assert_eq!(vm.cpu.ctx.registers[0], 7);
    assert_eq!(vm.cpu.ctx.pc, 0x202);
}

#[test]
fn draw_toggles_pixels_and_reports_collision() {
    let mut vm = vm_with(&[0xA300, 0xD001, 0xD001]);
    vm.cpu.ctx.memory[0x300] = 0x80;
    vm.tick().unwrap();
    vm.tick().unwrap();
    assert!(vm.cpu.ctx.screen[0]);
    assert_eq!(vm.cpu.ctx.registers[15], 0);
    vm.tick().unwrap();
    assert!(!vm.cpu.ctx.screen[0]);
    assert_eq!(vm.cpu.ctx.registers[15], 1);
}

#[test]
fn draw_wraps_coordinates_against_the_viewport() {
    let mut vm = vm_with(&[0xA300, 0xD011]);
    vm.cpu.ctx.memory[0x300] = 0x80;
    vm.cpu.ctx.registers[0] = 64;
    vm.cpu.ctx.registers[1] = 32;
    vm.tick().unwrap();
    vm.tick().unwrap();
    assert!(vm.cpu.ctx.screen[0]);
}

#[test]
fn draw_past_the_end_of_memory_is_fatal() {
    let mut vm = vm_with(&[0xAFFF, 0xD002]);
    vm.tick().unwrap();
    assert_eq!(vm.tick(), Err(VmError::MemoryOutOfBounds));
}

#[test]
fn display_config_reports_the_viewport() {
    let vm = Chip8VM::new(Vec::new());
    let (w, h, screen) = vm.get_display_config();
    assert_eq!(w, 64);
    assert_eq!(h, 32);
    assert_eq!(screen.len(), 8192);
}

#[test]
fn default_machine_has_no_extensions() {
    let mut vm = Chip8VM::default();
    assert!(vm.extensions.is_empty());
    assert_eq!(vm.cpu.ctx.pc, START_ADDR);
    load_ops_single(&mut vm, 0x00FD);
    assert_eq!(vm.tick(), Err(VmError::UnknownOpcode));
}

fn load_ops_single(vm: &mut Chip8VM, op: u16) {
    vm.load(&[(op >> 8) as u8, (op & 0xFF) as u8]).unwrap();
}
