use chip8_vm::debugger::{DebugAction, Debugger};
use chip8_vm::error::VmError;
use chip8_vm::extensions::Extension;
use chip8_vm::superchip::SuperChip8;
use chip8_vm::vm::{Chip8VM, CpuState, ExtensionSlot};
use chip8_vm::xo::XoChip;

fn schip_vm(ops: &[u16]) -> Chip8VM {
    let mut vm = Chip8VM::new(vec![ExtensionSlot::Super(SuperChip8::new(true))]);
    load_ops(&mut vm, ops);
    vm
}

fn xo_vm(ops: &[u16]) -> Chip8VM {
    let mut vm = Chip8VM::new(vec![ExtensionSlot::Xo(XoChip::new(true))]);
    load_ops(&mut vm, ops);
    vm
}

fn load_ops(vm: &mut Chip8VM, ops: &[u16]) {
    let mut bytes: Vec<u8> = Vec::new();
    for op in ops {
        bytes.push((op >> 8) as u8);
        bytes.push((op & 0xFF) as u8);
    }
    vm.load(&bytes).unwrap();
}

#[test]
fn high_resolution_opcode_switches_the_viewport() {
    let mut vm = schip_vm(&[0x00FF, 0x00FE]);
    vm.tick().unwrap();
    assert_eq!(vm.cpu.ctx.current_width, 128);
    assert_eq!(vm.cpu.ctx.current_height, 64);
    assert_eq!(vm.cpu.ctx.pc, 0x202);
    vm.tick().unwrap();
    assert_eq!(vm.cpu.ctx.current_width, 64);
    assert_eq!(vm.cpu.ctx.current_height, 32);
}

#[test]
fn exit_opcode_is_a_fatal_halt() {
    let mut vm = schip_vm(&[0x00FD]);
    assert_eq!(vm.tick(), Err(VmError::Exit));
}

#[test]
fn inactive_extension_declines_everything() {
    let mut vm = Chip8VM::new(vec![ExtensionSlot::Super(SuperChip8::new(false))]);
    load_ops(&mut vm, &[0x00FD]);
    assert_eq!(vm.tick(), Err(VmError::UnknownOpcode));
}

#[test]
fn extension_names() {
    assert_eq!(SuperChip8::new(true).name(), "Super-CHIP");
    assert_eq!(XoChip::new(true).name(), "XO-Chip");
    assert!(SuperChip8::new(true).is_active());
    assert!(!XoChip::new(false).is_active());
}

#[test]
fn flag_storage_survives_register_changes() {
    let mut vm = schip_vm(&[0xF275, 0x6099, 0x6199, 0x6299, 0xF285]);
    vm.cpu.ctx.registers[0] = 1;
    vm.cpu.ctx.registers[1] = 2;
    vm.cpu.ctx.registers[2] = 3;
    for _ in 0..5 {
        vm.tick().unwrap();
    }
    assert_eq!(vm.cpu.ctx.registers[0], 1);
    assert_eq!(vm.cpu.ctx.registers[1], 2);
    assert_eq!(vm.cpu.ctx.registers[2], 3);
}

#[test]
fn flag_storage_past_the_bank_is_fatal() {
    let mut vm = schip_vm(&[0xF875]);
    assert_eq!(vm.tick(), Err(VmError::MemoryOutOfBounds));
}

#[test]
fn schip_large_font_lookup() {
    let mut vm = schip_vm(&[0xF030]);
    vm.cpu.ctx.registers[0] = 3;
    vm.tick().unwrap();
    assert_eq!(vm.cpu.ctx.i_register, 80 + 30);
}

#[test]
fn schip_sixteen_by_sixteen_draw() {
    let mut vm = schip_vm(&[0xA300, 0xD120]);
    vm.cpu.ctx.memory[0x300] = 0x80;
    vm.cpu.ctx.memory[0x301] = 0x01;
    vm.tick().unwrap();
    vm.tick().unwrap();
    assert!(vm.cpu.ctx.screen[0]);
    assert!(vm.cpu.ctx.screen[15]);
    assert_eq!(vm.cpu.ctx.registers[15], 0);
}

#[test]
fn schip_scrolls_move_the_screen() {
    let mut vm = schip_vm(&[0x00C2, 0x00FB, 0x00FC]);
    vm.cpu.ctx.screen[0] = true;
    vm.tick().unwrap();
    assert!(!vm.cpu.ctx.screen[0]);
    assert!(vm.cpu.ctx.screen[2 * 128]);
    vm.tick().unwrap();
    assert!(!vm.cpu.ctx.screen[2 * 128]);
    assert!(vm.cpu.ctx.screen[4 + 2 * 128]);
    vm.tick().unwrap();
    assert!(vm.cpu.ctx.screen[2 * 128]);
    assert!(!vm.cpu.ctx.screen[4 + 2 * 128]);
}

#[test]
fn schip_scroll_down_by_fifteen_rows() {
    let mut vm = schip_vm(&[0x00CF]);
    vm.cpu.ctx.screen[5] = true;
    vm.tick().unwrap();
    assert!(!vm.cpu.ctx.screen[5]);
    assert!(vm.cpu.ctx.screen[5 + 15 * 128]);
    let mut vm2 = schip_vm(&[0x00C0]);
    vm2.cpu.ctx.screen[5] = true;
    // A zero-row scroll moves nothing.
    vm2.tick().unwrap();
    assert!(vm2.cpu.ctx.screen[5]);
}

#[test]
fn xo_scroll_down_by_at_least_the_viewport_height_clears_outright() {
    let mut cpu = CpuState::new();
    cpu.ctx.plane_mask = 1;
    cpu.ctx.plane_1[7] = true;
    cpu.ctx.plane_2[7] = true;
    cpu.ctx.screen[7] = true;
    XoChip::scroll_down(&mut cpu.ctx, 40).unwrap();
    assert!(!cpu.ctx.plane_1[7]);
    assert!(cpu.ctx.plane_2[7]);
    assert!(!cpu.ctx.screen[7]);
}

#[test]
fn plane_mask_opcode_keeps_two_bits() {
    let mut vm = xo_vm(&[0xF001]);
    vm.cpu.ctx.registers[0] = 0x7;
    vm.tick().unwrap();
    assert_eq!(vm.cpu.ctx.plane_mask, 3);
}

#[test]
fn xo_draw_toggles_both_planes_and_reports_collision() {
    let mut vm = xo_vm(&[0xA300, 0xD011, 0xD011]);
    vm.cpu.ctx.plane_mask = 3;
    vm.cpu.ctx.memory[0x300] = 0xFF;
    vm.tick().unwrap();
    vm.tick().unwrap();
    for c in 0..8 {
        assert!(vm.cpu.ctx.plane_1[c]);
        assert!(vm.cpu.ctx.plane_2[c]);
    }
    assert_eq!(vm.cpu.ctx.registers[15], 0);
    vm.tick().unwrap();
    for c in 0..8 {
        assert!(!vm.cpu.ctx.plane_1[c]);
        assert!(!vm.cpu.ctx.plane_2[c]);
    }
    assert_eq!(vm.cpu.ctx.registers[15], 1);
}

#[test]
fn xo_draw_with_one_plane_selected_leaves_the_other_alone() {
    let mut vm = xo_vm(&[0xA300, 0xD011]);
    vm.cpu.ctx.plane_mask = 2;
    vm.cpu.ctx.memory[0x300] = 0x80;
    vm.tick().unwrap();
    vm.tick().unwrap();
    assert!(!vm.cpu.ctx.plane_1[0]);
    assert!(vm.cpu.ctx.plane_2[0]);
}

#[test]
fn xo_sixteen_by_sixteen_uses_a_second_bitmap_when_both_planes_are_on() {
    let mut vm = xo_vm(&[0xA300, 0xD120]);
    vm.cpu.ctx.plane_mask = 3;
    // The second plane draws only where the first bitmap has a set bit.
    vm.cpu.ctx.memory[0x300] = 0xC0;
    vm.cpu.ctx.memory[0x320] = 0x40;
    vm.tick().unwrap();
    vm.tick().unwrap();
    assert!(vm.cpu.ctx.plane_1[0]);
    assert!(vm.cpu.ctx.plane_1[1]);
    assert!(!vm.cpu.ctx.plane_2[0]);
    assert!(vm.cpu.ctx.plane_2[1]);
}

#[test]
fn xo_resolution_switch_clears_only_selected_planes() {
    let mut vm = xo_vm(&[0x00FF]);
    vm.cpu.ctx.plane_mask = 1;
    vm.cpu.ctx.plane_1[3] = true;
    vm.cpu.ctx.plane_2[3] = true;
    vm.tick().unwrap();
    assert_eq!(vm.cpu.ctx.current_width, 128);
    assert!(!vm.cpu.ctx.plane_1[3]);
    assert!(vm.cpu.ctx.plane_2[3]);
}

#[test]
fn xo_scroll_down_moves_selected_planes() {
    let mut vm = xo_vm(&[0x00C2]);
    vm.cpu.ctx.plane_mask = 1;
    vm.cpu.ctx.plane_1[0] = true;
    vm.cpu.ctx.plane_2[0] = true;
    vm.cpu.ctx.screen[0] = true;
    vm.tick().unwrap();
    assert!(!vm.cpu.ctx.plane_1[0]);
    assert!(vm.cpu.ctx.plane_1[2 * 128]);
    assert!(vm.cpu.ctx.plane_2[0]);
    assert!(vm.cpu.ctx.screen[0]);
}

#[test]
fn xo_scroll_group_keeps_the_legacy_meaning_of_the_low_byte_fc() {
    let mut vm = xo_vm(&[0x00FC]);
    vm.cpu.ctx.plane_mask = 1;
    vm.cpu.ctx.plane_1[4] = true;
    vm.tick().unwrap();
    assert!(vm.cpu.ctx.plane_1[0]);
    assert!(!vm.cpu.ctx.plane_1[4]);
}

#[test]
fn xo_scroll_right_moves_selected_planes() {
    let mut vm = xo_vm(&[0x00FB]);
    vm.cpu.ctx.plane_mask = 3;
    vm.cpu.ctx.plane_1[0] = true;
    vm.cpu.ctx.plane_2[1] = true;
    vm.tick().unwrap();
    assert!(vm.cpu.ctx.plane_1[4]);
    assert!(vm.cpu.ctx.plane_2[5]);
    assert!(!vm.cpu.ctx.plane_1[0]);
}

#[test]
fn xo_register_range_save_and_load_advance_the_index() {
    let mut vm = xo_vm(&[0xA400, 0x5132, 0x6100, 0x6200, 0x6300, 0xA400, 0x5133]);
    vm.cpu.ctx.registers[1] = 11;
    vm.cpu.ctx.registers[2] = 22;
    vm.cpu.ctx.registers[3] = 33;
    vm.tick().unwrap();
    vm.tick().unwrap();
    assert_eq!(vm.cpu.ctx.memory[0x400], 11);
    assert_eq!(vm.cpu.ctx.memory[0x401], 22);
    assert_eq!(vm.cpu.ctx.memory[0x402], 33);
    assert_eq!(vm.cpu.ctx.i_register, 0x403);
    for _ in 0..5 {
        vm.tick().unwrap();
    }
    assert_eq!(vm.cpu.ctx.registers[1], 11);
    assert_eq!(vm.cpu.ctx.registers[2], 22);
    assert_eq!(vm.cpu.ctx.registers[3], 33);
    assert_eq!(vm.cpu.ctx.i_register, 0x403);
}

#[test]
fn xo_register_range_with_descending_bounds_is_declined() {
    let mut vm = xo_vm(&[0x5212]);
    assert_eq!(vm.tick(), Err(VmError::UnknownOpcode));
}

#[test]
fn xo_audio_opcode_checks_its_buffer() {
    let mut vm = xo_vm(&[0xF00F]);
    vm.cpu.ctx.i_register = 0x300;
    vm.cpu.ctx.registers[0] = 16;
    assert_eq!(vm.tick(), Ok(()));

    let mut vm2 = xo_vm(&[0xF00F]);
    vm2.cpu.ctx.i_register = 4090;
    vm2.cpu.ctx.registers[0] = 10;
    assert_eq!(vm2.tick(), Err(VmError::AudioOutOfBounds));
}

#[test]
fn xo_audio_conversion_recentres_and_scales_samples() {
    let xo = XoChip::new(true);
    let mut cpu = CpuState::new();
    cpu.ctx.i_register = 0x300;
    cpu.ctx.registers[0] = 3;
    cpu.ctx.memory[0x300] = 0;
    cpu.ctx.memory[0x301] = 128;
    cpu.ctx.memory[0x302] = 255;
    let wave = xo.play_audio(&mut cpu.ctx, 0).unwrap();
    assert_eq!(wave, vec![-32768, 0, 32512]);
}

#[test]
fn xo_variable_left_scroll() {
    let mut cpu = CpuState::new();
    cpu.ctx.plane_mask = 1;
    cpu.ctx.plane_1[6] = true;
    XoChip::scroll_left_n(&mut cpu.ctx, 0).unwrap();
    assert!(cpu.ctx.plane_1[6]);
    XoChip::scroll_left_n(&mut cpu.ctx, 2).unwrap();
    assert!(cpu.ctx.plane_1[4]);
    assert!(!cpu.ctx.plane_1[6]);
}

#[test]
fn first_registered_extension_wins_the_opcode() {
    let mut vm = Chip8VM::new(
        vec![
            ExtensionSlot::Super(SuperChip8::new(true)),
            ExtensionSlot::Xo(XoChip::new(true)),
        ],
    );
    load_ops(&mut vm, &[0x00FF]);
    vm.cpu.ctx.plane_mask = 3;
    vm.cpu.ctx.plane_1[9] = true;
    vm.tick().unwrap();
    // The resolution extension consumed the opcode, so the multi-plane
    // extension's plane-clearing high-resolution switch never ran.
    assert_eq!(vm.cpu.ctx.current_width, 128);
    assert!(vm.cpu.ctx.plane_1[9]);
}

#[test]
fn debugger_breakpoints_round_trip() {
    let mut dbg = Debugger::new();
    assert!(!dbg.should_break(0x200));
    dbg.set_breakpoint(0x200);
    assert!(dbg.should_break(0x200));
    dbg.clear_breakpoint(0x200);
    assert!(!dbg.should_break(0x200));
}

#[test]
fn debugger_parses_simple_commands() {
    let mut dbg = Debugger::new();
    let cpu = CpuState::new();
    assert_eq!(dbg.parse_and_execute("q", &cpu), Ok(DebugAction::Quit));
    assert_eq!(dbg.parse_and_execute("quit", &cpu), Ok(DebugAction::Quit));
    assert_eq!(dbg.parse_and_execute("s", &cpu), Ok(DebugAction::Step));
    assert_eq!(dbg.parse_and_execute("step", &cpu), Ok(DebugAction::Step));
    assert_eq!(dbg.parse_and_execute("c", &cpu), Ok(DebugAction::Continue));
    assert_eq!(dbg.parse_and_execute("", &cpu), Ok(DebugAction::Continue));
    assert_eq!(dbg.parse_and_execute("   \t ", &cpu), Ok(DebugAction::Continue));
    assert_eq!(dbg.parse_and_execute("help", &cpu), Ok(DebugAction::Help));
    assert_eq!(dbg.parse_and_execute("h", &cpu), Ok(DebugAction::Help));
}

#[test]
fn debugger_parses_info_commands() {
    let mut dbg = Debugger::new();
    let cpu = CpuState::new();
    assert_eq!(dbg.parse_and_execute("info registers", &cpu), Ok(DebugAction::ShowRegisters));
    assert_eq!(dbg.parse_and_execute("i r", &cpu), Ok(DebugAction::ShowRegisters));
    assert_eq!(dbg.parse_and_execute("i b", &cpu), Ok(DebugAction::ShowBreakpoints));
    assert_eq!(
        dbg.parse_and_execute("info memory 0x200 16", &cpu),
        Ok(DebugAction::ShowMemory(0x200, 16))
    );
    assert_eq!(
        dbg.parse_and_execute("info", &cpu),
        Err("Usage: info <registers|memory|breakpoints>".to_string())
    );
    assert_eq!(
        dbg.parse_and_execute("info memory 0x200", &cpu),
        Err("Usage: info memory <addr> <len>".to_string())
    );
    assert_eq!(
        dbg.parse_and_execute("info memory 0x200 abc", &cpu),
        Err("Invalid length".to_string())
    );
    assert_eq!(
        dbg.parse_and_execute("info bogus", &cpu),
        Err("Unknown info command. Try: registers, memory, breakpoints".to_string())
    );
}

#[test]
fn debugger_sets_and_clears_breakpoints_by_command() {
    let mut dbg = Debugger::new();
    let cpu = CpuState::new();
    assert_eq!(dbg.parse_and_execute("break 0x300", &cpu), Ok(DebugAction::ShowBreakpoints));
    assert!(dbg.should_break(0x300));
    assert_eq!(dbg.parse_and_execute("b 0x0x12", &cpu), Ok(DebugAction::ShowBreakpoints));
    assert!(dbg.should_break(0x12));
    assert_eq!(dbg.parse_and_execute("clear 0x300", &cpu), Ok(DebugAction::ShowBreakpoints));
    assert!(!dbg.should_break(0x300));
    assert_eq!(dbg.parse_and_execute("break", &cpu), Err("Usage: break <addr>".to_string()));
    assert_eq!(
        dbg.parse_and_execute("clear 1 2", &cpu),
        Err("Usage: clear <addr>".to_string())
    );
    assert_eq!(
        dbg.parse_and_execute("break zz", &cpu),
        Err("Invalid address: zz".to_string())
    );
    assert_eq!(
        dbg.parse_and_execute("break 0x10000", &cpu),
        Err("Invalid address: 10000".to_string())
    );
    assert_eq!(
        dbg.parse_and_execute("bogus", &cpu),
        Err("Unknown command: bogus".to_string())
    );
}
