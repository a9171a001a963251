use chip8::cpu::Chip8;
use chip8::memory::{ProgramTooLargeError, PROGRAM_START};

const LOWER_MEMORY_BOUNDARY: u16 = PROGRAM_START as u16;

fn create_and_load(program: &Vec<u8>) -> Result<Chip8, ProgramTooLargeError> {
    let mut chip8 = Chip8::new();

    chip8.load_into_memory(program.clone())?;

    Ok(chip8)
}

#[test]
fn test_load_program() {
    let program: Vec<u8> = [0; 512].to_vec();

    let chip8 = create_and_load(&program);
    assert!(chip8.is_ok())
}

#[test]
fn test_load_program_that_is_too_big() {
    let program: Vec<u8> = [0; 8192].to_vec();

    let chip8 = create_and_load(&program);
    assert!(chip8.is_err())
}

#[test]
fn test_clear_screen() {
    // 0x00E0; clear the screen
    let program: Vec<u8> = vec![0x0, 0xE0];

    let mut chip8 = create_and_load(&program).unwrap();

    // draw a box for testing
    for y in 0..10 {
        for x in 0..10 {
            chip8.screen.draw_pixel_at_location(x, y);
        }
    }

    let _ = chip8.run();

    let all_empty = chip8.screen.how_many_ones();

    assert_eq!(all_empty, 0);
    assert_eq!(chip8.pc, LOWER_MEMORY_BOUNDARY + 2);
}

#[test]
fn test_return_from_subroutine() {
    // 0x00EE; returns from subroutine
    let program: Vec<u8> = vec![
        0x22, 0xA,
        0x0, 0x0,
        0x0, 0xE0,
        0x0, 0xE0,
        0x0, 0xE0,
        0x0, 0xEE,
    ];

    let mut chip8 = create_and_load(&program).unwrap();

    chip8.i = LOWER_MEMORY_BOUNDARY;

    assert_eq!(chip8.stack.len(), 0);

    let orig_pc = chip8.pc;

    // the first time through will jump to the beginning
    // of the subroutine
    let _ = chip8.run();

    // assert_eq!(chip8.pc, 0x20A);
    // assert_eq!(chip8.stack.len(), 1);
    // assert_eq!(chip8.stack[0], LOWER_MEMORY_BOUNDARY as u16);
    //
    // and the second time through should return from it
    // let _ = chip8.run();

    assert_eq!(chip8.pc, orig_pc + 2);
    assert_eq!(chip8.stack.len(), 0);
    assert_eq!(chip8.memory.read(chip8.pc), 0x0);
}

#[test]
fn test_jump_to_address() {
    // 0x1NNN: jumps to address NNN
    let program: Vec<u8> = vec![
        0x10, 0xDC
    ];

    let mut chip8 = create_and_load(&program).unwrap();

    assert_eq!(chip8.memory.read(0xDC), 0);
    chip8.memory.write(0xDC, 0x0);
    chip8.memory.write(0xDD, 0x0);
    assert_eq!(chip8.memory.read(0xDC), 0x0);
    assert_eq!(chip8.memory.read(0xDD), 0x0);

    let _ = chip8.run();

    assert_eq!(chip8.pc, 0xDC);
    assert_eq!(chip8.memory.read(chip8.pc), 0x0);
}

#[test]
fn test_call_subroutine_at_nnn() {
    // 0x2NNN: calls subroutine at NNN
    let program: Vec<u8> = vec![0x20, 0xDC];

    let mut chip8 = create_and_load(&program).unwrap();

    assert_eq!(chip8.stack.len(), 0);

    let _ = chip8.run();

    assert_eq!(chip8.pc, 0xDC);
    assert_eq!(chip8.stack.len(), 1);
    assert_eq!(chip8.stack[0], 512);
}

#[test]
fn test_skip_next_instruction_if_vx_equals_nn_positive() {
    // 0x3XNN: Skips the next instruction if VX equals NN.
    let program: Vec<u8> = vec![0x34, 0x17];

    let mut chip8 = create_and_load(&program).unwrap();

    chip8.register[4] = 0x17;

    let orig_pc = chip8.pc;

    let _ = chip8.run();

    assert_eq!(chip8.pc, orig_pc + 4);
}

#[test]
fn test_skip_next_instruction_if_vx_equals_nn_negative() {
    // 0x3XNN: Skips the next instruction if VX equals NN.
    let program: Vec<u8> = vec![0x34, 0x17];

    let mut chip8 = create_and_load(&program).unwrap();

    chip8.register[4] = 0x23;

    let orig_pc = chip8.pc;

    let _ = chip8.run();

    assert_eq!(chip8.pc, orig_pc + 2);
}

#[test]
fn test_skip_next_instruction_if_vx_does_not_equal_nn_positive() {
    // 0x4XNN: Skips the next instruction if VX doesn't equal NN.
    let program: Vec<u8> = vec![0x44, 0x17];

    let mut chip8 = create_and_load(&program).unwrap();

    chip8.register[4] = 0x23;

    let orig_pc = chip8.pc;

    let _ = chip8.run();

    assert_eq!(chip8.pc, orig_pc + 4);
}

#[test]
fn test_skip_next_instruction_if_vx_does_not_equal_nn_negative() {
    // 0x4XNN: Skips the next instruction if VX doesn't equal NN.
    let program: Vec<u8> = vec![0x44, 0x17];

    let mut chip8 = create_and_load(&program).unwrap();

    chip8.register[4] = 0x17;

    let orig_pc = chip8.pc;

    let _ = chip8.run();

    assert_eq!(chip8.pc, orig_pc + 2);
}

#[test]
fn test_skip_next_instruction_if_vx_equals_vy_positive() {
    // 0x5XY0: Skips the next instruction if VX equals VY.
    let program: Vec<u8> = vec![0x54, 0x60];

    let mut chip8 = create_and_load(&program).unwrap();

    chip8.register[4] = 0x17;
    chip8.register[6] = 0x17;

    let orig_pc = chip8.pc;

    let _ = chip8.run();

    assert_eq!(chip8.pc, orig_pc + 4);
}

#[test]
fn test_skip_next_instruction_if_vx_equals_vy_negative() {
    // 0x5XY0: Skips the next instruction if VX equals VY.
    let program: Vec<u8> = vec![0x54, 0x60];

    let mut chip8 = create_and_load(&program).unwrap();

    chip8.register[4] = 0x17;
    chip8.register[6] = 0x23;

    let orig_pc = chip8.pc;

    let _ = chip8.run();

    assert_eq!(chip8.pc, orig_pc + 2);
}

#[test]
fn test_set_vx_to_nn() {
    // 0x6XNN: Sets VX to NN.
    let program: Vec<u8> = vec![0x64, 0xAA];

    let chip8 = create_and_load(&program).unwrap();

    assert_eq!(chip8.register[4], 0);

    let mut chip8 = create_and_load(&program).unwrap();

    let _ = chip8.run();

    assert_eq!(chip8.register[4], 0xAA);
}

#[test]
fn test_add_nn_to_vx() {
    // 0x7XNN: Adds NN to VX. (Carry flag is not changed)
    let program: Vec<u8> = vec![0x74, 0xAA];

    let mut chip8 = create_and_load(&program).unwrap();

    chip8.register[4] = 0x10;

    let _ = chip8.run();

    assert_eq!(chip8.register[4], 0xBA);
}

#[test]
fn test_add_nn_to_vx_wrapping() {
    // 0x7XNN: Adds NN to VX. (Carry flag is not changed)
    let program: Vec<u8> = vec![0x74, 0xAA, 0x0, 0x0];

    let mut chip8 = create_and_load(&program).unwrap();

    chip8.register[4] = 0xBA;

    let _ = chip8.run();

    assert_eq!(chip8.register[4], 0x64);
}

#[test]
fn test_set_vx_to_value_of_vy() {
    // 0x8XY0: Sets VX to the value of VY.
    let program: Vec<u8> = vec![0x84, 0x50];

    let mut chip8 = create_and_load(&program).unwrap();

    chip8.register[4] = 0xBA;
    chip8.register[5] = 0xDD;

    let _ = chip8.run();

    assert_eq!(chip8.register[4], 0xDD);
    assert_eq!(chip8.register[5], 0xDD);
}

#[test]
fn test_set_vx_to_vx_or_vy() {
    // 0x8XY1: Sets VX to VX or VY. (Bitwise OR operation)
    let program: Vec<u8> = vec![0x84, 0x51];

    let mut chip8 = create_and_load(&program).unwrap();

    chip8.register[4] = 0xBA;
    chip8.register[5] = 0xCC;

    let _ = chip8.run();

    assert_eq!(chip8.register[4], 0xFE);
    assert_eq!(chip8.register[5], 0xCC);
}

#[test]
fn test_set_vx_to_vx_and_vy() {
    // 0x8XY2: Sets VX to VX and VY. (Bitwise AND operation)
    let program: Vec<u8> = vec![0x84, 0x52];

    let mut chip8 = create_and_load(&program).unwrap();

    chip8.register[4] = 0xBA;
    chip8.register[5] = 0xCC;

    let _ = chip8.run();

    assert_eq!(chip8.register[4], 0x88);
    assert_eq!(chip8.register[5], 0xCC);
}

#[test]
fn test_set_vx_to_vx_xor_vy() {
    // 0x8XY3: Sets VX to VX xor VY.
    let program: Vec<u8> = vec![0x84, 0x53];

    let mut chip8 = create_and_load(&program).unwrap();

    chip8.register[4] = 0xBA;
    chip8.register[5] = 0xCC;

    let _ = chip8.run();

    assert_eq!(chip8.register[4], 0x76);
    assert_eq!(chip8.register[5], 0xCC);
}

#[test]
fn test_add_vy_to_vx_with_carry() {
    // 0x8XY4: Adds VY to VX. VF is set to 1 when there's a carry, and to 0 when there isn't.
    let program: Vec<u8> = vec![0x84, 0x54];

    let mut chip8 = create_and_load(&program).unwrap();

    assert_eq!(chip8.register[0xF], 0);

    chip8.register[4] = 0xBA;
    chip8.register[5] = 0xCC;

    let _ = chip8.run();

    assert_eq!(chip8.register[4], 0x86);
    assert_eq!(chip8.register[0xF], 1);
}

#[test]
fn test_add_vy_to_vx_without_carry() {
    // 0x8XY4: Adds VY to VX. VF is set to 1 when there's a carry, and to 0 when there isn't.
    let program: Vec<u8> = vec![0x84, 0x54];

    let mut chip8 = create_and_load(&program).unwrap();

    assert_eq!(chip8.register[0xF], 0);

    chip8.register[4] = 0xBA;
    chip8.register[5] = 0x10;

    let _ = chip8.run();

    assert_eq!(chip8.register[4], 0xCA);
    assert_eq!(chip8.register[0xF], 0);
}

#[test]
fn test_subtract_vy_from_vx_with_borrow() {
    // 0x8XY5: VY is subtracted from VX. VF is set to 0 when there's a borrow,
    // and 1 when there isn't.
    let program: Vec<u8> = vec![0x84, 0x55];

    let mut chip8 = create_and_load(&program).unwrap();

    chip8.register[4] = 0xBA;
    chip8.register[5] = 0xCC;

    let _ = chip8.run();

    // With a borrow, VX := |VY - VX + 1| mod 256 = 0xCC - 0xBA + 1.
    assert_eq!(chip8.register[4], 0x13);
    assert_eq!(chip8.register[0xF], 0);
}

#[test]
fn test_store_least_significant_bit_of_vx_in_vf_and_shift_vx_right_by_1() {
    // 0x8XY6: Stores the least significant bit of VX in VF and then shifts VX to
    // the right by 1.
    let program: Vec<u8> = vec![0x84, 0x56];

    let mut chip8 = create_and_load(&program).unwrap();

    chip8.register[4] = 0xBB;
    chip8.register[0xF] = 0x0;

    let _ = chip8.run();

    assert_eq!(chip8.register[4], 0x5D);
    assert_eq!(chip8.register[0xF], 1);
}

#[test]
fn test_set_vx_to_vy_minus_vx_with_borrow() {
    // 0x8XY7: Sets VX to VY minus VX. VF is set to 0 when there's a borrow, and 1
    // when there isn't.
    let program: Vec<u8> = vec![0x84, 0x57];

    let mut chip8 = create_and_load(&program).unwrap();

    chip8.register[4] = 0xCC;
    chip8.register[5] = 0xBA;

    let _ = chip8.run();

    assert_eq!(chip8.register[4], 0x11);
    assert_eq!(chip8.register[0xF], 0);
}

#[test]
fn test_store_most_significant_bit_of_vx_in_vf_and_shift_vx_right_by_1() {
    // 0x8XYE: Stores the most significant bit of VX in VF and then shifts VX to the left by 1.
    let program: Vec<u8> = vec![0x84, 0x5E];

    let mut chip8 = create_and_load(&program).unwrap();

    chip8.register[4] = 0xF0;
    chip8.register[0xF] = 0x0;

    let _ = chip8.run();

    assert_eq!(chip8.register[4], 0xE0);
    assert_eq!(chip8.register[0xF], 1);
}

#[test]
fn test_skip_next_instruction_if_vx_does_not_equal_vy_positive() {
    // 0x9XY0: Skips the next instruction if VX doesn't equal VY. (Usually the next
    // instruction is a jump to skip a code block)
    let program: Vec<u8> = vec![0x94, 0x60];

    let mut chip8 = create_and_load(&program).unwrap();

    chip8.register[4] = 0x23;
    chip8.register[6] = 0x17;

    let orig_pc = chip8.pc;

    let _ = chip8.run();

    assert_eq!(chip8.pc, orig_pc + 4);
}

#[test]
fn test_skip_next_instruction_if_vx_does_not_equal_vy_negative() {
    // 0x9XY0: Skips the next instruction if VX doesn't equal VY. (Usually the next
    // instruction is a jump to skip a code block)
    let program: Vec<u8> = vec![0x94, 0x60];

    let mut chip8 = create_and_load(&program).unwrap();

    chip8.register[4] = 0x17;
    chip8.register[6] = 0x17;

    let orig_pc = chip8.pc;

    let _ = chip8.run();

    assert_eq!(chip8.pc, orig_pc + 2);
}

#[test]
fn test_set_i_to_address_nnn() {
    // 0xANNN: sets I to the address NNN
    let program: Vec<u8> = vec![0xA0, 0xDC];

    let mut chip8 = create_and_load(&program).unwrap();

    assert_eq!(chip8.i, 0);

    let _ = chip8.run();

    assert_eq!(chip8.i, 0xDC);
}

#[test]
fn test_jump_to_nnn_plus_v0() {
    // 0xBNNN: Jumps to the address NNN plus V0.
    let program: Vec<u8> = vec![0xB0, 0xDC];

    let mut chip8 = create_and_load(&program).unwrap();

    assert_eq!(chip8.i, 0);

    chip8.register[0] = 0x17;

    let _ = chip8.run();

    assert_eq!(chip8.pc, 0xF3);
}

#[test]
fn test_draw_sprite_at_x_y_with_height_n_with_no_collision() {
    // 0xDXYN: Draws a sprite at coordinate (VX, VY) that has a width of 8 pixels
    // and a height of N pixels.
    let height = 5;
    let start_x = 10;
    let start_y = 10;

    // Draw the 0 pixel at (10, 10)
    let program: Vec<u8> = vec![0xD4, 0x65];

    let mut chip8 = create_and_load(&program).unwrap();

    let how_many_ones = chip8.screen.how_many_ones();

    assert_eq!(how_many_ones, 0);
    assert_eq!(chip8.register[0xF], 0);

    // set i to the first sprite in the font set (the number 0)
    chip8.i = 0;
    chip8.register[4] = start_x;
    chip8.register[6] = start_y;

    let _ = chip8.run();

    let x_coord = (start_x % 32) as usize;
    let y_coord = (start_y % 64) as usize;

    let start_pixel = (y_coord * 64) + x_coord;
    let how_many_ones = chip8.screen.how_many_ones();

    assert_eq!(how_many_ones, 14);
    assert_eq!(chip8.register[0xF], 0);
}

#[test]
fn test_draw_sprite_at_x_y_with_height_n_with_collision() {
    // 0xDXYN: Draws a sprite at coordinate (VX, VY) that has a width of 8 pixels
    // and a height of N pixels.
    let height = 5;
    let start_x = 10;
    let start_y = 10;

    // Draw the 0 pixel at (10, 10), twice, which should result in
    // 0 pixels being set to 1, and the `chip8.register[0xF]` should be set to 1,
    // indicating a collistion
    let program: Vec<u8> = vec![0xD4, 0x65, 0xD4, 0x65];

    let mut chip8 = create_and_load(&program).unwrap();

    let how_many_ones = chip8.screen.how_many_ones();

    assert_eq!(how_many_ones, 0);
    assert_eq!(chip8.register[0xF], 0);

    // set i to the first sprite in the font set (the number 0)
    chip8.i = 0;
    chip8.register[4] = start_x;
    chip8.register[6] = start_y;

    // This will draw the `0` in the first step, and overwrite said zero at the second step.
    let _ = chip8.run();

    let x_coord = (start_x % 32) as usize;
    let y_coord = (start_y % 64) as usize;

    let start_pixel = (y_coord * 64) + x_coord;
    let end_pixel = start_pixel + (64 * height);

    let how_many_ones = chip8.screen.how_many_ones();

    assert_eq!(how_many_ones, 0);
    assert_eq!(chip8.register[0xF], 1);
}

#[test]
fn test_skip_next_instruction_if_key_in_vx_is_pressed_positive() {
    // 0xEX9E: Skips the next instruction if the key stored in VX is pressed.
    let key_index: u8 = 0x4;
    let program: Vec<u8> = vec![0xE4, 0x9E];

    let mut chip8 = create_and_load(&program).unwrap();

    let orig_pc = chip8.pc;

    chip8.register[4] = key_index;
    chip8.keyboard.keypress(key_index);

    let _ = chip8.execute_single_instruction();

    assert_eq!(chip8.pc, orig_pc + 4);
}

#[test]
fn test_skip_next_instruction_if_key_in_vx_is_pressed_negative() {
    // 0xEX9E: Skips the next instruction if the key stored in VX is pressed.
    let key_index: u8 = 0x4;
    let program: Vec<u8> = vec![0xE4, 0x9E];

    let mut chip8 = create_and_load(&program).unwrap();
    let keys_pressed = chip8.keyboard.any_key_pressed();

    assert_eq!(keys_pressed, false);

    let orig_pc = chip8.pc;

    chip8.register[4] = key_index;

    let keys_pressed = chip8.keyboard.any_key_pressed();
    assert_eq!(keys_pressed, false);

    chip8.keyboard.keypress(key_index);

    let _ = chip8.execute_single_instruction();

    assert_eq!(chip8.pc, orig_pc + 4);
}

#[test]
fn test_skip_next_instruction_if_key_in_vx_is_not_pressed_positive() {
    // 0xEXA1: Skips the next instruction if the key stored in VX isn't pressed.
    let key_index: u8 = 0x4;
    let program: Vec<u8> = vec![0xE4, 0xA1];

    let mut chip8 = create_and_load(&program).unwrap();
    let keys_pressed = chip8.keyboard.any_key_pressed();

    assert_eq!(keys_pressed, false);

    let orig_pc = chip8.pc;

    chip8.register[4] = key_index;

    let _ = chip8.run();

    let keys_pressed = chip8.keyboard.any_key_pressed();

    assert_eq!(keys_pressed, false);
    assert_eq!(chip8.pc, orig_pc + 4);
}

#[test]
fn test_skip_next_instruction_if_key_in_vx_is_not_pressed_negative() {
    // 0xEXA1: Skips the next instruction if the key stored in VX isn't pressed.
    let key_index: u8 = 0x4;
    let program: Vec<u8> = vec![0xE4, 0xA1];

    let mut chip8 = create_and_load(&program).unwrap();
    let keys_pressed = chip8.keyboard.any_key_pressed();

    assert_eq!(keys_pressed, false);

    let orig_pc = chip8.pc;

    chip8.register[4] = key_index;
    chip8.keyboard.keypress(key_index);

    let _ = chip8.execute_single_instruction();

    let keys_pressed = chip8.keyboard.any_key_pressed();

    assert_eq!(keys_pressed, true);
    assert_eq!(chip8.pc, orig_pc + 2);
}

#[test]
fn test_set_vx_to_value_of_delay_timer() {
    // 0xFX07: Sets VX to the value of the delay timer.
    let test_value: u8 = 23;
    let program: Vec<u8> = vec![0xF4, 0x07];

    let mut chip8 = create_and_load(&program).unwrap();

    assert_eq!(chip8.delay_timer, 0);

    chip8.delay_timer = test_value;

    let _ = chip8.run();

    assert_eq!(chip8.register[4], test_value);
}

#[test]
fn test_wait_for_keypress() {
    // 0xFX0A: A key press is awaited, and then stored in VX.
    // (Blocking Operation. All instruction halted until next key event)
    let key_index: u8 = 0x4;
    let program: Vec<u8> = vec![
        0xF4, 0x0A
    ];

    let mut chip8 = create_and_load(&program).unwrap();

    assert_eq!(chip8.register[4], 0);
    let orig_pc = chip8.pc;

    // After this, everything should be just as it was,
    // since no key has been pressed and program counter wasn't incremented
    let _ = chip8.execute_single_instruction();

    assert_eq!(chip8.pc, orig_pc);

    // Now set the key, and go again
    chip8.keyboard.keypress(key_index);

    // After this time, the key index should be in `chip8.register[4]`,
    // the `chip8.key` array should be all `0`, and `self.pc` should have been advanced
    let _ = chip8.execute_single_instruction();

    assert_eq!(chip8.register[4], key_index);
    assert_eq!(chip8.pc, orig_pc + 2);
}

#[test]
fn test_set_delay_timer_to_vx() {
    // 0xFX15: Sets the delay timer to VX.
    let program: Vec<u8> = vec![0xF4, 0x15];

    let mut chip8 = create_and_load(&program).unwrap();

    assert_eq!(chip8.delay_timer, 0);

    chip8.register[4] = 0x17;

    let _ = chip8.run();

    // the value is 1 less than what was set, because
    // the `process_timers` method has been called
    assert_eq!(chip8.delay_timer, 0x17 - 1);
}

#[test]
fn test_set_sound_timer_to_vx() {
    // 0xFX18: Sets the delay timer to VX.
    let program: Vec<u8> = vec![0xF4, 0x18];

    let mut chip8 = create_and_load(&program).unwrap();

    assert_eq!(chip8.sound_timer, 0);

    chip8.register[4] = 0x17;

    let _ = chip8.run();

    // the value is 1 less than what was set, because
    // the `process_timers` method has been called
    assert_eq!(chip8.sound_timer, 0x17 - 1);
}

#[test]
fn test_add_vx_to_i_with_no_overflow() {
    // 0xFX1E: Adds VX to I. VF is set to 1 when there is a range overflow (I+VX>0xFFF),
    // and to 0 when there isn't.
    let program: Vec<u8> = vec![0xF4, 0x1E];

    let mut chip8 = create_and_load(&program).unwrap();

    chip8.i = 0xA;
    chip8.register[4] = 0x17;

    let _ = chip8.run();

    assert_eq!(chip8.i, 0x21);
    assert_eq!(chip8.register[0xF], 0);
}

#[test]
fn test_add_vx_to_i_with_overflow() {
    // 0xFX1E: Adds VX to I. VF is set to 1 when there is a range overflow (I+VX>0xFFF),
    // and to 0 when there isn't.
    let program: Vec<u8> = vec![0xF4, 0x1E];

    let mut chip8 = create_and_load(&program).unwrap();

    chip8.i = 0xFFA;
    chip8.register[4] = 0xA;

    let _ = chip8.run();

    assert_eq!(chip8.i, 0x1004);
    assert_eq!(chip8.register[0xF], 1);
}

#[test]
fn test_set_i_to_location_of_sprite_for_character_in_vx() {
    // 0xFX29: Sets I to the location of the sprite for the character in VX.
    // Characters 0-F (in hexadecimal) are represented by a 4x5 font.
    let program: Vec<u8> = vec![0xF4, 0x29];

    let mut chip8 = create_and_load(&program).unwrap();

    chip8.register[4] = 2;

    let _ = chip8.run();

    assert_eq!(chip8.i, 10);
}

#[test]
fn test_store_binary_coded_decimal_representation_of_vx() {
    // 0xFX33: Stores the binary-coded decimal representation of VX, with the most
    // significant of three digits at the address in I, the middle digit at I plus 1,
    // and the least significant digit at I plus 2.
    let program: Vec<u8> = vec![0xF4, 0x33];

    let mut chip8 = create_and_load(&program).unwrap();

    let first_i = LOWER_MEMORY_BOUNDARY;
    chip8.i = first_i;
    chip8.register[4] = 0xDC;

    let _ = chip8.run();

    assert_eq!(chip8.memory.read(first_i), 2);
    assert_eq!(chip8.memory.read(first_i + 1), 2);
    assert_eq!(chip8.memory.read(first_i + 2), 0);
}

#[test]
fn test_store_v0_to_vx_in_memory_starting_at_address_i() {
    // 0xFX55: Stores V0 to VX (including VX) in memory starting at address I.
    // The offset from I is increased by 1 for each value written, but I itself
    // is left unmodified.

    let program: Vec<u8> = vec![
        0xF4, 0x55,
        0x0, 0x0 // exit
    ];

    let mut chip8 = create_and_load(&program).unwrap();

    let first_i = LOWER_MEMORY_BOUNDARY + 4;
    chip8.i = first_i;

    for i in 0..5 {
        chip8.register[i as usize] = i + 1;
    }

    let _ = chip8.run();

    for i in 0..5 {
        assert_eq!(chip8.memory.read(first_i + i), (i + 1) as u8);
    }
}

#[test]
fn test_fill_v0_to_vx_with_values_from_memory_starting_at_address_i() {
    // 0xFX65: Fills V0 to VX (including VX) with values from memory
    // starting at address I. The offset from I is increased by 1 for
    // each value written, but I itself is left unmodified.
    let program: Vec<u8> = vec![
        0xF4, 0x65,
        0x0, 0x0 // exit
    ];

    let mut chip8 = create_and_load(&program).unwrap();

    let first_i = (LOWER_MEMORY_BOUNDARY + 4);
    chip8.i = first_i;

    for i in 0..5 {
        chip8.memory.write(first_i + i, i as u8 + 1);
    }

    let _ = chip8.run();

    for i in 0..5 {
        assert_eq!(chip8.register[i as usize], i + 1);
    }
}
