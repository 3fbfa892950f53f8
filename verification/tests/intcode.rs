use aoc2019::intcode::{Computer, ParseError, VmError};

#[test]
fn should_not_modify_memory_on_creation() {
    let computer = Computer::from_vec(vec![1, 2, 3, 4, 99]);
    let memory = computer.read_memory();

    assert_eq!(&vec![1, 2, 3, 4, 99], memory);
}

#[test]
fn should_panic_on_unexpected_opcode() {
    let mut computer = Computer::from_vec(vec![31, 2, 1, 4, 99]);
    assert_eq!(computer.step(), Err(VmError::UnknownOpcode));
}

#[test]
fn should_generate_from_string() {
    let vec_computer = Computer::from_vec(vec![1, 0, 0, 0, 99]);
    let string_computer = Computer::from_string("1, 0, 0, 0, 99").unwrap();

    assert_eq!(vec_computer.read_memory(), string_computer.read_memory());
}

#[test]
fn should_add() {
    let mut computer = Computer::from_vec(vec![1, 0, 0, 0, 99]);
    computer.step().unwrap();

    // Comparing the entire memory to make sure we're not corrupting memory.
    assert_eq!(computer.read_memory(), &vec![2, 0, 0, 0, 99]);

    // Making sure read matches read_memory.
    assert_eq!(computer.read(0), 2);
}

#[test]
fn should_multiply() {
    let mut computer = Computer::from_vec(vec![2, 3, 0, 3, 99]);
    computer.step().unwrap();

    // Comparing the entire memory to make sure we're not corrupting memory.
    assert_eq!(computer.read_memory(), &vec![2, 3, 0, 6, 99]);

    // Making sure read matches read_memory.
    assert_eq!(computer.read(3), 6);
}

#[test]
fn should_handle_multiple_ops() {
    let mut computer = Computer::from_vec(vec![1, 1, 1, 4, 99, 5, 6, 0, 99]);

    computer.run().unwrap();

    assert_eq!(computer.read_memory(), &vec![30, 1, 1, 4, 2, 5, 6, 0, 99]);
}

#[test]
fn should_handle_long_source() {
    let mut computer = Computer::from_vec(vec![1, 9, 10, 3, 2, 3, 11, 0, 99, 30, 40, 50]);

    computer.run().unwrap();

    assert_eq!(
        computer.read_memory(),
        &vec![3500, 9, 10, 70, 2, 3, 11, 0, 99, 30, 40, 50]
    );
}

#[test]
fn should_panic_on_unexpected_mode() {
    let mut computer = Computer::from_vec(vec![9002, 4, 3, 4, 33]);

    assert_eq!(computer.run(), Err(VmError::UnknownMode));
}

#[test]
fn should_handle_immediate_mode() {
    let mut computer = Computer::from_vec(vec![1002, 4, 3, 4, 33]);

    computer.run().unwrap();

    assert_eq!(computer.read_memory().last().unwrap(), &99);
}

#[test]
fn should_handle_negatives() {
    let mut computer = Computer::from_vec(vec![1101, 100, -1, 4, 0]);

    computer.run().unwrap();

    assert_eq!(computer.read_memory().last().unwrap(), &99);
}

#[test]
fn should_handle_io() {
    let mut computer = Computer::from_vec(vec![3, 0, 4, 0, 99]);

    computer.add_input(10);
    computer.run().unwrap();

    assert_eq!(computer.read_outputs()[0], 10);
}

#[test]
fn should_handle_io_blocking() {
    let mut computer = Computer::from_vec(vec![3, 0, 3, 1, 4, 1, 99]);

    computer.run().unwrap();
    assert!(computer.read_outputs().is_empty());
    assert!(computer.blocked());

    computer.add_input(10);
    computer.run().unwrap();
    assert!(computer.read_outputs().is_empty());
    assert!(computer.blocked());

    computer.add_input(10);
    computer.run().unwrap();
    assert!(computer.finished());
}

#[test]
fn should_handle_diagnostics() {
    // Very long input, it's the diagnostic input for d5p1
    let mut computer = Computer::from_vec(vec![
        3, 225, 1, 225, 6, 6, 1100, 1, 238, 225, 104, 0, 1102, 91, 92, 225, 1102, 85, 13, 225, 1,
        47, 17, 224, 101, -176, 224, 224, 4, 224, 1002, 223, 8, 223, 1001, 224, 7, 224, 1, 223,
        224, 223, 1102, 79, 43, 225, 1102, 91, 79, 225, 1101, 94, 61, 225, 1002, 99, 42, 224, 1001,
        224, -1890, 224, 4, 224, 1002, 223, 8, 223, 1001, 224, 6, 224, 1, 224, 223, 223, 102, 77,
        52, 224, 1001, 224, -4697, 224, 4, 224, 102, 8, 223, 223, 1001, 224, 7, 224, 1, 224, 223,
        223, 1101, 45, 47, 225, 1001, 43, 93, 224, 1001, 224, -172, 224, 4, 224, 102, 8, 223, 223,
        1001, 224, 1, 224, 1, 224, 223, 223, 1102, 53, 88, 225, 1101, 64, 75, 225, 2, 14, 129, 224,
        101, -5888, 224, 224, 4, 224, 102, 8, 223, 223, 101, 6, 224, 224, 1, 223, 224, 223, 101,
        60, 126, 224, 101, -148, 224, 224, 4, 224, 1002, 223, 8, 223, 1001, 224, 2, 224, 1, 224,
        223, 223, 1102, 82, 56, 224, 1001, 224, -4592, 224, 4, 224, 1002, 223, 8, 223, 101, 4, 224,
        224, 1, 224, 223, 223, 1101, 22, 82, 224, 1001, 224, -104, 224, 4, 224, 1002, 223, 8, 223,
        101, 4, 224, 224, 1, 223, 224, 223, 4, 223, 99, 0, 0, 0, 677, 0, 0, 0, 0, 0, 0, 0, 0, 0, 0,
        0, 1105, 0, 99999, 1105, 227, 247, 1105, 1, 99999, 1005, 227, 99999, 1005, 0, 256, 1105, 1,
        99999, 1106, 227, 99999, 1106, 0, 265, 1105, 1, 99999, 1006, 0, 99999, 1006, 227, 274,
        1105, 1, 99999, 1105, 1, 280, 1105, 1, 99999, 1, 225, 225, 225, 1101, 294, 0, 0, 105, 1, 0,
        1105, 1, 99999, 1106, 0, 300, 1105, 1, 99999, 1, 225, 225, 225, 1101, 314, 0, 0, 106, 0, 0,
        1105, 1, 99999, 8, 226, 677, 224, 102, 2, 223, 223, 1005, 224, 329, 1001, 223, 1, 223,
        1007, 226, 226, 224, 1002, 223, 2, 223, 1006, 224, 344, 101, 1, 223, 223, 108, 226, 226,
        224, 1002, 223, 2, 223, 1006, 224, 359, 1001, 223, 1, 223, 107, 226, 677, 224, 102, 2, 223,
        223, 1006, 224, 374, 101, 1, 223, 223, 8, 677, 677, 224, 102, 2, 223, 223, 1006, 224, 389,
        1001, 223, 1, 223, 1008, 226, 677, 224, 1002, 223, 2, 223, 1006, 224, 404, 101, 1, 223,
        223, 7, 677, 677, 224, 1002, 223, 2, 223, 1005, 224, 419, 101, 1, 223, 223, 1108, 226, 677,
        224, 1002, 223, 2, 223, 1005, 224, 434, 101, 1, 223, 223, 1108, 226, 226, 224, 102, 2, 223,
        223, 1005, 224, 449, 1001, 223, 1, 223, 107, 226, 226, 224, 102, 2, 223, 223, 1005, 224,
        464, 101, 1, 223, 223, 1007, 677, 677, 224, 102, 2, 223, 223, 1006, 224, 479, 101, 1, 223,
        223, 1007, 226, 677, 224, 102, 2, 223, 223, 1005, 224, 494, 1001, 223, 1, 223, 1008, 226,
        226, 224, 1002, 223, 2, 223, 1005, 224, 509, 1001, 223, 1, 223, 1108, 677, 226, 224, 1002,
        223, 2, 223, 1006, 224, 524, 1001, 223, 1, 223, 108, 677, 677, 224, 1002, 223, 2, 223,
        1005, 224, 539, 101, 1, 223, 223, 108, 226, 677, 224, 1002, 223, 2, 223, 1005, 224, 554,
        101, 1, 223, 223, 1008, 677, 677, 224, 1002, 223, 2, 223, 1006, 224, 569, 1001, 223, 1,
        223, 1107, 677, 677, 224, 102, 2, 223, 223, 1005, 224, 584, 1001, 223, 1, 223, 7, 677, 226,
        224, 102, 2, 223, 223, 1005, 224, 599, 1001, 223, 1, 223, 8, 677, 226, 224, 1002, 223, 2,
        223, 1005, 224, 614, 1001, 223, 1, 223, 7, 226, 677, 224, 1002, 223, 2, 223, 1006, 224,
        629, 101, 1, 223, 223, 1107, 677, 226, 224, 1002, 223, 2, 223, 1005, 224, 644, 1001, 223,
        1, 223, 1107, 226, 677, 224, 102, 2, 223, 223, 1006, 224, 659, 1001, 223, 1, 223, 107, 677,
        677, 224, 1002, 223, 2, 223, 1005, 224, 674, 101, 1, 223, 223, 4, 223, 99, 226,
    ]);

    computer.add_input(1);
    computer.run().unwrap();

    let outputs = computer.read_outputs();

    assert!(outputs[0..outputs.len() - 2].iter().all(|n| n == &0));
}

#[test]
fn should_handle_equal_to_in_position_mode() {
    let mut computer = Computer::from_vec(vec![3, 9, 8, 9, 10, 9, 4, 9, 99, -1, 8]);

    computer.add_input(8);
    computer.run().unwrap();

    assert_eq!(computer.read_outputs()[0], 1);
}

#[test]
fn should_handle_less_than_in_position_mode() {
    let mut computer = Computer::from_vec(vec![3, 9, 7, 9, 10, 9, 4, 9, 99, -1, 8]);

    computer.add_input(8);
    computer.run().unwrap();

    assert_eq!(computer.read_outputs()[0], 0);
}

#[test]
fn should_handle_equal_to_in_immediate_mode() {
    let mut a = Computer::from_vec(vec![3, 3, 1108, -1, 8, 3, 4, 3, 99]);
    let mut b = Computer::from_vec(vec![3, 3, 1108, -1, 8, 3, 4, 3, 99]);

    a.add_input(8);
    a.run().unwrap();

    b.add_input(9);
    b.run().unwrap();

    assert_eq!(a.read_outputs()[0], 1);
    assert_eq!(b.read_outputs()[0], 0);
}

#[test]
fn should_handle_less_than_in_immediate_mode() {
    let mut a = Computer::from_vec(vec![3, 3, 1107, -1, 8, 3, 4, 3, 99]);
    let mut b = Computer::from_vec(vec![3, 3, 1107, -1, 8, 3, 4, 3, 99]);

    a.add_input(8);
    a.run().unwrap();

    b.add_input(7);
    b.run().unwrap();

    assert_eq!(a.read_outputs()[0], 0);
    assert_eq!(b.read_outputs()[0], 1);
}

#[test]
fn should_handle_jump_in_position_mode() {
    let mut a = Computer::from_vec(vec![3, 12, 6, 12, 15, 1, 13, 14, 13, 4, 13, 99, -1, 0, 1, 9]);

    let mut b = Computer::from_vec(vec![3, 12, 6, 12, 15, 1, 13, 14, 13, 4, 13, 99, -1, 0, 1, 9]);

    a.add_input(-20);
    a.run().unwrap();

    b.add_input(0);
    b.run().unwrap();

    assert_eq!(a.read_outputs()[0], 1);
    assert_eq!(b.read_outputs()[0], 0);
}

#[test]
fn should_handle_jump_in_immediate_mode() {
    let mut a = Computer::from_vec(vec![3, 3, 1105, -1, 9, 1101, 0, 0, 12, 4, 12, 99, 1]);
    let mut b = Computer::from_vec(vec![3, 3, 1105, -1, 9, 1101, 0, 0, 12, 4, 12, 99, 1]);

    a.add_input(-20);
    a.run().unwrap();

    b.add_input(0);
    b.run().unwrap();

    assert_eq!(a.read_outputs()[0], 1);
    assert_eq!(b.read_outputs()[0], 0);
}

#[test]
fn should_halt() {
    let mut computer = Computer::from_vec(vec![99]);

    assert_eq!(computer.step(), Ok(true)); // First step runs the halt
    assert_eq!(computer.step(), Ok(false)); // Second step has nothing to do
}

#[test]
fn should_replace() {
    let mut computer = Computer::from_vec(vec![23, 0, 99]);

    computer.replace(0, 4);
    computer.run().unwrap();

    assert_eq!(computer.read_outputs()[0], 4);
}

#[test]
fn should_panic_on_lack_of_halt() {
    let mut computer = Computer::from_vec(vec![3, 0, 4, 0]);

    computer.add_input(0);
    assert_eq!(computer.run(), Err(VmError::OutOfBounds));
}

#[test]
fn should_reject_malformed_program_text() {
    assert_eq!(Computer::parse("1,,2"), Err(ParseError::InvalidNumber));
    assert_eq!(Computer::parse(""), Err(ParseError::InvalidNumber));
    assert_eq!(Computer::parse("1,9x,2"), Err(ParseError::InvalidNumber));
    assert_eq!(
        Computer::parse("9223372036854775808"),
        Err(ParseError::InvalidNumber)
    );
    assert_eq!(
        Computer::parse(" 1 , -2 ,\n+3 "),
        Ok(vec![1, -2, 3])
    );
    assert_eq!(
        Computer::parse("-9223372036854775808,9223372036854775807"),
        Ok(vec![i64::MIN, i64::MAX])
    );
}

#[test]
fn should_classify_any_input_with_equal_program() {
    for input in [-3, 0, 7, 8, 9, 100] {
        let mut computer = Computer::from_vec(vec![3, 9, 8, 9, 10, 9, 4, 9, 99, -1, 8]);
        computer.add_input(input);
        computer.run().unwrap();
        let expected = if input == 8 { 1 } else { 0 };
        assert_eq!(computer.read_outputs(), &vec![expected]);
        assert!(computer.finished());
    }
}

#[test]
fn should_classify_any_input_with_less_than_program() {
    for input in [-3, 0, 7, 8, 9, 100] {
        let mut computer = Computer::from_vec(vec![3, 9, 7, 9, 10, 9, 4, 9, 99, -1, 8]);
        computer.add_input(input);
        computer.run().unwrap();
        let expected = if input < 8 { 1 } else { 0 };
        assert_eq!(computer.read_outputs(), &vec![expected]);
        assert!(computer.finished());
    }
}

#[test]
fn should_classify_any_input_with_jump_program() {
    for input in [-20, -1, 0, 1, 42] {
        let mut computer =
            Computer::from_vec(vec![3, 12, 6, 12, 15, 1, 13, 14, 13, 4, 13, 99, -1, 0, 1, 9]);
        computer.add_input(input);
        computer.run().unwrap();
        let expected = if input == 0 { 0 } else { 1 };
        assert_eq!(computer.read_outputs(), &vec![expected]);
    }
}

#[test]
fn should_not_step_after_fault_clears_state() {
    let mut computer = Computer::from_vec(vec![31, 2, 1, 4, 99]);
    assert_eq!(computer.step(), Err(VmError::UnknownOpcode));
    // The fault left the machine untouched, so stepping fails the same way.
    assert_eq!(computer.step(), Err(VmError::UnknownOpcode));
    assert_eq!(computer.read_memory(), &vec![31, 2, 1, 4, 99]);
}

#[test]
fn should_treat_empty_program_as_finished() {
    let mut computer = Computer::from_vec(vec![]);
    assert!(computer.finished());
    assert_eq!(computer.step(), Ok(false));
}
