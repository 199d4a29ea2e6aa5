use advent::intcode::{Event, Instruction, IntcodeComputer, IntcodeError, Parameter};

#[test]
fn test_instruction_parse_add() {
    let instruction = Instruction::parse(&[10101, 3, 4, 5, 6, 7]).unwrap();

    assert_eq!(
        instruction,
        Instruction::Add(Parameter::Immediate(3), Parameter::Position(4), 5)
    );
}

#[test]
fn test_instruction_parse_multiply() {
    let instruction = Instruction::parse(&[1002, 3, 4, 5, 6, 7]).unwrap();

    assert_eq!(
        instruction,
        Instruction::Multiply(Parameter::Position(3), Parameter::Immediate(4), 5)
    );
}

#[test]
fn test_instruction_parse_input() {
    let instruction = Instruction::parse(&[103, 18]);

    assert_eq!(instruction, Err(IntcodeError::UnexpectedParameterMode));
    assert_eq!(Instruction::parse(&[3, 18]), Ok(Instruction::Input(18)));
}

#[test]
fn test_instruction_parse_output() {
    let instruction = Instruction::parse(&[4, 56]).unwrap();

    assert_eq!(instruction, Instruction::Output(Parameter::Position(56)));
}

#[test]
fn test_instruction_parse_halt() {
    let instruction = Instruction::parse(&[99, 100]).unwrap();

    assert_eq!(instruction, Instruction::Halt);
}

#[test]
fn test_instruction_parse_bad_opcode() {
    let instruction = Instruction::parse(&[23, 100]);

    assert_eq!(instruction.map_err(|e| e.message()), Err("Unexpected opcode"));
}

#[test]
fn test_instruction_parse_bad_parameter_type() {
    let instruction = Instruction::parse(&[201, 100]);

    assert_eq!(
        instruction.map_err(|e| e.message()),
        Err("Unexpected parameter mode")
    );
}

#[test]
fn test_get_parameter_value_position() {
    let computer = IntcodeComputer::new(vec![12, 2, 3, 4]);
    let value = computer.get_parameter_value(&Parameter::Position(2));

    assert_eq!(value, 3);
}

#[test]
fn test_get_parameter_value_immediate() {
    let computer = IntcodeComputer::new(vec![12, 2, 3, 4]);
    let value = computer.get_parameter_value(&Parameter::Immediate(2));

    assert_eq!(value, 2);
}

#[test]
fn test_next_instruction() {
    let mut computer = IntcodeComputer::new(vec![12, 102, 3, 4, 5]);
    computer.pc = 1;
    let instruction = computer.next_instruction().unwrap();

    assert_eq!(
        instruction,
        Instruction::Multiply(Parameter::Immediate(3), Parameter::Position(4), 5)
    );
}

#[test]
fn test_run() {
    let mut computer = IntcodeComputer::new(vec![10101, 10, 6, 0, 11002, 0, 20, 4, 99]);
    computer.run().unwrap();

    assert_eq!(computer.program, vec![30, 10, 6, 0, 600, 0, 20, 4, 99]);
}

fn run_program(program: &[i32]) -> (IntcodeComputer, Result<Vec<i32>, IntcodeError>) {
    let mut computer = IntcodeComputer::new(program.to_vec());
    let result = computer.run();
    (computer, result)
}

#[test]
fn test_computer_example_1() {
    let (computer, result) = run_program(&[1, 0, 0, 0, 99]);
    assert_eq!(result, Ok(vec![]));
    assert_eq!(computer.program, vec![2, 0, 0, 0, 99]);
    assert_eq!(computer.pc, 4);
    assert_eq!(computer.get(0), 2);
}

#[test]
fn test_computer_example_2() {
    let (computer, result) = run_program(&[2, 3, 0, 3, 99]);
    assert_eq!(result, Ok(vec![]));
    assert_eq!(computer.program, vec![2, 3, 0, 6, 99]);
    assert_eq!(computer.get(0), 2);
}

#[test]
fn test_computer_example_3() {
    let (computer, result) = run_program(&[2, 4, 4, 5, 99, 0]);
    assert_eq!(result, Ok(vec![]));
    assert_eq!(computer.program, vec![2, 4, 4, 5, 99, 9801]);
    assert_eq!(computer.get(0), 2);
}

#[test]
fn test_computer_example_4() {
    let (computer, result) = run_program(&[1, 1, 1, 4, 99, 5, 6, 0, 99]);
    assert_eq!(result, Ok(vec![]));
    assert_eq!(computer.program, vec![30, 1, 1, 4, 2, 5, 6, 0, 99]);
    assert_eq!(computer.get(0), 30);
}

#[test]
fn single_arithmetic_instruction_then_halt() {
    let (computer, result) = run_program(&[1101, 7, -3, 5, 99, 0]);
    assert_eq!(result, Ok(vec![]));
    assert_eq!(computer.program[5], 4);
    assert_eq!(computer.pc, 4);
    let (computer, result) = run_program(&[1002, 5, 6, 5, 99, 7]);
    assert_eq!(result, Ok(vec![]));
    assert_eq!(computer.program[5], 42);
    assert_eq!(computer.pc, 4);
}

#[test]
fn immediate_add_writes_halt() {
    let mut computer = IntcodeComputer::new(vec![1101, 100, -1, 4, 0]);
    assert_eq!(computer.step(None), Ok(Event::Continue));
    assert_eq!(computer.program[4], 99);
    assert_eq!(computer.pc, 4);
    assert_eq!(computer.step(None), Ok(Event::Halted));
}

#[test]
fn jump_if_true_taken_sets_pc_to_target() {
    let mut computer = IntcodeComputer::new(vec![1105, 1, 7, 99, 99, 99, 99, 99]);
    assert_eq!(computer.step(None), Ok(Event::Continue));
    assert_eq!(computer.pc, 7);
    let mut computer = IntcodeComputer::new(vec![1105, 0, 7, 99, 99, 99, 99, 99]);
    assert_eq!(computer.step(None), Ok(Event::Continue));
    assert_eq!(computer.pc, 3);
}

#[test]
fn jump_if_false_taken_sets_pc_to_target() {
    let mut computer = IntcodeComputer::new(vec![6, 5, 6, 99, 99, 0, 4]);
    assert_eq!(computer.step(None), Ok(Event::Continue));
    assert_eq!(computer.pc, 4);
    let mut computer = IntcodeComputer::new(vec![106, 3, 6, 99, 99, 0, 4]);
    assert_eq!(computer.step(None), Ok(Event::Continue));
    assert_eq!(computer.pc, 3);
}

#[test]
fn negative_jump_target_is_an_error() {
    let mut computer = IntcodeComputer::new(vec![1105, 1, -1, 99]);
    assert_eq!(computer.step(None), Err(IntcodeError::AddressOutOfRange));
    assert_eq!(computer.pc, 0);
}

#[test]
fn decode_twice_gives_same_instruction() {
    let computer = IntcodeComputer::new(vec![1002, 4, 3, 4, 33]);
    let first = computer.next_instruction();
    let second = computer.next_instruction();
    assert_eq!(first, second);
    assert_eq!(computer.program, vec![1002, 4, 3, 4, 33]);
    assert_eq!(computer.pc, 0);
}

#[test]
fn unknown_opcodes_are_rejected() {
    for word in [0, 9, 10, 98, 100, 1123, -1, -99] {
        assert_eq!(
            Instruction::parse(&[word, 0, 0, 0]),
            Err(IntcodeError::UnexpectedOpcode)
        );
    }
}

#[test]
fn high_parameter_modes_are_rejected() {
    assert_eq!(
        Instruction::parse(&[301, 0, 0, 0]),
        Err(IntcodeError::UnexpectedParameterMode)
    );
    assert_eq!(
        Instruction::parse(&[2002, 0, 0, 0]),
        Err(IntcodeError::UnexpectedParameterMode)
    );
    assert_eq!(
        Instruction::parse(&[904, 0]),
        Err(IntcodeError::UnexpectedParameterMode)
    );
    assert_eq!(
        Instruction::parse(&[903, 7]),
        Err(IntcodeError::UnexpectedParameterMode)
    );
    assert_eq!(Instruction::parse(&[999]), Ok(Instruction::Halt));
}

#[test]
fn truncated_instruction_is_an_addressing_error() {
    assert_eq!(Instruction::parse(&[]), Err(IntcodeError::AddressOutOfRange));
    assert_eq!(Instruction::parse(&[1, 0, 0]), Err(IntcodeError::AddressOutOfRange));
}

#[test]
fn comparisons_write_flags() {
    let (computer, result) = run_program(&[1107, 3, 4, 5, 99, 9]);
    assert_eq!(result, Ok(vec![]));
    assert_eq!(computer.program[5], 1);
    let (computer, result) = run_program(&[1108, 3, 4, 5, 99, 9]);
    assert_eq!(result, Ok(vec![]));
    assert_eq!(computer.program[5], 0);
}

#[test]
fn outputs_are_collected_in_order() {
    let (_, result) = run_program(&[104, 7, 4, 0, 99]);
    assert_eq!(result, Ok(vec![7, 104]));
}

#[test]
fn input_is_written_and_run_without_input_fails() {
    let mut computer = IntcodeComputer::new(vec![3, 3, 99, 0]);
    assert_eq!(computer.step(None), Ok(Event::AwaitingInput));
    assert_eq!(computer.pc, 0);
    assert_eq!(computer.step(Some(42)), Ok(Event::Continue));
    assert_eq!(computer.program, vec![3, 3, 99, 42]);
    assert_eq!(computer.pc, 2);

    let (computer, result) = run_program(&[3, 3, 99, 0]);
    assert_eq!(result, Err(IntcodeError::InputUnavailable));
    assert_eq!(computer.pc, 0);
}

#[test]
fn failed_run_keeps_earlier_writes() {
    let (computer, result) = run_program(&[1101, 2, 3, 5, 1, 0, 77]);
    assert_eq!(result, Err(IntcodeError::AddressOutOfRange));
    assert_eq!(computer.program, vec![1101, 2, 3, 5, 1, 5, 77]);
    assert_eq!(computer.pc, 4);
}

#[test]
fn overflowing_arithmetic_is_an_error() {
    let (computer, result) = run_program(&[1101, 2147483647, 1, 0, 99]);
    assert_eq!(result, Err(IntcodeError::ArithmeticOverflow));
    assert_eq!(computer.program, vec![1101, 2147483647, 1, 0, 99]);
    let (_, result) = run_program(&[1102, 65536, 65536, 0, 99]);
    assert_eq!(result, Err(IntcodeError::ArithmeticOverflow));
}

#[test]
fn write_outside_memory_is_an_error() {
    let (_, result) = run_program(&[1101, 1, 1, 50, 99]);
    assert_eq!(result, Err(IntcodeError::AddressOutOfRange));
    let (_, result) = run_program(&[1, 50, 0, 0, 99]);
    assert_eq!(result, Err(IntcodeError::AddressOutOfRange));
}

#[test]
fn set_and_jump() {
    let mut computer = IntcodeComputer::new(vec![0, 0, 0]);
    computer.set(1, -5);
    computer.jump(2);
    assert_eq!(computer.program, vec![0, -5, 0]);
    assert_eq!(computer.pc, 2);
    assert_eq!(computer.get(1), -5);
}

#[test]
fn error_messages() {
    assert_eq!(IntcodeError::UnexpectedOpcode.message(), "Unexpected opcode");
    assert_eq!(
        IntcodeError::UnexpectedParameterMode.message(),
        "Unexpected parameter mode"
    );
    assert_eq!(IntcodeError::AddressOutOfRange.message(), "Address out of range");
}
