//! An interpreter for a sequential, memory-addressed integer instruction set.
//!
//! Memory is a fixed-length sequence of `i32` words and the program counter
//! indexes the word that starts the next instruction. Each instruction is
//! decoded afresh from memory at the program counter, so programs that rewrite
//! their own upcoming instructions are observed correctly.

use vstd::prelude::*;

verus! {

/// Opcode of the addition instruction.
pub const ADD: i32 = 1;
/// Opcode of the multiplication instruction.
pub const MULTIPLY: i32 = 2;
/// Opcode of the instruction that reads one integer from the input stream.
pub const INPUT: i32 = 3;
/// Opcode of the instruction that writes one integer to the output stream.
pub const OUTPUT: i32 = 4;
/// Opcode of the jump taken on a nonzero condition.
pub const JUMPIFTRUE: i32 = 5;
/// Opcode of the jump taken on a zero condition.
pub const JUMPIFFALSE: i32 = 6;
/// Opcode of the less-than comparison.
pub const LESSTHAN: i32 = 7;
/// Opcode of the equality comparison.
pub const EQUALS: i32 = 8;
/// Opcode that stops the machine.
pub const HALT: i32 = 99;

/// A decoded operand.
#[derive(Debug, Clone, Copy, PartialEq, Eq, Structural)]
pub enum Parameter {
    /// The operand is the memory word at this index.
    Position(usize),
    /// The operand is this literal value.
    Immediate(i32),
}

/// A decoded instruction: the operation with its operands and write targets.
#[derive(Debug, Clone, Copy, PartialEq, Eq, Structural)]
pub enum Instruction {
    /// Writes the sum of two operands to a target index.
    Add(Parameter, Parameter, usize),
    /// Writes the product of two operands to a target index.
    Multiply(Parameter, Parameter, usize),
    /// Writes a value from the input stream to a target index.
    Input(usize),
    /// Emits an operand to the output stream.
    Output(Parameter),
    /// Jumps to the second operand when the first is nonzero.
    JumpIfTrue(Parameter, Parameter),
    /// Jumps to the second operand when the first is zero.
    JumpIfFalse(Parameter, Parameter),
    /// Writes 1 to a target index if the first operand is less than the second, else 0.
    LessThan(Parameter, Parameter, usize),
    /// Writes 1 to a target index if the two operands are equal, else 0.
    Equals(Parameter, Parameter, usize),
    /// Stops the machine.
    Halt,
}

/// Why decoding or running an instruction failed.
#[derive(Debug, Clone, Copy, PartialEq, Eq, Structural)]
pub enum IntcodeError {
    /// The low two digits of the instruction word name no operation.
    UnexpectedOpcode,
    /// An addressing-mode digit is neither 0 (position) nor 1 (immediate).
    UnexpectedParameterMode,
    /// A read, write or decode touched an index outside memory.
    AddressOutOfRange,
    /// The result of an addition or multiplication does not fit in an `i32`.
    ArithmeticOverflow,
    /// An input instruction was reached with no input available.
    InputUnavailable,
    /// The machine ran for the maximum number of steps without halting.
    StepLimitReached,
}

impl IntcodeError {
    /// A short human-readable description of the error.
    pub fn message(&self) -> (r: &'static str)
        ensures
            *self == IntcodeError::UnexpectedOpcode ==> r@ == "Unexpected opcode"@,
            *self == IntcodeError::UnexpectedParameterMode ==> r@ == "Unexpected parameter mode"@,
            *self == IntcodeError::AddressOutOfRange ==> r@ == "Address out of range"@,
            *self == IntcodeError::ArithmeticOverflow ==> r@ == "Arithmetic overflow"@,
            *self == IntcodeError::InputUnavailable ==> r@ == "Input unavailable"@,
            *self == IntcodeError::StepLimitReached ==> r@ == "Step limit reached"@,
    {
        match self {
            IntcodeError::UnexpectedOpcode => "Unexpected opcode",
            IntcodeError::UnexpectedParameterMode => "Unexpected parameter mode",
            IntcodeError::AddressOutOfRange => "Address out of range",
            IntcodeError::ArithmeticOverflow => "Arithmetic overflow",
            IntcodeError::InputUnavailable => "Input unavailable",
            IntcodeError::StepLimitReached => "Step limit reached",
        }
    }
}

/// The word of `mem` at index `i`, or an addressing error.
pub open spec fn word_at(mem: Seq<i32>, i: int) -> Result<i32, IntcodeError> {
    if 0 <= i < mem.len() {
        Ok(mem[i])
    } else {
        Err(IntcodeError::AddressOutOfRange)
    }
}

/// The operand made of raw word `value` under addressing-mode digit `mode`.
pub open spec fn parameter_of(value: i32, mode: i32) -> Result<Parameter, IntcodeError> {
    if mode == 0 {
        Ok(Parameter::Position(value as usize))
    } else if mode == 1 {
        Ok(Parameter::Immediate(value))
    } else {
        Err(IntcodeError::UnexpectedParameterMode)
    }
}

/// The operand stored at index `i` of `mem`, read under `mode`.
pub open spec fn operand_at(mem: Seq<i32>, i: int, mode: i32) -> Result<Parameter, IntcodeError> {
    match word_at(mem, i) {
        Ok(w) => parameter_of(w, mode),
        Err(e) => Err(e),
    }
}

/// The write target stored at index `i` of `mem`.
pub open spec fn target_at(mem: Seq<i32>, i: int) -> Result<usize, IntcodeError> {
    match word_at(mem, i) {
        Ok(w) => Ok(w as usize),
        Err(e) => Err(e),
    }
}

/// The two mode-addressed operands that follow the instruction word at `at`.
pub open spec fn operand_pair(mem: Seq<i32>, at: int, m1: i32, m2: i32) -> Result<
    (Parameter, Parameter),
    IntcodeError,
> {
    match operand_at(mem, at + 1, m1) {
        Err(e) => Err(e),
        Ok(a) => match operand_at(mem, at + 2, m2) {
            Err(e) => Err(e),
            Ok(b) => Ok((a, b)),
        },
    }
}

/// Two operands followed by a write target, after the instruction word at `at`.
pub open spec fn operand_triple(mem: Seq<i32>, at: int, m1: i32, m2: i32) -> Result<
    (Parameter, Parameter, usize),
    IntcodeError,
> {
    match operand_pair(mem, at, m1, m2) {
        Err(e) => Err(e),
        Ok((a, b)) => match target_at(mem, at + 3) {
            Err(e) => Err(e),
            Ok(t) => Ok((a, b, t)),
        },
    }
}

/// The opcode of an instruction word: its low two decimal digits.
pub open spec fn opcode_of(w: i32) -> i32 {
    w % 100
}

/// The addressing-mode digit of the first operand: the hundreds digit.
pub open spec fn first_mode_of(w: i32) -> i32 {
    ((w / 100) % 10) as i32
}

/// The addressing-mode digit of the second operand: the thousands digit.
pub open spec fn second_mode_of(w: i32) -> i32 {
    ((w / 1000) % 10) as i32
}

/// The instruction that starts at index `at` of `mem`.
///
/// Words are read in order (instruction word, then each operand) and the first
/// failure is the result. A negative instruction word has a nonpositive
/// remainder modulo 100 and so names no operation.
pub open spec fn decode_at(mem: Seq<i32>, at: int) -> Result<Instruction, IntcodeError> {
    match word_at(mem, at) {
        Err(e) => Err(e),
        Ok(w) => {
            if w < 0 {
                Err(IntcodeError::UnexpectedOpcode)
            } else {
                let op = opcode_of(w);
                let m1 = first_mode_of(w);
                let m2 = second_mode_of(w);
                if op == ADD {
                    match operand_triple(mem, at, m1, m2) {
                        Err(e) => Err(e),
                        Ok((a, b, t)) => Ok(Instruction::Add(a, b, t)),
                    }
                } else if op == MULTIPLY {
                    match operand_triple(mem, at, m1, m2) {
                        Err(e) => Err(e),
                        Ok((a, b, t)) => Ok(Instruction::Multiply(a, b, t)),
                    }
                } else if op == INPUT {
                    match target_at(mem, at + 1) {
                        Err(e) => Err(e),
                        Ok(t) => if m1 == 0 {
                            Ok(Instruction::Input(t))
                        } else {
                            Err(IntcodeError::UnexpectedParameterMode)
                        },
                    }
                } else if op == OUTPUT {
                    match operand_at(mem, at + 1, m1) {
                        Err(e) => Err(e),
                        Ok(a) => Ok(Instruction::Output(a)),
                    }
                } else if op == JUMPIFTRUE {
                    match operand_pair(mem, at, m1, m2) {
                        Err(e) => Err(e),
                        Ok((a, b)) => Ok(Instruction::JumpIfTrue(a, b)),
                    }
                } else if op == JUMPIFFALSE {
                    match operand_pair(mem, at, m1, m2) {
                        Err(e) => Err(e),
                        Ok((a, b)) => Ok(Instruction::JumpIfFalse(a, b)),
                    }
                } else if op == LESSTHAN {
                    match operand_triple(mem, at, m1, m2) {
                        Err(e) => Err(e),
                        Ok((a, b, t)) => Ok(Instruction::LessThan(a, b, t)),
                    }
                } else if op == EQUALS {
                    match operand_triple(mem, at, m1, m2) {
                        Err(e) => Err(e),
                        Ok((a, b, t)) => Ok(Instruction::Equals(a, b, t)),
                    }
                } else if op == HALT {
                    Ok(Instruction::Halt)
                } else {
                    Err(IntcodeError::UnexpectedOpcode)
                }
            }
        },
    }
}

/// A decoded instruction lies wholly inside memory, so the index just past it
/// is at most the length of memory.
proof fn lemma_decoded_fits(mem: Seq<i32>, at: int)
    requires
        decode_at(mem, at) is Ok,
    ensures
        0 <= at < mem.len(),
        decode_at(mem, at)->Ok_0 is Add ==> at + 4 <= mem.len(),
        decode_at(mem, at)->Ok_0 is Multiply ==> at + 4 <= mem.len(),
        decode_at(mem, at)->Ok_0 is LessThan ==> at + 4 <= mem.len(),
        decode_at(mem, at)->Ok_0 is Equals ==> at + 4 <= mem.len(),
        decode_at(mem, at)->Ok_0 is JumpIfTrue ==> at + 3 <= mem.len(),
        decode_at(mem, at)->Ok_0 is JumpIfFalse ==> at + 3 <= mem.len(),
        decode_at(mem, at)->Ok_0 is Input ==> at + 2 <= mem.len(),
        decode_at(mem, at)->Ok_0 is Output ==> at + 2 <= mem.len(),
{
}

impl Parameter {
    /// The operand made of raw word `value` under addressing-mode digit `mode`.
    pub fn new(value: i32, mode: i32) -> (r: Result<Parameter, IntcodeError>)
        ensures
            r == parameter_of(value, mode),
    {
        match mode {
            0 => Ok(Parameter::Position(value as usize)),
            1 => Ok(Parameter::Immediate(value)),
            _ => Err(IntcodeError::UnexpectedParameterMode),
        }
    }
}

/// The word at index `i` of `mem`, or an addressing error.
fn read_word(mem: &[i32], i: usize) -> (r: Result<i32, IntcodeError>)
    ensures
        r == word_at(mem@, i as int),
{
    if i < mem.len() {
        Ok(mem[i])
    } else {
        Err(IntcodeError::AddressOutOfRange)
    }
}

/// The operand stored at index `i` of `mem`, read under `mode`.
fn read_operand(mem: &[i32], i: usize, mode: i32) -> (r: Result<Parameter, IntcodeError>)
    ensures
        r == operand_at(mem@, i as int, mode),
{
    let w = read_word(mem, i)?;
    Parameter::new(w, mode)
}

/// The write target stored at index `i` of `mem`.
fn read_target(mem: &[i32], i: usize) -> (r: Result<usize, IntcodeError>)
    ensures
        r == target_at(mem@, i as int),
{
    let w = read_word(mem, i)?;
    Ok(w as usize)
}

/// The instruction that starts at index `at` of `mem`.
fn decode(mem: &[i32], at: usize) -> (r: Result<Instruction, IntcodeError>)
    ensures
        r == decode_at(mem@, at as int),
{
    if at >= mem.len() {
        return Err(IntcodeError::AddressOutOfRange);
    }
    let w = mem[at];
    if w < 0 {
        return Err(IntcodeError::UnexpectedOpcode);
    }
    let opcode = w % 100;
    let m1 = (w / 100) % 10;
    let m2 = (w / 1000) % 10;
    match opcode {
        ADD | MULTIPLY | LESSTHAN | EQUALS => {
            let a = read_operand(mem, at + 1, m1)?;
            let b = read_operand(mem, at + 2, m2)?;
            let t = read_target(mem, at + 3)?;
            Ok(
                if opcode == ADD {
                    Instruction::Add(a, b, t)
                } else if opcode == MULTIPLY {
                    Instruction::Multiply(a, b, t)
                } else if opcode == LESSTHAN {
                    Instruction::LessThan(a, b, t)
                } else {
                    Instruction::Equals(a, b, t)
                },
            )
        },
        INPUT => {
            let t = read_target(mem, at + 1)?;
            if m1 != 0 {
                return Err(IntcodeError::UnexpectedParameterMode);
            }
            Ok(Instruction::Input(t))
        },
        OUTPUT => Ok(Instruction::Output(read_operand(mem, at + 1, m1)?)),
        JUMPIFTRUE | JUMPIFFALSE => {
            let a = read_operand(mem, at + 1, m1)?;
            let b = read_operand(mem, at + 2, m2)?;
            Ok(
                if opcode == JUMPIFTRUE {
                    Instruction::JumpIfTrue(a, b)
                } else {
                    Instruction::JumpIfFalse(a, b)
                },
            )
        },
        HALT => Ok(Instruction::Halt),
        _ => Err(IntcodeError::UnexpectedOpcode),
    }
}

impl Instruction {
    /// Decodes the instruction at the start of `program`.
    pub fn parse(program: &[i32]) -> (r: Result<Instruction, IntcodeError>)
        ensures
            r == decode_at(program@, 0),
    {
        decode(program, 0)
    }
}


/// The greatest number of instructions that [`IntcodeComputer::run`] executes.
pub const STEP_LIMIT: u64 = 0xFFFF_FFFF_FFFF_FFFF;

/// What one executed step asks of the caller.
#[derive(Debug, Clone, Copy, PartialEq, Eq, Structural)]
pub enum Event {
    /// The instruction was carried out; the machine is ready for the next one.
    Continue,
    /// An input instruction was reached and no value was supplied: nothing changed.
    AwaitingInput,
    /// An output instruction emitted this value.
    Output(i32),
    /// A halt instruction was reached: nothing changed.
    Halted,
}

/// The value an operand resolves to in `mem`.
pub open spec fn value_of(mem: Seq<i32>, p: Parameter) -> Result<i32, IntcodeError> {
    match p {
        Parameter::Position(i) => word_at(mem, i as int),
        Parameter::Immediate(v) => Ok(v),
    }
}

/// `n` as an `i32`, or an overflow error when it does not fit.
pub open spec fn fit_i32(n: int) -> Result<i32, IntcodeError> {
    if i32::MIN <= n <= i32::MAX {
        Ok(n as i32)
    } else {
        Err(IntcodeError::ArithmeticOverflow)
    }
}

/// `mem` with word `t` replaced by `v`, or an addressing error.
pub open spec fn store(mem: Seq<i32>, t: usize, v: i32) -> Result<Seq<i32>, IntcodeError> {
    if t < mem.len() {
        Ok(mem.update(t as int, v))
    } else {
        Err(IntcodeError::AddressOutOfRange)
    }
}

/// The result word of a three-operand instruction on operand values `x` and `y`.
pub open spec fn combine_values(instr: Instruction, x: i32, y: i32) -> Result<i32, IntcodeError> {
    match instr {
        Instruction::Add(_, _, _) => fit_i32(x + y),
        Instruction::Multiply(_, _, _) => fit_i32(x * y),
        Instruction::LessThan(_, _, _) => Ok(if x < y { 1i32 } else { 0i32 }),
        _ => Ok(if x == y { 1i32 } else { 0i32 }),
    }
}

/// A three-operand instruction at `pc`: resolve `a` and `b`, combine them, write
/// the result to `t` and move past the four words of the instruction.
pub open spec fn compute_step(
    mem: Seq<i32>,
    pc: usize,
    instr: Instruction,
    a: Parameter,
    b: Parameter,
    t: usize,
) -> Result<(Seq<i32>, usize, Event), IntcodeError> {
    match value_of(mem, a) {
        Err(e) => Err(e),
        Ok(x) => match value_of(mem, b) {
            Err(e) => Err(e),
            Ok(y) => match combine_values(instr, x, y) {
                Err(e) => Err(e),
                Ok(v) => match store(mem, t, v) {
                    Err(e) => Err(e),
                    Ok(m) => Ok((m, (pc + 4) as usize, Event::Continue)),
                },
            },
        },
    }
}

/// A conditional jump at `pc`: when the condition `c` resolves to a nonzero
/// value (`on_nonzero`) or to zero (otherwise), the program counter becomes the
/// value of `target`; else it moves past the three words of the instruction.
/// A negative target is an index outside memory: an addressing error.
pub open spec fn jump_step(
    mem: Seq<i32>,
    pc: usize,
    c: Parameter,
    target: Parameter,
    on_nonzero: bool,
) -> Result<(Seq<i32>, usize, Event), IntcodeError> {
    match value_of(mem, c) {
        Err(e) => Err(e),
        Ok(x) => {
            if (x != 0) == on_nonzero {
                match value_of(mem, target) {
                    Err(e) => Err(e),
                    Ok(d) => {
                        if d < 0 {
                            Err(IntcodeError::AddressOutOfRange)
                        } else {
                            Ok((mem, d as usize, Event::Continue))
                        }
                    },
                }
            } else {
                Ok((mem, (pc + 3) as usize, Event::Continue))
            }
        },
    }
}

/// The effect of carrying out `instr`, decoded at `pc`, on memory `mem`, with
/// `input` the value offered to an input instruction, if any.
///
/// The result is the new memory, the new program counter and the event; on an
/// error the machine is left as it was.
pub open spec fn execute(mem: Seq<i32>, pc: usize, instr: Instruction, input: Option<i32>) -> Result<
    (Seq<i32>, usize, Event),
    IntcodeError,
> {
    match instr {
        Instruction::Add(a, b, t) => compute_step(mem, pc, instr, a, b, t),
        Instruction::Multiply(a, b, t) => compute_step(mem, pc, instr, a, b, t),
        Instruction::LessThan(a, b, t) => compute_step(mem, pc, instr, a, b, t),
        Instruction::Equals(a, b, t) => compute_step(mem, pc, instr, a, b, t),
        Instruction::Input(t) => match input {
            None => Ok((mem, pc, Event::AwaitingInput)),
            Some(v) => match store(mem, t, v) {
                Err(e) => Err(e),
                Ok(m) => Ok((m, (pc + 2) as usize, Event::Continue)),
            },
        },
        Instruction::Output(a) => match value_of(mem, a) {
            Err(e) => Err(e),
            Ok(x) => Ok((mem, (pc + 2) as usize, Event::Output(x))),
        },
        Instruction::JumpIfTrue(c, target) => jump_step(mem, pc, c, target, true),
        Instruction::JumpIfFalse(c, target) => jump_step(mem, pc, c, target, false),
        Instruction::Halt => Ok((mem, pc, Event::Halted)),
    }
}

/// One step of the machine with memory `mem` and program counter `pc`: decode
/// the instruction at `pc` and carry it out.
pub open spec fn step_spec(mem: Seq<i32>, pc: usize, input: Option<i32>) -> Result<
    (Seq<i32>, usize, Event),
    IntcodeError,
> {
    match decode_at(mem, pc as int) {
        Err(e) => Err(e),
        Ok(instr) => execute(mem, pc, instr, input),
    }
}

/// Where a run ends: the final memory and program counter, and either the
/// values output in order or the error that stopped the run.
pub struct RunOutcome {
    pub mem: Seq<i32>,
    pub pc: usize,
    pub result: Result<Seq<i32>, IntcodeError>,
}

/// `outcome` with `outputs` emitted before the outputs it records.
pub open spec fn after_outputs(outputs: Seq<i32>, outcome: RunOutcome) -> RunOutcome {
    RunOutcome {
        mem: outcome.mem,
        pc: outcome.pc,
        result: match outcome.result {
            Ok(rest) => Ok(outputs + rest),
            Err(e) => Err(e),
        },
    }
}

/// Running the machine from `mem` and `pc` with no input available, for at
/// most `fuel` steps.
pub open spec fn run_spec(mem: Seq<i32>, pc: usize, fuel: nat) -> RunOutcome
    decreases fuel,
{
    if fuel == 0 {
        RunOutcome { mem, pc, result: Err(IntcodeError::StepLimitReached) }
    } else {
        match step_spec(mem, pc, None) {
            Err(e) => RunOutcome { mem, pc, result: Err(e) },
            Ok((m, p, ev)) => match ev {
                Event::Halted => RunOutcome { mem, pc, result: Ok(Seq::empty()) },
                Event::AwaitingInput => RunOutcome {
                    mem,
                    pc,
                    result: Err(IntcodeError::InputUnavailable),
                },
                Event::Output(v) => after_outputs(seq![v], run_spec(m, p, (fuel - 1) as nat)),
                Event::Continue => run_spec(m, p, (fuel - 1) as nat),
            },
        }
    }
}

/// A machine: its memory and the index of the next instruction.
#[derive(Debug)]
pub struct IntcodeComputer {
    pub pc: usize,
    pub program: Vec<i32>,
}

impl IntcodeComputer {
    /// A machine whose memory is `program`, about to run from its first word.
    pub fn new(program: Vec<i32>) -> (r: IntcodeComputer)
        ensures
            r.pc == 0,
            r.program@ == program@,
    {
        IntcodeComputer { pc: 0, program }
    }

    /// The memory word at `addr`.
    pub fn get(&self, addr: usize) -> (r: i32)
        requires
            addr < self.program@.len(),
        ensures
            r == self.program@[addr as int],
    {
        self.program[addr]
    }

    /// The value that `parameter` resolves to in this machine's memory.
    pub fn get_parameter_value(&self, parameter: &Parameter) -> (r: i32)
        requires
            value_of(self.program@, *parameter) is Ok,
        ensures
            value_of(self.program@, *parameter) == Ok::<i32, IntcodeError>(r),
    {
        match parameter {
            Parameter::Position(value) => self.program[*value],
            Parameter::Immediate(value) => *value,
        }
    }

    /// The value that `parameter` resolves to, or an addressing error.
    fn resolve(&self, parameter: &Parameter) -> (r: Result<i32, IntcodeError>)
        ensures
            r == value_of(self.program@, *parameter),
    {
        match parameter {
            Parameter::Position(i) => read_word(self.program.as_slice(), *i),
            Parameter::Immediate(value) => Ok(*value),
        }
    }

    /// Decodes the instruction at the program counter, leaving the machine as it is.
    pub fn next_instruction(&self) -> (r: Result<Instruction, IntcodeError>)
        ensures
            r == decode_at(self.program@, self.pc as int),
    {
        decode(self.program.as_slice(), self.pc)
    }

    /// Writes `value` into memory at `index`.
    pub fn set(&mut self, index: usize, value: i32)
        requires
            index < old(self).program@.len(),
        ensures
            final(self).program@ == old(self).program@.update(index as int, value),
            final(self).pc == old(self).pc,
    {
        self.program.set(index, value);
    }

    /// Carries out a three-operand instruction decoded at the program counter.
    fn compute(&mut self, instr: Instruction, a: Parameter, b: Parameter, t: usize) -> (r: Result<
        Event,
        IntcodeError,
    >)
        requires
            old(self).pc + 4 <= usize::MAX,
        ensures
            match compute_step(old(self).program@, old(self).pc, instr, a, b, t) {
                Ok((m, p, ev)) => r == Ok::<Event, IntcodeError>(ev) && final(self).program@ == m
                    && final(self).pc == p,
                Err(e) => r == Err::<Event, IntcodeError>(e) && final(self).program@ == old(
                    self,
                ).program@ && final(self).pc == old(self).pc,
            },
    {
        let x = self.resolve(&a)?;
        let y = self.resolve(&b)?;
        let v: i32 = match instr {
            Instruction::Add(_, _, _) => {
                let s: i64 = x as i64 + y as i64;
                if s < i32::MIN as i64 || s > i32::MAX as i64 {
                    return Err(IntcodeError::ArithmeticOverflow);
                }
                s as i32
            },
            Instruction::Multiply(_, _, _) => {
                assert(-0x4000_0000_0000_0000 <= (x as int) * (y as int) <= 0x4000_0000_0000_0000)
                    by (nonlinear_arith)
                    requires
                        -0x8000_0000 <= x <= 0x7fff_ffff,
                        -0x8000_0000 <= y <= 0x7fff_ffff,
                ;
                let s: i64 = x as i64 * y as i64;
                if s < i32::MIN as i64 || s > i32::MAX as i64 {
                    return Err(IntcodeError::ArithmeticOverflow);
                }
                s as i32
            },
            Instruction::LessThan(_, _, _) => if x < y { 1 } else { 0 },
            _ => if x == y { 1 } else { 0 },
        };
        if t >= self.program.len() {
            return Err(IntcodeError::AddressOutOfRange);
        }
        self.set(t, v);
        self.jump(self.pc + 4);
        Ok(Event::Continue)
    }

    /// Carries out a conditional jump decoded at the program counter.
    fn conditional_jump(&mut self, c: Parameter, target: Parameter, on_nonzero: bool) -> (r: Result<
        Event,
        IntcodeError,
    >)
        requires
            old(self).pc + 3 <= usize::MAX,
        ensures
            match jump_step(old(self).program@, old(self).pc, c, target, on_nonzero) {
                Ok((m, p, ev)) => r == Ok::<Event, IntcodeError>(ev) && final(self).program@ == m
                    && final(self).pc == p,
                Err(e) => r == Err::<Event, IntcodeError>(e) && final(self).program@ == old(
                    self,
                ).program@ && final(self).pc == old(self).pc,
            },
    {
        let x = self.resolve(&c)?;
        if (x != 0) == on_nonzero {
            let d = self.resolve(&target)?;
            if d < 0 {
                return Err(IntcodeError::AddressOutOfRange);
            }
            self.jump(d as usize);
        } else {
            self.jump(self.pc + 3);
        }
        Ok(Event::Continue)
    }

    /// Decodes the instruction at the program counter and carries it out.
    ///
    /// `input` is the value offered to an input instruction; without one, an
    /// input instruction leaves the machine as it is and asks for a value. On an
    /// error the machine is left as it was before the step.
    pub fn step(&mut self, input: Option<i32>) -> (r: Result<Event, IntcodeError>)
        ensures
            match step_spec(old(self).program@, old(self).pc, input) {
                Ok((m, p, ev)) => r == Ok::<Event, IntcodeError>(ev) && final(self).program@ == m
                    && final(self).pc == p,
                Err(e) => r == Err::<Event, IntcodeError>(e) && final(self).program@ == old(
                    self,
                ).program@ && final(self).pc == old(self).pc,
            },
    {
        let instruction = match self.next_instruction() {
            Ok(i) => i,
            Err(e) => return Err(e),
        };
        let len = self.program.len();
        proof {
            lemma_decoded_fits(self.program@, self.pc as int);
        }
        match instruction {
            Instruction::Add(a, b, t) => self.compute(instruction, a, b, t),
            Instruction::Multiply(a, b, t) => self.compute(instruction, a, b, t),
            Instruction::LessThan(a, b, t) => self.compute(instruction, a, b, t),
            Instruction::Equals(a, b, t) => self.compute(instruction, a, b, t),
            Instruction::Input(t) => match input {
                None => Ok(Event::AwaitingInput),
                Some(v) => {
                    if t >= len {
                        return Err(IntcodeError::AddressOutOfRange);
                    }
                    self.set(t, v);
                    self.jump(self.pc + 2);
                    Ok(Event::Continue)
                },
            },
            Instruction::Output(a) => {
                let x = self.resolve(&a)?;
                self.jump(self.pc + 2);
                Ok(Event::Output(x))
            },
            Instruction::JumpIfTrue(c, target) => self.conditional_jump(c, target, true),
            Instruction::JumpIfFalse(c, target) => self.conditional_jump(c, target, false),
            Instruction::Halt => Ok(Event::Halted),
        }
    }

    /// Runs the machine until it halts or fails, with no input available,
    /// and returns the values it output, in order.
    ///
    /// An input instruction fails the run with `InputUnavailable`. Memory and
    /// the program counter are left as the last executed step left them, so a
    /// failure can be inspected. At most [`STEP_LIMIT`] steps are executed.
    pub fn run(&mut self) -> (r: Result<Vec<i32>, IntcodeError>)
        ensures
            ({
                let outcome = run_spec(old(self).program@, old(self).pc, STEP_LIMIT as nat);
                &&& final(self).program@ == outcome.mem
                &&& final(self).pc == outcome.pc
                &&& match r {
                    Ok(outputs) => outcome.result == Ok::<Seq<i32>, IntcodeError>(outputs@),
                    Err(e) => outcome.result == Err::<Seq<i32>, IntcodeError>(e),
                }
            }),
    {
        let mut outputs: Vec<i32> = Vec::new();
        let mut fuel: u64 = STEP_LIMIT;
        loop
            invariant
                after_outputs(outputs@, run_spec(self.program@, self.pc, fuel as nat)) == run_spec(
                    old(self).program@,
                    old(self).pc,
                    STEP_LIMIT as nat,
                ),
            decreases fuel,
        {
            if fuel == 0 {
                return Err(IntcodeError::StepLimitReached);
            }
            let ghost before = outputs@;
            match self.step(None) {
                Err(e) => return Err(e),
                Ok(Event::Halted) => {
                    assert(before + Seq::<i32>::empty() =~= before);
                    return Ok(outputs);
                },
                Ok(Event::AwaitingInput) => return Err(IntcodeError::InputUnavailable),
                Ok(Event::Output(v)) => {
                    outputs.push(v);
                    proof {
                        let rest = run_spec(self.program@, self.pc, (fuel - 1) as nat);
                        if let Ok(tail) = rest.result {
                            assert(before + (seq![v] + tail) =~= outputs@ + tail);
                        }
                    }
                },
                Ok(Event::Continue) => {},
            }
            fuel = fuel - 1;
        }
    }

    /// Moves the program counter to `value`.
    pub fn jump(&mut self, value: usize)
        ensures
            final(self).pc == value,
            final(self).program@ == old(self).program@,
    {
        self.pc = value;
    }
}


/// The value an arithmetic instruction writes: the sum for an addition, the
/// product for a multiplication.
pub open spec fn arithmetic_result(instr: Instruction, x: i32, y: i32) -> int {
    match instr {
        Instruction::Multiply(_, _, _) => x * y,
        _ => x + y,
    }
}

/// A program made of one addition or multiplication followed by a halt at
/// index 4 runs to completion: the write target holds the sum or product of
/// the two operand values, every other word is unchanged, and the program
/// counter rests on the halt.
///
/// This holds whenever the operands can be read, the result fits in an `i32`,
/// and the write target lies in memory without overwriting the halt.
pub proof fn lemma_single_arithmetic_instruction(mem: Seq<i32>, x: i32, y: i32)
    requires
        decode_at(mem, 0) matches Ok(instr) && (instr is Add || instr is Multiply),
        mem.len() > 4,
        mem[4] == HALT,
        ({
            let instr = decode_at(mem, 0)->Ok_0;
            let (a, b, t) = match instr {
                Instruction::Add(a, b, t) => (a, b, t),
                Instruction::Multiply(a, b, t) => (a, b, t),
                _ => (Parameter::Immediate(0), Parameter::Immediate(0), 0usize),
            };
            &&& value_of(mem, a) == Ok::<i32, IntcodeError>(x)
            &&& value_of(mem, b) == Ok::<i32, IntcodeError>(y)
            &&& i32::MIN <= arithmetic_result(instr, x, y) <= i32::MAX
            &&& t < mem.len()
            &&& t != 4
        }),
    ensures
        ({
            let instr = decode_at(mem, 0)->Ok_0;
            let t = match instr {
                Instruction::Add(_, _, t) => t,
                Instruction::Multiply(_, _, t) => t,
                _ => 0usize,
            };
            let outcome = run_spec(mem, 0, STEP_LIMIT as nat);
            &&& outcome.mem == mem.update(t as int, arithmetic_result(instr, x, y) as i32)
            &&& outcome.pc == 4
            &&& outcome.result == Ok::<Seq<i32>, IntcodeError>(Seq::empty())
        }),
{
    let instr = decode_at(mem, 0)->Ok_0;
    let (a, b, t) = match instr {
        Instruction::Add(a, b, t) => (a, b, t),
        Instruction::Multiply(a, b, t) => (a, b, t),
        _ => (Parameter::Immediate(0), Parameter::Immediate(0), 0usize),
    };
    let m = mem.update(t as int, arithmetic_result(instr, x, y) as i32);
    assert(step_spec(mem, 0, None) == Ok::<(Seq<i32>, usize, Event), IntcodeError>(
        (m, 4usize, Event::Continue),
    ));
    assert(m[4] == HALT);
    assert(decode_at(m, 4) == Ok::<Instruction, IntcodeError>(Instruction::Halt));
    assert(step_spec(m, 4, None) == Ok::<(Seq<i32>, usize, Event), IntcodeError>(
        (m, 4usize, Event::Halted),
    ));
    let f = (STEP_LIMIT - 1) as nat;
    assert(run_spec(m, 4, f) == RunOutcome {
        mem: m,
        pc: 4,
        result: Ok::<Seq<i32>, IntcodeError>(Seq::empty()),
    });
}

/// A conditional jump whose condition calls for the jump (nonzero for
/// jump-if-true, zero for jump-if-false) sets the program counter exactly to
/// the resolved target, leaves memory unchanged and consumes no input.
///
/// This holds whenever the condition and target can be read and the target is
/// not negative; a negative target lies outside memory and fails the step with
/// `AddressOutOfRange`.
pub proof fn lemma_jump_taken(mem: Seq<i32>, pc: usize, input: Option<i32>, x: i32, d: i32)
    requires
        decode_at(mem, pc as int) matches Ok(instr) && (instr is JumpIfTrue || instr is JumpIfFalse),
        ({
            let instr = decode_at(mem, pc as int)->Ok_0;
            let (c, target, on_nonzero) = match instr {
                Instruction::JumpIfTrue(c, target) => (c, target, true),
                Instruction::JumpIfFalse(c, target) => (c, target, false),
                _ => (Parameter::Immediate(0), Parameter::Immediate(0), false),
            };
            &&& value_of(mem, c) == Ok::<i32, IntcodeError>(x)
            &&& (x != 0) == on_nonzero
            &&& value_of(mem, target) == Ok::<i32, IntcodeError>(d)
            &&& d >= 0
        }),
    ensures
        step_spec(mem, pc, input) == Ok::<(Seq<i32>, usize, Event), IntcodeError>(
            (mem, d as usize, Event::Continue),
        ),
{
}

/// A conditional jump whose condition does not call for the jump moves the
/// program counter past its three words.
pub proof fn lemma_jump_not_taken(mem: Seq<i32>, pc: usize, input: Option<i32>, x: i32)
    requires
        decode_at(mem, pc as int) matches Ok(instr) && (instr is JumpIfTrue || instr is JumpIfFalse),
        ({
            let instr = decode_at(mem, pc as int)->Ok_0;
            let (c, on_nonzero) = match instr {
                Instruction::JumpIfTrue(c, _) => (c, true),
                Instruction::JumpIfFalse(c, _) => (c, false),
                _ => (Parameter::Immediate(0), false),
            };
            &&& value_of(mem, c) == Ok::<i32, IntcodeError>(x)
            &&& (x != 0) != on_nonzero
        }),
    ensures
        step_spec(mem, pc, input) == Ok::<(Seq<i32>, usize, Event), IntcodeError>(
            (mem, (pc + 3) as usize, Event::Continue),
        ),
{
}

/// An instruction word whose low two digits name no operation fails to decode
/// with `UnexpectedOpcode`, whatever follows it. A negative word never names an
/// operation.
pub proof fn lemma_unknown_opcode(mem: Seq<i32>, at: int)
    requires
        0 <= at < mem.len(),
        mem[at] < 0 || !(opcode_of(mem[at]) == ADD || opcode_of(mem[at]) == MULTIPLY
            || opcode_of(mem[at]) == INPUT || opcode_of(mem[at]) == OUTPUT || opcode_of(mem[at])
            == JUMPIFTRUE || opcode_of(mem[at]) == JUMPIFFALSE || opcode_of(mem[at]) == LESSTHAN
            || opcode_of(mem[at]) == EQUALS || opcode_of(mem[at]) == HALT),
    ensures
        decode_at(mem, at) == Err::<Instruction, IntcodeError>(IntcodeError::UnexpectedOpcode),
{
}

/// An addressing-mode digit other than 0 or 1 fails decoding with
/// `UnexpectedParameterMode`, for each operand that the operation reads
/// through a mode digit, once the words before it have been read.
///
/// The operand of an input instruction is a write target, so for it the
/// immediate mode (1) fails too. Halt has no operands, so its digits are not
/// checked.
pub proof fn lemma_unexpected_parameter_mode(mem: Seq<i32>, at: int)
    requires
        0 <= at,
        at + 1 < mem.len(),
        mem[at] >= 0,
        ({
            let w = mem[at];
            let op = opcode_of(w);
            let uses_first = op == ADD || op == MULTIPLY || op == INPUT || op == OUTPUT || op
                == JUMPIFTRUE || op == JUMPIFFALSE || op == LESSTHAN || op == EQUALS;
            let uses_second = uses_first && op != INPUT && op != OUTPUT;
            (uses_first && first_mode_of(w) >= 2) || (op == INPUT && first_mode_of(w) == 1) || (
            uses_second && first_mode_of(w) <= 1
                && second_mode_of(w) >= 2 && at + 2 < mem.len())
        }),
    ensures
        decode_at(mem, at) == Err::<Instruction, IntcodeError>(
            IntcodeError::UnexpectedParameterMode,
        ),
{
}

} // verus!
