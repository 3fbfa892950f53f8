//! The stored-program virtual machine: a flat, self-modifying memory of
//! signed 64-bit integers, an instruction pointer, blocking input and
//! append-only output channels.
//!
//! The abstract machine is the ghost state [`VmState`] together with the
//! one-instruction transition function [`spec_step`] and its iteration
//! [`spec_run`].  Every executable method of [`Computer`] carries a
//! contract stated against this model.

use vstd::prelude::*;

use crate::text::{parse_items, parse_token, strip_ws, stripped_chars};
use crate::text::lemma_find_comma_at;

verus! {

/// A malformed program text: some comma-separated field of the text is
/// not a well-formed 64-bit number.  Fatal at construction; no machine
/// is built.
#[derive(Clone, Copy, Debug, PartialEq, Eq, Structural)]
pub enum ParseError {
    /// A field is empty, holds a character other than a sign or digit,
    /// or writes a value outside the 64-bit range.
    InvalidNumber,
}

/// The memory denoted by a program text: whitespace is stripped, the
/// rest splits on commas, and every field must be a well-formed 64-bit
/// number.
pub open spec fn spec_parse(text: Seq<char>) -> Option<Seq<i64>> {
    parse_items(strip_ws(text))
}

/// A fatal machine fault: decoding met an opcode outside the instruction
/// table, a parameter-mode digit other than 0 or 1, or an access (read,
/// write or jump) that does not land inside memory.
#[derive(Clone, Copy, Debug, PartialEq, Eq, Structural)]
pub enum VmError {
    /// The two low decimal digits of the fetched word name no instruction.
    UnknownOpcode,
    /// A leading decimal digit of the fetched word is neither 0 nor 1.
    UnknownMode,
    /// A read, write or jump target lies outside the memory array.
    OutOfBounds,
}

/// The abstract state of one machine: what [`Computer`] views as.
#[verifier::ext_equal]
pub struct VmState {
    /// The flat memory holding both code and data.
    pub memory: Seq<i64>,
    /// Offset of the next word to fetch.
    pub pointer: nat,
    /// Set only by the halt instruction; terminal.
    pub finished: bool,
    /// Set when a read instruction found no pending input; cleared by
    /// the arrival of new input.
    pub blocked: bool,
    /// Every input value ever supplied, in arrival order.
    pub inputs: Seq<i64>,
    /// How many inputs have been consumed already.
    pub input_pointer: nat,
    /// Every value the machine has emitted, in order.
    pub outputs: Seq<i64>,
}

/// The fresh state for a given program: pointer at zero, no input or
/// output yet.  An empty program counts as finished from the start.
pub open spec fn boot(memory: Seq<i64>) -> VmState {
    VmState {
        memory,
        pointer: 0,
        finished: memory.len() == 0,
        blocked: false,
        inputs: Seq::empty(),
        input_pointer: 0,
        outputs: Seq::empty(),
    }
}

/// The state after one more input value arrives: queued at the back, and
/// the machine is no longer blocked.
pub open spec fn with_input(s: VmState, value: i64) -> VmState {
    VmState { inputs: s.inputs.push(value), blocked: false, ..s }
}

/// Whether `index` is a valid cell of memory `m`.
pub open spec fn in_memory(m: Seq<i64>, index: int) -> bool {
    0 <= index < m.len()
}

/// True when every decimal digit of `p` is 0 or 1 — the well-formedness
/// condition on the leading (mode) digits of an instruction word.
pub open spec fn mode_digits_ok(p: int) -> bool
    decreases p,
{
    p <= 0 || (p % 10 <= 1 && mode_digits_ok(p / 10))
}

/// The mode digit of parameter `k` (counting from zero) in the digit
/// prefix `p`: the least significant leftover digit belongs to the first
/// parameter.
pub open spec fn mode_digit(p: int, k: nat) -> int
    decreases k,
{
    if k == 0 {
        p % 10
    } else {
        mode_digit(p / 10, (k - 1) as nat)
    }
}

/// The outcome of attempting one instruction.
#[verifier::ext_equal]
pub enum StepOutcome {
    /// The machine was already finished or blocked: nothing happens.
    Idle,
    /// One instruction executed, yielding the new state.
    Ran(VmState),
    /// Decoding or addressing failed; the state is left as it was.
    Failed(VmError),
}

/// The value of parameter `k` of the instruction at `s.pointer`, under
/// digit prefix `p`: the raw word in immediate mode, the cell it names in
/// position mode.  Meaningful only when `param_ok` holds.
pub open spec fn param_value(s: VmState, p: int, k: nat) -> i64 {
    let raw = s.memory[s.pointer + 1 + k as int];
    if mode_digit(p, k) == 1 {
        raw
    } else {
        s.memory[raw as int]
    }
}

/// Whether parameter `k` can be resolved: its word lies in memory, and in
/// position mode the address it holds does too.
pub open spec fn param_ok(s: VmState, p: int, k: nat) -> bool {
    &&& in_memory(s.memory, s.pointer + 1 + k as int)
    &&& (mode_digit(p, k) == 1 || in_memory(s.memory, s.memory[s.pointer + 1 + k as int] as int))
}

/// Whether the write target in parameter slot `k` is usable: the word
/// lies in memory and, read as a raw address, names a cell.  Write
/// targets are never resolved through addressing modes.
pub open spec fn target_ok(s: VmState, k: nat) -> bool {
    &&& in_memory(s.memory, s.pointer + 1 + k as int)
    &&& in_memory(s.memory, s.memory[s.pointer + 1 + k as int] as int)
}

/// The raw word in parameter slot `k`.
pub open spec fn raw_param(s: VmState, k: nat) -> i64 {
    s.memory[s.pointer + 1 + k as int]
}

/// The state after a three-parameter instruction writes `value` through
/// the raw address in slot 2 and advances past its four words.
pub open spec fn after_ternary_write(s: VmState, value: i64) -> VmState {
    VmState {
        memory: s.memory.update(raw_param(s, 2) as int, value),
        pointer: (s.pointer + 4) as nat,
        ..s
    }
}

/// One instruction of the abstract machine.
///
/// Mirrors the instruction table: opcodes 1 (add), 2 (multiply),
/// 3 (input), 4 (output), 5 (jump if not zero), 6 (jump if zero),
/// 7 (less than), 8 (equal) and 99 (halt).  Addition and multiplication
/// wrap around the 64-bit two's-complement range.  A finished or blocked
/// machine does nothing; a fault leaves the state unchanged.
pub open spec fn spec_step(s: VmState) -> StepOutcome {
    if s.finished || s.blocked {
        StepOutcome::Idle
    } else if !in_memory(s.memory, s.pointer as int) {
        StepOutcome::Failed(VmError::OutOfBounds)
    } else {
        let w = s.memory[s.pointer as int];
        if w < 0 {
            if w <= -100 {
                StepOutcome::Failed(VmError::UnknownMode)
            } else {
                StepOutcome::Failed(VmError::UnknownOpcode)
            }
        } else if !mode_digits_ok(w / 100) {
            StepOutcome::Failed(VmError::UnknownMode)
        } else {
            let opcode = w as int % 100;
            let p = w / 100;
            if opcode == 1 || opcode == 2 || opcode == 7 || opcode == 8 {
                if !param_ok(s, p, 0) || !param_ok(s, p, 1) || !target_ok(s, 2) {
                    StepOutcome::Failed(VmError::OutOfBounds)
                } else {
                    let a = param_value(s, p, 0);
                    let b = param_value(s, p, 1);
                    let v = if opcode == 1 {
                        vstd::wrapping::i64_specs::wrapping_add(a, b)
                    } else if opcode == 2 {
                        vstd::wrapping::i64_specs::wrapping_mul(a, b)
                    } else if opcode == 7 {
                        if a < b { 1i64 } else { 0i64 }
                    } else {
                        if a == b { 1i64 } else { 0i64 }
                    };
                    StepOutcome::Ran(after_ternary_write(s, v))
                }
            } else if opcode == 3 {
                if !in_memory(s.memory, s.pointer + 1int) {
                    StepOutcome::Failed(VmError::OutOfBounds)
                } else if s.input_pointer >= s.inputs.len() {
                    StepOutcome::Ran(VmState { blocked: true, ..s })
                } else if !in_memory(s.memory, raw_param(s, 0) as int) {
                    StepOutcome::Failed(VmError::OutOfBounds)
                } else {
                    StepOutcome::Ran(VmState {
                        memory: s.memory.update(
                            raw_param(s, 0) as int,
                            s.inputs[s.input_pointer as int],
                        ),
                        pointer: (s.pointer + 2) as nat,
                        input_pointer: (s.input_pointer + 1) as nat,
                        ..s
                    })
                }
            } else if opcode == 4 {
                if !param_ok(s, p, 0) {
                    StepOutcome::Failed(VmError::OutOfBounds)
                } else {
                    StepOutcome::Ran(VmState {
                        outputs: s.outputs.push(param_value(s, p, 0)),
                        pointer: (s.pointer + 2) as nat,
                        ..s
                    })
                }
            } else if opcode == 5 || opcode == 6 {
                if !param_ok(s, p, 0) || !param_ok(s, p, 1) {
                    StepOutcome::Failed(VmError::OutOfBounds)
                } else {
                    let a = param_value(s, p, 0);
                    let t = param_value(s, p, 1);
                    let jump = if opcode == 5 { a != 0 } else { a == 0 };
                    if !jump {
                        StepOutcome::Ran(VmState { pointer: (s.pointer + 3) as nat, ..s })
                    } else if t < 0 || t > usize::MAX {
                        StepOutcome::Failed(VmError::OutOfBounds)
                    } else {
                        StepOutcome::Ran(VmState { pointer: t as nat, ..s })
                    }
                }
            } else if opcode == 99 {
                StepOutcome::Ran(VmState {
                    finished: true,
                    pointer: (s.pointer + 1) as nat,
                    ..s
                })
            } else {
                StepOutcome::Failed(VmError::UnknownOpcode)
            }
        }
    }
}

/// The virtual machine: a program bound to its private memory, its
/// instruction pointer and its input and output channels.
pub struct Computer {
    memory: Vec<i64>,
    pointer: usize,
    finished: bool,
    blocked: bool,
    inputs: Vec<i64>,
    input_pointer: usize,
    outputs: Vec<i64>,
}

impl View for Computer {
    type V = VmState;

    closed spec fn view(&self) -> VmState {
        VmState {
            memory: self.memory@,
            pointer: self.pointer as nat,
            finished: self.finished,
            blocked: self.blocked,
            inputs: self.inputs@,
            input_pointer: self.input_pointer as nat,
            outputs: self.outputs@,
        }
    }
}

impl Computer {
    /// A fresh machine owning the given memory outright.
    pub fn from_vec(memory: Vec<i64>) -> (c: Computer)
        ensures
            c@ == boot(memory@),
    {
        let finished = memory.is_empty();
        Computer {
            pointer: 0,
            finished,
            blocked: false,
            memory,
            inputs: Vec::new(),
            input_pointer: 0,
            outputs: Vec::new(),
        }
    }

    /// A fresh machine for the program the text denotes.
    pub fn from_string(memory: &str) -> (r: Result<Computer, ParseError>)
        ensures
            (match r {
                Ok(c) => spec_parse(memory@) == Some(c@.memory) && c@ == boot(c@.memory),
                Err(_) => spec_parse(memory@) == None::<Seq<i64>>,
            }),
    {
        match Self::parse(memory) {
            Ok(v) => Ok(Self::from_vec(v)),
            Err(e) => Err(e),
        }
    }

    /// The memory array written by a program text: comma-separated 64-bit
    /// numbers, with whitespace allowed anywhere.
    pub fn parse(memory: &str) -> (r: Result<Vec<i64>, ParseError>)
        ensures
            (match r {
                Ok(v) => spec_parse(memory@) == Some(v@),
                Err(_) => spec_parse(memory@) == None::<Seq<i64>>,
            }),
    {
        let stripped = stripped_chars(memory);
        let m = stripped.len();
        let mut values: Vec<i64> = Vec::new();
        let mut j: usize = 0;
        proof {
            assert(stripped@.skip(0) =~= stripped@);
            if let Some(rest) = parse_items(stripped@) {
                assert(Seq::<i64>::empty() + rest =~= rest);
            }
        }
        loop
            invariant
                j <= m,
                m == stripped@.len(),
                stripped@ == strip_ws(memory@),
                (match parse_items(stripped@.skip(j as int)) {
                    Some(rest) => parse_items(stripped@) == Some(values@ + rest),
                    None => parse_items(stripped@) == None::<Seq<i64>>,
                }),
            decreases m - j,
        {
            let mut k = j;
            while k < m && stripped[k] != ','
                invariant
                    j <= k <= m,
                    m == stripped@.len(),
                    forall|q: int| j <= q < k ==> stripped@[q] != ',',
                decreases m - k,
            {
                k = k + 1;
            }
            let ghost u = stripped@.skip(j as int);
            proof {
                assert(forall|i: int| 0 <= i < u.len() ==> u[i] == stripped@[j + i]);
                lemma_find_comma_at(u, k - j);
                assert(u.take(k - j) =~= stripped@.subrange(j as int, k as int));
                assert(u =~= stripped@.subrange(j as int, m as int));
            }
            let parsed = parse_token(&stripped, j, k);
            let v = match parsed {
                Some(v) => v,
                None => {
                    return Err(ParseError::InvalidNumber);
                },
            };
            values.push(v);
            if k == m {
                proof {
                    assert(u.take(k - j) =~= u);
                }
                return Ok(values);
            }
            proof {
                assert(u.skip(k - j + 1) =~= stripped@.skip(k + 1int));
                if let Some(rest) = parse_items(stripped@.skip(k + 1int)) {
                    assert(values@ =~= values@.drop_last() + seq![v]);
                    assert(values@.drop_last() + (seq![v] + rest) =~= values@ + rest);
                }
            }
            j = k + 1;
        }
    }

    /// Queue one more input value; the machine is unblocked, though only
    /// a later `step` or `run` makes it move again.
    pub fn add_input(&mut self, input: i64)
        ensures
            final(self)@ == with_input(old(self)@, input),
    {
        self.inputs.push(input);
        self.blocked = false;
    }

    /// The full output log, in the order the machine emitted it.
    pub fn read_outputs(&self) -> (r: &Vec<i64>)
        ensures
            r@ == self@.outputs,
    {
        &self.outputs
    }

    /// Direct inspection of one memory cell.
    pub fn read(&self, position: usize) -> (r: i64)
        requires
            position < self@.memory.len(),
        ensures
            r == self@.memory[position as int],
    {
        self.memory[position]
    }

    /// Direct patching of one memory cell, before or between runs.
    pub fn replace(&mut self, position: usize, value: i64)
        requires
            position < old(self)@.memory.len(),
        ensures
            (final(self)@ == VmState {
                memory: old(self)@.memory.update(position as int, value),
                ..old(self)@
            }),
    {
        self.memory[position] = value;
    }

    /// The whole memory array.
    pub fn read_memory(&self) -> (r: &Vec<i64>)
        ensures
            r@ == self@.memory,
    {
        &self.memory
    }

    /// Whether the halt instruction has run: terminal.
    pub fn finished(&self) -> (r: bool)
        ensures
            r == self@.finished,
    {
        self.finished
    }

    /// Whether the machine is waiting for input.
    pub fn blocked(&self) -> (r: bool)
        ensures
            r == self@.blocked,
    {
        self.blocked
    }

    /// The value of the cell named by `addr`, or the addressing fault when
    /// `addr` does not name a cell.
    fn cell(&self, addr: i64) -> (r: Result<i64, VmError>)
        ensures
            (match r {
                Ok(v) => in_memory(self@.memory, addr as int) && v == self@.memory[addr as int],
                Err(e) => e == VmError::OutOfBounds && !in_memory(self@.memory, addr as int),
            }),
    {
        if addr < 0 {
            return Err(VmError::OutOfBounds);
        }
        let a = addr as u64;
        if a >= self.memory.len() as u64 {
            return Err(VmError::OutOfBounds);
        }
        Ok(self.memory[a as usize])
    }

    /// `addr` as a cell index, or the addressing fault when it does not
    /// name a cell.
    fn cell_index(&self, addr: i64) -> (r: Result<usize, VmError>)
        ensures
            (match r {
                Ok(i) => in_memory(self@.memory, addr as int) && i as int == addr as int,
                Err(e) => e == VmError::OutOfBounds && !in_memory(self@.memory, addr as int),
            }),
    {
        if addr < 0 {
            return Err(VmError::OutOfBounds);
        }
        let a = addr as u64;
        if a >= self.memory.len() as u64 {
            return Err(VmError::OutOfBounds);
        }
        Ok(a as usize)
    }

    /// Execute one instruction, following [`spec_step`] exactly.
    ///
    /// The result says whether execution may continue: `Ok(false)` when
    /// the machine was already finished or blocked, or when the executed
    /// instruction was an input read that found the queue exhausted (the
    /// machine is then blocked, with the instruction pointer back on the
    /// read instruction); `Ok(true)` after any other instruction; and the
    /// fault, with the state untouched, when decoding or addressing fails.
    pub fn step(&mut self) -> (r: Result<bool, VmError>)
        ensures
            (match spec_step(old(self)@) {
                StepOutcome::Idle => final(self)@ == old(self)@ && r == Ok::<bool, VmError>(false),
                StepOutcome::Ran(s2) => final(self)@ == s2 && r == Ok::<bool, VmError>(!s2.blocked),
                StepOutcome::Failed(e) => final(self)@ == old(self)@ && r == Err::<bool, VmError>(e),
            }),
    {
        if self.finished || self.blocked {
            return Ok(false);
        }
        let ptr = self.pointer;
        let len = self.memory.len();
        if ptr >= len {
            return Err(VmError::OutOfBounds);
        }
        let w = self.memory[ptr];
        if w < 0 {
            if w <= -100 {
                return Err(VmError::UnknownMode);
            } else {
                return Err(VmError::UnknownOpcode);
            }
        }
        let wu = w as u64;
        let opcode = wu % 100;
        let prefix = wu / 100;
        if !prefix_digits_ok(prefix) {
            return Err(VmError::UnknownMode);
        }
        let m0 = prefix % 10;
        let m1 = (prefix / 10) % 10;
        proof {
            reveal_with_fuel(mode_digit, 3);
            assert(m0 as int == mode_digit(w / 100, 0));
            assert(m1 as int == mode_digit(w / 100, 1));
        }
        match opcode {
            1 | 2 | 7 | 8 => {
                if len - ptr < 4 {
                    return Err(VmError::OutOfBounds);
                }
                let ra = self.memory[ptr + 1];
                let rb = self.memory[ptr + 2];
                let rc = self.memory[ptr + 3];
                let a = if m0 == 1 {
                    ra
                } else {
                    match self.cell(ra) {
                        Ok(v) => v,
                        Err(e) => { return Err(e); },
                    }
                };
                let b = if m1 == 1 {
                    rb
                } else {
                    match self.cell(rb) {
                        Ok(v) => v,
                        Err(e) => { return Err(e); },
                    }
                };
                let dest = match self.cell_index(rc) {
                    Ok(i) => i,
                    Err(e) => { return Err(e); },
                };
                let v = if opcode == 1 {
                    a.wrapping_add(b)
                } else if opcode == 2 {
                    a.wrapping_mul(b)
                } else if opcode == 7 {
                    if a < b { 1 } else { 0 }
                } else {
                    if a == b { 1 } else { 0 }
                };
                self.memory[dest] = v;
                self.pointer = ptr + 4;
                Ok(true)
            },
            3 => {
                if len - ptr < 2 {
                    return Err(VmError::OutOfBounds);
                }
                let ra = self.memory[ptr + 1];
                if self.input_pointer >= self.inputs.len() {
                    self.blocked = true;
                    return Ok(false);
                }
                let dest = match self.cell_index(ra) {
                    Ok(i) => i,
                    Err(e) => { return Err(e); },
                };
                let v = self.inputs[self.input_pointer];
                self.memory[dest] = v;
                self.input_pointer = self.input_pointer + 1;
                self.pointer = ptr + 2;
                Ok(true)
            },
            4 => {
                if len - ptr < 2 {
                    return Err(VmError::OutOfBounds);
                }
                let ra = self.memory[ptr + 1];
                let a = if m0 == 1 {
                    ra
                } else {
                    match self.cell(ra) {
                        Ok(v) => v,
                        Err(e) => { return Err(e); },
                    }
                };
                self.outputs.push(a);
                self.pointer = ptr + 2;
                Ok(true)
            },
            5 | 6 => {
                if len - ptr < 3 {
                    return Err(VmError::OutOfBounds);
                }
                let ra = self.memory[ptr + 1];
                let rb = self.memory[ptr + 2];
                let a = if m0 == 1 {
                    ra
                } else {
                    match self.cell(ra) {
                        Ok(v) => v,
                        Err(e) => { return Err(e); },
                    }
                };
                let t = if m1 == 1 {
                    rb
                } else {
                    match self.cell(rb) {
                        Ok(v) => v,
                        Err(e) => { return Err(e); },
                    }
                };
                let jump = if opcode == 5 { a != 0 } else { a == 0 };
                if !jump {
                    self.pointer = ptr + 3;
                } else {
                    if t < 0 {
                        return Err(VmError::OutOfBounds);
                    }
                    if t as u64 > usize::MAX as u64 {
                        return Err(VmError::OutOfBounds);
                    }
                    self.pointer = t as usize;
                }
                Ok(true)
            },
            99 => {
                self.finished = true;
                self.pointer = ptr + 1;
                Ok(true)
            },
            _ => Err(VmError::UnknownOpcode),
        }
    }

    /// Step until the machine stops: it finishes, blocks on input, or
    /// faults.  A program that does none of those is cut off after
    /// [`STEP_LIMIT`] instructions.
    pub fn run(&mut self) -> (r: Result<(), VmError>)
        ensures
            (match run_result(old(self)@) {
                RunOutcome::Stopped(t) => final(self)@ == t && r == Ok::<(), VmError>(()),
                RunOutcome::Failed(t, e) => final(self)@ == t && r == Err::<(), VmError>(e),
                RunOutcome::OutOfSteps(t) => final(self)@ == t && r == Ok::<(), VmError>(()),
            }),
    {
        let mut count: u64 = 0;
        loop
            invariant
                count <= STEP_LIMIT,
                spec_run(old(self)@, STEP_LIMIT as nat) == spec_run(self@, (STEP_LIMIT - count) as nat),
            decreases STEP_LIMIT - count,
        {
            if count == STEP_LIMIT {
                return Ok(());
            }
            let ghost fuel = (STEP_LIMIT - count) as nat;
            let ghost pre = self@;
            match self.step() {
                Ok(true) => {
                    proof {
                        assert(spec_run(pre, fuel) == spec_run(self@, (fuel - 1) as nat));
                    }
                    count = count + 1;
                },
                Ok(false) => {
                    proof {
                        if let StepOutcome::Ran(s2) = spec_step(pre) {
                            assert(spec_run(pre, fuel) == spec_run(s2, (fuel - 1) as nat));
                            if fuel - 1 > 0 {
                                assert(spec_run(s2, (fuel - 1) as nat) == RunOutcome::Stopped(s2));
                            }
                        }
                    }
                    return Ok(());
                },
                Err(e) => {
                    return Err(e);
                },
            }
        }
    }
}

/// The longest burst of instructions one `run` call will execute; a
/// machine that has not stopped by then is handed back as it stands.
pub const STEP_LIMIT: u64 = 0xFFFF_FFFF_FFFF_FFFF;

/// How a burst of execution ended.
#[verifier::ext_equal]
pub enum RunOutcome {
    /// The machine finished, blocked, or was stopped to begin with.
    Stopped(VmState),
    /// A step faulted; the state on which it faulted, unchanged.
    Failed(VmState, VmError),
    /// The fuel ran out with the machine still willing to go on.
    OutOfSteps(VmState),
}

/// Iterate [`spec_step`] for at most `fuel` instructions.
pub open spec fn spec_run(s: VmState, fuel: nat) -> RunOutcome
    decreases fuel,
{
    if fuel == 0 {
        RunOutcome::OutOfSteps(s)
    } else {
        match spec_step(s) {
            StepOutcome::Idle => RunOutcome::Stopped(s),
            StepOutcome::Failed(e) => RunOutcome::Failed(s, e),
            StepOutcome::Ran(s2) => spec_run(s2, (fuel - 1) as nat),
        }
    }
}

/// What [`Computer::run`] does to a machine in state `s`.
pub open spec fn run_result(s: VmState) -> RunOutcome {
    spec_run(s, STEP_LIMIT as nat)
}

/// No instruction grows or shrinks memory: however a burst of execution
/// ends, the machine holds as many cells as it started with.
pub proof fn lemma_run_memory_len(s: VmState, fuel: nat)
    ensures
        (match spec_run(s, fuel) {
            RunOutcome::Stopped(t) => t.memory.len() == s.memory.len(),
            RunOutcome::Failed(t, _) => t.memory.len() == s.memory.len(),
            RunOutcome::OutOfSteps(t) => t.memory.len() == s.memory.len(),
        }),
    decreases fuel,
{
    if fuel != 0 {
        if let StepOutcome::Ran(s2) = spec_step(s) {
            lemma_run_memory_len(s2, (fuel - 1) as nat);
        }
    }
}

/// The channel discipline of a burst of execution: the input queue is
/// never rewritten — values are only consumed by advancing past them —
/// and the output log is append-only, never cleared.
pub proof fn lemma_run_channels(s: VmState, fuel: nat)
    ensures
        (match spec_run(s, fuel) {
            RunOutcome::Stopped(t) => t.inputs == s.inputs && t.outputs.len() >= s.outputs.len()
                && t.outputs.take(s.outputs.len() as int) == s.outputs,
            RunOutcome::Failed(t, _) => t.inputs == s.inputs && t.outputs.len() >= s.outputs.len()
                && t.outputs.take(s.outputs.len() as int) == s.outputs,
            RunOutcome::OutOfSteps(t) => t.inputs == s.inputs && t.outputs.len()
                >= s.outputs.len() && t.outputs.take(s.outputs.len() as int) == s.outputs,
        }),
    decreases fuel,
{
    if fuel != 0 {
        if let StepOutcome::Ran(s2) = spec_step(s) {
            assert(s2.outputs.take(s.outputs.len() as int) =~= s.outputs);
            lemma_run_channels(s2, (fuel - 1) as nat);
            let t = match spec_run(s2, (fuel - 1) as nat) {
                RunOutcome::Stopped(t) => t,
                RunOutcome::Failed(t, _) => t,
                RunOutcome::OutOfSteps(t) => t,
            };
            assert(t.outputs.take(s.outputs.len() as int) =~= t.outputs.take(
                s2.outputs.len() as int,
            ).take(s.outputs.len() as int));
        }
    }
}

/// A private copy of a memory image, for spinning up an isolated machine:
/// each engine owns its memory outright and never shares it.
pub fn clone_memory(memory: &Vec<i64>) -> (r: Vec<i64>)
    ensures
        r@ == memory@,
{
    let r = memory.clone();
    proof {
        assert(forall|i: int| 0 <= i < memory@.len() ==> r@[i] == memory@[i]);
        assert(r@ =~= memory@);
    }
    r
}

/// True when every decimal digit of `p` is 0 or 1, executably.
fn prefix_digits_ok(p: u64) -> (r: bool)
    ensures
        r == mode_digits_ok(p as int),
{
    let mut q = p;
    while q > 0
        invariant
            mode_digits_ok(p as int) == mode_digits_ok(q as int),
        decreases q,
    {
        if q % 10 > 1 {
            return false;
        }
        q = q / 10;
    }
    true
}

} // verus!
