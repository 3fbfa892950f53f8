//! The general laws of the virtual machine, stated over the abstract
//! model and proved once and for all: what one step of an addition or a
//! multiplication program does to memory, how the comparison and jump
//! programs classify any input whatsoever, and that an unknown opcode is
//! fatal on the spot.

use vstd::prelude::*;

use crate::intcode::{boot, run_result, spec_run, spec_step, with_input};
use crate::intcode::{RunOutcome, StepOutcome, VmError, VmState, STEP_LIMIT};

verus! {

/// For every choice of in-range addresses `a`, `b` and `c`, one step of
/// the program `[1,a,b,c,99]` stores the sum of the cells at `a` and `b`
/// into the cell at `c`, moves the pointer past the instruction, and
/// changes nothing else.
pub proof fn lemma_add_program_step(a: i64, b: i64, c: i64)
    requires
        0 <= a < 5,
        0 <= b < 5,
        0 <= c < 5,
    ensures
        ({
            let m = seq![1i64, a, b, c, 99i64];
            let s = boot(m);
            spec_step(s) == StepOutcome::Ran(VmState {
                memory: m.update(c as int, (m[a as int] + m[b as int]) as i64),
                pointer: 4,
                ..s
            })
        }),
{
    let m = seq![1i64, a, b, c, 99i64];
    let s = boot(m);
    reveal_with_fuel(crate::intcode::mode_digits_ok, 2);
    reveal_with_fuel(crate::intcode::mode_digit, 3);
    assert(0 <= m[a as int] <= 99 && 0 <= m[b as int] <= 99);
    assert(spec_step(s) =~= StepOutcome::Ran(VmState {
        memory: m.update(c as int, (m[a as int] + m[b as int]) as i64),
        pointer: 4,
        ..s
    }));
}

/// For every choice of in-range addresses `a`, `b` and `c`, one step of
/// the program `[2,a,b,c,99]` stores the product of the cells at `a` and
/// `b` into the cell at `c`, moves the pointer past the instruction, and
/// changes nothing else.
pub proof fn lemma_mul_program_step(a: i64, b: i64, c: i64)
    requires
        0 <= a < 5,
        0 <= b < 5,
        0 <= c < 5,
    ensures
        ({
            let m = seq![2i64, a, b, c, 99i64];
            let s = boot(m);
            spec_step(s) == StepOutcome::Ran(VmState {
                memory: m.update(c as int, (m[a as int] * m[b as int]) as i64),
                pointer: 4,
                ..s
            })
        }),
{
    let m = seq![2i64, a, b, c, 99i64];
    let s = boot(m);
    reveal_with_fuel(crate::intcode::mode_digits_ok, 2);
    reveal_with_fuel(crate::intcode::mode_digit, 3);
    assert(0 <= m[a as int] <= 99 && 0 <= m[b as int] <= 99);
    assert(m[a as int] * m[b as int] <= 99 * 99) by (nonlinear_arith)
        requires 0 <= m[a as int] <= 99 && 0 <= m[b as int] <= 99;
    assert(vstd::wrapping::i64_specs::wrapping_mul(m[a as int], m[b as int]) == (m[a as int]
        * m[b as int]) as i64) by {
        vstd::arithmetic::div_mod::lemma_small_mod((m[a as int] * m[b as int]) as nat,
            0x1_0000_0000_0000_0000);
    }
    assert(spec_step(s) =~= StepOutcome::Ran(VmState {
        memory: m.update(c as int, (m[a as int] * m[b as int]) as i64),
        pointer: 4,
        ..s
    }));
}

/// A word whose two low digits name no instruction stops the machine
/// cold: on a live machine whose leading digits are well formed, the
/// step fails at once with the unknown-opcode fault, whatever the rest
/// of the state holds.
pub proof fn lemma_unknown_opcode_fatal(s: VmState)
    requires
        !s.finished,
        !s.blocked,
        0 <= s.pointer < s.memory.len(),
        s.memory[s.pointer as int] >= 0,
        crate::intcode::mode_digits_ok(s.memory[s.pointer as int] / 100),
        ({
            let opcode = s.memory[s.pointer as int] as int % 100;
            !(opcode == 1 || opcode == 2 || opcode == 3 || opcode == 4 || opcode == 5 || opcode
                == 6 || opcode == 7 || opcode == 8 || opcode == 99)
        }),
    ensures
        spec_step(s) == StepOutcome::Failed(VmError::UnknownOpcode),
{
}

/// `Finished` is terminal: once the halt instruction has run, no amount
/// of stepping has any further effect.
pub proof fn lemma_finished_is_terminal(s: VmState)
    requires
        s.finished,
    ensures
        spec_step(s) == StepOutcome::Idle,
{
}

/// The equality tester `[3,9,8,9,10,9,4,9,99,-1,8]`, run with any single
/// input `i`, finishes and emits exactly one value: 1 when `i == 8`,
/// otherwise 0.
pub proof fn lemma_equal_program(i: i64)
    ensures
        ({
            let s0 = with_input(boot(seq![3i64, 9, 8, 9, 10, 9, 4, 9, 99, -1i64, 8]), i);
            &&& run_result(s0) is Stopped
            &&& run_result(s0)->Stopped_0.finished
            &&& run_result(s0)->Stopped_0.outputs == seq![if i == 8 { 1i64 } else { 0i64 }]
        }),
{
    let m0 = seq![3i64, 9, 8, 9, 10, 9, 4, 9, 99, -1i64, 8];
    let s0 = with_input(boot(m0), i);
    let outv: i64 = if i == 8 { 1i64 } else { 0i64 };
    reveal_with_fuel(crate::intcode::mode_digits_ok, 2);
    reveal_with_fuel(crate::intcode::mode_digit, 3);
    let fuel = STEP_LIMIT as nat;
    let m1 = m0.update(9, i);
    let s1 = VmState { memory: m1, pointer: 2, input_pointer: 1, ..s0 };
    assert(s0.inputs[0] == i);
    assert(spec_step(s0) =~= StepOutcome::Ran(s1));
    assert(spec_run(s0, fuel) == spec_run(s1, (fuel - 1) as nat));
    let m2 = m1.update(9, outv);
    let s2 = VmState { memory: m2, pointer: 6, ..s1 };
    assert(m1[2] == 8 && m1[3] == 9 && m1[4] == 10 && m1[5] == 9 && m1[9] == i && m1[10] == 8);
    assert(spec_step(s1) =~= StepOutcome::Ran(s2));
    assert(spec_run(s1, (fuel - 1) as nat) == spec_run(s2, (fuel - 2) as nat));
    let s3 = VmState { outputs: seq![outv], pointer: 8, ..s2 };
    assert(m2[6] == 4 && m2[7] == 9 && m2[9] == outv);
    assert(s2.outputs =~= Seq::<i64>::empty());
    assert(s2.outputs.push(outv) =~= seq![outv]);
    assert(spec_step(s2) =~= StepOutcome::Ran(s3));
    assert(spec_run(s2, (fuel - 2) as nat) == spec_run(s3, (fuel - 3) as nat));
    let s4 = VmState { finished: true, pointer: 9, ..s3 };
    assert(m2[8] == 99);
    assert(spec_step(s3) =~= StepOutcome::Ran(s4));
    assert(spec_run(s3, (fuel - 3) as nat) == spec_run(s4, (fuel - 4) as nat));
    assert(spec_step(s4) == StepOutcome::Idle);
    assert(spec_run(s4, (fuel - 4) as nat) == RunOutcome::Stopped(s4));
}

/// The less-than tester `[3,9,7,9,10,9,4,9,99,-1,8]`, run with any
/// single input `i`, finishes and emits exactly one value: 1 when
/// `i < 8`, otherwise 0.
pub proof fn lemma_less_than_program(i: i64)
    ensures
        ({
            let s0 = with_input(boot(seq![3i64, 9, 7, 9, 10, 9, 4, 9, 99, -1i64, 8]), i);
            &&& run_result(s0) is Stopped
            &&& run_result(s0)->Stopped_0.finished
            &&& run_result(s0)->Stopped_0.outputs == seq![if i < 8 { 1i64 } else { 0i64 }]
        }),
{
    let m0 = seq![3i64, 9, 7, 9, 10, 9, 4, 9, 99, -1i64, 8];
    let s0 = with_input(boot(m0), i);
    let outv: i64 = if i < 8 { 1i64 } else { 0i64 };
    reveal_with_fuel(crate::intcode::mode_digits_ok, 2);
    reveal_with_fuel(crate::intcode::mode_digit, 3);
    let fuel = STEP_LIMIT as nat;
    let m1 = m0.update(9, i);
    let s1 = VmState { memory: m1, pointer: 2, input_pointer: 1, ..s0 };
    assert(s0.inputs[0] == i);
    assert(spec_step(s0) =~= StepOutcome::Ran(s1));
    assert(spec_run(s0, fuel) == spec_run(s1, (fuel - 1) as nat));
    let m2 = m1.update(9, outv);
    let s2 = VmState { memory: m2, pointer: 6, ..s1 };
    assert(m1[2] == 7 && m1[3] == 9 && m1[4] == 10 && m1[5] == 9 && m1[9] == i && m1[10] == 8);
    assert(spec_step(s1) =~= StepOutcome::Ran(s2));
    assert(spec_run(s1, (fuel - 1) as nat) == spec_run(s2, (fuel - 2) as nat));
    let s3 = VmState { outputs: seq![outv], pointer: 8, ..s2 };
    assert(m2[6] == 4 && m2[7] == 9 && m2[9] == outv);
    assert(s2.outputs.push(outv) =~= seq![outv]);
    assert(spec_step(s2) =~= StepOutcome::Ran(s3));
    assert(spec_run(s2, (fuel - 2) as nat) == spec_run(s3, (fuel - 3) as nat));
    let s4 = VmState { finished: true, pointer: 9, ..s3 };
    assert(m2[8] == 99);
    assert(spec_step(s3) =~= StepOutcome::Ran(s4));
    assert(spec_run(s3, (fuel - 3) as nat) == spec_run(s4, (fuel - 4) as nat));
    assert(spec_step(s4) == StepOutcome::Idle);
    assert(spec_run(s4, (fuel - 4) as nat) == RunOutcome::Stopped(s4));
}

/// The jump tester `[3,12,6,12,15,1,13,14,13,4,13,99,-1,0,1,9]`, run
/// with any single input `i`, finishes and emits exactly one value: 0
/// when `i == 0`, otherwise 1.
pub proof fn lemma_jump_program(i: i64)
    ensures
        ({
            let s0 = with_input(boot(seq![3i64, 12, 6, 12, 15, 1, 13, 14, 13, 4, 13, 99, -1i64, 0, 1, 9]), i);
            &&& run_result(s0) is Stopped
            &&& run_result(s0)->Stopped_0.finished
            &&& run_result(s0)->Stopped_0.outputs == seq![if i == 0 { 0i64 } else { 1i64 }]
        }),
{
    let m0 = seq![3i64, 12, 6, 12, 15, 1, 13, 14, 13, 4, 13, 99, -1i64, 0, 1, 9];
    let s0 = with_input(boot(m0), i);
    reveal_with_fuel(crate::intcode::mode_digits_ok, 2);
    reveal_with_fuel(crate::intcode::mode_digit, 3);
    let fuel = STEP_LIMIT as nat;
    let m1 = m0.update(12, i);
    let s1 = VmState { memory: m1, pointer: 2, input_pointer: 1, ..s0 };
    assert(s0.inputs[0] == i);
    assert(spec_step(s0) =~= StepOutcome::Ran(s1));
    assert(spec_run(s0, fuel) == spec_run(s1, (fuel - 1) as nat));
    assert(m1[2] == 6 && m1[3] == 12 && m1[4] == 15 && m1[12] == i && m1[15] == 9);
    assert(usize::MAX >= 0xFFFF_FFFFu64);
    if i == 0 {
        let s2 = VmState { pointer: 9, ..s1 };
        assert(spec_step(s1) =~= StepOutcome::Ran(s2));
        assert(spec_run(s1, (fuel - 1) as nat) == spec_run(s2, (fuel - 2) as nat));
        let s3 = VmState { outputs: seq![0i64], pointer: 11, ..s2 };
        assert(m1[9] == 4 && m1[10] == 13 && m1[13] == 0);
        assert(s2.outputs.push(0i64) =~= seq![0i64]);
        assert(spec_step(s2) =~= StepOutcome::Ran(s3));
        assert(spec_run(s2, (fuel - 2) as nat) == spec_run(s3, (fuel - 3) as nat));
        let s4 = VmState { finished: true, pointer: 12, ..s3 };
        assert(m1[11] == 99);
        assert(spec_step(s3) =~= StepOutcome::Ran(s4));
        assert(spec_run(s3, (fuel - 3) as nat) == spec_run(s4, (fuel - 4) as nat));
        assert(spec_step(s4) == StepOutcome::Idle);
        assert(spec_run(s4, (fuel - 4) as nat) == RunOutcome::Stopped(s4));
    } else {
        let s2 = VmState { pointer: 5, ..s1 };
        assert(spec_step(s1) =~= StepOutcome::Ran(s2));
        assert(spec_run(s1, (fuel - 1) as nat) == spec_run(s2, (fuel - 2) as nat));
        let m2 = m1.update(13, 1i64);
        let s3 = VmState { memory: m2, pointer: 9, ..s2 };
        assert(m1[5] == 1 && m1[6] == 13 && m1[7] == 14 && m1[8] == 13 && m1[13] == 0 && m1[14]
            == 1);
        assert(vstd::wrapping::i64_specs::wrapping_add(0i64, 1i64) == 1i64);
        assert(spec_step(s2) =~= StepOutcome::Ran(s3));
        assert(spec_run(s2, (fuel - 2) as nat) == spec_run(s3, (fuel - 3) as nat));
        let s4 = VmState { outputs: seq![1i64], pointer: 11, ..s3 };
        assert(m2[9] == 4 && m2[10] == 13 && m2[13] == 1);
        assert(s3.outputs.push(1i64) =~= seq![1i64]);
        assert(spec_step(s3) =~= StepOutcome::Ran(s4));
        assert(spec_run(s3, (fuel - 3) as nat) == spec_run(s4, (fuel - 4) as nat));
        let s5 = VmState { finished: true, pointer: 12, ..s4 };
        assert(m2[11] == 99);
        assert(spec_step(s4) =~= StepOutcome::Ran(s5));
        assert(spec_run(s4, (fuel - 4) as nat) == spec_run(s5, (fuel - 5) as nat));
        assert(spec_step(s5) == StepOutcome::Idle);
        assert(spec_run(s5, (fuel - 5) as nat) == RunOutcome::Stopped(s5));
    }
}

} // verus!
