//! Sunny with a Chance of Asteroids: run the diagnostic program with one
//! input value and report the last value it prints.

use vstd::prelude::*;

use crate::days::SolveError;
use crate::intcode::{boot, run_result, spec_parse, with_input, Computer, RunOutcome};
use crate::text::{i64_to_string, spec_i64_string};

verus! {

/// The last output of the program `mem` run with the single input
/// `input`: a fault aborts, and a run without output has nothing to
/// report.
pub open spec fn diagnostic_output(mem: Seq<i64>, input: i64) -> Result<i64, SolveError> {
    match run_result(with_input(boot(mem), input)) {
        RunOutcome::Failed(_, e) => Err(SolveError::Machine(e)),
        RunOutcome::Stopped(t) => if t.outputs.len() > 0 {
            Ok(t.outputs.last())
        } else {
            Err(SolveError::NoOutput)
        },
        RunOutcome::OutOfSteps(t) => if t.outputs.len() > 0 {
            Ok(t.outputs.last())
        } else {
            Err(SolveError::NoOutput)
        },
    }
}

/// Parse the program, run it with `input`, and write its last output in
/// decimal.
fn diagnose(data: &str, input: i64) -> (r: Result<String, SolveError>)
    ensures
        (match spec_parse(data@) {
            None => r == Err::<String, SolveError>(SolveError::BadInput),
            Some(mem) => (match diagnostic_output(mem, input) {
                Err(e) => r == Err::<String, SolveError>(e),
                Ok(v) => r matches Ok(s) && s@ == spec_i64_string(v),
            }),
        }),
{
    let mut computer = match Computer::from_string(data) {
        Ok(c) => c,
        Err(_) => {
            return Err(SolveError::BadInput);
        },
    };
    computer.add_input(input);
    match computer.run() {
        Err(e) => {
            return Err(SolveError::Machine(e));
        },
        Ok(()) => {},
    }
    let outs = computer.read_outputs();
    if outs.len() == 0 {
        return Err(SolveError::NoOutput);
    }
    Ok(i64_to_string(outs[outs.len() - 1]))
}

/// The diagnostic code for the air conditioner unit: input 1.
pub fn part1(data: &str) -> (r: Result<String, SolveError>)
    ensures
        (match spec_parse(data@) {
            None => r == Err::<String, SolveError>(SolveError::BadInput),
            Some(mem) => (match diagnostic_output(mem, 1) {
                Err(e) => r == Err::<String, SolveError>(e),
                Ok(v) => r matches Ok(s) && s@ == spec_i64_string(v),
            }),
        }),
{
    diagnose(data, 1)
}

/// The diagnostic code for the thermal radiator controller: input 5.
pub fn part2(data: &str) -> (r: Result<String, SolveError>)
    ensures
        (match spec_parse(data@) {
            None => r == Err::<String, SolveError>(SolveError::BadInput),
            Some(mem) => (match diagnostic_output(mem, 5) {
                Err(e) => r == Err::<String, SolveError>(e),
                Ok(v) => r matches Ok(s) && s@ == spec_i64_string(v),
            }),
        }),
{
    diagnose(data, 5)
}

} // verus!
