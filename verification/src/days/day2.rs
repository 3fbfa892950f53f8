//! 1202 Program Alarm: run the gravity-assist program with a patched
//! noun and verb, and search for the pair that restores a target value.

use vstd::prelude::*;

use crate::days::SolveError;
use crate::intcode::{boot, clone_memory, run_result, spec_parse, Computer, RunOutcome};
use crate::text::{i64_to_string, spec_i64_string};

verus! {

/// The value the noun/verb search must restore in cell 0.
pub const TARGET_OUTPUT: i64 = 19_690_720;

/// `mem` with `noun` written to cell 1 and `verb` to cell 2.
pub open spec fn patched(mem: Seq<i64>, noun: i64, verb: i64) -> Seq<i64> {
    mem.update(1, noun).update(2, verb)
}

/// Cell 0 after the patched program stops, or the fault that ended it.
pub open spec fn run_patched(mem: Seq<i64>, noun: i64, verb: i64) -> Result<i64, SolveError> {
    match run_result(boot(patched(mem, noun, verb))) {
        RunOutcome::Failed(_, e) => Err(SolveError::Machine(e)),
        RunOutcome::Stopped(t) => Ok(t.memory[0]),
        RunOutcome::OutOfSteps(t) => Ok(t.memory[0]),
    }
}

/// Try the noun/verb pairs in the order `k = 100 * noun + verb`, from
/// `k` upward: the first pair whose run puts [`TARGET_OUTPUT`] in cell 0
/// wins and its `k` is the answer; a fault aborts the search.
pub open spec fn spec_search(mem: Seq<i64>, k: int) -> Result<i64, SolveError>
    decreases 10000 - k,
{
    if !(0 <= k < 10000) {
        Err(SolveError::NoSolution)
    } else {
        match run_patched(mem, (k / 100) as i64, (k % 100) as i64) {
            Err(e) => Err(e),
            Ok(v) => if v == TARGET_OUTPUT {
                Ok(k as i64)
            } else {
                spec_search(mem, k + 1)
            },
        }
    }
}

/// Cell 0 after running the program with the historical patch: noun 12,
/// verb 2.
pub fn part1(data: &str) -> (r: Result<String, SolveError>)
    ensures
        (match spec_parse(data@) {
            None => r == Err::<String, SolveError>(SolveError::BadInput),
            Some(mem) => if mem.len() < 3 {
                r == Err::<String, SolveError>(SolveError::BadInput)
            } else {
                (match run_patched(mem, 12, 2) {
                    Err(e) => r == Err::<String, SolveError>(e),
                    Ok(v) => r matches Ok(s) && s@ == spec_i64_string(v),
                })
            },
        }),
{
    let mut computer = match Computer::from_string(data) {
        Ok(c) => c,
        Err(_) => {
            return Err(SolveError::BadInput);
        },
    };
    let ghost mem = computer@.memory;
    if computer.read_memory().len() < 3 {
        return Err(SolveError::BadInput);
    }
    computer.replace(1, 12);
    computer.replace(2, 2);
    proof {
        assert(computer@ =~= boot(patched(mem, 12, 2)));
    }
    match computer.run() {
        Err(e) => {
            return Err(SolveError::Machine(e));
        },
        Ok(()) => {},
    }
    proof {
        crate::intcode::lemma_run_memory_len(boot(patched(mem, 12, 2)), crate::intcode::STEP_LIMIT as nat);
    }
    Ok(i64_to_string(computer.read(0)))
}

/// The noun and verb, encoded as `100 * noun + verb`, that put the
/// target value in cell 0; pairs are tried in that encoded order and the
/// first fault aborts the search.
pub fn part2(data: &str) -> (r: Result<String, SolveError>)
    ensures
        (match spec_parse(data@) {
            None => r == Err::<String, SolveError>(SolveError::BadInput),
            Some(mem) => if mem.len() < 3 {
                r == Err::<String, SolveError>(SolveError::BadInput)
            } else {
                (match spec_search(mem, 0) {
                    Err(e) => r == Err::<String, SolveError>(e),
                    Ok(v) => r matches Ok(s) && s@ == spec_i64_string(v),
                })
            },
        }),
{
    let mem = match Computer::parse(data) {
        Ok(v) => v,
        Err(_) => {
            return Err(SolveError::BadInput);
        },
    };
    if mem.len() < 3 {
        return Err(SolveError::BadInput);
    }
    let mut k: usize = 0;
    while k < 10000
        invariant
            k <= 10000,
            mem@.len() >= 3,
            spec_parse(data@) == Some(mem@),
            spec_search(mem@, 0) == spec_search(mem@, k as int),
        decreases 10000 - k,
    {
        let noun = (k / 100) as i64;
        let verb = (k % 100) as i64;
        let mut c = Computer::from_vec(clone_memory(&mem));
        c.replace(1, noun);
        c.replace(2, verb);
        proof {
            assert(c@ =~= boot(patched(mem@, noun, verb)));
        }
        match c.run() {
            Err(e) => {
                proof {
                    assert(spec_search(mem@, k as int) == Err::<i64, SolveError>(
                        SolveError::Machine(e),
                    ));
                }
                return Err(SolveError::Machine(e));
            },
            Ok(()) => {},
        }
        proof {
            crate::intcode::lemma_run_memory_len(
                boot(patched(mem@, noun, verb)),
                crate::intcode::STEP_LIMIT as nat,
            );
        }
        let v0 = c.read(0);
        if v0 == TARGET_OUTPUT {
            proof {
                assert(spec_search(mem@, k as int) == Ok::<i64, SolveError>(k as i64));
            }
            return Ok(i64_to_string(k as i64));
        }
        proof {
            assert(spec_search(mem@, k as int) == spec_search(mem@, k + 1int));
        }
        k = k + 1;
    }
    Err(SolveError::NoSolution)
}

} // verus!
