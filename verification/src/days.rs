//! The puzzle solvers, one module per day, and what they can fail with.

pub mod day1;
pub mod day2;
pub mod day3;
pub mod day4;
pub mod day5;
pub mod day6;
pub mod day7;

use vstd::prelude::*;

use crate::intcode::VmError;
use crate::year::{AdventOfCodeDay, Solver};

verus! {

/// Why a solver could not produce an answer.
#[derive(Clone, Copy, Debug, PartialEq, Eq, Structural)]
pub enum SolveError {
    /// The puzzle text does not have the shape the solver expects.
    BadInput,
    /// A machine faulted while the solver drove it.
    Machine(VmError),
    /// A machine stopped without having produced the output the solver
    /// needed.
    NoOutput,
    /// No candidate satisfied the puzzle's condition.
    NoSolution,
    /// A sum left the 64-bit range.
    Overflow,
    /// A machine, or a ring of machines, was still asking for turns when
    /// the solver's patience ran out.
    Stalled,
}

/// The seven days of the catalogue, each with both parts solved by the
/// matching solver.
pub open spec fn well_formed_2019(days: Seq<AdventOfCodeDay>) -> bool {
    &&& days.len() == 7
    &&& days[0].part1 == Some(Solver::Day1Part1) && days[0].part2 == Some(Solver::Day1Part2)
    &&& days[1].part1 == Some(Solver::Day2Part1) && days[1].part2 == Some(Solver::Day2Part2)
    &&& days[2].part1 == Some(Solver::Day3Part1) && days[2].part2 == Some(Solver::Day3Part2)
    &&& days[3].part1 == Some(Solver::Day4Part1) && days[3].part2 == Some(Solver::Day4Part2)
    &&& days[4].part1 == Some(Solver::Day5Part1) && days[4].part2 == Some(Solver::Day5Part2)
    &&& days[5].part1 == Some(Solver::Day6Part1) && days[5].part2 == Some(Solver::Day6Part2)
    &&& days[6].part1 == Some(Solver::Day7Part1) && days[6].part2 == Some(Solver::Day7Part2)
}

/// The days of 2019 that this library solves, in order.
pub fn get_days() -> (r: Vec<AdventOfCodeDay>)
    ensures
        well_formed_2019(r@),
{
    let mut days: Vec<AdventOfCodeDay> = Vec::new();
    days.push(AdventOfCodeDay {
        name: "The Tyranny of the Rocket Equation".to_owned(),
        part1: Some(Solver::Day1Part1),
        part2: Some(Solver::Day1Part2),
    });
    days.push(AdventOfCodeDay {
        name: "1202 Program Alarm".to_owned(),
        part1: Some(Solver::Day2Part1),
        part2: Some(Solver::Day2Part2),
    });
    days.push(AdventOfCodeDay {
        name: "Crossed Wires".to_owned(),
        part1: Some(Solver::Day3Part1),
        part2: Some(Solver::Day3Part2),
    });
    days.push(AdventOfCodeDay {
        name: "Secure Container".to_owned(),
        part1: Some(Solver::Day4Part1),
        part2: Some(Solver::Day4Part2),
    });
    days.push(AdventOfCodeDay {
        name: "Sunny with a Chance of Asteroids".to_owned(),
        part1: Some(Solver::Day5Part1),
        part2: Some(Solver::Day5Part2),
    });
    days.push(AdventOfCodeDay {
        name: "Universal Orbit Map".to_owned(),
        part1: Some(Solver::Day6Part1),
        part2: Some(Solver::Day6Part2),
    });
    days.push(AdventOfCodeDay {
        name: "Amplification Circuit".to_owned(),
        part1: Some(Solver::Day7Part1),
        part2: Some(Solver::Day7Part2),
    });
    days
}

} // verus!
