//! The catalogue the runner shows: years, days, and how far each day is
//! solved.

use vstd::prelude::*;

verus! {

/// Which library function solves a given part of a given day.
#[derive(Clone, Copy, Debug, PartialEq, Eq, Structural)]
pub enum Solver {
    Day1Part1,
    Day1Part2,
    Day2Part1,
    Day2Part2,
    Day3Part1,
    Day3Part2,
    Day4Part1,
    Day4Part2,
    Day5Part1,
    Day5Part2,
    Day6Part1,
    Day6Part2,
    Day7Part1,
    Day7Part2,
}

/// A slot for one part's solver: filled once the part is solved.
pub type SolveFunction = Option<Solver>;

/// How much of one day is solved.
#[derive(Clone, Copy, Debug, PartialEq, Eq, Structural)]
pub enum DayProgress {
    Unsolved,
    PartlySolved,
    FullySolved,
}

/// One day: its title and the solvers of its two parts.
pub struct AdventOfCodeDay {
    /// The day's title.
    pub name: String,
    /// The solver of the first part, once solved.
    pub part1: SolveFunction,
    /// The solver of the second part, once solved.
    pub part2: SolveFunction,
}

impl AdventOfCodeDay {
    /// How much of this day is solved.  A day with only its second part
    /// solved is malformed — the second part only unlocks after the
    /// first — and is ruled out up front.
    pub fn progress(&self) -> (p: DayProgress)
        requires
            !(self.part1 is None && self.part2 is Some),
        ensures
            (match p {
                DayProgress::FullySolved => self.part1 is Some && self.part2 is Some,
                DayProgress::PartlySolved => self.part1 is Some && self.part2 is None,
                DayProgress::Unsolved => self.part1 is None && self.part2 is None,
            }),
    {
        match (self.part1, self.part2) {
            (Some(_), Some(_)) => DayProgress::FullySolved,
            (Some(_), None) => DayProgress::PartlySolved,
            (None, None) => DayProgress::Unsolved,
            (None, Some(_)) => {
                proof {
                    assert(false);
                }
                DayProgress::Unsolved
            },
        }
    }
}

/// One year: its number and its days in order.
pub struct AdventOfCodeYear {
    /// The calendar year.
    pub year: u64,
    /// The days, first to last.
    pub days: Vec<AdventOfCodeDay>,
}

} // verus!
