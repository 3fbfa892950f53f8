use aoc2019::days::get_days;
use aoc2019::solves::get_years;
use aoc2019::y2019::get_2019_solutions;
use aoc2019::year::{AdventOfCodeDay, DayProgress, SolveFunction, Solver};

fn new_day(part1: SolveFunction, part2: SolveFunction) -> AdventOfCodeDay {
    AdventOfCodeDay {
        name: "irrelevant".to_string(),
        part1,
        part2,
    }
}

#[test]
fn should_return_correct_progress() {
    assert!(matches!(
        new_day(None, None).progress(),
        DayProgress::Unsolved
    ));

    assert!(matches!(
        new_day(Some(Solver::Day1Part1), None).progress(),
        DayProgress::PartlySolved
    ));

    assert!(matches!(
        new_day(Some(Solver::Day1Part1), Some(Solver::Day1Part2)).progress(),
        DayProgress::FullySolved
    ));
}

#[test]
fn the_catalogue_lists_seven_solved_days() {
    let years = get_years();
    assert_eq!(years.len(), 1);
    assert_eq!(years[0].year, 2019);
    assert_eq!(years[0].days.len(), 7);

    let year = get_2019_solutions();
    assert_eq!(year.year, 2019);

    let days = get_days();
    assert_eq!(days.len(), 7);
    for day in &days {
        assert!(matches!(day.progress(), DayProgress::FullySolved));
    }
    assert_eq!(days[0].part1, Some(Solver::Day1Part1));
    assert_eq!(days[6].part2, Some(Solver::Day7Part2));
    assert_eq!(days[0].name, "The Tyranny of the Rocket Equation");
}
