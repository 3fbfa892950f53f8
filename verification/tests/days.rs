use aoc2019::days::day1;
use aoc2019::days::day2;
use aoc2019::days::day3;
use aoc2019::days::day4::{self, validate_password};
use aoc2019::days::day5;
use aoc2019::days::day6;
use aoc2019::days::SolveError;
use aoc2019::intcode::VmError;

#[test]
fn day1_part1_test() {
    // For a mass of 12, divide by 3 and round down to get 4, then subtract 2
    // to get 2.
    assert_eq!(day1::part1("12").unwrap(), "2");

    // For a mass of 14, dividing by 3 and rounding down still yields 4, so
    // the fuel required is also 2.
    assert_eq!(day1::part1("14").unwrap(), "2");

    // For a mass of 1969, the fuel required is 654.
    assert_eq!(day1::part1("1969").unwrap(), "654");

    //For a mass of 100756, the fuel required is 33583.
    assert_eq!(day1::part1("100756").unwrap(), "33583");
}

#[test]
fn day1_part2_test() {
    // A module of mass 14 requires 2 fuel. This fuel requires no further
    // fuel (2 divided by 3 and rounded down is 0, which would call for a
    // negative fuel), so the total fuel required is still just 2.
    assert_eq!(day1::part2("14").unwrap(), "2");

    // At first, a module of mass 1969 requires 654 fuel. Then, this fuel
    // requires 216 more fuel (654 / 3 - 2). 216 then requires 70 more fuel,
    // which requires 21 fuel, which requires 5 fuel, which requires no
    // further fuel. So, the total fuel required for a module of mass 1969 is
    // 654 + 216 + 70 + 21 + 5 = 966.
    assert_eq!(day1::part2("1969").unwrap(), "966");

    // The fuel required by a module of mass 100756 and its fuel is:
    // 33583 + 11192 + 3728 + 1240 + 411 + 135 + 43 + 12 + 2 = 50346.
    assert_eq!(day1::part2("100756").unwrap(), "50346");
}

#[test]
fn day1_rejects_bad_masses_and_overflow() {
    assert_eq!(day1::part1("12 potato"), Err(SolveError::BadInput));
    assert_eq!(
        day1::part1(
            "9223372036854775807 9223372036854775807 9223372036854775807 9223372036854775807"
        ),
        Err(SolveError::Overflow)
    );
}

#[test]
fn day2_part1_patches_and_runs() {
    // After patching noun 12 and verb 2: cell 3 becomes mem[12] + mem[2] = 4,
    // then cell 0 becomes mem[3] * mem[11] = 4 * 50 = 200.
    assert_eq!(
        day2::part1("1,9,10,3,2,3,11,0,99,30,40,50,2").unwrap(),
        "200"
    );
    assert_eq!(day2::part1("99"), Err(SolveError::BadInput));
}

#[test]
fn day2_part2_reports_first_failure() {
    // The search tries noun 0, verb 0..: verb 5 dereferences cell 5 of a
    // five-cell program, which is out of bounds.
    assert_eq!(
        day2::part2("1,0,0,0,99"),
        Err(SolveError::Machine(VmError::OutOfBounds))
    );
    assert_eq!(day2::part2("99"), Err(SolveError::BadInput));
}

#[test]
fn day3_part1_test() {
    assert_eq!(day3::part1("R8,U5,L5,D3\nU7,R6,D4,L4").unwrap(), "6");

    assert_eq!(
        day3::part1("R75,D30,R83,U83,L12,D49,R71,U7,L72\nU62,R66,U55,R34,D71,R55,D58,R83").unwrap(),
        "159"
    );

    assert_eq!(
        day3::part1(
            "R98,U47,R26,D63,R33,U87,L62,D20,R33,U53,R51\nU98,R91,D20,R16,D67,R40,U7,R15,U6,R7"
        )
        .unwrap(),
        "135"
    );
}

#[test]
fn day3_part2_test() {
    assert_eq!(day3::part2("R8,U5,L5,D3\nU7,R6,D4,L4").unwrap(), "30");

    assert_eq!(
        day3::part2("R75,D30,R83,U83,L12,D49,R71,U7,L72\nU62,R66,U55,R34,D71,R55,D58,R83").unwrap(),
        "610"
    );

    assert_eq!(
        day3::part2(
            "R98,U47,R26,D63,R33,U87,L62,D20,R33,U53,R51\nU98,R91,D20,R16,D67,R40,U7,R15,U6,R7"
        )
        .unwrap(),
        "410"
    );
}

#[test]
fn should_panic_on_unexpected_direction() {
    assert!(day3::part1("J2 U1").is_err());
}

#[test]
fn day3_wires_may_not_cross() {
    assert_eq!(day3::part1("R1 U1"), Err(SolveError::NoSolution));
}

#[test]
fn should_decline_lt_6_digits() {
    assert!(
        !validate_password("99999", false),
        "should decline less than 6 digit numbers"
    );
}

#[test]
fn should_decline_gt_6_digits() {
    assert!(
        !validate_password("1000000", false),
        "should decline more than 6 digit numbers"
    );
}

#[test]
fn should_decline_no_adjacent_double() {
    assert!(
        !validate_password("123456", false),
        "should decline when there isn't an identical pair of adjacent digits"
    );
}

#[test]
fn should_decline_decreasing_digits() {
    assert!(
        !validate_password("103456", false),
        "should decline when digits decrease from left to right"
    );
}

#[test]
fn should_accept_all_doubles() {
    assert!(
        validate_password("112233", true),
        "should accept all doubles"
    );
}

#[test]
fn should_decline_larger_group() {
    assert!(
        !validate_password("123444", true),
        "should decline larger group"
    );
}

#[test]
fn should_accept_combined_doubles() {
    assert!(
        validate_password("111122", true),
        "should accept combined doubles"
    );
}

#[test]
fn should_accept_valid_passwords() {
    assert!(
        validate_password("122345", false),
        "should accept valid password"
    );

    assert!(
        validate_password("111123", false),
        "should accept valid password"
    );

    assert!(
        validate_password("111111", false),
        "should accept valid password"
    );
}

#[test]
fn day4_counts_over_a_small_range() {
    // Between 111110 and 111120 only 111111 to 111119 are candidates; all
    // are nondecreasing except those with a digit below the one before, and
    // each holds a pair, so: 111111..=111119 are all valid for part one.
    assert_eq!(day4::part1("111111-111120").unwrap(), "9");
    // With strict groups, none qualifies: every pair sits in a larger group,
    // except 111122-style numbers which are out of this range.
    assert_eq!(day4::part2("111111-111120").unwrap(), "0");
    assert_eq!(day4::part1("nonsense"), Err(SolveError::BadInput));
}

#[test]
fn day5_runs_the_diagnostic_with_its_input() {
    assert_eq!(day5::part1("3,0,4,0,99").unwrap(), "1");
    assert_eq!(day5::part2("3,0,4,0,99").unwrap(), "5");
    assert_eq!(day5::part1("99"), Err(SolveError::NoOutput));
    assert_eq!(day5::part1("oops"), Err(SolveError::BadInput));
}

#[test]
fn day6_part1_test() {
    assert_eq!(
        day6::part1("COM)B\nB)C\nC)D\nD)E\nE)F\nB)G\nG)H\nD)I\nE)J\nJ)K\nK)L").unwrap(),
        "42"
    );
}

#[test]
fn day6_part2_test() {
    assert_eq!(
        day6::part2("COM)B\nB)C\nC)D\nD)E\nE)F\nB)G\nG)H\nD)I\nE)J\nJ)K\nK)L\nK)YOU\nI)SAN")
            .unwrap(),
        "4"
    );
}

#[test]
fn day6_rejects_malformed_entries() {
    assert_eq!(day6::part1("COM-B"), Err(SolveError::BadInput));
}
