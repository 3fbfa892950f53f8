use aoc2019::days::day7::{self, non_repeating_permutations, run_feedback_ring};

#[test]
fn day7_part1_test() {
    assert_eq!(
        day7::part1("3,15,3,16,1002,16,10,16,1,16,15,15,4,15,99,0,0").unwrap(),
        "43210"
    );

    assert_eq!(
        day7::part1("3,23,3,24,1002,24,10,24,1002,23,-1,23,101,5,23,23,1,24,23,23,4,23,99,0,0")
            .unwrap(),
        "54321"
    );

    assert_eq!(
        day7::part1(
            "3,31,3,32,1002,32,10,32,1001,31,-2,31,1007,31,0,33,1002,33,7,33,1,33,31,31,1,32,31,31,4,31,99,0,0,0"
        )
        .unwrap(),
        "65210"
    );
}

#[test]
fn day7_part2_test() {
    assert_eq!(
        day7::part2(
            "3,26,1001,26,-4,26,3,27,1002,27,2,27,1,27,26,\n27,4,27,1001,28,-1,28,1005,28,6,99,0,0,5"
        )
        .unwrap(),
        "139629729"
    );

    assert_eq!(
        day7::part2(
            "3,52,1001,52,-5,52,3,53,1,52,56,54,1007,54,5,55,1005,55,26,1001,54,\n-5,54,1105,1,12,1,53,54,53,1008,54,0,55,1001,55,1,55,2,53,55,53,4,\n53,1001,56,-1,56,1005,56,6,99,0,0,0,0,10"
        )
        .unwrap(),
        "18216"
    );
}

#[test]
fn permutations_of_a_pair_and_a_triple() {
    let pairs = non_repeating_permutations(&[1, 2]);
    assert_eq!(pairs, vec![vec![1, 2], vec![2, 1]]);

    let triples = non_repeating_permutations(&[1, 2, 3]);
    assert_eq!(triples.len(), 6);
    for p in &triples {
        let mut q = p.clone();
        q.sort();
        assert_eq!(q, vec![1, 2, 3]);
    }
}

#[test]
fn feedback_ring_runs_are_repeatable() {
    // Running the same five-engine ring twice, from fresh clones of one
    // memory image and the same phase assignment, ends identically.
    let memory: Vec<i64> = aoc2019::intcode::Computer::parse(
        "3,26,1001,26,-4,26,3,27,1002,27,2,27,1,27,26,27,4,27,1001,28,-1,28,1005,28,6,99,0,0,5",
    )
    .unwrap();
    let phases: Vec<i64> = vec![9, 8, 7, 6, 5];

    let first = run_feedback_ring(&memory, &phases);
    let second = run_feedback_ring(&memory, &phases);

    assert_eq!(first, second);
    assert_eq!(first, Ok(139629729));
}
