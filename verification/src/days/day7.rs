//! Amplification Circuit: machines chained one after another, and wired
//! into a feedback ring that circulates values until the ring halts.
//!
//! The ring follows the orchestration contract: engines take turns in
//! ring order; a turn feeds the engine the last observed value, runs it
//! until it stops, and takes its most recent output; the loop ends the
//! instant an engine is already finished when its turn comes.

use vstd::prelude::*;

use crate::days::SolveError;
use crate::intcode::{boot, clone_memory, run_result, spec_parse, with_input};
use crate::intcode::{Computer, RunOutcome, VmState};
use crate::text::{i64_to_string, spec_i64_string};
use vstd::multiset::Multiset;

verus! {

/// The most turns a ring is given before the solver declares it stalled.
pub const TURN_LIMIT: u64 = 0xFFFF_FFFF_FFFF_FFFF;

/// The views of a row of machines.
pub open spec fn views_of(amps: Seq<Computer>) -> Seq<VmState> {
    amps.map_values(|c: Computer| c@)
}

/// Feed `prev` into a fresh machine for `mem` seeded with the first of
/// `phases`, run it, take its first output, and continue down the chain;
/// the last value is the chain's signal.
pub open spec fn spec_chain(mem: Seq<i64>, phases: Seq<i64>, prev: i64) -> Result<i64, SolveError>
    decreases phases.len(),
{
    if phases.len() == 0 {
        Ok(prev)
    } else {
        let s = with_input(with_input(boot(mem), phases[0]), prev);
        match run_result(s) {
            RunOutcome::Failed(_, e) => Err(SolveError::Machine(e)),
            RunOutcome::Stopped(t) => if t.outputs.len() > 0 {
                spec_chain(mem, phases.skip(1), t.outputs[0])
            } else {
                Err(SolveError::NoOutput)
            },
            RunOutcome::OutOfSteps(t) => if t.outputs.len() > 0 {
                spec_chain(mem, phases.skip(1), t.outputs[0])
            } else {
                Err(SolveError::NoOutput)
            },
        }
    }
}

/// One turn after another around the ring: the engine whose turn it is
/// receives the last value, runs until it stops, and hands its newest
/// output on — until an engine is already finished at the start of its
/// turn, which ends the ring with the last value.
pub open spec fn spec_ring(machines: Seq<VmState>, idx: int, last: i64, fuel: nat) -> Result<
    i64,
    SolveError,
>
    decreases fuel,
{
    if machines.len() == 0 || fuel == 0 {
        Err(SolveError::Stalled)
    } else if machines[idx].finished {
        Ok(last)
    } else {
        let s = with_input(machines[idx], last);
        match run_result(s) {
            RunOutcome::Failed(_, e) => Err(SolveError::Machine(e)),
            RunOutcome::Stopped(t) => if t.outputs.len() > 0 {
                spec_ring(
                    machines.update(idx, t),
                    if idx + 1 == machines.len() { 0 } else { idx + 1 },
                    t.outputs.last(),
                    (fuel - 1) as nat,
                )
            } else {
                Err(SolveError::NoOutput)
            },
            RunOutcome::OutOfSteps(t) => if t.outputs.len() > 0 {
                spec_ring(
                    machines.update(idx, t),
                    if idx + 1 == machines.len() { 0 } else { idx + 1 },
                    t.outputs.last(),
                    (fuel - 1) as nat,
                )
            } else {
                Err(SolveError::NoOutput)
            },
        }
    }
}

/// The fresh ring for one memory image and one phase assignment: each
/// engine is built on its own copy of the memory, seeded with its phase.
pub open spec fn ring_start(mem: Seq<i64>, phases: Seq<i64>) -> Seq<VmState> {
    Seq::new(phases.len(), |k: int| with_input(boot(mem), phases[k]))
}

/// What the feedback ring yields for one memory image and one phase
/// assignment, starting from the seed value 0.
pub open spec fn ring_outcome(mem: Seq<i64>, phases: Seq<i64>) -> Result<i64, SolveError> {
    spec_ring(ring_start(mem, phases), 0, 0, TURN_LIMIT as nat)
}

/// Run the amplifiers one after another: each gets its phase and the
/// previous amplifier's first output, the first one the seed value 0.
pub fn run_amplifier_chain(memory: &Vec<i64>, phases: &Vec<i64>) -> (r: Result<i64, SolveError>)
    ensures
        r == spec_chain(memory@, phases@, 0),
{
    let mut prev: i64 = 0;
    let n = phases.len();
    let mut i: usize = 0;
    proof {
        assert(phases@.skip(0) =~= phases@);
    }
    while i < n
        invariant
            i <= n,
            n == phases@.len(),
            spec_chain(memory@, phases@, 0) == spec_chain(memory@, phases@.skip(i as int), prev),
        decreases n - i,
    {
        let mut amp = Computer::from_vec(clone_memory(memory));
        amp.add_input(phases[i]);
        amp.add_input(prev);
        let rr = amp.run();
        if let Err(e) = rr {
            return Err(SolveError::Machine(e));
        }
        let outs = amp.read_outputs();
        if outs.len() == 0 {
            return Err(SolveError::NoOutput);
        }
        let next = outs[0];
        proof {
            assert(phases@.skip(i as int)[0] == phases@[i as int]);
            assert(phases@.skip(i as int).skip(1) =~= phases@.skip(i + 1int));
        }
        prev = next;
        i = i + 1;
    }
    proof {
        assert(phases@.skip(n as int) =~= Seq::<i64>::empty());
    }
    Ok(prev)
}

/// Drive the feedback ring: engines take turns in ring order, each fed
/// the last observed value, until one is already finished when its turn
/// comes.  That engine's arrival ends the ring with the last value.
pub fn run_feedback_ring(memory: &Vec<i64>, phases: &Vec<i64>) -> (r: Result<i64, SolveError>)
    ensures
        r == ring_outcome(memory@, phases@),
{
    let n = phases.len();
    let ghost start = ring_start(memory@, phases@);
    let mut amps: Vec<Computer> = Vec::new();
    let mut i: usize = 0;
    while i < n
        invariant
            i <= n,
            n == phases@.len(),
            start == ring_start(memory@, phases@),
            views_of(amps@) =~= start.take(i as int),
        decreases n - i,
    {
        let mut amp = Computer::from_vec(clone_memory(memory));
        amp.add_input(phases[i]);
        let ghost amps_old = amps@;
        let ghost added = amp@;
        amps.push(amp);
        proof {
            assert(added == with_input(boot(memory@), phases@[i as int]));
            assert(views_of(amps_old).len() == amps_old.len());
            assert(amps_old.len() == i as int);
            assert(amps@ == amps_old.push(amps@[i as int]));
            assert forall|k: int| 0 <= k < amps@.len() implies views_of(amps@)[k] == start.take(
                i + 1int,
            )[k] by {
                assert(views_of(amps@)[k] == amps@[k]@);
                if k < i {
                    assert(amps@[k] == amps_old[k]);
                    assert(amps_old[k]@ == views_of(amps_old)[k]);
                    assert(views_of(amps_old)[k] == start.take(i as int)[k]);
                } else {
                    assert(amps@[k]@ == added);
                }
            }
            assert(views_of(amps@) =~= start.take(i + 1int));
        }
        i = i + 1;
    }
    proof {
        assert(start.take(n as int) =~= start);
    }
    if n == 0 {
        return Err(SolveError::Stalled);
    }
    let mut last: i64 = 0;
    let mut idx: usize = 0;
    let mut turns: u64 = 0;
    loop
        invariant
            amps@.len() == n,
            0 < n == phases@.len(),
            idx < n,
            turns <= TURN_LIMIT,
            start == ring_start(memory@, phases@),
            ring_outcome(memory@, phases@) == spec_ring(
                views_of(amps@),
                idx as int,
                last,
                (TURN_LIMIT - turns) as nat,
            ),
        decreases TURN_LIMIT - turns,
    {
        if turns == TURN_LIMIT {
            return Err(SolveError::Stalled);
        }
        let ghost v0 = views_of(amps@);
        let ghost fuel = (TURN_LIMIT - turns) as nat;
        if amps[idx].finished() {
            proof {
                assert(v0[idx as int] == amps@[idx as int]@);
            }
            return Ok(last);
        }
        let amp = &mut amps[idx];
        amp.add_input(last);
        let rr = amp.run();
        match rr {
            Err(e) => {
                return Err(SolveError::Machine(e));
            },
            Ok(()) => {},
        }
        let outs = amps[idx].read_outputs();
        if outs.len() == 0 {
            return Err(SolveError::NoOutput);
        }
        let next = outs[outs.len() - 1];
        proof {
            let t = amps@[idx as int]@;
            assert(views_of(amps@) =~= v0.update(idx as int, t));
        }
        last = next;
        idx = if idx + 1 == n {
            0
        } else {
            idx + 1
        };
        turns = turns + 1;
    }
}

/// The views of a row of integer rows.
pub open spec fn seq_views(s: Seq<Vec<i64>>) -> Seq<Seq<i64>> {
    s.map_values(|v: Vec<i64>| v@)
}

/// `p` with `x` inserted at each position in turn, in position order.
pub open spec fn insert_everywhere(p: Seq<i64>, x: i64) -> Seq<Seq<i64>> {
    Seq::new(p.len() + 1, |pos: int| p.insert(pos, x))
}

/// All the insertions of `x` into each row of `ps`, row by row.
pub open spec fn insert_into_all(ps: Seq<Seq<i64>>, x: i64) -> Seq<Seq<i64>>
    decreases ps.len(),
{
    if ps.len() == 0 {
        Seq::empty()
    } else {
        insert_everywhere(ps[0], x) + insert_into_all(ps.skip(1), x)
    }
}

/// The permutations of `a`, in the order the solver generates them: both
/// orders of a pair, and otherwise the first element inserted at every
/// position of every permutation of the rest.
pub open spec fn spec_perms(a: Seq<i64>) -> Seq<Seq<i64>>
    decreases a.len(),
{
    if a.len() <= 2 {
        seq![seq![a[0], a[1]], seq![a[1], a[0]]]
    } else {
        insert_into_all(spec_perms(a.skip(1)), a[0])
    }
}

/// Every ordering of the given distinct values, as [`spec_perms`] lists
/// them.
pub fn non_repeating_permutations(array: &[i64]) -> (r: Vec<Vec<i64>>)
    requires
        array@.len() >= 2,
    ensures
        seq_views(r@) == spec_perms(array@),
    decreases array@.len(),
{
    let n = array.len();
    if n == 2 {
        let mut a: Vec<i64> = Vec::new();
        a.push(array[0]);
        a.push(array[1]);
        let mut b: Vec<i64> = Vec::new();
        b.push(array[1]);
        b.push(array[0]);
        let ghost av = a@;
        let ghost bv = b@;
        let mut r: Vec<Vec<i64>> = Vec::new();
        r.push(a);
        r.push(b);
        proof {
            assert(av =~= seq![array@[0], array@[1]]);
            assert(bv =~= seq![array@[1], array@[0]]);
            assert(seq_views(r@) =~= spec_perms(array@));
        }
        r
    } else {
        let first = array[0];
        let rest = non_repeating_permutations(&array[1..n]);
        proof {
            assert(array@.subrange(1, n as int) =~= array@.skip(1));
        }
        let ghost rv = seq_views(rest@);
        let m = rest.len();
        let mut out: Vec<Vec<i64>> = Vec::new();
        let mut i: usize = 0;
        proof {
            assert(rv.skip(0) =~= rv);
            assert(Seq::<Seq<i64>>::empty() + insert_into_all(rv, first) =~= insert_into_all(
                rv,
                first,
            ));
        }
        while i < m
            invariant
                i <= m,
                m == rest@.len(),
                rv == seq_views(rest@),
                rv == spec_perms(array@.skip(1)),
                spec_perms(array@) == insert_into_all(rv, first),
                insert_into_all(rv, first) == seq_views(out@) + insert_into_all(
                    rv.skip(i as int),
                    first,
                ),
            decreases m - i,
        {
            let ghost pv = rv[i as int];
            proof {
                assert(rv.skip(i as int)[0] == rv[i as int]);
                assert(rv.skip(i as int).skip(1) =~= rv.skip(i + 1int));
                assert(rest@[i as int]@ == rv[i as int]);
            }
            let p = &rest[i];
            let plen = p.len();
            let mut pos: usize = 0;
            while pos < plen
                invariant
                    pos <= plen,
                    plen == pv.len(),
                    pv == p@,
                    rv == seq_views(rest@),
                    m == rest@.len(),
                    i < m,
                    pv == rv[i as int],
                    insert_into_all(rv, first) == seq_views(out@) + insert_everywhere(
                        pv,
                        first,
                    ).skip(pos as int) + insert_into_all(rv.skip(i + 1int), first),
                decreases plen - pos,
            {
                let mut q = clone_memory(p);
                let ghost qv0 = q@;
                q.insert(pos, first);
                let ghost qv = q@;
                out.push(q);
                proof {
                    assert(qv == pv.insert(pos as int, first));
                    assert(insert_everywhere(pv, first)[pos as int] == qv);
                    assert(seq_views(out@) =~= seq_views(out@.drop_last()).push(qv));
                    assert(insert_everywhere(pv, first).skip(pos as int)[0] == qv);
                    assert(insert_everywhere(pv, first).skip(pos as int).skip(1)
                        =~= insert_everywhere(pv, first).skip(pos + 1int));
                    assert(seq_views(out@.drop_last()) + insert_everywhere(pv, first).skip(
                        pos as int,
                    ) + insert_into_all(rv.skip(i + 1int), first) =~= seq_views(out@)
                        + insert_everywhere(pv, first).skip(pos + 1int) + insert_into_all(
                        rv.skip(i + 1int),
                        first,
                    ));
                }
                pos = pos + 1;
            }
            let mut q = clone_memory(p);
            let ghost qv0 = q@;
            q.push(first);
            let ghost qv = q@;
            out.push(q);
            proof {
                assert(qv =~= pv.insert(plen as int, first));
                assert(insert_everywhere(pv, first)[plen as int] == qv);
                assert(seq_views(out@) =~= seq_views(out@.drop_last()).push(qv));
                assert(insert_everywhere(pv, first).skip(plen as int)[0] == qv);
                assert(insert_everywhere(pv, first).skip(plen as int).skip(1)
                    =~= Seq::<Seq<i64>>::empty());
                assert(seq_views(out@.drop_last()) + insert_everywhere(pv, first).skip(
                    plen as int,
                ) + insert_into_all(rv.skip(i + 1int), first) =~= seq_views(out@)
                    + insert_into_all(rv.skip(i + 1int), first));
            }
            i = i + 1;
        }
        proof {
            assert(rv.skip(m as int) =~= Seq::<Seq<i64>>::empty());
            assert(seq_views(out@) + insert_into_all(rv.skip(m as int), first) =~= seq_views(
                out@,
            ));
        }
        out
    }
}

/// Inserting a value anywhere in a row adds exactly that value to the
/// row's contents.
proof fn lemma_insert_to_multiset(p: Seq<i64>, pos: int, x: i64)
    requires
        0 <= pos <= p.len(),
    ensures
        p.insert(pos, x).to_multiset() =~= p.to_multiset().insert(x),
{
    broadcast use vstd::seq_lib::group_to_multiset_ensures;

    let l = p.subrange(0, pos);
    let r = p.subrange(pos, p.len() as int);
    vstd::seq_lib::lemma_multiset_commutative(l.push(x), r);
    vstd::seq_lib::lemma_multiset_commutative(l, r);
    assert(p =~= l + r);
    assert(l.push(x).to_multiset() =~= l.to_multiset().insert(x));
    assert(l.to_multiset().insert(x).add(r.to_multiset()) =~= l.to_multiset().add(
        r.to_multiset(),
    ).insert(x));
}

/// When every row of `ps` holds the contents `m`, every row of
/// `insert_into_all(ps, x)` holds `m` plus one `x`.
proof fn lemma_insert_into_all_multiset(ps: Seq<Seq<i64>>, x: i64, m: Multiset<i64>)
    requires
        forall|k: int| 0 <= k < ps.len() ==> (#[trigger] ps[k]).to_multiset() == m,
    ensures
        forall|k: int|
            0 <= k < insert_into_all(ps, x).len() ==> (#[trigger] insert_into_all(ps, x)[
                k]).to_multiset() == m.insert(x),
    decreases ps.len(),
{
    if ps.len() > 0 {
        lemma_insert_into_all_multiset(ps.skip(1), x, m);
        let h = insert_everywhere(ps[0], x);
        let t = insert_into_all(ps.skip(1), x);
        assert forall|k: int|
            0 <= k < insert_into_all(ps, x).len() implies (#[trigger] insert_into_all(ps, x)[
            k]).to_multiset() == m.insert(x) by {
            assert(insert_into_all(ps, x) == h + t);
            if k < h.len() {
                assert(insert_into_all(ps, x)[k] == h[k]);
                assert(h[k] == ps[0].insert(k, x));
                lemma_insert_to_multiset(ps[0], k, x);
            } else {
                assert(insert_into_all(ps, x)[k] == t[k - h.len()]);
                assert(ps.skip(1)[0nat as int] == ps[1]) by {
                    assert(ps.len() > 1 ==> ps.skip(1)[0] == ps[1]);
                }
                assert(forall|q: int|
                    0 <= q < ps.skip(1).len() ==> (#[trigger] ps.skip(1)[q]).to_multiset() == m);
            }
        }
    }
}

/// Every phase assignment the solver generates is a reordering of the
/// input values: it holds exactly the same values, the same number of
/// times each.
pub proof fn lemma_perms_are_reorderings(a: Seq<i64>)
    requires
        a.len() >= 2,
    ensures
        forall|k: int|
            0 <= k < spec_perms(a).len() ==> (#[trigger] spec_perms(a)[k]).to_multiset()
                == a.to_multiset(),
    decreases a.len(),
{
    broadcast use vstd::seq_lib::group_to_multiset_ensures;

    if a.len() == 2 {
        assert(seq![a[0], a[1]] =~= a);
        assert(seq![a[1], a[0]] =~= Seq::<i64>::empty().push(a[1]).push(a[0]));
        assert(seq![a[0], a[1]] =~= Seq::<i64>::empty().push(a[0]).push(a[1]));
        assert(Seq::<i64>::empty().push(a[1]).push(a[0]).to_multiset()
            =~= Seq::<i64>::empty().push(a[0]).push(a[1]).to_multiset());
        assert(spec_perms(a)[0] == seq![a[0], a[1]]);
        assert(spec_perms(a)[1] == seq![a[1], a[0]]);
    } else {
        lemma_perms_are_reorderings(a.skip(1));
        assert(forall|k: int|
            0 <= k < spec_perms(a.skip(1)).len() ==> (#[trigger] spec_perms(a.skip(1))[
                k]).to_multiset() == a.skip(1).to_multiset());
        lemma_insert_into_all_multiset(spec_perms(a.skip(1)), a[0], a.skip(1).to_multiset());
        assert(a =~= seq![a[0]] + a.skip(1));
        vstd::seq_lib::lemma_multiset_commutative(seq![a[0]], a.skip(1));
        assert(seq![a[0]] =~= Seq::<i64>::empty().push(a[0]));
        assert(seq![a[0]].to_multiset() =~= Multiset::<i64>::empty().insert(a[0]));
        assert(a.skip(1).to_multiset().insert(a[0]) =~= a.to_multiset());
    }
}

/// The best signal over the given phase assignments, tried in order; the
/// first machine fault or missing output aborts the whole search, and an
/// empty list of assignments has no solution.
pub open spec fn best_chain(mem: Seq<i64>, perms: Seq<Seq<i64>>) -> Result<i64, SolveError>
    decreases perms.len(),
{
    if perms.len() == 0 {
        Err(SolveError::NoSolution)
    } else {
        match spec_chain(mem, perms[0], 0) {
            Err(e) => Err(e),
            Ok(v) => if perms.len() == 1 {
                Ok(v)
            } else {
                match best_chain(mem, perms.skip(1)) {
                    Err(e) => Err(e),
                    Ok(w) => Ok(if w > v { w } else { v }),
                }
            },
        }
    }
}

/// The best final value over the given phase assignments run as feedback
/// rings, tried in order; as in [`best_chain`], the first failure aborts.
pub open spec fn best_ring(mem: Seq<i64>, perms: Seq<Seq<i64>>) -> Result<i64, SolveError>
    decreases perms.len(),
{
    if perms.len() == 0 {
        Err(SolveError::NoSolution)
    } else {
        match ring_outcome(mem, perms[0]) {
            Err(e) => Err(e),
            Ok(v) => if perms.len() == 1 {
                Ok(v)
            } else {
                match best_ring(mem, perms.skip(1)) {
                    Err(e) => Err(e),
                    Ok(w) => Ok(if w > v { w } else { v }),
                }
            },
        }
    }
}

/// The strongest signal an amplifier chain reaches over all orderings of
/// the phase settings 0 to 4.
pub fn part1(data: &str) -> (r: Result<String, SolveError>)
    ensures
        (match spec_parse(data@) {
            None => r == Err::<String, SolveError>(SolveError::BadInput),
            Some(mem) => (match best_chain(mem, spec_perms(seq![0i64, 1i64, 2i64, 3i64, 4i64])) {
                Err(e) => r == Err::<String, SolveError>(e),
                Ok(v) => r matches Ok(s) && s@ == spec_i64_string(v),
            }),
        }),
{
    let mem = match crate::intcode::Computer::parse(data) {
        Ok(v) => v,
        Err(_) => {
            return Err(SolveError::BadInput);
        },
    };
    let mut phases: Vec<i64> = Vec::new();
    phases.push(0);
    phases.push(1);
    phases.push(2);
    phases.push(3);
    phases.push(4);
    proof {
        assert(phases@ =~= seq![0i64, 1i64, 2i64, 3i64, 4i64]);
    }
    let perms = non_repeating_permutations(phases.as_slice());
    let ghost pviews = seq_views(perms@);
    let n = perms.len();
    let mut best: Option<i64> = None;
    let mut i: usize = 0;
    proof {
        assert(pviews.skip(0) =~= pviews);
    }
    while i < n
        invariant
            i <= n,
            n == perms@.len(),
            pviews == seq_views(perms@),
            pviews == spec_perms(seq![0i64, 1i64, 2i64, 3i64, 4i64]),
            spec_parse(data@) == Some(mem@),
            (match best {
                None => i == 0,
                Some(b) => 1 <= i && best_chain(mem@, pviews) == (if i == n {
                    Ok::<i64, SolveError>(b)
                } else {
                    match best_chain(mem@, pviews.skip(i as int)) {
                        Err(e) => Err::<i64, SolveError>(e),
                        Ok(w) => Ok::<i64, SolveError>(if w > b { w } else { b }),
                    }
                }),
            }),
        decreases n - i,
    {
        proof {
            assert(pviews.skip(i as int)[0] == pviews[i as int]);
            assert(pviews.skip(i as int).skip(1) =~= pviews.skip(i + 1int));
            assert(perms@[i as int]@ == pviews[i as int]);
        }
        let signal = match run_amplifier_chain(&mem, &perms[i]) {
            Ok(v) => v,
            Err(e) => {
                proof {
                    assert(pviews.skip(0) =~= pviews);
                    assert(best_chain(mem@, pviews.skip(i as int)) == Err::<i64, SolveError>(e));
                }
                return Err(e);
            },
        };
        best = match best {
            None => Some(signal),
            Some(b) => Some(if signal > b { signal } else { b }),
        };
        i = i + 1;
    }
    match best {
        None => Err(SolveError::NoSolution),
        Some(b) => Ok(i64_to_string(b)),
    }
}

/// The strongest final value a feedback ring reaches over all orderings
/// of the phase settings 5 to 9.
pub fn part2(data: &str) -> (r: Result<String, SolveError>)
    ensures
        (match spec_parse(data@) {
            None => r == Err::<String, SolveError>(SolveError::BadInput),
            Some(mem) => (match best_ring(mem, spec_perms(seq![5i64, 6i64, 7i64, 8i64, 9i64])) {
                Err(e) => r == Err::<String, SolveError>(e),
                Ok(v) => r matches Ok(s) && s@ == spec_i64_string(v),
            }),
        }),
{
    let mem = match crate::intcode::Computer::parse(data) {
        Ok(v) => v,
        Err(_) => {
            return Err(SolveError::BadInput);
        },
    };
    let mut phases: Vec<i64> = Vec::new();
    phases.push(5);
    phases.push(6);
    phases.push(7);
    phases.push(8);
    phases.push(9);
    proof {
        assert(phases@ =~= seq![5i64, 6i64, 7i64, 8i64, 9i64]);
    }
    let perms = non_repeating_permutations(phases.as_slice());
    let ghost pviews = seq_views(perms@);
    let n = perms.len();
    let mut best: Option<i64> = None;
    let mut i: usize = 0;
    proof {
        assert(pviews.skip(0) =~= pviews);
    }
    while i < n
        invariant
            i <= n,
            n == perms@.len(),
            pviews == seq_views(perms@),
            pviews == spec_perms(seq![5i64, 6i64, 7i64, 8i64, 9i64]),
            spec_parse(data@) == Some(mem@),
            (match best {
                None => i == 0,
                Some(b) => 1 <= i && best_ring(mem@, pviews) == (if i == n {
                    Ok::<i64, SolveError>(b)
                } else {
                    match best_ring(mem@, pviews.skip(i as int)) {
                        Err(e) => Err::<i64, SolveError>(e),
                        Ok(w) => Ok::<i64, SolveError>(if w > b { w } else { b }),
                    }
                }),
            }),
        decreases n - i,
    {
        proof {
            assert(pviews.skip(i as int)[0] == pviews[i as int]);
            assert(pviews.skip(i as int).skip(1) =~= pviews.skip(i + 1int));
            assert(perms@[i as int]@ == pviews[i as int]);
        }
        let signal = match run_feedback_ring(&mem, &perms[i]) {
            Ok(v) => v,
            Err(e) => {
                proof {
                    assert(pviews.skip(0) =~= pviews);
                    assert(best_ring(mem@, pviews.skip(i as int)) == Err::<i64, SolveError>(e));
                }
                return Err(e);
            },
        };
        best = match best {
            None => Some(signal),
            Some(b) => Some(if signal > b { signal } else { b }),
        };
        i = i + 1;
    }
    match best {
        None => Err(SolveError::NoSolution),
        Some(b) => Ok(i64_to_string(b)),
    }
}

/// Feedback-ring determinism: two rings built from equal memory images —
/// each engine on its own cloned copy — and equal phase assignments end
/// with equal outcomes, however often the experiment is repeated.
pub proof fn lemma_ring_deterministic(m1: Seq<i64>, m2: Seq<i64>, p1: Seq<i64>, p2: Seq<i64>)
    requires
        m1 == m2,
        p1 == p2,
    ensures
        ring_outcome(m1, p1) == ring_outcome(m2, p2),
{
}

} // verus!
