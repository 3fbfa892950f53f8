//! The Tyranny of the Rocket Equation: fuel for a module is a third of
//! its mass, rounded towards zero, minus two — and the fuel itself needs
//! fuel, until the requirement drops below zero.

use vstd::prelude::*;

use crate::days::SolveError;
use crate::text::{collect_chars, find_ws, i64_to_string, is_ws, lemma_find_ws_at, parse_token};
use crate::text::{spec_i64_string, token_value};

verus! {

/// Fuel for a mass: a third of it, rounded towards zero, minus two.
pub open spec fn spec_fuel(mass: int) -> int {
    if mass >= 0 {
        mass / 3 - 2
    } else {
        -((-mass) / 3) - 2
    }
}

/// Fuel for a mass and then for that fuel in turn, until the requirement
/// drops below zero.
pub open spec fn rocket_fuel(mass: int) -> int
    decreases (if mass > 0 { mass } else { 0 }),
{
    if mass <= 0 {
        0
    } else {
        let f = spec_fuel(mass);
        if f < 0 {
            0
        } else {
            f + rocket_fuel(f)
        }
    }
}

/// Cumulative fuel never asks for more than the mass it serves.
pub proof fn lemma_rocket_fuel_bounds(mass: int)
    ensures
        0 <= rocket_fuel(mass),
        mass >= 1 ==> rocket_fuel(mass) < mass,
    decreases (if mass > 0 { mass } else { 0 }),
{
    if mass > 0 {
        let f = spec_fuel(mass);
        if f >= 0 {
            lemma_rocket_fuel_bounds(f);
        }
    }
}

/// Sum the plain fuel of every whitespace-separated mass in `s`, left to
/// right, starting from `acc`: a malformed mass or a partial sum outside
/// the 64-bit range ends the walk with the matching error.
pub open spec fn fuel_sum_from(s: Seq<char>, acc: i64) -> Result<i64, SolveError>
    decreases s.len(),
{
    if s.len() == 0 {
        Ok(acc)
    } else if is_ws(s[0]) {
        fuel_sum_from(s.skip(1), acc)
    } else {
        let k = find_ws(s);
        if 1 <= k <= s.len() {
            match token_value(s.take(k)) {
                None => Err(SolveError::BadInput),
                Some(v) => {
                    let f = spec_fuel(v as int);
                    if i64::MIN <= acc + f <= i64::MAX {
                        fuel_sum_from(s.skip(k), (acc + f) as i64)
                    } else {
                        Err(SolveError::Overflow)
                    }
                },
            }
        } else {
            Ok(acc)
        }
    }
}

/// As [`fuel_sum_from`], but with the cumulative fuel of each mass.
pub open spec fn rocket_sum_from(s: Seq<char>, acc: i64) -> Result<i64, SolveError>
    decreases s.len(),
{
    if s.len() == 0 {
        Ok(acc)
    } else if is_ws(s[0]) {
        rocket_sum_from(s.skip(1), acc)
    } else {
        let k = find_ws(s);
        if 1 <= k <= s.len() {
            match token_value(s.take(k)) {
                None => Err(SolveError::BadInput),
                Some(v) => {
                    let f = rocket_fuel(v as int);
                    if i64::MIN <= acc + f <= i64::MAX {
                        rocket_sum_from(s.skip(k), (acc + f) as i64)
                    } else {
                        Err(SolveError::Overflow)
                    }
                },
            }
        } else {
            Ok(acc)
        }
    }
}

/// Fuel for `mass`: a third of the mass, rounded towards zero, minus two.
pub fn get_fuel(mass: i64) -> (r: i64)
    ensures
        r as int == spec_fuel(mass as int),
{
    if mass >= 0 {
        let q = (mass as u64) / 3;
        (q as i64) - 2
    } else {
        let mag: u64 = if mass == i64::MIN {
            9223372036854775808u64
        } else {
            (-mass) as u64
        };
        let q = mag / 3;
        -(q as i64) - 2
    }
}

/// The cumulative fuel of one mass: fuel, fuel for the fuel, and so on.
pub fn total_fuel(mass: i64) -> (r: i64)
    ensures
        r as int == rocket_fuel(mass as int),
{
    proof {
        lemma_rocket_fuel_bounds(mass as int);
    }
    let mut m = mass;
    let mut total: i64 = 0;
    loop
        invariant
            0 <= total,
            total + rocket_fuel(m as int) == rocket_fuel(mass as int),
            rocket_fuel(mass as int) <= i64::MAX,
        decreases (if m > 0 { m as int } else { 0 }),
    {
        if m <= 0 {
            return total;
        }
        let f = get_fuel(m);
        if f < 0 {
            return total;
        }
        proof {
            lemma_rocket_fuel_bounds(f as int);
        }
        total = total + f;
        m = f;
    }
}

/// The fuel for all the module masses in the text, each counted once.
pub fn part1(data: &str) -> (r: Result<String, SolveError>)
    ensures
        (match fuel_sum_from(data@, 0) {
            Err(e) => r == Err::<String, SolveError>(e),
            Ok(v) => r matches Ok(s) && s@ == spec_i64_string(v),
        }),
{
    let chars = collect_chars(data);
    let n = chars.len();
    let mut acc: i64 = 0;
    let mut j: usize = 0;
    proof {
        assert(chars@.skip(0) =~= chars@);
    }
    while j < n
        invariant
            j <= n,
            n == chars@.len(),
            chars@ == data@,
            fuel_sum_from(data@, 0) == fuel_sum_from(chars@.skip(j as int), acc),
        decreases n - j,
    {
        let c = chars[j];
        if c == ' ' || c == '\n' || c == '\r' || c == '\t' {
            proof {
                assert(chars@.skip(j as int).skip(1) =~= chars@.skip(j + 1int));
            }
            j = j + 1;
        } else {
            let ghost u = chars@.skip(j as int);
            let mut k = j + 1;
            while k < n && !(chars[k] == ' ' || chars[k] == '\n' || chars[k] == '\r' || chars[k]
                == '\t')
                invariant
                    j < k <= n,
                    n == chars@.len(),
                    forall|q: int| j <= q < k ==> !is_ws(#[trigger] chars@[q]),
                decreases n - k,
            {
                k = k + 1;
            }
            proof {
                assert(forall|i: int| 0 <= i < u.len() ==> u[i] == chars@[j + i]);
                lemma_find_ws_at(u, k - j);
                assert(u.take(k - j) =~= chars@.subrange(j as int, k as int));
                assert(u.skip(k - j) =~= chars@.skip(k as int));
            }
            let v = match parse_token(&chars, j, k) {
                Some(v) => v,
                None => {
                    return Err(SolveError::BadInput);
                },
            };
            let f = get_fuel(v);
            acc = match acc.checked_add(f) {
                Some(x) => x,
                None => {
                    return Err(SolveError::Overflow);
                },
            };
            j = k;
        }
    }
    proof {
        assert(chars@.skip(n as int) =~= Seq::<char>::empty());
    }
    Ok(i64_to_string(acc))
}

/// The fuel for all the module masses, counting the fuel's own fuel too.
pub fn part2(data: &str) -> (r: Result<String, SolveError>)
    ensures
        (match rocket_sum_from(data@, 0) {
            Err(e) => r == Err::<String, SolveError>(e),
            Ok(v) => r matches Ok(s) && s@ == spec_i64_string(v),
        }),
{
    let chars = collect_chars(data);
    let n = chars.len();
    let mut acc: i64 = 0;
    let mut j: usize = 0;
    proof {
        assert(chars@.skip(0) =~= chars@);
    }
    while j < n
        invariant
            j <= n,
            n == chars@.len(),
            chars@ == data@,
            rocket_sum_from(data@, 0) == rocket_sum_from(chars@.skip(j as int), acc),
        decreases n - j,
    {
        let c = chars[j];
        if c == ' ' || c == '\n' || c == '\r' || c == '\t' {
            proof {
                assert(chars@.skip(j as int).skip(1) =~= chars@.skip(j + 1int));
            }
            j = j + 1;
        } else {
            let ghost u = chars@.skip(j as int);
            let mut k = j + 1;
            while k < n && !(chars[k] == ' ' || chars[k] == '\n' || chars[k] == '\r' || chars[k]
                == '\t')
                invariant
                    j < k <= n,
                    n == chars@.len(),
                    forall|q: int| j <= q < k ==> !is_ws(#[trigger] chars@[q]),
                decreases n - k,
            {
                k = k + 1;
            }
            proof {
                assert(forall|i: int| 0 <= i < u.len() ==> u[i] == chars@[j + i]);
                lemma_find_ws_at(u, k - j);
                assert(u.take(k - j) =~= chars@.subrange(j as int, k as int));
                assert(u.skip(k - j) =~= chars@.skip(k as int));
            }
            let v = match parse_token(&chars, j, k) {
                Some(v) => v,
                None => {
                    return Err(SolveError::BadInput);
                },
            };
            let f = total_fuel(v);
            acc = match acc.checked_add(f) {
                Some(x) => x,
                None => {
                    return Err(SolveError::Overflow);
                },
            };
            j = k;
        }
    }
    proof {
        assert(chars@.skip(n as int) =~= Seq::<char>::empty());
    }
    Ok(i64_to_string(acc))
}

} // verus!
