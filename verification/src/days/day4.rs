//! Secure Container: count the six-digit passwords in a range whose
//! digits never decrease and which hold a pair of equal neighbours — for
//! the stricter part, a pair that is not part of a longer group.

use vstd::prelude::*;

use crate::days::SolveError;
use crate::text::{collect_chars, find_char, i64_to_string, lemma_find_char_at, parse_token};
use crate::text::{spec_i64_string, token_value, trim_ws};

verus! {

/// No character is greater than its right neighbour.
pub open spec fn sorted_chars(s: Seq<char>) -> bool {
    forall|i: int| 0 <= i < s.len() - 1 ==> #[trigger] s[i] <= s[i + 1]
}

/// Some character equals its right neighbour.
pub open spec fn has_pair(s: Seq<char>) -> bool {
    exists|i: int| 0 <= i < s.len() - 1 && #[trigger] s[i] == s[i + 1]
}

/// Some character equals its right neighbour, and the two stand alone:
/// the characters beside them, if any, differ.
pub open spec fn has_lone_pair(s: Seq<char>) -> bool {
    exists|i: int|
        0 <= i < s.len() - 1 && #[trigger] s[i] == s[i + 1] && (i == 0 || s[i - 1] != s[i]) && (i
            + 2 == s.len() || s[i + 2] != s[i])
}

/// A valid password: exactly six characters, never decreasing, holding a
/// pair of equal neighbours — a lone pair, when groups are validated.
pub open spec fn spec_valid_password(s: Seq<char>, validate_groups: bool) -> bool {
    &&& s.len() == 6
    &&& sorted_chars(s)
    &&& (if validate_groups {
        has_lone_pair(s)
    } else {
        has_pair(s)
    })
}

/// Whether `password` is valid under the given group rule.
pub fn validate_password(password: &str, validate_groups: bool) -> (r: bool)
    ensures
        r == spec_valid_password(password@, validate_groups),
{
    let chars = collect_chars(password);
    if chars.len() != 6 {
        return false;
    }
    let mut i: usize = 0;
    while i < 5
        invariant
            i <= 5,
            chars@.len() == 6,
            chars@ == password@,
            forall|q: int| 0 <= q < i ==> #[trigger] chars@[q] <= chars@[q + 1],
        decreases 5 - i,
    {
        if chars[i] > chars[i + 1] {
            return false;
        }
        i = i + 1;
    }
    let mut i: usize = 0;
    if !validate_groups {
        while i < 5
            invariant
                i <= 5,
                chars@.len() == 6,
                chars@ == password@,
                !validate_groups,
                sorted_chars(password@),
                forall|q: int| 0 <= q < i ==> #[trigger] chars@[q] != chars@[q + 1],
            decreases 5 - i,
        {
            if chars[i] == chars[i + 1] {
                proof {
                    let w = i as int;
                    assert(password@[w] == password@[w + 1]);
                    assert(has_pair(password@));
                }
                return true;
            }
            i = i + 1;
        }
        false
    } else {
        while i < 5
            invariant
                i <= 5,
                chars@.len() == 6,
                chars@ == password@,
                validate_groups,
                sorted_chars(password@),
                forall|q: int|
                    0 <= q < i ==> !(#[trigger] chars@[q] == chars@[q + 1] && (q == 0 || chars@[q
                        - 1] != chars@[q]) && (q + 2 == 6 || chars@[q + 2] != chars@[q])),
            decreases 5 - i,
        {
            if chars[i] == chars[i + 1] && (i == 0 || chars[i - 1] != chars[i]) && (i + 2 == 6
                || chars[i + 2] != chars[i]) {
                proof {
                    let w = i as int;
                    assert(password@[w] == password@[w + 1] && (w == 0 || password@[w - 1]
                        != password@[w]) && (w + 2 == 6 || password@[w + 2] != password@[w]));
                    assert(has_lone_pair(password@));
                }
                return true;
            }
            i = i + 1;
        }
        false
    }
}

/// The password range of the text `A-B`: each side read as a 64-bit
/// number after trimming, the start lifted to at least 100000 and the
/// end lowered to at most 1000000.
pub open spec fn spec_range(s: Seq<char>) -> Result<(i64, i64), SolveError> {
    let k = find_char(s, '-');
    if !(0 <= k < s.len()) {
        Err(SolveError::BadInput)
    } else {
        match (token_value(trim_ws(s.take(k))), token_value(trim_ws(s.skip(k + 1)))) {
            (Some(a), Some(b)) => Ok(
                (
                    if a < 100000 {
                        100000i64
                    } else {
                        a
                    },
                    if b > 1000000 {
                        1000000i64
                    } else {
                        b
                    },
                ),
            ),
            _ => Err(SolveError::BadInput),
        }
    }
}

/// Trim the whitespace off `chars[lo..hi]`, returning the narrowed
/// bounds.
fn trim_bounds(chars: &Vec<char>, lo: usize, hi: usize) -> (r: (usize, usize))
    requires
        lo <= hi <= chars@.len(),
    ensures
        lo <= r.0 <= r.1 <= hi,
        chars@.subrange(r.0 as int, r.1 as int) == trim_ws(chars@.subrange(lo as int, hi as int)),
    decreases hi - lo,
{
    if lo == hi {
        (lo, hi)
    } else {
        let c0 = chars[lo];
        if c0 == ' ' || c0 == '\n' || c0 == '\r' || c0 == '\t' {
            proof {
                assert(chars@.subrange(lo as int, hi as int).skip(1) =~= chars@.subrange(
                    lo + 1int,
                    hi as int,
                ));
            }
            trim_bounds(chars, lo + 1, hi)
        } else {
            let c1 = chars[hi - 1];
            if c1 == ' ' || c1 == '\n' || c1 == '\r' || c1 == '\t' {
                proof {
                    assert(chars@.subrange(lo as int, hi as int).drop_last() =~= chars@.subrange(
                        lo as int,
                        hi - 1int,
                    ));
                }
                trim_bounds(chars, lo, hi - 1)
            } else {
                (lo, hi)
            }
        }
    }
}

/// Read the password range `A-B` off the text.
pub fn get_range(data: &str) -> (r: Result<(i64, i64), SolveError>)
    ensures
        r == spec_range(data@),
{
    let chars = collect_chars(data);
    let n = chars.len();
    let mut k: usize = 0;
    while k < n && chars[k] != '-'
        invariant
            k <= n,
            n == chars@.len(),
            forall|q: int| 0 <= q < k ==> chars@[q] != '-',
        decreases n - k,
    {
        k = k + 1;
    }
    proof {
        lemma_find_char_at(chars@, '-', k as int);
    }
    if k == n {
        return Err(SolveError::BadInput);
    }
    let (alo, ahi) = trim_bounds(&chars, 0, k);
    proof {
        assert(chars@.subrange(0, k as int) =~= chars@.take(k as int));
    }
    let a = match parse_token(&chars, alo, ahi) {
        Some(v) => v,
        None => {
            return Err(SolveError::BadInput);
        },
    };
    let (blo, bhi) = trim_bounds(&chars, k + 1, n);
    proof {
        assert(chars@.subrange(k + 1int, n as int) =~= chars@.skip(k + 1int));
    }
    let b = match parse_token(&chars, blo, bhi) {
        Some(v) => v,
        None => {
            return Err(SolveError::BadInput);
        },
    };
    let lo = if a < 100000 {
        100000i64
    } else {
        a
    };
    let hi = if b > 1000000 {
        1000000i64
    } else {
        b
    };
    Ok((lo, hi))
}

/// How many numbers in `lo..hi` write a valid password, under the given
/// group rule.
pub open spec fn count_valid(lo: i64, hi: i64, validate_groups: bool) -> int
    decreases hi - lo,
{
    if lo >= hi {
        0
    } else {
        (if spec_valid_password(spec_i64_string(lo), validate_groups) {
            1int
        } else {
            0int
        }) + count_valid((lo + 1) as i64, hi, validate_groups)
    }
}

/// The count never exceeds the width of the range.
pub proof fn lemma_count_valid_le(lo: i64, hi: i64, validate_groups: bool)
    ensures
        0 <= count_valid(lo, hi, validate_groups) <= (if hi > lo {
            hi - lo
        } else {
            0
        }),
    decreases hi - lo,
{
    if lo < hi {
        lemma_count_valid_le((lo + 1) as i64, hi, validate_groups);
    }
}

/// Count the valid passwords in the range the text names.
fn count_in_range(data: &str, validate_groups: bool) -> (r: Result<String, SolveError>)
    ensures
        (match spec_range(data@) {
            Err(e) => r == Err::<String, SolveError>(e),
            Ok((lo, hi)) => r matches Ok(s) && s@ == spec_i64_string(
                count_valid(lo, hi, validate_groups) as i64,
            ),
        }),
{
    let (lo, hi) = match get_range(data) {
        Ok(p) => p,
        Err(e) => {
            return Err(e);
        },
    };
    let mut count: i64 = 0;
    let mut i = lo;
    proof {
        lemma_count_valid_le(lo, hi, validate_groups);
    }
    while i < hi
        invariant
            100000 <= lo,
            hi <= 1000000,
            lo <= i,
            i <= hi || i == lo,
            count + count_valid(i, hi, validate_groups) == count_valid(lo, hi, validate_groups),
            0 <= count <= (if i > lo {
                i - lo
            } else {
                0
            }),
        decreases hi - i,
    {
        let text = i64_to_string(i);
        if validate_password(text.as_str(), validate_groups) {
            proof {
                lemma_count_valid_le((i + 1) as i64, hi, validate_groups);
            }
            count = count + 1;
        }
        i = i + 1;
    }
    Ok(i64_to_string(count))
}

/// How many candidates in the range hold some pair of equal adjacent
/// digits.
pub fn part1(data: &str) -> (r: Result<String, SolveError>)
    ensures
        (match spec_range(data@) {
            Err(e) => r == Err::<String, SolveError>(e),
            Ok((lo, hi)) => r matches Ok(s) && s@ == spec_i64_string(
                count_valid(lo, hi, false) as i64,
            ),
        }),
{
    count_in_range(data, false)
}

/// How many candidates in the range hold a pair of equal adjacent digits
/// that is not part of a longer group.
pub fn part2(data: &str) -> (r: Result<String, SolveError>)
    ensures
        (match spec_range(data@) {
            Err(e) => r == Err::<String, SolveError>(e),
            Ok((lo, hi)) => r matches Ok(s) && s@ == spec_i64_string(
                count_valid(lo, hi, true) as i64,
            ),
        }),
{
    count_in_range(data, true)
}

} // verus!
