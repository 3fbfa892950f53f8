//! Characters and decimal numbers: the small grammar shared by the
//! program parser and the puzzle solvers.
//!
//! Everything is specified over sequences of characters — the view Verus
//! gives to `str` and `String` — and the executable readers and writers
//! are proved to follow those specifications.

use vstd::prelude::*;
use vstd::string::StrSliceExecFns;
use vstd::string::StringExecFns;

verus! {

/// The whitespace characters the parsers ignore.
pub open spec fn is_ws(c: char) -> bool {
    c == ' ' || c == '\n' || c == '\r' || c == '\t'
}

/// A decimal digit.
pub open spec fn is_digit(c: char) -> bool {
    '0' <= c <= '9'
}

/// `s` with every whitespace character removed.
pub open spec fn strip_ws(s: Seq<char>) -> Seq<char>
    decreases s.len(),
{
    if s.len() == 0 {
        Seq::empty()
    } else if is_ws(s[0]) {
        strip_ws(s.skip(1))
    } else {
        seq![s[0]] + strip_ws(s.skip(1))
    }
}

/// Index of the first occurrence of `c` in `s`, or `s.len()` when there
/// is none.
pub open spec fn find_char(s: Seq<char>, c: char) -> int
    decreases s.len(),
{
    if s.len() == 0 {
        0
    } else if s[0] == c {
        0
    } else {
        1 + find_char(s.skip(1), c)
    }
}

/// Index of the first comma of `s`, or `s.len()` when there is none.
pub open spec fn find_comma(s: Seq<char>) -> int {
    find_char(s, ',')
}

/// Index of the first whitespace character of `s`, or `s.len()` when
/// there is none.
pub open spec fn find_ws(s: Seq<char>) -> int
    decreases s.len(),
{
    if s.len() == 0 {
        0
    } else if is_ws(s[0]) {
        0
    } else {
        1 + find_ws(s.skip(1))
    }
}

/// `s` without leading and trailing whitespace.
pub open spec fn trim_ws(s: Seq<char>) -> Seq<char>
    decreases s.len(),
{
    if s.len() == 0 {
        s
    } else if is_ws(s[0]) {
        trim_ws(s.skip(1))
    } else if is_ws(s.last()) {
        trim_ws(s.drop_last())
    } else {
        s
    }
}

/// The number written by a sequence of decimal digits, most significant
/// first.
pub open spec fn digits_value(t: Seq<char>) -> int
    decreases t.len(),
{
    if t.len() == 0 {
        0
    } else {
        digits_value(t.drop_last()) * 10 + (t.last() as int - 48)
    }
}

/// A non-empty, all-digit sequence.
pub open spec fn all_digits(t: Seq<char>) -> bool {
    t.len() > 0 && (forall|i: int| 0 <= i < t.len() ==> is_digit(#[trigger] t[i]))
}

/// The 64-bit value of one token: an optional sign, then at least one
/// decimal digit, writing a value that fits in `i64`.  Anything else is
/// rejected.
pub open spec fn token_value(t: Seq<char>) -> Option<i64> {
    let neg = t.len() > 0 && t[0] == '-';
    let signed = t.len() > 0 && (t[0] == '-' || t[0] == '+');
    let ds = if signed { t.skip(1) } else { t };
    if !all_digits(ds) {
        None
    } else {
        let v = if neg { -digits_value(ds) } else { digits_value(ds) };
        if i64::MIN <= v <= i64::MAX {
            Some(v as i64)
        } else {
            None
        }
    }
}

/// The comma-separated numbers of `s`, or nothing if any field is not a
/// well-formed 64-bit number.  The empty text has one (empty, so
/// ill-formed) field.
pub open spec fn parse_items(s: Seq<char>) -> Option<Seq<i64>>
    decreases s.len(),
{
    let k = find_comma(s);
    if 0 <= k < s.len() {
        match token_value(s.take(k)) {
            Some(v) => match parse_items(s.skip(k + 1)) {
                Some(rest) => Some(seq![v] + rest),
                None => None,
            },
            None => None,
        }
    } else {
        match token_value(s) {
            Some(v) => Some(seq![v]),
            None => None,
        }
    }
}

/// The decimal digits of `m`, most significant first.
pub open spec fn decimal_digits(m: nat) -> Seq<char>
    decreases m,
{
    if m < 10 {
        seq![(48 + m) as char]
    } else {
        decimal_digits(m / 10).push((48 + m % 10) as char)
    }
}

/// How `n` is written in decimal: a minus sign for negative values, then
/// the digits of its magnitude.
pub open spec fn spec_i64_string(n: i64) -> Seq<char> {
    if n < 0 {
        seq!['-'] + decimal_digits((-(n as int)) as nat)
    } else {
        decimal_digits(n as nat)
    }
}

/// Removing whitespace commutes with appending one character.
pub proof fn lemma_strip_ws_push(a: Seq<char>, c: char)
    ensures
        strip_ws(a.push(c)) == strip_ws(a) + (if is_ws(c) {
            Seq::<char>::empty()
        } else {
            seq![c]
        }),
    decreases a.len(),
{
    let tail: Seq<char> = if is_ws(c) { Seq::empty() } else { seq![c] };
    if a.len() == 0 {
        assert(strip_ws(Seq::<char>::empty()) == Seq::<char>::empty());
        assert(a.push(c)[0] == c);
        assert(a.push(c).skip(1) =~= Seq::<char>::empty());
        if is_ws(c) {
            assert(strip_ws(a.push(c)) == strip_ws(a.push(c).skip(1)));
            assert(strip_ws(a.push(c)) =~= strip_ws(a) + tail);
        } else {
            assert(strip_ws(a.push(c)) == seq![c] + strip_ws(a.push(c).skip(1)));
            assert(strip_ws(a.push(c)) =~= strip_ws(a) + tail);
        }
    } else {
        assert(a.push(c).skip(1) =~= a.skip(1).push(c));
        lemma_strip_ws_push(a.skip(1), c);
        assert(a.push(c)[0] == a[0]);
        if is_ws(a[0]) {
            assert(strip_ws(a.push(c)) == strip_ws(a.skip(1).push(c)));
            assert(strip_ws(a) + tail =~= strip_ws(a.skip(1)) + tail);
        } else {
            assert(strip_ws(a.push(c)) == seq![a[0]] + strip_ws(a.skip(1).push(c)));
            assert(seq![a[0]] + (strip_ws(a.skip(1)) + tail) =~= (seq![a[0]] + strip_ws(
                a.skip(1),
            )) + tail);
        }
    }
}

/// `find_char` is pinned by what an index-by-index scan observes.
pub proof fn lemma_find_char_at(s: Seq<char>, c: char, k: int)
    requires
        0 <= k <= s.len(),
        forall|i: int| 0 <= i < k ==> s[i] != c,
        k == s.len() || s[k] == c,
    ensures
        find_char(s, c) == k,
    decreases s.len(),
{
    if s.len() == 0 {
    } else if s[0] == c {
    } else {
        assert(k > 0);
        let t = s.skip(1);
        assert(forall|i: int| 0 <= i < k - 1 ==> t[i] == s[i + 1] && s[i + 1] != c);
        assert(k - 1 == t.len() || t[k - 1] == c);
        lemma_find_char_at(t, c, k - 1);
    }
}

/// `find_comma` is pinned by what an index-by-index scan observes.
pub proof fn lemma_find_comma_at(s: Seq<char>, k: int)
    requires
        0 <= k <= s.len(),
        forall|i: int| 0 <= i < k ==> s[i] != ',',
        k == s.len() || s[k] == ',',
    ensures
        find_comma(s) == k,
{
    lemma_find_char_at(s, ',', k);
}

/// `find_ws` is pinned by what an index-by-index scan observes.
pub proof fn lemma_find_ws_at(s: Seq<char>, k: int)
    requires
        0 <= k <= s.len(),
        forall|i: int| 0 <= i < k ==> !is_ws(#[trigger] s[i]),
        k == s.len() || is_ws(s[k]),
    ensures
        find_ws(s) == k,
    decreases s.len(),
{
    if s.len() == 0 {
    } else if is_ws(s[0]) {
    } else {
        assert(k > 0);
        let t = s.skip(1);
        assert(forall|i: int| 0 <= i < k - 1 ==> t[i] == s[i + 1] && !is_ws(#[trigger] t[i]));
        assert(k - 1 == t.len() || is_ws(t[k - 1]));
        lemma_find_ws_at(t, k - 1);
    }
}

/// The value of an all-digit sequence is not negative.
pub proof fn lemma_digits_value_nonneg(t: Seq<char>)
    requires
        forall|i: int| 0 <= i < t.len() ==> is_digit(#[trigger] t[i]),
    ensures
        digits_value(t) >= 0,
    decreases t.len(),
{
    if t.len() > 0 {
        lemma_digits_value_nonneg(t.drop_last());
    }
}

/// Reading more digits never shrinks the value.
pub proof fn lemma_digits_value_prefix_le(t: Seq<char>, j: int)
    requires
        0 <= j <= t.len(),
        forall|i: int| 0 <= i < t.len() ==> is_digit(#[trigger] t[i]),
    ensures
        digits_value(t.take(j)) <= digits_value(t),
    decreases t.len() - j,
{
    if j < t.len() {
        let a = t.take(j);
        let b = t.take(j + 1);
        assert(b.drop_last() =~= a);
        assert(forall|i: int| 0 <= i < a.len() ==> a[i] == t[i]);
        lemma_digits_value_nonneg(a);
        assert(digits_value(b) == digits_value(a) * 10 + (b.last() as int - 48));
        assert(digits_value(a) * 10 >= digits_value(a)) by (nonlinear_arith)
            requires digits_value(a) >= 0;
        lemma_digits_value_prefix_le(t, j + 1);
        assert(t.take(t.len() as int) =~= t);
    } else {
        assert(t.take(j) =~= t);
    }
}

/// Every character of `s`, as a vector.
pub fn collect_chars(s: &str) -> (r: Vec<char>)
    ensures
        r@ == s@,
{
    let n = s.unicode_len();
    let mut out: Vec<char> = Vec::new();
    let mut i: usize = 0;
    while i < n
        invariant
            i <= n,
            n == s@.len(),
            out@ == s@.take(i as int),
        decreases n - i,
    {
        let c = s.get_char(i);
        out.push(c);
        proof {
            assert(s@.take(i + 1int) =~= s@.take(i as int).push(s@[i as int]));
        }
        i = i + 1;
    }
    proof {
        assert(s@.take(n as int) =~= s@);
    }
    out
}

/// The characters `chars[from..to]`, as their own row.
pub fn copy_range(chars: &Vec<char>, from: usize, to: usize) -> (r: Vec<char>)
    requires
        from <= to <= chars@.len(),
    ensures
        r@ == chars@.subrange(from as int, to as int),
{
    let mut out: Vec<char> = Vec::new();
    let mut i = from;
    while i < to
        invariant
            from <= i <= to <= chars@.len(),
            out@ == chars@.subrange(from as int, i as int),
        decreases to - i,
    {
        out.push(chars[i]);
        proof {
            assert(chars@.subrange(from as int, i + 1int) =~= chars@.subrange(
                from as int,
                i as int,
            ).push(chars@[i as int]));
        }
        i = i + 1;
    }
    proof {
        assert(out@ =~= chars@.subrange(from as int, to as int));
    }
    out
}

/// Every non-whitespace character of `s`, in order.
pub fn stripped_chars(s: &str) -> (r: Vec<char>)
    ensures
        r@ == strip_ws(s@),
{
    let n = s.unicode_len();
    let mut out: Vec<char> = Vec::new();
    let mut i: usize = 0;
    while i < n
        invariant
            i <= n,
            n == s@.len(),
            out@ == strip_ws(s@.take(i as int)),
        decreases n - i,
    {
        let c = s.get_char(i);
        if !(c == ' ' || c == '\n' || c == '\r' || c == '\t') {
            out.push(c);
        }
        proof {
            assert(s@.take(i + 1int) =~= s@.take(i as int).push(s@[i as int]));
            lemma_strip_ws_push(s@.take(i as int), s@[i as int]);
        }
        i = i + 1;
    }
    proof {
        assert(s@.take(n as int) =~= s@);
    }
    out
}

/// Read the token `chars[from..to]` as a 64-bit number, following
/// [`token_value`] exactly.
pub fn parse_token(chars: &Vec<char>, from: usize, to: usize) -> (r: Option<i64>)
    requires
        from <= to <= chars@.len(),
    ensures
        r == token_value(chars@.subrange(from as int, to as int)),
{
    let ghost t = chars@.subrange(from as int, to as int);
    let mut i = from;
    let mut neg = false;
    if from < to {
        let c0 = chars[from];
        if c0 == '-' || c0 == '+' {
            neg = c0 == '-';
            i = from + 1;
        }
    }
    let ghost start = i as int;
    let ghost ds = chars@.subrange(start, to as int);
    proof {
        if start > from {
            assert(ds =~= t.skip(1));
        } else {
            assert(ds =~= t);
        }
    }
    if i == to {
        return None;
    }
    let mut acc: u64 = 0;
    while i < to
        invariant
            0 <= from <= start <= i <= to <= chars@.len(),
            t == chars@.subrange(from as int, to as int),
            start == from + (if t.len() > 0 && (t[0] == '-' || t[0] == '+') {
                1int
            } else {
                0int
            }),
            neg == (t.len() > 0 && t[0] == '-'),
            ds == chars@.subrange(start, to as int),
            ds == (if start == from + 1 {
                t.skip(1)
            } else {
                t
            }),
            forall|q: int| 0 <= q < i - start ==> is_digit(#[trigger] ds[q]),
            acc as int == digits_value(ds.take(i - start)),
            acc <= 0x8000_0000_0000_0000,
        decreases to - i,
    {
        let c = chars[i];
        if !('0' <= c && c <= '9') {
            proof {
                assert(ds[i - start] == chars@[i as int]);
                assert(!all_digits(ds));
            }
            return None;
        }
        let u = c as u32;
        proof {
            broadcast use vstd::utf8::char_u32_cast;

            assert(u as char == c);
            assert(u as int == c as int);
        }
        let d = (u - 48) as u64;
        let bound = (9223372036854775808u64 - d) / 10;
        proof {
            assert(ds.take(i - start + 1).drop_last() =~= ds.take(i - start));
            assert(ds.take(i - start + 1).last() == ds[i - start]);
        }
        if acc > bound {
            proof {
                let big = 9223372036854775808int;
                assert(10 * (bound as int) <= big - d && big - d < 10 * (bound as int + 1)) by (nonlinear_arith)
                    requires bound as int == (big - d) / 10, 0 <= d <= 9;
                assert(acc as int * 10 >= (bound as int + 1) * 10) by (nonlinear_arith)
                    requires acc as int >= bound as int + 1;
                assert(digits_value(ds.take(i - start + 1)) > big);
                if all_digits(ds) {
                    lemma_digits_value_prefix_le(ds, i - start + 1);
                    lemma_digits_value_nonneg(ds);
                }
            }
            return None;
        }
        proof {
            let big = 9223372036854775808int;
            assert(10 * (bound as int) <= big - d) by (nonlinear_arith)
                requires bound as int == (big - d) / 10, 0 <= d <= 9;
            assert(acc as int * 10 <= bound as int * 10) by (nonlinear_arith)
                requires acc as int <= bound as int;
        }
        acc = acc * 10 + d;
        i = i + 1;
    }
    proof {
        assert(ds.take(to as int - start) =~= ds);
        assert(all_digits(ds));
    }
    if neg {
        if acc == 9223372036854775808u64 {
            Some(i64::MIN)
        } else {
            Some(-(acc as i64))
        }
    } else {
        if acc == 9223372036854775808u64 {
            None
        } else {
            Some(acc as i64)
        }
    }
}

/// Write `n` in decimal, following [`spec_i64_string`] exactly.
pub fn i64_to_string(n: i64) -> (s: String)
    ensures
        s@ == spec_i64_string(n),
{
    let mut out = String::new();
    let mag: u64;
    if n < 0 {
        out.append("-");
        proof {
            reveal_strlit("-");
            assert(out@ =~= seq!['-']);
        }
        mag = if n == i64::MIN {
            9223372036854775808u64
        } else {
            (-n) as u64
        };
    } else {
        mag = n as u64;
    }
    push_decimal(&mut out, mag);
    proof {
        if n < 0 {
            assert(out@ == seq!['-'] + decimal_digits(mag as nat));
        }
    }
    out
}

/// How `m` is written in decimal.
pub open spec fn spec_u64_string(m: u64) -> Seq<char> {
    decimal_digits(m as nat)
}

/// Write `m` in decimal, following [`spec_u64_string`] exactly.
pub fn u64_to_string(m: u64) -> (s: String)
    ensures
        s@ == spec_u64_string(m),
{
    let mut out = String::new();
    push_decimal(&mut out, m);
    proof {
        assert(Seq::<char>::empty() + decimal_digits(m as nat) =~= decimal_digits(m as nat));
    }
    out
}

/// Append the decimal digits of `m` to `out`.
fn push_decimal(out: &mut String, m: u64)
    ensures
        final(out)@ == old(out)@ + decimal_digits(m as nat),
    decreases m,
{
    if m >= 10 {
        push_decimal(out, m / 10);
    }
    let d = (m % 10) as usize;
    let digits = "0123456789";
    proof {
        reveal_strlit("0123456789");
        assert(vstd::string::is_ascii(digits)) by {
            assert(forall|i: int| 0 <= i < digits@.len() ==> '\0' <= #[trigger] digits@[i]
                <= '\u{7f}');
        }
        assert(digits@.subrange(d as int, d + 1int) =~= seq![(48 + m % 10) as char]) by {
            assert(digits@[d as int] == (48 + m % 10) as char);
        }
    }
    let ds = digits.substring_ascii(d, d + 1);
    out.append(ds);
    proof {
        if m >= 10 {
            assert(old(out)@ + decimal_digits((m / 10) as nat) + seq![(48 + m % 10) as char]
                =~= old(out)@ + decimal_digits(m as nat));
        } else {
            assert(old(out)@ + decimal_digits(m as nat) =~= old(out)@ + seq![(48 + m) as char]);
        }
    }
}

} // verus!
