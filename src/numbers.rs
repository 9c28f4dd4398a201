//! Decimal integers in text form.
use vstd::prelude::*;
use vstd::string::{StrSliceExecFns, StringExecFns};

verus! {

pub open spec fn is_digit(c: char) -> bool {
    48 <= (c as int) <= 57
}

/// The characters `0` to `9`.
pub open spec fn digit_chars() -> Seq<char> {
    seq!['0', '1', '2', '3', '4', '5', '6', '7', '8', '9']
}

/// The value of a string of decimal digits.
pub open spec fn digits_value(s: Seq<char>) -> int
    decreases s.len(),
{
    if s.len() == 0 {
        0
    } else {
        digits_value(s.drop_last()) * 10 + (s.last() as int - 48)
    }
}

pub open spec fn all_digits(s: Seq<char>) -> bool {
    s.len() > 0 && forall|i: int| 0 <= i < s.len() ==> is_digit(s[i])
}

/// The decimal digits of `n`, without leading zeros.
pub open spec fn nat_text(n: nat) -> Seq<char>
    decreases n,
{
    if n < 10 {
        seq![digit_chars()[n as int]]
    } else {
        nat_text(n / 10) + seq![digit_chars()[(n % 10) as int]]
    }
}

/// `10` to the power `k`.
pub open spec fn pow10(k: nat) -> nat
    decreases k,
{
    if k == 0 {
        1
    } else {
        10 * pow10((k - 1) as nat)
    }
}

/// The position of the first `.` in `s`, or its length where there is none.
pub open spec fn point_index(s: Seq<char>) -> int
    decreases s.len(),
{
    if s.len() == 0 {
        0
    } else if s[0] == '.' {
        0
    } else {
        1 + point_index(s.drop_first())
    }
}

/// The digits and the number of fraction digits of an unsigned decimal:
/// one or more digits, then optionally a `.` and one or more digits.
pub open spec fn unsigned_decimal(u: Seq<char>) -> Option<(int, nat)> {
    let p = point_index(u);
    if p == u.len() {
        if all_digits(u) {
            Some((digits_value(u), 0nat))
        } else {
            None
        }
    } else if all_digits(u.take(p)) && all_digits(u.skip(p + 1)) {
        Some((digits_value(u.take(p) + u.skip(p + 1)), (u.len() - p - 1) as nat))
    } else {
        None
    }
}

/// The decimal written in `s` as `(m, k)`, standing for `m / 10^k`: an
/// optional sign, then an unsigned decimal.
pub open spec fn decimal_value(s: Seq<char>) -> Option<(int, nat)> {
    if s.len() > 0 && (s[0] == '-' || s[0] == '+') {
        match unsigned_decimal(s.drop_first()) {
            Some((m, k)) => Some((if s[0] == '-' { -m } else { m }, k)),
            None => None,
        }
    } else {
        unsigned_decimal(s)
    }
}

/// The largest number of fraction digits read.
pub const MAX_SCALE: u32 = 18;

/// The decimal written in `s` where its digits fit in an `i64` and it has
/// at most `MAX_SCALE` fraction digits.
pub open spec fn parsed_decimal(s: Seq<char>) -> Option<(i64, u32)> {
    match decimal_value(s) {
        Some((m, k)) => if i64::MIN <= m <= i64::MAX && k <= MAX_SCALE {
            Some((m as i64, k as u32))
        } else {
            None
        },
        None => None,
    }
}

/// The value of the digits `s[from..]`, or `cap` where it reaches `cap`.
fn digits_value_capped(s: &str, n: usize, from: usize) -> (r: u128)
    requires
        n == s@.len(),
        from < n,
        all_digits(s@.skip(from as int)),
    ensures
        r == (if digits_value(s@.skip(from as int)) < 0x1_0000_0000_0000_0000 {
            digits_value(s@.skip(from as int))
        } else {
            0x1_0000_0000_0000_0000
        }),
{
    let cap: u128 = 0x1_0000_0000_0000_0000;
    let ghost t = s@.skip(from as int);
    let mut acc: u128 = 0;
    let mut i: usize = from;
    assert(t.take(0) =~= Seq::<char>::empty());
    while i < n
        invariant
            n == s@.len(),
            from <= i <= n,
            t == s@.skip(from as int),
            all_digits(t),
            digits_value(t.take(i - from)) >= 0,
            acc == (if digits_value(t.take(i - from)) < cap {
                digits_value(t.take(i - from))
            } else {
                cap as int
            }),
            cap == 0x1_0000_0000_0000_0000,
        decreases n - i,
    {
        let c = s.get_char(i);
        proof {
            assert(t[i - from] == c);
            assert(is_digit(t[i - from]));
        }
        let d = (c as u32 - 48) as u128;
        let ghost prev = digits_value(t.take(i - from));
        proof {
            assert(t.take(i - from + 1).drop_last() =~= t.take(i - from));
            assert(t.take(i - from + 1).last() == c);
            assert(digits_value(t.take(i - from + 1)) == prev * 10 + d);
        }
        if acc == cap {
            proof {
                assert(prev * 10 + d >= cap) by (nonlinear_arith)
                    requires
                        prev >= cap,
                        d >= 0,
                ;
            }
        } else {
            acc = acc * 10 + d;
            if acc > cap {
                acc = cap;
            }
        }
        i = i + 1;
    }
    assert(t.take(n - from) =~= t);
    acc
}

/// Whether `s[from..to]` is one or more digits.
fn digits_between(s: &str, from: usize, to: usize) -> (r: bool)
    requires
        from <= to <= s@.len(),
    ensures
        r == all_digits(s@.subrange(from as int, to as int)),
{
    if from == to {
        return false;
    }
    let mut i: usize = from;
    while i < to
        invariant
            from <= i <= to <= s@.len(),
            forall|t: int| from <= t < i ==> is_digit(s@[t]),
        decreases to - i,
    {
        let c = s.get_char(i);
        if !(48 <= c as u32 && c as u32 <= 57) {
            assert(s@.subrange(from as int, to as int)[i - from] == c);
            return false;
        }
        i = i + 1;
    }
    true
}

/// The position of the first `.` in `s[from..]`.
fn find_point(s: &str, n: usize, from: usize) -> (r: usize)
    requires
        n == s@.len(),
        from <= n,
    ensures
        from <= r <= n,
        r - from == point_index(s@.skip(from as int)),
{
    let mut i: usize = from;
    while i < n
        invariant
            n == s@.len(),
            from <= i <= n,
            point_index(s@.skip(from as int)) == (i - from) + point_index(s@.skip(i as int)),
        decreases n - i,
    {
        let c = s.get_char(i);
        assert(s@.skip(i as int)[0] == c);
        if c == '.' {
            return i;
        }
        assert(s@.skip(i as int).drop_first() =~= s@.skip(i + 1));
        i = i + 1;
    }
    i
}

/// Reads a decimal (see `parsed_decimal`): its digits as an integer and
/// its number of fraction digits.
pub fn parse_decimal(s: &str) -> (r: Option<(i64, u32)>)
    ensures
        r == parsed_decimal(s@),
{
    let n = s.unicode_len();
    if n == 0 {
        return None;
    }
    let first = s.get_char(0);
    let from: usize = if first == '-' || first == '+' { 1 } else { 0 };
    let ghost u = s@.skip(from as int);
    proof {
        if from == 1 {
            assert(u =~= s@.drop_first());
        } else {
            assert(u =~= s@);
        }
    }
    let p = find_point(s, n, from);
    let v: u128;
    let scale: u32;
    if p == n {
        if !digits_between(s, from, n) {
            assert(s@.subrange(from as int, n as int) =~= u);
            return None;
        }
        assert(s@.subrange(from as int, n as int) =~= u);
        v = digits_value_capped(s, n, from);
        scale = 0;
    } else {
        let ghost q = (p - from) as int;
        let int_ok = digits_between(s, from, p);
        let frac_ok = digits_between(s, p + 1, n);
        assert(s@.subrange(from as int, p as int) =~= u.take(q));
        assert(s@.subrange(p + 1, n as int) =~= u.skip(q + 1));
        if !int_ok || !frac_ok {
            return None;
        }
        if n - p - 1 > MAX_SCALE as usize {
            return None;
        }
        let mut t = String::from_str(s.substring_char(from, p));
        t.append(s.substring_char(p + 1, n));
        let tn = t.unicode_len();
        proof {
            let w = u.take(q) + u.skip(q + 1);
            assert(t@ =~= w);
            assert forall|i: int| 0 <= i < w.len() implies is_digit(w[i]) by {
                if i < q {
                    assert(w[i] == u.take(q)[i]);
                } else {
                    assert(w[i] == u.skip(q + 1)[i - q]);
                }
            }
            assert(t@.skip(0) =~= t@);
        }
        v = digits_value_capped(t.as_str(), tn, 0);
        scale = (n - p - 1) as u32;
    }
    if first == '-' {
        if v > 0x8000_0000_0000_0000 {
            None
        } else {
            Some(((0 - (v as i128)) as i64, scale))
        }
    } else {
        if v > 0x7fff_ffff_ffff_ffff {
            None
        } else {
            Some((v as i64, scale))
        }
    }
}

/// The count written in `s`: an optional `+`, then one or more digits,
/// where the value fits in a `u64`.
pub open spec fn parsed_count(s: Seq<char>) -> Option<u64> {
    let u = if s.len() > 0 && s[0] == '+' { s.drop_first() } else { s };
    if all_digits(u) && digits_value(u) <= u64::MAX {
        Some(digits_value(u) as u64)
    } else {
        None
    }
}

/// Reads a count such as a number of runs (see `parsed_count`).
pub fn parse_count(s: &str) -> (r: Option<u64>)
    ensures
        r == parsed_count(s@),
{
    let n = s.unicode_len();
    let from: usize = if n > 0 && s.get_char(0) == '+' { 1 } else { 0 };
    proof {
        if from == 1 {
            assert(s@.subrange(1, n as int) =~= s@.drop_first());
            assert(s@.skip(1) =~= s@.drop_first());
        } else {
            assert(s@.subrange(0, n as int) =~= s@);
            assert(s@.skip(0) =~= s@);
        }
    }
    if !digits_between(s, from, n) {
        return None;
    }
    let v = digits_value_capped(s, n, from);
    if v > 0xffff_ffff_ffff_ffff {
        None
    } else {
        Some(v as u64)
    }
}

/// The one-character text of the digit `d`.
fn digit_str(d: u64) -> (r: &'static str)
    requires
        d < 10,
    ensures
        r@ == seq![digit_chars()[d as int]],
{
    proof {
        reveal_strlit("0");
        reveal_strlit("1");
        reveal_strlit("2");
        reveal_strlit("3");
        reveal_strlit("4");
        reveal_strlit("5");
        reveal_strlit("6");
        reveal_strlit("7");
        reveal_strlit("8");
        reveal_strlit("9");
    }
    let r = if d == 0 { "0" } else if d == 1 { "1" } else if d == 2 { "2" } else if d == 3 { "3" }
    else if d == 4 { "4" } else if d == 5 { "5" } else if d == 6 { "6" } else if d == 7 { "7" }
    else if d == 8 { "8" } else { "9" };
    assert(r@ =~= seq![digit_chars()[d as int]]);
    r
}

/// The decimal digits of `n` (see `nat_text`).
pub fn unsigned_text(n: u128) -> (r: String)
    ensures
        r@ == nat_text(n as nat),
    decreases n,
{
    if n < 10 {
        String::from_str(digit_str(n as u64))
    } else {
        let mut s = unsigned_text(n / 10);
        s.append(digit_str((n % 10) as u64));
        s
    }
}

/// The last `k` decimal digits of `n`, with leading zeros.
pub open spec fn padded_digits(n: nat, k: nat) -> Seq<char>
    decreases k,
{
    if k == 0 {
        Seq::empty()
    } else {
        padded_digits(n / 10, (k - 1) as nat) + seq![digit_chars()[(n % 10) as int]]
    }
}

/// The decimal form of `m / 10^k` with exactly `k` fraction digits, with a
/// `-` before a negative value.
pub open spec fn decimal_text(m: int, k: nat) -> Seq<char> {
    let a = (if m < 0 { -m } else { m }) as nat;
    let body = if k == 0 {
        nat_text(a)
    } else {
        nat_text(a / pow10(k)) + seq!['.'] + padded_digits(a % pow10(k), k)
    };
    if m < 0 {
        seq!['-'] + body
    } else {
        body
    }
}

/// `10` to the power `k`.
pub fn pow10_exec(k: u32) -> (r: u128)
    requires
        k <= MAX_SCALE,
    ensures
        r == pow10(k as nat),
{
    proof {
        reveal_with_fuel(pow10, 19);
        assert(pow10(18) == 1_000_000_000_000_000_000);
    }
    let mut r: u128 = 1;
    let mut i: u32 = 0;
    while i < k
        invariant
            i <= k <= 18,
            r == pow10(i as nat),
            pow10(18) == 1_000_000_000_000_000_000,
        decreases k - i,
    {
        proof {
            lemma_pow10_monotone((i + 1) as nat, 18);
        }
        r = r * 10;
        i = i + 1;
    }
    r
}

pub proof fn lemma_pow10_monotone(a: nat, b: nat)
    requires
        a <= b,
    ensures
        pow10(a) <= pow10(b),
    decreases b,
{
    if a < b {
        lemma_pow10_monotone(a, (b - 1) as nat);
    }
}

pub proof fn lemma_pow10_positive(k: nat)
    ensures
        pow10(k) > 0,
    decreases k,
{
    if k > 0 {
        lemma_pow10_positive((k - 1) as nat);
    }
}

/// The last `k` digits of `n` (see `padded_digits`).
fn padded_text(n: u128, k: u32) -> (r: String)
    ensures
        r@ == padded_digits(n as nat, k as nat),
    decreases k,
{
    if k == 0 {
        String::new()
    } else {
        let mut s = padded_text(n / 10, k - 1);
        s.append(digit_str((n % 10) as u64));
        s
    }
}

/// The decimal form of `m / 10^k` (see `decimal_text`).
pub fn decimal_text_of(m: i128, k: u32) -> (r: String)
    requires
        k <= MAX_SCALE,
        m > i128::MIN,
    ensures
        r@ == decimal_text(m as int, k as nat),
{
    let a: u128 = if m < 0 { (0 - m) as u128 } else { m as u128 };
    let mut body: String;
    if k == 0 {
        body = unsigned_text(a);
    } else {
        let p = pow10_exec(k);
        proof {
            lemma_pow10_positive(k as nat);
        }
        body = unsigned_text(a / p);
        body.append(".");
        proof {
            reveal_strlit(".");
        }
        let frac = padded_text(a % p, k);
        body.append(frac.as_str());
    }
    if m < 0 {
        let mut s = String::from_str("-");
        proof {
            reveal_strlit("-");
        }
        s.append(body.as_str());
        s
    } else {
        body
    }
}

} // verus!
