//! Decimal integers read from text.
use vstd::prelude::*;

verus! {

pub open spec fn is_digit(c: char) -> bool {
    '0' <= c && c <= '9'
}

pub open spec fn digit_value(c: char) -> nat {
    (c as int - '0' as int) as nat
}

pub open spec fn all_digits(s: Seq<char>) -> bool {
    forall|i: int| 0 <= i < s.len() ==> is_digit(#[trigger] s[i])
}

/// The number that a string of decimal digits spells, most significant first.
pub open spec fn digits_value(s: Seq<char>) -> nat
    decreases s.len(),
{
    if s.len() == 0 {
        0
    } else {
        digits_value(s.drop_last()) * 10 + digit_value(s.last())
    }
}

/// The unsigned integer that `s` spells: one or more digits, nothing else.
pub open spec fn unsigned_value(s: Seq<char>) -> Option<nat> {
    if s.len() > 0 && all_digits(s) {
        Some(digits_value(s))
    } else {
        None
    }
}

/// The signed integer that `s` spells: an optional `+` or `-`, then digits.
pub open spec fn signed_value(s: Seq<char>) -> Option<int> {
    if s.len() > 0 && s[0] == '-' {
        match unsigned_value(s.drop_first()) {
            Some(v) => Some(-(v as int)),
            None => None,
        }
    } else if s.len() > 0 && s[0] == '+' {
        match unsigned_value(s.drop_first()) {
            Some(v) => Some(v as int),
            None => None,
        }
    } else {
        match unsigned_value(s) {
            Some(v) => Some(v as int),
            None => None,
        }
    }
}

/// The `u64` spelled by `s`, if it spells one that fits.
pub open spec fn u64_value(s: Seq<char>) -> Option<u64> {
    match unsigned_value(s) {
        Some(v) => if v <= u64::MAX {
            Some(v as u64)
        } else {
            None
        },
        None => None,
    }
}

/// The `i64` spelled by `s`, if it spells one that fits.
pub open spec fn i64_value(s: Seq<char>) -> Option<i64> {
    match signed_value(s) {
        Some(v) => if i64::MIN <= v <= i64::MAX {
            Some(v as i64)
        } else {
            None
        },
        None => None,
    }
}

proof fn lemma_digits_prefix_grows(s: Seq<char>, i: int)
    requires
        0 <= i <= s.len(),
        all_digits(s),
    ensures
        digits_value(s.subrange(0, i)) <= digits_value(s),
    decreases s.len() - i,
{
    if i < s.len() {
        lemma_digits_prefix_grows(s, i + 1);
        let p = s.subrange(0, i + 1);
        assert(p.drop_last() =~= s.subrange(0, i));
    } else {
        assert(s.subrange(0, i) =~= s);
    }
}

/// Reads the digits of `s[start..end]` as an unsigned integer; `None` when a
/// character there is not a digit, the range is empty, or the value exceeds `u64`.
pub fn parse_unsigned(s: &Vec<char>, start: usize, end: usize) -> (r: Option<u64>)
    requires
        start <= end <= s@.len(),
    ensures
        r == u64_value(s@.subrange(start as int, end as int)),
{
    let ghost t = s@.subrange(start as int, end as int);
    if start == end {
        return None;
    }
    let mut v: u64 = 0;
    let mut i: usize = start;
    while i < end
        invariant
            start <= i <= end <= s@.len(),
            t == s@.subrange(start as int, end as int),
            all_digits(t.subrange(0, i - start)),
            v as nat == digits_value(t.subrange(0, i - start)),
        decreases end - i,
    {
        let c = s[i];
        let ghost p = t.subrange(0, i + 1 - start);
        proof {
            assert(p.drop_last() =~= t.subrange(0, i - start));
            assert(p.last() == c);
        }
        if !('0' <= c && c <= '9') {
            proof {
                assert(!is_digit(t[i - start]));
            }
            return None;
        }
        let d: u64 = (c as u32 - '0' as u32) as u64;
        if v > (u64::MAX - d) / 10 {
            proof {
                assert(digits_value(p) > u64::MAX) by (nonlinear_arith)
                    requires
                        digits_value(p) == v * 10 + d,
                        v > (u64::MAX - d) / 10,
                        d <= 9,
                ;
                let rest_ok = all_digits(t);
                if rest_ok {
                    lemma_digits_prefix_grows(t, i + 1 - start);
                }
            }
            return None;
        }
        proof {
            assert(v * 10 + d <= u64::MAX) by (nonlinear_arith)
                requires
                    v <= (u64::MAX - d) / 10,
                    d <= 9,
            ;
            assert(all_digits(p));
        }
        v = v * 10 + d;
        i = i + 1;
    }
    proof {
        assert(t.subrange(0, end - start) =~= t);
    }
    Some(v)
}

/// Reads `s[start..end]` as an `i64`: an optional sign, then digits.
pub fn parse_signed(s: &Vec<char>, start: usize, end: usize) -> (r: Option<i64>)
    requires
        start <= end <= s@.len(),
    ensures
        r == i64_value(s@.subrange(start as int, end as int)),
{
    let ghost t = s@.subrange(start as int, end as int);
    let negative = start < end && s[start] == '-';
    let signed = start < end && (s[start] == '-' || s[start] == '+');
    let digits_start: usize = if signed { start + 1 } else { start };
    proof {
        if signed {
            assert(t.drop_first() =~= s@.subrange(digits_start as int, end as int));
        } else {
            assert(t =~= s@.subrange(digits_start as int, end as int));
        }
    }
    match parse_unsigned(s, digits_start, end) {
        None => {
            proof {
                let u = s@.subrange(digits_start as int, end as int);
                if unsigned_value(u) is Some {
                    assert(unsigned_value(u)->0 > u64::MAX);
                }
            }
            None
        },
        Some(m) => {
            if negative {
                if m <= 9223372036854775807 {
                    Some(-(m as i64))
                } else if m == 9223372036854775808 {
                    Some(i64::MIN)
                } else {
                    None
                }
            } else {
                if m <= 9223372036854775807 {
                    Some(m as i64)
                } else {
                    None
                }
            }
        },
    }
}

/// Ten to the power `n`.
pub open spec fn pow10(n: nat) -> nat
    decreases n,
{
    if n == 0 {
        1
    } else {
        10 * pow10((n - 1) as nat)
    }
}

/// The least position at or after `i` that holds a decimal point.
pub open spec fn first_dot_from(s: Seq<char>, i: int) -> Option<int>
    decreases s.len() - i,
{
    if i < 0 || i >= s.len() {
        None
    } else if s[i] == '.' {
        Some(i)
    } else {
        first_dot_from(s, i + 1)
    }
}

/// The value of `s` in units of `10^-decimals`: digits, optionally followed by
/// a point and at most `decimals` further digits, as long as it fits `u64`.
pub open spec fn fixed_value(s: Seq<char>, decimals: nat) -> Option<u64> {
    match first_dot_from(s, 0) {
        None => match unsigned_value(s) {
            Some(a) => if a * pow10(decimals) <= u64::MAX {
                Some((a * pow10(decimals)) as u64)
            } else {
                None
            },
            None => None,
        },
        Some(k) => {
            let f = s.subrange(k + 1, s.len() as int);
            match (unsigned_value(s.subrange(0, k)), unsigned_value(f)) {
                (Some(a), Some(b)) => if f.len() <= decimals && a * pow10(decimals) + b * pow10(
                    (decimals - f.len()) as nat,
                ) <= u64::MAX {
                    Some((a * pow10(decimals) + b * pow10((decimals - f.len()) as nat)) as u64)
                } else {
                    None
                },
                _ => None,
            }
        },
    }
}

proof fn lemma_pow10_positive(n: nat)
    ensures
        1 <= pow10(n),
    decreases n,
{
    if n > 0 {
        lemma_pow10_positive((n - 1) as nat);
    }
}

proof fn lemma_pow10_grows(n: nat, m: nat)
    requires
        n <= m,
    ensures
        1 <= pow10(n) <= pow10(m),
    decreases m,
{
    lemma_pow10_positive(n);
    if n < m {
        lemma_pow10_grows(n, (m - 1) as nat);
    }
}

proof fn lemma_pow10_bounds(n: nat)
    ensures
        1 <= pow10(n),
        n <= 18 ==> pow10(n) <= 1_000_000_000_000_000_000,
{
    if n <= 18 {
        lemma_pow10_grows(n, 18);
        reveal_with_fuel(pow10, 19);
        assert(pow10(18) == 1_000_000_000_000_000_000);
    } else {
        lemma_pow10_positive(n);
    }
}

/// Ten to the power `n`, for `n` up to 18.
pub fn pow10_u64(n: u32) -> (r: u64)
    requires
        n <= 18,
    ensures
        r == pow10(n as nat),
{
    let mut r: u64 = 1;
    let mut i: u32 = 0;
    while i < n
        invariant
            i <= n <= 18,
            r == pow10(i as nat),
        decreases n - i,
    {
        proof {
            lemma_pow10_bounds(i as nat);
        }
        r = r * 10;
        i = i + 1;
    }
    r
}

/// Reads `s[start..end]` as a decimal in units of `10^-decimals`.
pub fn parse_fixed(s: &Vec<char>, start: usize, end: usize, decimals: u32) -> (r: Option<u64>)
    requires
        start <= end <= s@.len(),
        decimals <= 18,
    ensures
        r == fixed_value(s@.subrange(start as int, end as int), decimals as nat),
{
    let ghost t = s@.subrange(start as int, end as int);
    let mut k: usize = start;
    while k < end && s[k] != '.'
        invariant
            start <= k <= end <= s@.len(),
            t == s@.subrange(start as int, end as int),
            first_dot_from(t, k - start) == first_dot_from(t, 0),
        decreases end - k,
    {
        k = k + 1;
    }
    let scale = pow10_u64(decimals);
    proof {
        lemma_pow10_bounds(decimals as nat);
    }
    if k == end {
        let a = match parse_unsigned(s, start, end) {
            Some(a) => a,
            None => {
                proof {
                    if unsigned_value(t) is Some {
                        let v = unsigned_value(t)->0;
                        assert(v > u64::MAX);
                        assert(v * pow10(decimals as nat) >= v) by (nonlinear_arith)
                            requires
                                pow10(decimals as nat) >= 1,
                        ;
                    }
                }
                return None;
            },
        };
        proof {
            assert(a as u128 * scale as u128 <= u64::MAX as int * 1_000_000_000_000_000_000)
                by (nonlinear_arith)
                requires
                    a <= u64::MAX,
                    scale <= 1_000_000_000_000_000_000,
            ;
        }
        let total: u128 = a as u128 * scale as u128;
        if total <= u64::MAX as u128 {
            Some(total as u64)
        } else {
            None
        }
    } else {
        proof {
            assert(s@.subrange(start as int, k as int) =~= t.subrange(0, k - start));
            assert(s@.subrange(k + 1, end as int) =~= t.subrange(k - start + 1, t.len() as int));
        }
        let flen: usize = end - (k + 1);
        if flen > decimals as usize {
            return None;
        }
        let b = match parse_unsigned(s, k + 1, end) {
            Some(b) => b,
            None => {
                proof {
                    let f = t.subrange(k - start + 1, t.len() as int);
                    if unsigned_value(t.subrange(0, k - start)) is Some && unsigned_value(f) is Some {
                        let bv = unsigned_value(f)->0;
                        let av = unsigned_value(t.subrange(0, k - start))->0;
                        lemma_pow10_bounds((decimals - f.len()) as nat);
                        assert(av * pow10(decimals as nat) + bv * pow10((decimals - f.len()) as nat)
                            >= bv) by (nonlinear_arith)
                            requires
                                pow10((decimals - f.len()) as nat) >= 1,
                                av >= 0,
                                pow10(decimals as nat) >= 1,
                        ;
                    }
                }
                return None;
            },
        };
        let a = match parse_unsigned(s, start, k) {
            Some(a) => a,
            None => {
                proof {
                    let f = t.subrange(k - start + 1, t.len() as int);
                    if unsigned_value(t.subrange(0, k - start)) is Some {
                        let av = unsigned_value(t.subrange(0, k - start))->0;
                        let bv = unsigned_value(f)->0;
                        lemma_pow10_bounds((decimals - f.len()) as nat);
                        assert(av * pow10(decimals as nat) + bv * pow10((decimals - f.len()) as nat)
                            >= av) by (nonlinear_arith)
                            requires
                                pow10(decimals as nat) >= 1,
                                bv >= 0,
                                pow10((decimals - f.len()) as nat) >= 1,
                        ;
                    }
                }
                return None;
            },
        };
        let fscale = pow10_u64(decimals - flen as u32);
        proof {
            lemma_pow10_bounds((decimals - flen) as nat);
            assert(a as u128 * scale as u128 <= u64::MAX as int * 1_000_000_000_000_000_000)
                by (nonlinear_arith)
                requires
                    a <= u64::MAX,
                    scale <= 1_000_000_000_000_000_000,
            ;
            assert(b as u128 * fscale as u128 <= u64::MAX as int * 1_000_000_000_000_000_000)
                by (nonlinear_arith)
                requires
                    b <= u64::MAX,
                    fscale <= 1_000_000_000_000_000_000,
            ;
        }
        let total: u128 = a as u128 * scale as u128 + b as u128 * fscale as u128;
        if total <= u64::MAX as u128 {
            Some(total as u64)
        } else {
            None
        }
    }
}

} // verus!
