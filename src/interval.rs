//! Named query intervals and the alignment of timestamps to bucket boundaries.
use vstd::arithmetic::div_mod::{
    lemma_div_is_ordered, lemma_fundamental_div_mod, lemma_fundamental_div_mod_converse,
    lemma_mod_multiples_basic,
};
use vstd::prelude::*;

use crate::text::text_eq;

verus! {

/// Width of the bucket used when no interval, or an unknown one, is given.
pub const DEFAULT_INTERVAL_SECONDS: i64 = 3600;

/// The width in seconds of each named interval; `None` for any other name.
pub open spec fn interval_seconds(name: Seq<char>) -> Option<i64> {
    if name == "5min"@ {
        Some(300)
    } else if name == "hour"@ {
        Some(3600)
    } else if name == "day"@ {
        Some(86400)
    } else if name == "week"@ {
        Some(604800)
    } else if name == "month"@ {
        Some(2592000)
    } else if name == "quarter"@ {
        Some(7776000)
    } else if name == "year"@ {
        Some(31536000)
    } else {
        None
    }
}

/// The width used for an optional interval name: the named width, else an hour.
pub open spec fn interval_or_default_spec(name: Option<Seq<char>>) -> i64 {
    match name {
        Some(n) => match interval_seconds(n) {
            Some(s) => s,
            None => DEFAULT_INTERVAL_SECONDS,
        },
        None => DEFAULT_INTERVAL_SECONDS,
    }
}

/// The bucket boundary at or below `t`: `t` minus its (non-negative) remainder.
pub open spec fn align_down_spec(t: int, seconds: int) -> int {
    t - t % seconds
}

/// Whether the boundary at or below `t` can be held in an `i64`.
pub open spec fn alignable(t: int, seconds: int) -> bool {
    align_down_spec(t, seconds) >= i64::MIN
}

/// Looks up the width in seconds of a named interval.
pub fn interval_to_seconds(interval: &str) -> (r: Option<i64>)
    ensures
        r == interval_seconds(interval@),
{
    if text_eq(interval, "5min") {
        Some(300)
    } else if text_eq(interval, "hour") {
        Some(3600)
    } else if text_eq(interval, "day") {
        Some(86400)
    } else if text_eq(interval, "week") {
        Some(86400 * 7)
    } else if text_eq(interval, "month") {
        Some(86400 * 30)
    } else if text_eq(interval, "quarter") {
        Some(86400 * 90)
    } else if text_eq(interval, "year") {
        Some(86400 * 365)
    } else {
        None
    }
}

/// The width for an optional interval name, falling back to an hour.
pub fn interval_or_default(interval: &Option<String>) -> (r: i64)
    ensures
        r == interval_or_default_spec(
            match interval {
                Some(s) => Some(s@),
                None => None,
            },
        ),
        r > 0,
{
    match interval {
        Some(name) => match interval_to_seconds(name.as_str()) {
            Some(s) => s,
            None => DEFAULT_INTERVAL_SECONDS,
        },
        None => DEFAULT_INTERVAL_SECONDS,
    }
}

/// Rounds `t` down to the nearest multiple of `seconds`.
pub fn align_down(t: i64, seconds: i64) -> (r: i64)
    requires
        seconds > 0,
        alignable(t as int, seconds as int),
    ensures
        r == align_down_spec(t as int, seconds as int),
{
    if t >= 0 {
        let rem: u64 = (t as u64) % (seconds as u64);
        t - rem as i64
    } else {
        let a: u64 = (-(t + 1)) as u64;
        let rem: u64 = a % (seconds as u64);
        proof {
            let q = (a as int) / (seconds as int);
            lemma_fundamental_div_mod(a as int, seconds as int);
            assert(t as int == (-q - 1) * (seconds as int) + (seconds - 1 - rem)) by (nonlinear_arith)
                requires
                    a as int == (seconds as int) * q + rem as int,
                    t as int == -(a as int) - 1,
            ;
            lemma_fundamental_div_mod_converse(
                t as int,
                seconds as int,
                -q - 1,
                seconds - 1 - rem,
            );
        }
        t - (seconds - 1 - rem as i64)
    }
}

/// Aligning a timestamp that already lies on a boundary leaves it unchanged.
pub proof fn lemma_align_down_idempotent(t: int, seconds: int)
    requires
        seconds > 0,
    ensures
        align_down_spec(align_down_spec(t, seconds), seconds) == align_down_spec(t, seconds),
        align_down_spec(t, seconds) % seconds == 0,
        align_down_spec(t, seconds) <= t < align_down_spec(t, seconds) + seconds,
{
    let q = t / seconds;
    lemma_fundamental_div_mod(t, seconds);
    assert(align_down_spec(t, seconds) == q * seconds) by (nonlinear_arith)
        requires
            t == seconds * q + t % seconds,
    ;
    lemma_mod_multiples_basic(q, seconds);
}

/// Aligning keeps the order of timestamps.
pub proof fn lemma_align_down_monotone(a: int, b: int, seconds: int)
    requires
        seconds > 0,
        a <= b,
    ensures
        align_down_spec(a, seconds) <= align_down_spec(b, seconds),
{
    lemma_fundamental_div_mod(a, seconds);
    lemma_fundamental_div_mod(b, seconds);
    lemma_div_is_ordered(a, b, seconds);
    let qa = a / seconds;
    let qb = b / seconds;
    assert(qa * seconds <= qb * seconds) by (nonlinear_arith)
        requires
            qa <= qb,
            seconds > 0,
    ;
    assert(align_down_spec(a, seconds) == qa * seconds) by (nonlinear_arith)
        requires
            a == seconds * qa + a % seconds,
    ;
    assert(align_down_spec(b, seconds) == qb * seconds) by (nonlinear_arith)
        requires
            b == seconds * qb + b % seconds,
    ;
}

/// For every named interval, aligning is idempotent.
pub proof fn lemma_named_interval_align_idempotent(name: Seq<char>, t: int)
    requires
        interval_seconds(name) is Some,
    ensures
        align_down_spec(align_down_spec(t, interval_seconds(name)->0 as int), interval_seconds(name)->0 as int)
            == align_down_spec(t, interval_seconds(name)->0 as int),
{
    lemma_align_down_idempotent(t, interval_seconds(name)->0 as int);
}

} // verus!
