//! Instants on the UTC time line and whole days between them.

use vstd::prelude::*;
use vstd::arithmetic::div_mod::{lemma_div_by_self, lemma_div_is_ordered, lemma_div_pos_is_pos};

verus! {

/// Nanoseconds in one day.
pub const NANOS_PER_DAY: i128 = 86_400_000_000_000;

/// An instant as seconds since the Unix epoch plus a nanosecond part.
#[derive(Debug, Clone, Copy, PartialEq, Eq)]
pub struct UtcInstant {
    pub seconds: i64,
    pub nanos: u32,
}

/// The instant as nanoseconds since the Unix epoch.
pub open spec fn nanos_of(t: UtcInstant) -> int {
    t.seconds as int * 1_000_000_000 + t.nanos as int
}

/// Whole days in a duration of `d` nanoseconds, truncated toward zero.
pub open spec fn whole_days(d: int) -> int {
    if d >= 0 {
        d / (NANOS_PER_DAY as int)
    } else {
        -((-d) / (NANOS_PER_DAY as int))
    }
}

/// Whole days from `now` until `expiration`; negative once `expiration` lies
/// more than a day behind.
pub open spec fn remaining_days(expiration: UtcInstant, now: UtcInstant) -> int {
    whole_days(nanos_of(expiration) - nanos_of(now))
}

/// Whole days from `now` until `expiration`, truncated toward zero.
pub fn remaining_whole_days(expiration: UtcInstant, now: UtcInstant) -> (r: i64)
    ensures
        r as int == remaining_days(expiration, now),
{
    let secs: i128 = expiration.seconds as i128 - now.seconds as i128;
    let sub: i128 = expiration.nanos as i128 - now.nanos as i128;
    assert(-0x1_0000_0000_0000_0000 * 1_000_000_000 <= secs * 1_000_000_000 <= 0x1_0000_0000_0000_0000 * 1_000_000_000)
        by (nonlinear_arith)
        requires
            -0x1_0000_0000_0000_0000 <= secs <= 0x1_0000_0000_0000_0000,
    ;
    let diff: i128 = secs * 1_000_000_000 + sub;
    assert(diff as int == nanos_of(expiration) - nanos_of(now));
    let ghost bound: int = (0x1_0000_0000_0000_0000 * 1_000_000_000 + 0x1_0000_0000) as int;
    if diff >= 0 {
        let days: i128 = diff / NANOS_PER_DAY;
        proof {
            lemma_div_is_ordered(diff as int, bound, NANOS_PER_DAY as int);
            lemma_div_pos_is_pos(diff as int, NANOS_PER_DAY as int);
        }
        assert(bound / (NANOS_PER_DAY as int) < 0x8000_0000_0000_0000);
        days as i64
    } else {
        let days: i128 = (-diff) / NANOS_PER_DAY;
        proof {
            lemma_div_is_ordered(-diff as int, bound, NANOS_PER_DAY as int);
            lemma_div_pos_is_pos(-diff as int, NANOS_PER_DAY as int);
        }
        assert(bound / (NANOS_PER_DAY as int) < 0x8000_0000_0000_0000);
        -(days as i64)
    }
}

/// Relies on `time::OffsetDateTime::now_utc`, read back with `unix_timestamp`
/// and `nanosecond` (below one second). The clock decides the value.
#[verifier::external_body]
pub(crate) fn now_utc() -> (r: UtcInstant)
    ensures
        r.nanos < 1_000_000_000,
{
    let t = time::OffsetDateTime::now_utc();
    UtcInstant { seconds: t.unix_timestamp(), nanos: t.nanosecond() }
}

/// Whole days truncated toward zero never grow with the duration shrinking.
proof fn lemma_whole_days_ordered(a: int, b: int)
    requires
        a <= b,
    ensures
        whole_days(a) <= whole_days(b),
{
    let d = NANOS_PER_DAY as int;
    if a >= 0 {
        lemma_div_is_ordered(a, b, d);
    } else if b >= 0 {
        lemma_div_pos_is_pos(-a, d);
        lemma_div_pos_is_pos(b, d);
    } else {
        lemma_div_is_ordered(-b, -a, d);
    }
}

/// The remaining days of a certificate never grow as the current instant
/// advances.
pub proof fn lemma_remaining_days_monotonic(expiration: UtcInstant, earlier: UtcInstant, later: UtcInstant)
    requires
        nanos_of(earlier) <= nanos_of(later),
    ensures
        remaining_days(expiration, later) <= remaining_days(expiration, earlier),
{
    lemma_whole_days_ordered(
        nanos_of(expiration) - nanos_of(later),
        nanos_of(expiration) - nanos_of(earlier),
    );
}

/// Outside the first day after expiration, the remaining days are negative
/// exactly when the current instant lies after the expiration instant. Within
/// that first day the count truncates to zero.
pub proof fn lemma_remaining_days_negative_iff_expired(expiration: UtcInstant, now: UtcInstant)
    requires
        !(nanos_of(expiration) < nanos_of(now) < nanos_of(expiration) + NANOS_PER_DAY),
    ensures
        remaining_days(expiration, now) < 0 <==> nanos_of(now) > nanos_of(expiration),
{
    let d = NANOS_PER_DAY as int;
    let diff = nanos_of(expiration) - nanos_of(now);
    if diff >= 0 {
        lemma_div_pos_is_pos(diff, d);
    } else {
        lemma_div_is_ordered(d, -diff, d);
        lemma_div_by_self(d);
    }
}

} // verus!
