//! Instants: nanoseconds since the Unix epoch, as `chrono`'s UTC
//! date-times hold them, and their split into whole seconds and the
//! nanoseconds past them.

use vstd::prelude::*;

verus! {

/// The latest instant a UTC date-time can hold (December 31, 262142 CE,
/// 23:59:59.999999999).
pub const MAX_UTC_NANOS: i128 = 8210266876799999999999;

/// The earliest instant a UTC date-time can hold (January 1, 262144 BCE).
pub const MIN_UTC_NANOS: i128 = -8334601228800000000000;

/// An instant that a UTC date-time can hold.
pub open spec fn valid_instant(t: int) -> bool {
    MIN_UTC_NANOS <= t <= MAX_UTC_NANOS
}

/// Nanoseconds since the Unix epoch of `seconds` and `nanos` past them.
pub open spec fn instant_nanos(seconds: i64, nanos: u32) -> i128 {
    (seconds * 1000000000 + nanos) as i128
}

/// Nanoseconds since the Unix epoch of `seconds` and `nanos` past them.
pub fn instant_of(seconds: i64, nanos: u32) -> (r: i128)
    ensures
        r == instant_nanos(seconds, nanos),
{
    (seconds as i128) * 1000000000 + (nanos as i128)
}

/// The whole seconds and the nanoseconds past them of an instant given in
/// nanoseconds since the Unix epoch, when the seconds fit in an `i64`.
pub open spec fn instant_parts(t: i128) -> Option<(i64, u32)> {
    let s = t / 1000000000;
    if i64::MIN <= s <= i64::MAX {
        Some((s as i64, (t % 1000000000) as u32))
    } else {
        None
    }
}

/// The seconds and nanoseconds of an instant (see `instant_parts`).
pub fn split_instant(t: i128) -> (r: Option<(i64, u32)>)
    ensures
        r == instant_parts(t),
{
    let q: i128;
    let rem: i128;
    if t >= 0 {
        q = t / 1000000000;
        rem = t % 1000000000;
    } else {
        let back: i128 = -(t + 1);
        let bq: i128 = back / 1000000000;
        let br: i128 = back % 1000000000;
        q = -(bq + 1);
        rem = 999999999 - br;
        assert(q == t / 1000000000 && rem == t % 1000000000) by (nonlinear_arith)
            requires
                t < 0,
                back == -(t + 1),
                bq == back / 1000000000,
                br == back % 1000000000,
                q == -(bq + 1),
                rem == 999999999 - br,
        ;
    }
    if q < i64::MIN as i128 || q > i64::MAX as i128 {
        None
    } else {
        Some((q as i64, rem as u32))
    }
}



/// A date-time's instant splits into seconds that fit in an `i64` and the
/// nanoseconds past them, which give the instant back.
pub proof fn lemma_instant_parts(t: i128)
    requires
        valid_instant(t as int),
    ensures
        instant_parts(t) matches Some((s, n)) && instant_nanos(s, n) == t && n < 1000000000,
{
    let q = t / 1000000000;
    let r = t % 1000000000;
    assert(q * 1000000000 + r == t && 0 <= r < 1000000000) by (nonlinear_arith)
        requires
            q == t / 1000000000,
            r == t % 1000000000,
    ;
    assert(-10000000000000 <= q <= 10000000000000) by (nonlinear_arith)
        requires
            q * 1000000000 + r == t,
            0 <= r < 1000000000,
            -8334601228800000000000 <= t <= 8210266876799999999999,
    ;
}

} // verus!
