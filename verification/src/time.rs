//! Instants in UTC, held as a UNIX timestamp and a nanosecond part, and the
//! differences between them as `chrono` measures them.

use vstd::prelude::*;
use chrono::{DateTime, Utc};

verus! {

/// Nanoseconds in one second.
pub const NANOS_PER_SEC: u64 = 1_000_000_000;

/// Nanoseconds in one millisecond.
pub const NANOS_PER_MILLI: u64 = 1_000_000;

/// Nanoseconds in one day.
pub const NANOS_PER_DAY: u64 = 86_400_000_000_000;

/// The UNIX timestamp of `DateTime::<Utc>::MIN_UTC`, the first second that
/// `chrono` represents (midnight at the start of `NaiveDate::MIN`).
pub const MIN_UTC_SECS: i64 = -8_334_601_228_800;

/// The UNIX timestamp of `DateTime::<Utc>::MAX_UTC`, the last second that
/// `chrono` represents (the end of `NaiveDate::MAX`).
pub const MAX_UTC_SECS: i64 = 8_210_266_876_799;

/// Whether `chrono` represents `(secs, nanos)` as an instant, that is whether
/// `DateTime::<Utc>::from_timestamp(secs, nanos)` is `Some`: the seconds lie
/// between `MIN_UTC` and `MAX_UTC`, the nanoseconds are below two seconds, and
/// one second or more (a leap second) only at the last second of a minute.
pub open spec fn chrono_instant(secs: int, nanos: int) -> bool {
    &&& MIN_UTC_SECS <= secs <= MAX_UTC_SECS
    &&& 0 <= nanos < 2 * NANOS_PER_SEC
    &&& nanos >= NANOS_PER_SEC ==> secs % 60 == 59
}

/// The nanoseconds from instant `b` to instant `a`, as `chrono` measures
/// `a - b`: the difference of the timestamps, with one more second where `b`
/// is inside a leap second and `a` is at a later second of its day, and one
/// second less where `a` is inside a leap second and `b` is at a later second
/// of its day.
pub open spec fn chrono_duration_nanos(a_secs: int, a_nanos: int, b_secs: int, b_nanos: int) -> int {
    let a_of_day = a_secs % 86_400;
    let b_of_day = b_secs % 86_400;
    let leap: int = if a_of_day > b_of_day && b_nanos >= NANOS_PER_SEC {
        1
    } else if a_of_day < b_of_day && a_nanos >= NANOS_PER_SEC {
        -1
    } else {
        0
    };
    (a_secs - b_secs + leap) * (NANOS_PER_SEC as int) + (a_nanos - b_nanos)
}

/// Integer division rounding toward zero, as Rust's `/` does.
pub open spec fn div_toward_zero(a: int, b: int) -> int
    recommends
        b > 0,
{
    if a >= 0 {
        a / b
    } else {
        -((-a) / b)
    }
}

/// `(a - b).num_days()`: whole days from `b` to `a`, rounded toward zero.
pub open spec fn days_between(a_secs: int, a_nanos: int, b_secs: int, b_nanos: int) -> int {
    div_toward_zero(chrono_duration_nanos(a_secs, a_nanos, b_secs, b_nanos), NANOS_PER_DAY as int)
}

/// `(a - b).num_milliseconds()`: whole milliseconds from `b` to `a`, rounded
/// toward zero.
pub open spec fn millis_between(a_secs: int, a_nanos: int, b_secs: int, b_nanos: int) -> int {
    div_toward_zero(
        chrono_duration_nanos(a_secs, a_nanos, b_secs, b_nanos),
        NANOS_PER_MILLI as int,
    )
}

/// Calls `chrono::DateTime::<Utc>::from_timestamp(secs, nanos)` and tells
/// whether it returned `Some`.
///
/// Claimed: the answer is `chrono_instant(secs, nanos)`, the range and the
/// leap second rule that `from_timestamp` and `NaiveTime` check.
#[verifier::external_body]
fn chrono_accepts(secs: i64, nanos: u32) -> (ok: bool)
    ensures
        ok == chrono_instant(secs as int, nanos as int),
{
    DateTime::<Utc>::from_timestamp(secs, nanos).is_some()
}

/// Builds the two `chrono` instants and returns `(a - b).num_days()`.
///
/// Claimed: the result is the `chrono` duration from `b` to `a` in
/// nanoseconds, divided by one day and rounded toward zero (the arithmetic of
/// `NaiveTime::signed_duration_since` and `TimeDelta::num_days`).
#[verifier::external_body]
fn chrono_num_days(a_secs: i64, a_nanos: u32, b_secs: i64, b_nanos: u32) -> (d: i64)
    requires
        chrono_instant(a_secs as int, a_nanos as int),
        chrono_instant(b_secs as int, b_nanos as int),
    ensures
        d == days_between(a_secs as int, a_nanos as int, b_secs as int, b_nanos as int),
{
    let a = DateTime::<Utc>::from_timestamp(a_secs, a_nanos).unwrap();
    let b = DateTime::<Utc>::from_timestamp(b_secs, b_nanos).unwrap();
    (a - b).num_days()
}

/// Builds the two `chrono` instants and returns `(a - b).num_milliseconds()`.
///
/// Claimed: the result is the `chrono` duration from `b` to `a` in
/// nanoseconds, divided by one millisecond and rounded toward zero (the
/// arithmetic of `TimeDelta::num_milliseconds`).
#[verifier::external_body]
fn chrono_num_milliseconds(a_secs: i64, a_nanos: u32, b_secs: i64, b_nanos: u32) -> (m: i64)
    requires
        chrono_instant(a_secs as int, a_nanos as int),
        chrono_instant(b_secs as int, b_nanos as int),
    ensures
        m == millis_between(a_secs as int, a_nanos as int, b_secs as int, b_nanos as int),
{
    let a = DateTime::<Utc>::from_timestamp(a_secs, a_nanos).unwrap();
    let b = DateTime::<Utc>::from_timestamp(b_secs, b_nanos).unwrap();
    (a - b).num_milliseconds()
}

/// The one arrangement of two instants, `b` before `a`, from which `chrono`
/// measures a negative duration `a - b`: `b` inside the leap second that ends
/// a day, `a` in the first second of the next day, with less of its second
/// gone than of the leap second at `b`.
pub open spec fn leap_day_end_case(a_secs: int, a_nanos: int, b_secs: int, b_nanos: int) -> bool {
    a_secs == b_secs + 1 && b_secs % 86_400 == 86_399 && a_nanos + NANOS_PER_SEC < b_nanos
}

/// From an instant to one no earlier, `chrono` counts zero days or more. The
/// duration and the milliseconds are not negative either, but for the leap
/// second arrangement of `leap_day_end_case`, where they fall below zero by
/// less than a second.
pub proof fn lemma_duration_nonnegative(a_secs: int, a_nanos: int, b_secs: int, b_nanos: int)
    requires
        chrono_instant(a_secs, a_nanos),
        chrono_instant(b_secs, b_nanos),
        b_secs < a_secs || (b_secs == a_secs && b_nanos <= a_nanos),
    ensures
        days_between(a_secs, a_nanos, b_secs, b_nanos) >= 0,
        chrono_duration_nanos(a_secs, a_nanos, b_secs, b_nanos) > -(NANOS_PER_SEC as int),
        !leap_day_end_case(a_secs, a_nanos, b_secs, b_nanos) ==> chrono_duration_nanos(
            a_secs,
            a_nanos,
            b_secs,
            b_nanos,
        ) >= 0,
        !leap_day_end_case(a_secs, a_nanos, b_secs, b_nanos) ==> millis_between(
            a_secs,
            a_nanos,
            b_secs,
            b_nanos,
        ) >= 0,
{
    let a_of_day = a_secs % 86_400;
    let b_of_day = b_secs % 86_400;
    let da = a_secs / 86_400;
    let db = b_secs / 86_400;
    assert(a_secs == da * 86_400 + a_of_day && 0 <= a_of_day < 86_400);
    assert(b_secs == db * 86_400 + b_of_day && 0 <= b_of_day < 86_400);
    if a_secs > b_secs {
        if a_of_day < b_of_day && a_nanos >= NANOS_PER_SEC {
            // `a` is inside a leap second on a later day than `b`: at least a minute apart.
            assert(a_secs % 60 == 59);
            assert(a_of_day % 60 == 59) by {
                assert(a_secs == (da * 1_440) * 60 + a_of_day);
            }
            assert(da > db);
            assert(a_secs - b_secs >= 60);
        } else if a_secs == b_secs + 1 && b_nanos >= NANOS_PER_SEC && b_of_day < 86_399 {
            // The next second of the same day.
            assert(b_secs + 1 == db * 86_400 + (b_of_day + 1));
            assert(da == db);
            assert(a_of_day == b_of_day + 1);
        } else if a_secs == b_secs + 1 && b_of_day == 86_399 {
            assert(a_secs == (db + 1) * 86_400);
            assert(a_of_day == 0);
            assert(a_secs % 60 == 0) by {
                assert(a_secs == ((db + 1) * 1_440) * 60);
            }
        }
    }
}

/// An instant in UTC that `chrono` can represent: seconds since the UNIX epoch
/// and the nanoseconds since the last whole second (at least one second only
/// inside a leap second).
#[derive(Clone, Copy, Debug)]
pub struct Timestamp {
    secs: i64,
    nanos: u32,
}

impl Timestamp {
    #[verifier::type_invariant]
    spec fn representable(self) -> bool {
        chrono_instant(self.secs as int, self.nanos as int)
    }

    /// The seconds since the UNIX epoch.
    pub closed spec fn secs_spec(self) -> int {
        self.secs as int
    }

    /// The nanoseconds since the last whole second.
    pub closed spec fn nanos_spec(self) -> int {
        self.nanos as int
    }

    /// The instant `(secs, nanos)`, or `None` where `chrono` cannot represent it.
    pub closed spec fn from_parts_spec(secs: i64, nanos: u32) -> Option<Timestamp> {
        if chrono_instant(secs as int, nanos as int) {
            Some(Timestamp { secs, nanos })
        } else {
            None
        }
    }

    /// What `from_parts_spec` gives, in terms of the parts.
    pub proof fn lemma_from_parts(secs: i64, nanos: u32)
        ensures
            Self::from_parts_spec(secs, nanos) is Some <==> chrono_instant(secs as int, nanos as int),
            Self::from_parts_spec(secs, nanos) matches Some(t) ==> t.secs_spec() == secs
                && t.nanos_spec() == nanos,
    {
    }

    /// The instant `(secs, nanos)`, or `None` where `chrono` cannot represent it.
    pub fn from_parts(secs: i64, nanos: u32) -> (r: Option<Timestamp>)
        ensures
            r == Self::from_parts_spec(secs, nanos),
            r is Some <==> chrono_instant(secs as int, nanos as int),
            r matches Some(t) ==> t.secs_spec() == secs && t.nanos_spec() == nanos,
    {
        if chrono_accepts(secs, nanos) {
            Some(Timestamp { secs, nanos })
        } else {
            None
        }
    }

    /// The seconds since the UNIX epoch.
    pub fn secs(&self) -> (s: i64)
        ensures
            s == self.secs_spec(),
            chrono_instant(self.secs_spec(), self.nanos_spec()),
    {
        proof {
            use_type_invariant(self);
        }
        self.secs
    }

    /// The nanoseconds since the last whole second.
    pub fn nanos(&self) -> (n: u32)
        ensures
            n == self.nanos_spec(),
            chrono_instant(self.secs_spec(), self.nanos_spec()),
    {
        proof {
            use_type_invariant(self);
        }
        self.nanos
    }

    /// Whether `self` is not later than `other`: the order of `chrono`'s
    /// instants, which is that of `(secs, nanos)` compared lexicographically.
    pub open spec fn not_after(self, other: Timestamp) -> bool {
        self.secs_spec() < other.secs_spec() || (self.secs_spec() == other.secs_spec()
            && self.nanos_spec() <= other.nanos_spec())
    }

    /// Whether `self` is strictly later than `other`.
    pub fn is_after(&self, other: &Timestamp) -> (b: bool)
        ensures
            b == !self.not_after(*other),
    {
        self.secs > other.secs || (self.secs == other.secs && self.nanos > other.nanos)
    }

    /// `(self - earlier).num_days()` as `chrono` computes it: whole days,
    /// rounded toward zero.
    pub fn days_since(&self, earlier: &Timestamp) -> (d: i64)
        ensures
            d == days_between(
                self.secs_spec(),
                self.nanos_spec(),
                earlier.secs_spec(),
                earlier.nanos_spec(),
            ),
            earlier.not_after(*self) ==> d >= 0,
    {
        proof {
            use_type_invariant(self);
            use_type_invariant(earlier);
            if earlier.not_after(*self) {
                lemma_duration_nonnegative(
                    self.secs as int,
                    self.nanos as int,
                    earlier.secs as int,
                    earlier.nanos as int,
                );
            }
        }
        chrono_num_days(self.secs, self.nanos, earlier.secs, earlier.nanos)
    }

    /// `(self - earlier).num_milliseconds()` as `chrono` computes it: whole
    /// milliseconds, rounded toward zero.
    pub fn millis_since(&self, earlier: &Timestamp) -> (m: i64)
        ensures
            m == millis_between(
                self.secs_spec(),
                self.nanos_spec(),
                earlier.secs_spec(),
                earlier.nanos_spec(),
            ),
            earlier.not_after(*self) && !leap_day_end_case(
                self.secs_spec(),
                self.nanos_spec(),
                earlier.secs_spec(),
                earlier.nanos_spec(),
            ) ==> m >= 0,
    {
        proof {
            use_type_invariant(self);
            use_type_invariant(earlier);
            if earlier.not_after(*self) {
                lemma_duration_nonnegative(
                    self.secs as int,
                    self.nanos as int,
                    earlier.secs as int,
                    earlier.nanos as int,
                );
            }
        }
        chrono_num_milliseconds(self.secs, self.nanos, earlier.secs, earlier.nanos)
    }
}

/// The value of `x as u64` for a 64-bit signed `x`: negative values wrap around.
pub open spec fn wrap_to_u64(x: int) -> int {
    if x >= 0 {
        x
    } else {
        x + 0x1_0000_0000_0000_0000
    }
}

/// `x as u64`.
pub fn i64_as_u64(x: i64) -> (r: u64)
    ensures
        r == wrap_to_u64(x as int),
{
    if x >= 0 {
        x as u64
    } else {
        u64::MAX - ((-(x + 1)) as u64)
    }
}

/// The value of `x as i64` for an unsigned `x`: values above `i64::MAX` wrap around.
pub open spec fn wrap_to_i64(x: int) -> int {
    if x <= i64::MAX {
        x
    } else {
        x - 0x1_0000_0000_0000_0000
    }
}

/// `x as i64`.
pub fn u64_as_i64(x: u64) -> (r: i64)
    ensures
        r == wrap_to_i64(x as int),
{
    if x <= i64::MAX as u64 {
        x as i64
    } else {
        let y: u64 = u64::MAX - x;
        -(y as i64) - 1
    }
}

} // verus!
