//! Time handling: digit-precision detection, normalizing an instant to a
//! desired hour of day, and the nightly price computation.

use vstd::prelude::*;

use crate::structures::Error;
use crate::MILLIS_PER_DAY;
use crate::MILLIS_PER_HOUR;

verus! {

/// `10^k`, used to characterize how many decimal digits a number has.
pub open spec fn pow10(k: nat) -> int
    decreases k,
{
    if k == 0 {
        1
    } else {
        10 * pow10((k - 1) as nat)
    }
}

/// The number of decimal digits of `n` (1 for 0).
pub open spec fn spec_u64_len(n: u64) -> nat
    decreases n,
{
    if n < 10 {
        1
    } else {
        (1 + spec_u64_len(n / 10)) as nat
    }
}

/// A number below `10^k` has at most `k` digits.
proof fn lemma_u64_len_le(n: u64, k: nat)
    requires
        1 <= k,
        n < pow10(k),
    ensures
        spec_u64_len(n) <= k,
    decreases k,
{
    if n >= 10 {
        assert(pow10(k) == 10 * pow10((k - 1) as nat));
        lemma_u64_len_le(n / 10, (k - 1) as nat);
    }
}

/// The digit count brackets the number between two powers of ten.
proof fn lemma_u64_len_bounds(n: u64)
    ensures
        1 <= spec_u64_len(n) <= 20,
        n < pow10(spec_u64_len(n)),
        n > 0 ==> pow10((spec_u64_len(n) - 1) as nat) <= n,
    decreases n,
{
    assert(pow10(20) == 100_000_000_000_000_000_000) by {
        reveal_with_fuel(pow10, 21);
    }
    if n < 10 {
        assert(pow10(1) == 10) by {
            reveal_with_fuel(pow10, 2);
        }
    } else {
        lemma_u64_len_bounds(n / 10);
        let l = spec_u64_len(n / 10);
        assert(pow10(l + 1) == 10 * pow10(l));
        assert(n < 10 * pow10(l));
        assert(pow10((l - 1) as nat) <= n / 10);
        assert(pow10(l) == 10 * pow10((l - 1) as nat));
        assert(10 * (n / 10) <= n);
        lemma_u64_len_le(n, 20);
    }
}

/// Count the decimal digits of `n`.
pub fn u64_len(n: u64) -> (len: usize)
    ensures
        len == spec_u64_len(n),
{
    if n == 0 {
        return 1;
    }
    let mut m: u64 = n;
    let mut len: usize = 0;
    proof {
        lemma_u64_len_bounds(n);
    }
    while m > 0
        invariant
            len + (if m > 0 {
                spec_u64_len(m)
            } else {
                0
            }) == spec_u64_len(n),
            spec_u64_len(n) <= 20,
        decreases m,
    {
        len = len + 1;
        m = m / 10;
    }
    len
}

/// A moment is already a 64-bit count of milliseconds, so turning one into a
/// raw count always succeeds; the fallible shape is kept for callers that
/// treat the conversion as an operation that may refuse.
pub fn convert_moment_to_u64_in_milliseconds(date: u64) -> (r: Result<u64, Error>)
    ensures
        r == Ok::<u64, Error>(date),
{
    Ok(date)
}

/// What a raw moment means in milliseconds: a 10-digit value counts seconds,
/// a 13-digit value counts milliseconds, anything else is malformed.
pub open spec fn spec_to_millis(ts: u64) -> Result<u64, Error> {
    if spec_u64_len(ts) == 10 {
        Ok((ts * 1000) as u64)
    } else if spec_u64_len(ts) == 13 {
        Ok(ts)
    } else {
        Err(Error::BadTimestampPrecision)
    }
}

/// Every successful result of [`spec_to_millis`] is a 13-digit value.
pub proof fn lemma_to_millis_range(ts: u64)
    ensures
        spec_to_millis(ts) is Ok ==> 1_000_000_000_000 <= spec_to_millis(ts)->Ok_0
            < 10_000_000_000_000,
{
    lemma_u64_len_bounds(ts);
    assert(pow10(10) == 10_000_000_000 && pow10(9) == 1_000_000_000 && pow10(13)
        == 10_000_000_000_000 && pow10(12) == 1_000_000_000_000) by {
        reveal_with_fuel(pow10, 14);
    }
}

/// Normalize a raw moment to millisecond precision, rejecting any magnitude
/// that is neither second- nor millisecond-precision.
pub fn to_millis_precision(ts: u64) -> (r: Result<u64, Error>)
    ensures
        r == spec_to_millis(ts),
{
    proof {
        lemma_u64_len_bounds(ts);
        assert(pow10(10) == 10_000_000_000) by {
            reveal_with_fuel(pow10, 11);
        }
    }
    let len = u64_len(ts);
    if len == 10 {
        Ok(ts * 1000)
    } else if len == 13 {
        Ok(ts)
    } else {
        Err(Error::BadTimestampPrecision)
    }
}

/// The canonical instant produced by `modify_timestamp`: the start of the
/// instant's UTC day plus the desired whole hour.
pub open spec fn spec_modify_timestamp(ts: u64, desired_time: u32) -> Result<u64, Error> {
    if desired_time > 23 {
        Err(Error::DesiredTimeOutOfRange)
    } else {
        match spec_to_millis(ts) {
            Ok(ms) => Ok((ms - ms % MILLIS_PER_DAY + (desired_time as u64) * MILLIS_PER_HOUR) as u64),
            Err(e) => Err(e),
        }
    }
}

/// Relies on chrono: `DateTime::<Utc>::from_timestamp_millis`, then
/// `Timelike::with_hour`/`with_minute`/`with_second`/`with_nanosecond`, then
/// `timestamp_millis`. Rewriting the time of day keeps the UTC calendar day,
/// so the result is the day's start plus `hour` whole hours. UTC has no
/// daylight-saving transitions and the admitted inputs are far inside chrono's
/// representable range, so every step succeeds.
#[verifier::external_body]
fn set_hour_utc(ts_millis: u64, hour: u32) -> (r: u64)
    requires
        ts_millis < 10_000_000_000_000,
        hour <= 23,
    ensures
        r == ts_millis - ts_millis % MILLIS_PER_DAY + (hour as u64) * MILLIS_PER_HOUR,
{
    let dt = chrono::DateTime::<chrono::Utc>::from_timestamp_millis(ts_millis as i64).unwrap();
    let dt = chrono::Timelike::with_hour(&dt, hour).unwrap();
    let dt = chrono::Timelike::with_minute(&dt, 0).unwrap();
    let dt = chrono::Timelike::with_second(&dt, 0).unwrap();
    let dt = chrono::Timelike::with_nanosecond(&dt, 0).unwrap();
    dt.timestamp_millis() as u64
}

/// Rewrite a raw moment so that its time of day becomes `desired_time:00:00.000`,
/// keeping its UTC calendar day. Fails when the hour is outside `0..=23` or the
/// moment's precision is malformed.
pub fn modify_timestamp(timestamp: u64, desired_time: u32) -> (r: Result<u64, Error>)
    ensures
        r == spec_modify_timestamp(timestamp, desired_time),
{
    if desired_time > 23 {
        return Err(Error::DesiredTimeOutOfRange);
    }
    let ms = match to_millis_precision(timestamp) {
        Ok(ms) => ms,
        Err(e) => {
            return Err(e);
        },
    };
    proof {
        lemma_to_millis_range(timestamp);
    }
    Ok(set_hour_utc(ms, desired_time))
}

/// The nightly price of a stay: every started night is billed in full, so one
/// night is added to the whole days elapsed between the two instants.
pub open spec fn spec_total_amount(start_date: u64, end_date: u64, price_per_night: u64) -> Result<
    u64,
    Error,
> {
    if end_date < start_date {
        Err(Error::ArithmeticUnderflow)
    } else {
        let days = (end_date - start_date) / (MILLIS_PER_DAY as int);
        if (days + 1) * price_per_night > u64::MAX {
            Err(Error::ArithmeticOverflow)
        } else {
            Ok(((days + 1) * price_per_night) as u64)
        }
    }
}

/// Compute the total amount owed for a booking between two instants at the
/// given price per night, with checked arithmetic.
pub fn calculate_total_amount(start_date: u64, end_date: u64, price_per_night: u64) -> (r: Result<
    u64,
    Error,
>)
    ensures
        r == spec_total_amount(start_date, end_date, price_per_night),
{
    if end_date < start_date {
        return Err(Error::ArithmeticUnderflow);
    }
    let days_in_between = end_date - start_date;
    let days = days_in_between / MILLIS_PER_DAY;
    let total_days = days + 1;
    match total_days.checked_mul(price_per_night) {
        Some(total) => Ok(total),
        None => Err(Error::ArithmeticOverflow),
    }
}

} // verus!
