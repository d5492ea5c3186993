//! Formatting a millisecond-of-day count as a fixed-width `HH:MM:SS.mmm`
//! timestamp, and the proof that formatting is invertible.

use vstd::prelude::*;
use vstd::string::StringExecFns;
use crate::digits::{digit_char, digit_val, dec_chars, lemma_digit_char_val};

verus! {

/// Milliseconds in one second.
pub const MILLIS_PER_SECOND: u64 = 1_000;

/// Milliseconds in one minute.
pub const MILLIS_PER_MINUTE: u64 = 60_000;

/// Milliseconds in one hour.
pub const MILLIS_PER_HOUR: u64 = 3_600_000;

/// Milliseconds in one day.
pub const MILLIS_PER_DAY: u64 = 86_400_000;

/// A millisecond count is representable when it is strictly positive and at
/// most one full day. The boundary instant of exactly one day is accepted
/// and wraps to midnight; zero is rejected.
pub open spec fn valid_millis(m: int) -> bool {
    1 <= m <= MILLIS_PER_DAY
}

/// Hour-of-day read from a millisecond count, after wrapping at one day.
pub open spec fn hours_of(m: int) -> int {
    (m % (MILLIS_PER_DAY as int)) / (MILLIS_PER_HOUR as int)
}

/// Minute-of-hour read from a millisecond count.
pub open spec fn minutes_of(m: int) -> int {
    (m % (MILLIS_PER_HOUR as int)) / (MILLIS_PER_MINUTE as int)
}

/// Second-of-minute read from a millisecond count.
pub open spec fn seconds_of(m: int) -> int {
    (m % (MILLIS_PER_MINUTE as int)) / (MILLIS_PER_SECOND as int)
}

/// Millisecond-of-second read from a millisecond count.
pub open spec fn subsec_of(m: int) -> int {
    m % (MILLIS_PER_SECOND as int)
}

/// Two digit characters, zero padded, for a value below one hundred.
pub open spec fn two_digit_chars(v: int) -> Seq<char> {
    seq![digit_char(v / 10), digit_char(v % 10)]
}

/// Three digit characters, zero padded, for a value below one thousand.
pub open spec fn three_digit_chars(v: int) -> Seq<char> {
    seq![digit_char(v / 100), digit_char((v / 10) % 10), digit_char(v % 10)]
}

/// The twelve characters `HH:MM:SS.mmm` that format the millisecond count `m`.
pub open spec fn timestamp_chars(m: int) -> Seq<char> {
    two_digit_chars(hours_of(m)) + seq![':'] + two_digit_chars(minutes_of(m)) + seq![':']
        + two_digit_chars(seconds_of(m)) + seq!['.'] + three_digit_chars(subsec_of(m))
}

/// Appends the two zero-padded digits of `v` to `out`.
fn push_two_digits(out: &mut String, v: u64)
    requires
        v < 100,
    ensures
        final(out)@ == old(out)@ + two_digit_chars(v as int),
{
    out.append(crate::digits::digit_str((v / 10) as u8));
    out.append(crate::digits::digit_str((v % 10) as u8));
    proof {
        assert(out@ =~= old(out)@ + two_digit_chars(v as int));
    }
}

/// Appends the three zero-padded digits of `v` to `out`.
fn push_three_digits(out: &mut String, v: u64)
    requires
        v < 1000,
    ensures
        final(out)@ == old(out)@ + three_digit_chars(v as int),
{
    out.append(crate::digits::digit_str((v / 100) as u8));
    out.append(crate::digits::digit_str(((v / 10) % 10) as u8));
    out.append(crate::digits::digit_str((v % 10) as u8));
    proof {
        assert(out@ =~= old(out)@ + three_digit_chars(v as int));
    }
}

/// Formats a millisecond-of-day count as `HH:MM:SS.mmm`.
///
/// Returns a string exactly when the count is strictly positive and at most
/// one full day; the count of exactly one day wraps to `00:00:00.000`.
/// Counts of zero or of more than one day yield no string.
pub fn millis_to_string(millis: u128) -> (r: Option<String>)
    ensures
        r is Some <==> valid_millis(millis as int),
        r is Some ==> r->0@ == timestamp_chars(millis as int),
{
    if millis < 1 || millis > MILLIS_PER_DAY as u128 {
        return None;
    }
    let m = millis as u64;
    let hours = m % MILLIS_PER_DAY / MILLIS_PER_HOUR;
    let minutes = m % MILLIS_PER_HOUR / MILLIS_PER_MINUTE;
    let seconds = m % MILLIS_PER_MINUTE / MILLIS_PER_SECOND;
    let subsec = m % MILLIS_PER_SECOND;
    let mut out = String::new();
    push_two_digits(&mut out, hours);
    out.append(":");
    push_two_digits(&mut out, minutes);
    out.append(":");
    push_two_digits(&mut out, seconds);
    out.append(".");
    push_three_digits(&mut out, subsec);
    proof {
        reveal_strlit(":");
        reveal_strlit(".");
        assert(":"@ =~= seq![':']);
        assert("."@ =~= seq!['.']);
        assert(out@ =~= timestamp_chars(millis as int));
    }
    Some(out)
}

/// Converts a number to its decimal digit string.
pub fn u64_to_string(n: u64) -> (r: String)
    ensures
        r@ == dec_chars(n as int),
    decreases n,
{
    if n < 10 {
        String::from_str(crate::digits::digit_str(n as u8))
    } else {
        let mut s = u64_to_string(n / 10);
        s.append(crate::digits::digit_str((n % 10) as u8));
        proof {
            assert(s@ =~= dec_chars(n as int));
        }
        s
    }
}

/// Reading a two-digit group of a formatted string back as a number.
pub open spec fn two_digit_val(s: Seq<char>, i: int) -> int {
    digit_val(s[i]) * 10 + digit_val(s[i + 1])
}

/// Reading the three-digit millisecond group back as a number.
pub open spec fn three_digit_val(s: Seq<char>, i: int) -> int {
    digit_val(s[i]) * 100 + digit_val(s[i + 1]) * 10 + digit_val(s[i + 2])
}

/// Round trip of the formatter: for every representable count below the
/// one-day boundary, re-deriving hours, minutes, seconds and milliseconds
/// from the formatted string reproduces the exact decomposition
/// `m == h * 3_600_000 + min * 60_000 + s * 1_000 + ms`.
///
/// The boundary count of exactly one day is excluded: it wraps to
/// `00:00:00.000`, whose decomposition reads back as zero.
pub proof fn lemma_timestamp_round_trip(m: int)
    requires
        1 <= m < MILLIS_PER_DAY,
    ensures
        timestamp_chars(m).len() == 12,
        m == two_digit_val(timestamp_chars(m), 0) * (MILLIS_PER_HOUR as int) + two_digit_val(
            timestamp_chars(m),
            3,
        ) * (MILLIS_PER_MINUTE as int) + two_digit_val(timestamp_chars(m), 6) * (
        MILLIS_PER_SECOND as int) + three_digit_val(timestamp_chars(m), 9),
{
    let s = timestamp_chars(m);
    let h = hours_of(m);
    let mi = minutes_of(m);
    let se = seconds_of(m);
    let ms = subsec_of(m);
    vstd::arithmetic::div_mod::lemma_small_mod(m as nat, MILLIS_PER_DAY as nat);
    assert(h == m / (MILLIS_PER_HOUR as int));
    assert(0 <= h <= 23);
    assert(0 <= mi <= 59);
    assert(0 <= se <= 59);
    assert(0 <= ms <= 999);
    assert(s[0] == digit_char(h / 10));
    assert(s[1] == digit_char(h % 10));
    assert(s[3] == digit_char(mi / 10));
    assert(s[4] == digit_char(mi % 10));
    assert(s[6] == digit_char(se / 10));
    assert(s[7] == digit_char(se % 10));
    assert(s[9] == digit_char(ms / 100));
    assert(s[10] == digit_char((ms / 10) % 10));
    assert(s[11] == digit_char(ms % 10));
    lemma_digit_char_val(h / 10);
    lemma_digit_char_val(h % 10);
    lemma_digit_char_val(mi / 10);
    lemma_digit_char_val(mi % 10);
    lemma_digit_char_val(se / 10);
    lemma_digit_char_val(se % 10);
    lemma_digit_char_val(ms / 100);
    lemma_digit_char_val((ms / 10) % 10);
    lemma_digit_char_val(ms % 10);
    assert(two_digit_val(s, 0) == h);
    assert(two_digit_val(s, 3) == mi);
    assert(two_digit_val(s, 6) == se);
    assert(three_digit_val(s, 9) == (ms / 100) * 100 + ((ms / 10) % 10) * 10 + ms % 10);
    assert((ms / 100) * 100 + ((ms / 10) % 10) * 10 + ms % 10 == ms) by {
        vstd::arithmetic::div_mod::lemma_mod_mod(ms, 10, 10);
        assert(ms / 100 == (ms / 10) / 10) by {
            vstd::arithmetic::div_mod::lemma_div_denominator(ms, 10, 10);
        }
    }
    assert((m % (MILLIS_PER_HOUR as int)) % (MILLIS_PER_MINUTE as int) == m % (
    MILLIS_PER_MINUTE as int)) by {
        vstd::arithmetic::div_mod::lemma_mod_mod(m, MILLIS_PER_MINUTE as int, 60);
    }
    assert((m % (MILLIS_PER_MINUTE as int)) % (MILLIS_PER_SECOND as int) == m % (
    MILLIS_PER_SECOND as int)) by {
        vstd::arithmetic::div_mod::lemma_mod_mod(m, MILLIS_PER_SECOND as int, 60);
    }
    assert(m == h * (MILLIS_PER_HOUR as int) + m % (MILLIS_PER_HOUR as int));
    assert(m % (MILLIS_PER_HOUR as int) == mi * (MILLIS_PER_MINUTE as int) + m % (
    MILLIS_PER_MINUTE as int));
    assert(m % (MILLIS_PER_MINUTE as int) == se * (MILLIS_PER_SECOND as int) + ms);
}

} // verus!
