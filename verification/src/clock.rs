//! Times and durations, as the log lines show them.

use vstd::prelude::*;

#[allow(unused_imports)]
use crate::text::{digit, number_of};

verus! {

/// The number of seconds in a day.
pub const SECONDS_PER_DAY: i64 = 86_400;

/// `n`, for `n` below one hundred, as two digits.
pub open spec fn two_digits(n: nat) -> Seq<char> {
    seq![digit(n / 10), digit(n % 10)]
}

/// `HH:MM:SS` for the given second of a day.
pub open spec fn clock_text(second: nat) -> Seq<char> {
    two_digits(second / 3_600) + ":"@ + two_digits(second / 60 % 60) + ":"@ + two_digits(
        second % 60,
    )
}

/// The second of its day (UTC) in which a Unix timestamp falls.
pub open spec fn second_of_day(timestamp: int) -> nat {
    (timestamp % (SECONDS_PER_DAY as int)) as nat
}

/// `chrono::NaiveTime::format` with `%H:%M:%S` shows hours, minutes and seconds of a time of day,
/// each as two digits, with colons between them.
#[verifier::external_body]
fn format_clock(second: u32) -> (text: String)
    requires
        second < SECONDS_PER_DAY,
    ensures
        text@ == clock_text(second as nat),
{
    let time = chrono::NaiveTime::from_num_seconds_from_midnight_opt(second, 0).unwrap();
    time.format("%H:%M:%S").to_string()
}

/// The time of day (UTC) of a Unix timestamp, as `HH:MM:SS`.
pub fn time_of_day(timestamp: i64) -> (text: String)
    ensures
        text@ == clock_text(second_of_day(timestamp as int)),
{
    match timestamp.checked_rem_euclid(SECONDS_PER_DAY) {
        Some(second) => format_clock(second as u32),
        None => format_clock(0),
    }
}

/// What `std::time::Duration` shows of `nanos` nanoseconds when it is formatted with `{:.0?}`.
pub uninterp spec fn rounded_duration(nanos: u64) -> Seq<char>;

/// The `Debug` format of `std::time::Duration`, without decimals.
#[verifier::external_body]
pub(crate) fn format_duration(nanos: u64) -> (text: String)
    ensures
        text@ == rounded_duration(nanos),
{
    format!("{:.0?}", std::time::Duration::from_nanos(nanos))
}

/// A time of day is shown as three numbers of two digits with colons between them, which add up to
/// the second of the day.
pub proof fn times_add_up(second: nat)
    requires
        second < SECONDS_PER_DAY,
    ensures
        ({
            let text = clock_text(second);
            let hours = number_of(text.subrange(0, 2));
            let minutes = number_of(text.subrange(3, 5));
            let seconds = number_of(text.subrange(6, 8));
            &&& text.len() == 8
            &&& text[2] == ':'
            &&& text[5] == ':'
            &&& 0 <= hours < 24
            &&& 0 <= minutes < 60
            &&& 0 <= seconds < 60
            &&& second == 3_600 * hours + 60 * minutes + seconds
            &&& forall|i: int|
                0 <= i < 8 && i != 2 && i != 5 ==> '0' <= #[trigger] text[i] <= '9'
        }),
{
    reveal_strlit(":");
    let text = clock_text(second);
    assert(text.subrange(0, 2) =~= two_digits(second / 3_600));
    assert(text.subrange(3, 5) =~= two_digits(second / 60 % 60));
    assert(text.subrange(6, 8) =~= two_digits(second % 60));
    lemma_two_digits(second / 3_600);
    lemma_two_digits(second / 60 % 60);
    lemma_two_digits(second % 60);
}

/// Two digits stand for their number.
proof fn lemma_two_digits(n: nat)
    requires
        n < 100,
    ensures
        number_of(two_digits(n)) == n,
{
    reveal_with_fuel(number_of, 3);
    let text = two_digits(n);
    assert(text.drop_last() =~= seq![digit(n / 10)]);
    assert(text.drop_last().drop_last() =~= Seq::empty());
}

/// The second of the day is what is left of a timestamp once whole days are taken away.
pub proof fn whole_days_do_not_matter(timestamp: int, days: int)
    ensures
        0 <= second_of_day(timestamp) < 86_400,
        second_of_day(timestamp + 86_400 * days) == second_of_day(timestamp),
        0 <= timestamp < 86_400 ==> second_of_day(timestamp) == timestamp,
{
    vstd::arithmetic::div_mod::lemma_mod_multiples_vanish(days, timestamp, 86_400);
    assert(86_400 * days + timestamp == timestamp + 86_400 * days);
}

} // verus!
