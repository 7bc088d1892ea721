//! The current UTC time, written the way a timestamp column reads.
//!
//! Offering "now" for a timestamp column means producing a literal the engine
//! will accept, and `2026-09-14 18:04:22` is the one every engine accepts. UTC,
//! deliberately: the grid shows timestamps in UTC too, so a value typed by the
//! calendar button and a value read back from the server agree.
use crate::text::{decimal, digit, lemma_decimal_len, push_zero_padded, zero_padded};
use vstd::prelude::*;
use vstd::string::*;
use vstd::utf8::{encode_utf8, is_ascii_chars, is_ascii_chars_encode_utf8};

verus! {

pub const SECONDS_PER_DAY: i64 = 86_400;

/// A leap year of the proleptic Gregorian calendar.
pub open spec fn is_leap(year: int) -> bool {
    year % 4 == 0 && (year % 100 != 0 || year % 400 == 0)
}

pub open spec fn year_len(year: int) -> int {
    if is_leap(year) {
        366
    } else {
        365
    }
}

pub open spec fn month_len(year: int, month: int) -> int {
    if month == 2 {
        if is_leap(year) {
            29
        } else {
            28
        }
    } else if month == 4 || month == 6 || month == 9 || month == 11 {
        30
    } else {
        31
    }
}

/// A day that the calendar has.
pub open spec fn valid_date(year: int, month: int, day: int) -> bool {
    1 <= month <= 12 && 1 <= day <= month_len(year, month)
}

/// Days from the first of January of the year 1 to the first of January of
/// `year`: every year has 365, and each leap year in between one more.
pub open spec fn days_before_year(year: int) -> int {
    365 * (year - 1) + (year - 1) / 4 - (year - 1) / 100 + (year - 1) / 400
}

/// Days from the first of January to the first of `month`.
pub open spec fn days_before_month(year: int, month: int) -> int
    decreases month,
{
    if month <= 1 {
        0
    } else {
        days_before_month(year, month - 1) + month_len(year, month - 1)
    }
}

/// Days from 1970-01-01 to the given date, negative before it.
pub open spec fn day_number(year: int, month: int, day: int) -> int {
    days_before_year(year) + days_before_month(year, month) + (day - 1) - days_before_year(1970)
}

/// The date that lies `days` days after 1970-01-01.
pub open spec fn civil_date(days: int) -> (int, int, int) {
    choose|date: (int, int, int)| #[trigger]
        valid_date(date.0, date.1, date.2) && day_number(date.0, date.1, date.2) == days
}

/// A year as `{:04}` writes it: four digits at least, the sign counted.
pub open spec fn year_text(year: int) -> Seq<char> {
    if year >= 0 {
        zero_padded(year as nat, 4)
    } else {
        seq!['-'] + zero_padded((-year) as nat, 3)
    }
}

/// `YYYY-MM-DD`.
pub open spec fn date_text(date: (int, int, int)) -> Seq<char> {
    year_text(date.0) + seq!['-'] + zero_padded(date.1 as nat, 2) + seq!['-'] + zero_padded(
        date.2 as nat,
        2,
    )
}

/// `HH:MM:SS` for a second of the day.
pub open spec fn time_text(second: int) -> Seq<char> {
    zero_padded((second / 3600) as nat, 2) + seq![':'] + zero_padded(
        ((second % 3600) / 60) as nat,
        2,
    ) + seq![':'] + zero_padded((second % 60) as nat, 2)
}

/// The literal for a Unix timestamp: the date alone, or the date and the time.
pub open spec fn utc_text(seconds: int, date_only: bool) -> Seq<char> {
    let date = date_text(civil_date(seconds / 86_400));
    if date_only {
        date
    } else {
        date + seq![' '] + time_text(seconds % 86_400)
    }
}

/// Each year begins where the one before it ended.
pub proof fn years_follow_each_other(year: int)
    ensures
        days_before_year(year + 1) == days_before_year(year) + year_len(year),
{
}

proof fn lemma_days_before_month(year: int)
    ensures
        days_before_month(year, 1) == 0,
        days_before_month(year, 2) == 31,
        days_before_month(year, 3) == 31 + month_len(year, 2),
        days_before_month(year, 4) == 62 + month_len(year, 2),
        days_before_month(year, 5) == 92 + month_len(year, 2),
        days_before_month(year, 6) == 123 + month_len(year, 2),
        days_before_month(year, 7) == 153 + month_len(year, 2),
        days_before_month(year, 8) == 184 + month_len(year, 2),
        days_before_month(year, 9) == 215 + month_len(year, 2),
        days_before_month(year, 10) == 245 + month_len(year, 2),
        days_before_month(year, 11) == 276 + month_len(year, 2),
        days_before_month(year, 12) == 306 + month_len(year, 2),
        days_before_month(year, 13) == year_len(year),
{
    reveal_with_fuel(days_before_month, 13);
}

/// The months of a year add up to the year.
pub proof fn months_fill_the_year(year: int)
    ensures
        days_before_month(year, 13) == year_len(year),
{
    lemma_days_before_month(year);
}

proof fn lemma_years_ordered(a: int, b: int)
    requires
        a < b,
    ensures
        days_before_year(a) + year_len(a) <= days_before_year(b),
    decreases b - a,
{
    years_follow_each_other(b - 1);
    if a < b - 1 {
        lemma_years_ordered(a, b - 1);
    }
}

proof fn lemma_day_in_year(year: int, month: int, day: int)
    requires
        valid_date(year, month, day),
    ensures
        0 <= days_before_month(year, month) + day - 1 < year_len(year),
{
    lemma_days_before_month(year);
}

/// No two dates are the same number of days from the epoch.
pub proof fn dates_are_distinct(a: (int, int, int), b: (int, int, int))
    requires
        valid_date(a.0, a.1, a.2),
        valid_date(b.0, b.1, b.2),
        day_number(a.0, a.1, a.2) == day_number(b.0, b.1, b.2),
    ensures
        a == b,
{
    lemma_day_in_year(a.0, a.1, a.2);
    lemma_day_in_year(b.0, b.1, b.2);
    if a.0 < b.0 {
        lemma_years_ordered(a.0, b.0);
    }
    if b.0 < a.0 {
        lemma_years_ordered(b.0, a.0);
    }
    lemma_days_before_month(a.0);
}

/// A valid date with the right distance from the epoch is the date of that day.
pub proof fn civil_date_is(days: int, year: int, month: int, day: int)
    requires
        valid_date(year, month, day),
        day_number(year, month, day) == days,
    ensures
        civil_date(days) == (year, month, day),
{
    let found = civil_date(days);
    let given = (year, month, day);
    assert(valid_date(given.0, given.1, given.2));
    dates_are_distinct(found, given);
}

/// The first of March of a year, counted from the epoch.
proof fn lemma_march(era: int, year_of_era: int)
    requires
        0 <= year_of_era <= 399,
    ensures
        ({
            let year = year_of_era + era * 400;
            day_number(year, 3, 1) == era * 146_097 + 365 * year_of_era + year_of_era / 4
                - year_of_era / 100 - 719_468
        }),
{
    let year = year_of_era + era * 400;
    lemma_days_before_month(year);
    assert(year / 4 == year_of_era / 4 + era * 100);
    assert(year / 100 == year_of_era / 100 + era * 4);
    assert(year / 400 == era);
    years_follow_each_other(year);
    assert(days_before_year(year + 1) == 365 * year + year / 4 - year / 100 + year / 400);
}

/// The civil date of day `day_of_year` of the year that began in March of `year`.
proof fn lemma_march_year(year: int, day_of_year: int)
    requires
        0 <= day_of_year <= 365,
        day_of_year == 365 ==> is_leap(year + 1),
    ensures
        ({
            let month_prime = (5 * day_of_year + 2) / 153;
            let day = day_of_year - (153 * month_prime + 2) / 5 + 1;
            let month = if month_prime < 10 {
                month_prime + 3
            } else {
                month_prime - 9
            };
            let civil_year = if month <= 2 {
                year + 1
            } else {
                year
            };
            &&& 0 <= month_prime <= 11
            &&& valid_date(civil_year, month, day)
            &&& day_number(civil_year, month, day) == day_number(year, 3, 1) + day_of_year
        }),
{
    lemma_days_before_month(year);
    lemma_days_before_month(year + 1);
    years_follow_each_other(year);
}

/// The same within a century of the era: `shift` is how far the days of the four
/// years lag behind the century's own.
proof fn lemma_year_of_century(day: int, shift: int)
    requires
        0 <= day <= 36_523,
        0 <= shift <= 72,
    ensures
        ({
            let year = (day - (day + shift) / 1460) / 365;
            let rest = day - (365 * year + year / 4);
            &&& 0 <= year <= 99
            &&& 0 <= rest <= 365
            &&& rest == 365 ==> (year + 1) % 4 == 0 && year != 99
        }),
{
    let quads = (day + shift) / 1460;
    let year = (day - quads) / 365;
    assert(0 <= quads <= 25);
    assert(1460 * quads <= day + shift < 1460 * quads + 1460);
    assert(365 * year <= day - quads < 365 * year + 365);
}

/// The year that the days of an era lead to is the century's first year plus the
/// year within the century.
proof fn lemma_year_from_century(century: int, day: int)
    requires
        0 <= century <= 3,
        0 <= day <= 36_523,
    ensures
        ({
            let all = 36_524 * century + day;
            &&& all / 1460 == 25 * century + (day + 24 * century) / 1460
            &&& all / 36_524 == century
            &&& (all - all / 1460 + century) / 365 == 100 * century + (day - (day + 24 * century)
                / 1460) / 365
        }),
{
}

proof fn lemma_hundreds(century: int, within: int)
    requires
        0 <= within <= 99,
    ensures
        (100 * century + within) / 4 == 25 * century + within / 4,
        (100 * century + within) / 100 == century,
        (within + 1) % 4 == 0 && within != 99 ==> is_leap(100 * century + within + 1),
{
}

proof fn lemma_march_year_of(day_of_era: int)
    requires
        0 <= day_of_era <= 146_096,
    ensures
        ({
            let year = (day_of_era - day_of_era / 1460 + day_of_era / 36_524 - day_of_era / 146_096)
                / 365;
            let day = day_of_era - (365 * year + year / 4 - year / 100);
            &&& 0 <= year <= 399
            &&& 0 <= day <= 365
            &&& day == 365 ==> is_leap(year + 1)
        }),
{
    if day_of_era < 146_096 {
        let century = day_of_era / 36_524;
        let day = day_of_era % 36_524;
        let within = (day - (day + 24 * century) / 1460) / 365;
        lemma_year_of_century(day, 24 * century);
        lemma_year_from_century(century, day);
        lemma_hundreds(century, within);
    }
}

/// Where a day of a 400-year era falls, in years that begin in March: the year
/// of the era, and the day of that year.
fn march_year_of(day_of_era: i64) -> (place: (i64, i64))
    requires
        0 <= day_of_era <= 146_096,
    ensures
        0 <= place.0 <= 399,
        0 <= place.1 <= 365,
        place.1 == 365 ==> is_leap(place.0 + 1),
        day_of_era == 365 * place.0 + place.0 as int / 4 - place.0 as int / 100 + place.1,
{
    proof {
        lemma_march_year_of(day_of_era as int);
    }
    let year: i64 = (day_of_era - day_of_era / 1460 + day_of_era / 36_524 - day_of_era / 146_096)
        / 365;
    let day: i64 = day_of_era - (365 * year + year / 4 - year / 100);
    (year, day)
}

proof fn lemma_leap_period(era: int, year: int)
    ensures
        is_leap(year + era * 400) == is_leap(year),
{
}

/// The civil date of day `day_of_year` of the year that began in March of `year`.
fn march_date(year: i64, day_of_year: i64) -> (date: (i64, u32, u32))
    requires
        0 <= day_of_year <= 365,
        day_of_year == 365 ==> is_leap(year + 1),
        year < i64::MAX,
    ensures
        valid_date(date.0 as int, date.1 as int, date.2 as int),
        day_number(date.0 as int, date.1 as int, date.2 as int) == day_number(year as int, 3, 1)
            + day_of_year,
{
    proof {
        lemma_march_year(year as int, day_of_year as int);
    }
    let month_prime: i64 = (5 * day_of_year + 2) / 153;
    let day: u32 = (day_of_year - (153 * month_prime + 2) / 5 + 1) as u32;
    let month: u32 = if month_prime < 10 {
        (month_prime + 3) as u32
    } else {
        (month_prime - 9) as u32
    };
    let civil_year: i64 = if month <= 2 {
        year + 1
    } else {
        year
    };
    (civil_year, month, day)
}

/// Days since 1970-01-01 to a civil `(year, month, day)`.
///
/// The shifted era starts the year in March, which is what makes the leap day
/// the last day of the year instead of a special case in the middle of it.
pub fn civil_from_days(days: i64) -> (date: (i64, u32, u32))
    requires
        days <= i64::MAX - 719_468,
    ensures
        valid_date(date.0 as int, date.1 as int, date.2 as int),
        day_number(date.0 as int, date.1 as int, date.2 as int) == days,
        civil_date(days as int) == (date.0 as int, date.1 as int, date.2 as int),
{
    // Re-base onto 0000-03-01, the start of an era.
    let z: i64 = days + 719_468;
    let era: i64 = z.checked_div_euclid(146_097).unwrap();
    let day_of_era: i64 = z.checked_rem_euclid(146_097).unwrap();
    let (year_of_era, day_of_year) = march_year_of(day_of_era);
    let year: i64 = year_of_era + era * 400;
    proof {
        lemma_march(era as int, year_of_era as int);
        lemma_leap_period(era as int, year_of_era + 1);
    }
    let date = march_date(year, day_of_year);
    proof {
        civil_date_is(days as int, date.0 as int, date.1 as int, date.2 as int);
    }
    date
}

/// The date after the given one.
pub open spec fn next_date(date: (int, int, int)) -> (int, int, int) {
    if date.2 < month_len(date.0, date.1) {
        (date.0, date.1, date.2 + 1)
    } else if date.1 < 12 {
        (date.0, date.1 + 1, 1)
    } else {
        (date.0 + 1, 1, 1)
    }
}

/// One day later is the next date of the calendar.
pub proof fn days_follow_the_calendar(days: int, year: int, month: int, day: int)
    requires
        valid_date(year, month, day),
        day_number(year, month, day) == days,
    ensures
        civil_date(days) == (year, month, day),
        civil_date(days + 1) == next_date((year, month, day)),
{
    civil_date_is(days, year, month, day);
    lemma_days_before_month(year);
    lemma_days_before_month(year + 1);
    years_follow_each_other(year);
    let next = next_date((year, month, day));
    civil_date_is(days + 1, next.0, next.1, next.2);
}

fn push_year(out: &mut String, year: i64)
    requires
        year > i64::MIN,
    ensures
        final(out)@ == old(out)@ + year_text(year as int),
{
    if year >= 0 {
        push_zero_padded(out, year as u64, 4);
    } else {
        out.push('-');
        push_zero_padded(out, (-year) as u64, 3);
    }
    assert(out@ == old(out)@ + year_text(year as int));
}

/// A year within the range of a timestamp lies no further than its days.
proof fn lemma_year_bounds(year: int, month: int, day: int)
    requires
        valid_date(year, month, day),
        -200_000_000_000_000 <= day_number(year, month, day) <= 200_000_000_000_000,
    ensures
        -200_000_000_000_000 <= year <= 200_000_000_000_000,
{
    lemma_day_in_year(year, month, day);
}

/// Format a Unix timestamp in seconds as a UTC literal.
pub fn format_utc(seconds: i64, date_only: bool) -> (text: String)
    ensures
        text@ == utc_text(seconds as int, date_only),
{
    // The Euclidean quotient: for a timestamp before the epoch, division that
    // rounds towards zero would put the day one too late.
    let days: i64 = seconds.checked_div_euclid(SECONDS_PER_DAY).unwrap();
    let (year, month, day) = civil_from_days(days);
    proof {
        lemma_year_bounds(year as int, month as int, day as int);
    }
    let mut text: String = String::new();
    push_year(&mut text, year);
    text.push('-');
    push_zero_padded(&mut text, month as u64, 2);
    text.push('-');
    push_zero_padded(&mut text, day as u64, 2);
    assert(text@ == date_text(civil_date(seconds as int / 86_400)));
    if date_only {
        return text;
    }
    let rest: i64 = seconds.checked_rem_euclid(SECONDS_PER_DAY).unwrap();
    text.push(' ');
    push_zero_padded(&mut text, (rest / 3600) as u64, 2);
    text.push(':');
    push_zero_padded(&mut text, ((rest % 3600) / 60) as u64, 2);
    text.push(':');
    push_zero_padded(&mut text, (rest % 60) as u64, 2);
    assert(text@ == utc_text(seconds as int, date_only));
    text
}

/// Every day has its date.
pub proof fn every_day_has_its_date(days: int)
    ensures
        ({
            let date = civil_date(days);
            valid_date(date.0, date.1, date.2) && day_number(date.0, date.1, date.2) == days
        }),
{
    let z = days + 719_468;
    let era = z / 146_097;
    let day_of_era = z % 146_097;
    lemma_march_year_of(day_of_era);
    let year_of_era = (day_of_era - day_of_era / 1460 + day_of_era / 36_524 - day_of_era / 146_096)
        / 365;
    let day_of_year = day_of_era - (365 * year_of_era + year_of_era / 4 - year_of_era / 100);
    let year = year_of_era + era * 400;
    lemma_march(era, year_of_era);
    lemma_leap_period(era, year_of_era + 1);
    lemma_march_year(year, day_of_year);
    let month_prime = (5 * day_of_year + 2) / 153;
    let day = day_of_year - (153 * month_prime + 2) / 5 + 1;
    let month = if month_prime < 10 {
        month_prime + 3
    } else {
        month_prime - 9
    };
    let civil_year = if month <= 2 {
        year + 1
    } else {
        year
    };
    civil_date_is(days, civil_year, month, day);
}

/// One date lies before another: by its year, then its month, then its day.
pub open spec fn earlier(a: (int, int, int), b: (int, int, int)) -> bool {
    a.0 < b.0 || (a.0 == b.0 && (a.1 < b.1 || (a.1 == b.1 && a.2 < b.2)))
}

/// Dates follow each other as their days do.
pub proof fn dates_are_in_order(a: int, b: int)
    requires
        a < b,
    ensures
        earlier(civil_date(a), civil_date(b)),
{
    every_day_has_its_date(a);
    every_day_has_its_date(b);
    let first = civil_date(a);
    let second = civil_date(b);
    lemma_day_in_year(first.0, first.1, first.2);
    lemma_day_in_year(second.0, second.1, second.2);
    if second.0 < first.0 {
        lemma_years_ordered(second.0, first.0);
    }
    lemma_days_before_month(first.0);
}

/// The first second of the year 0000.
pub const FIRST_STAMP: i64 = -62_167_219_200;

/// The last second of the year 9999.
pub const LAST_STAMP: i64 = 253_402_300_799;

/// A moment of the years that four digits can write.
pub open spec fn four_digit_year(seconds: int) -> bool {
    FIRST_STAMP <= seconds <= LAST_STAMP
}

proof fn lemma_four_digits(seconds: int)
    requires
        four_digit_year(seconds),
    ensures
        ({
            let date = civil_date(seconds / 86_400);
            valid_date(date.0, date.1, date.2) && 0 <= date.0 <= 9999
        }),
{
    let days = seconds / 86_400;
    let date = civil_date(days);
    every_day_has_its_date(days);
    lemma_day_in_year(date.0, date.1, date.2);
    if date.0 < 0 {
        lemma_years_ordered(date.0, 0);
    }
    if date.0 > 9999 {
        lemma_years_ordered(9999, date.0);
    }
}

/// Within the years that four digits can write, a date takes ten characters and
/// a timestamp nineteen, and the date is the timestamp's beginning.
pub proof fn timestamps_have_one_shape(seconds: int)
    requires
        four_digit_year(seconds),
    ensures
        utc_text(seconds, true).len() == 10,
        utc_text(seconds, false).len() == 19,
        utc_text(seconds, false).take(10) == utc_text(seconds, true),
        utc_text(seconds, false)[10] == ' ',
{
    lemma_four_digits(seconds);
    let date = civil_date(seconds / 86_400);
    let second = seconds % 86_400;
    lemma_decimal_len(date.0 as nat);
    lemma_decimal_len(date.1 as nat);
    lemma_decimal_len(date.2 as nat);
    lemma_decimal_len((second / 3600) as nat);
    lemma_decimal_len(((second % 3600) / 60) as nat);
    lemma_decimal_len((second % 60) as nat);
    assert(utc_text(seconds, false).take(10) == utc_text(seconds, true));
}

/// The texts agree up to `at`, where the first goes on with a smaller character
/// than the second, or ends.
pub open spec fn parts_at(a: Seq<char>, b: Seq<char>, at: int) -> bool {
    &&& 0 <= at <= a.len()
    &&& at < b.len()
    &&& a.take(at) == b.take(at)
    &&& at == a.len() || (a[at] as u32) < (b[at] as u32)
}

/// One text sorts before another.
pub open spec fn precedes(a: Seq<char>, b: Seq<char>) -> bool {
    exists|at: int| parts_at(a, b, at)
}

/// The same of the bytes that the texts are written in, as sorting compares them.
pub open spec fn bytes_part_at(a: Seq<u8>, b: Seq<u8>, at: int) -> bool {
    &&& 0 <= at <= a.len()
    &&& at < b.len()
    &&& a.take(at) == b.take(at)
    &&& at == a.len() || a[at] < b[at]
}

pub open spec fn bytes_precede(a: Seq<u8>, b: Seq<u8>) -> bool {
    exists|at: int| bytes_part_at(a, b, at)
}

/// Texts of one length that are in order stay so whatever follows them.
proof fn lemma_heads_decide(a: Seq<char>, b: Seq<char>, x: Seq<char>, y: Seq<char>)
    requires
        a.len() == b.len(),
        precedes(a, b),
    ensures
        precedes(a + x, b + y),
{
    let at = choose|at: int| parts_at(a, b, at);
    assert((a + x).take(at) == a.take(at));
    assert((b + y).take(at) == b.take(at));
    assert(parts_at(a + x, b + y, at));
}

/// Behind one beginning, what follows decides.
proof fn lemma_tails_decide(head: Seq<char>, a: Seq<char>, b: Seq<char>)
    requires
        precedes(a, b),
    ensures
        precedes(head + a, head + b),
{
    let at = choose|at: int| parts_at(a, b, at);
    let n = head.len() as int;
    assert((head + a).take(n + at) == head + a.take(at));
    assert((head + b).take(n + at) == head + b.take(at));
    assert(parts_at(head + a, head + b, n + at));
}

proof fn lemma_two_digits(n: nat)
    requires
        n < 100,
    ensures
        zero_padded(n, 2) == seq![digit(n / 10), digit(n % 10)],
{
    reveal_with_fuel(decimal, 2);
}

proof fn lemma_year_digits(n: nat)
    requires
        n < 10_000,
    ensures
        zero_padded(n, 4) == seq![
            digit(n / 1000),
            digit(n / 100 % 10),
            digit(n / 10 % 10),
            digit(n % 10),
        ],
{
    reveal_with_fuel(decimal, 4);
    lemma_decimal_len(n);
    assert(n / 10 / 10 == n / 100);
    assert(n / 10 / 10 / 10 == n / 1000);
}

/// A year is written as its century and its year within it.
proof fn lemma_year_halves(n: nat)
    requires
        n < 10_000,
    ensures
        zero_padded(n, 4) == zero_padded(n / 100, 2) + zero_padded(n % 100, 2),
        zero_padded(n, 4).len() == 4,
{
    lemma_year_digits(n);
    lemma_two_digits(n / 100);
    lemma_two_digits(n % 100);
    assert(n / 1000 == n / 100 / 10);
    assert(n % 100 / 10 == n / 10 % 10);
    assert(n % 100 % 10 == n % 10);
    assert(zero_padded(n, 4) == zero_padded(n / 100, 2) + zero_padded(n % 100, 2));
}

proof fn lemma_fields_sort(a: nat, b: nat)
    requires
        a < b < 100,
    ensures
        precedes(zero_padded(a, 2), zero_padded(b, 2)),
        zero_padded(a, 2).len() == 2,
        zero_padded(b, 2).len() == 2,
{
    lemma_two_digits(a);
    lemma_two_digits(b);
    let x = zero_padded(a, 2);
    let y = zero_padded(b, 2);
    let at = if a / 10 < b / 10 {
        0int
    } else {
        1
    };
    assert(x.take(at) == y.take(at));
    assert(parts_at(x, y, at));
}

proof fn lemma_years_sort(a: nat, b: nat)
    requires
        a < b < 10_000,
    ensures
        precedes(zero_padded(a, 4), zero_padded(b, 4)),
        zero_padded(a, 4).len() == 4,
        zero_padded(b, 4).len() == 4,
{
    lemma_year_halves(a);
    lemma_year_halves(b);
    let late = zero_padded(a % 100, 2);
    let later = zero_padded(b % 100, 2);
    if a / 100 < b / 100 {
        lemma_fields_sort(a / 100, b / 100);
        lemma_heads_decide(zero_padded(a / 100, 2), zero_padded(b / 100, 2), late, later);
    } else {
        lemma_fields_sort(a % 100, b % 100);
        lemma_tails_decide(zero_padded(a / 100, 2), late, later);
    }
}

proof fn lemma_dates_sort(a: (int, int, int), b: (int, int, int))
    requires
        valid_date(a.0, a.1, a.2),
        valid_date(b.0, b.1, b.2),
        0 <= a.0 <= 9999,
        0 <= b.0 <= 9999,
        earlier(a, b),
    ensures
        precedes(date_text(a), date_text(b)),
{
    let dash = seq!['-'];
    let month = zero_padded(a.1 as nat, 2);
    let other = zero_padded(b.1 as nat, 2);
    let day = zero_padded(a.2 as nat, 2);
    let late = zero_padded(b.2 as nat, 2);
    let year = year_text(a.0);
    let next = year_text(b.0);
    lemma_decimal_len(a.1 as nat);
    lemma_decimal_len(b.1 as nat);
    if a.0 < b.0 {
        lemma_years_sort(a.0 as nat, b.0 as nat);
        lemma_heads_decide(year, next, dash, dash);
        lemma_heads_decide(year + dash, next + dash, month, other);
        lemma_heads_decide(year + dash + month, next + dash + other, dash, dash);
        lemma_heads_decide(year + dash + month + dash, next + dash + other + dash, day, late);
    } else if a.1 < b.1 {
        lemma_fields_sort(a.1 as nat, b.1 as nat);
        lemma_tails_decide(year + dash, month, other);
        lemma_heads_decide(year + dash + month, year + dash + other, dash, dash);
        lemma_heads_decide(year + dash + month + dash, year + dash + other + dash, day, late);
    } else {
        lemma_fields_sort(a.2 as nat, b.2 as nat);
        lemma_tails_decide(year + dash + month + dash, day, late);
    }
}

proof fn lemma_times_sort(a: int, b: int)
    requires
        0 <= a < b < 86_400,
    ensures
        precedes(time_text(a), time_text(b)),
{
    let colon = seq![':'];
    let hour = (a / 3600) as nat;
    let later = (b / 3600) as nat;
    let minute = ((a % 3600) / 60) as nat;
    let next = ((b % 3600) / 60) as nat;
    let second = (a % 60) as nat;
    let last = (b % 60) as nat;
    let h = zero_padded(hour, 2);
    let i = zero_padded(later, 2);
    let m = zero_padded(minute, 2);
    let n = zero_padded(next, 2);
    let s = zero_padded(second, 2);
    let t = zero_padded(last, 2);
    lemma_two_digits(minute);
    lemma_two_digits(next);
    assert(a % 60 == (a % 3600) % 60);
    assert(b % 60 == (b % 3600) % 60);
    if hour < later {
        lemma_fields_sort(hour, later);
        lemma_heads_decide(h, i, colon, colon);
        lemma_heads_decide(h + colon, i + colon, m, n);
        lemma_heads_decide(h + colon + m, i + colon + n, colon, colon);
        lemma_heads_decide(h + colon + m + colon, i + colon + n + colon, s, t);
    } else if minute < next {
        lemma_fields_sort(minute, next);
        lemma_tails_decide(h + colon, m, n);
        lemma_heads_decide(h + colon + m, h + colon + n, colon, colon);
        lemma_heads_decide(h + colon + m + colon, h + colon + n + colon, s, t);
    } else {
        lemma_fields_sort(second, last);
        lemma_tails_decide(h + colon + m + colon, s, t);
    }
}

proof fn lemma_padded_is_plain(n: nat, width: nat)
    requires
        n < 10_000,
    ensures
        is_ascii_chars(zero_padded(n, width)),
{
    reveal_with_fuel(decimal, 4);
    assert(n / 10 / 10 == n / 100);
    assert(n / 10 / 10 / 10 == n / 1000);
    assert forall|i: int| 0 <= i < decimal(n).len() implies 0 <= (#[trigger] decimal(n)[i]) as u32
        <= 57 by {}
}

/// A timestamp is written in digits and marks of one byte each.
proof fn lemma_stamp_is_plain(seconds: int, date_only: bool)
    requires
        four_digit_year(seconds),
    ensures
        is_ascii_chars(utc_text(seconds, date_only)),
{
    lemma_four_digits(seconds);
    let date = civil_date(seconds / 86_400);
    let second = seconds % 86_400;
    lemma_padded_is_plain(date.0 as nat, 4);
    lemma_padded_is_plain(date.1 as nat, 2);
    lemma_padded_is_plain(date.2 as nat, 2);
    lemma_padded_is_plain((second / 3600) as nat, 2);
    lemma_padded_is_plain(((second % 3600) / 60) as nat, 2);
    lemma_padded_is_plain((second % 60) as nat, 2);
}

proof fn lemma_bytes_sort(a: Seq<char>, b: Seq<char>)
    requires
        is_ascii_chars(a),
        is_ascii_chars(b),
        precedes(a, b),
    ensures
        bytes_precede(encode_utf8(a), encode_utf8(b)),
{
    is_ascii_chars_encode_utf8(a);
    is_ascii_chars_encode_utf8(b);
    let at = choose|at: int| parts_at(a, b, at);
    let x = encode_utf8(a);
    let y = encode_utf8(b);
    assert forall|i: int| 0 <= i < at implies x.take(at)[i] == y.take(at)[i] by {
        assert(a.take(at)[i] == b.take(at)[i]);
    }
    assert(x.take(at) == y.take(at));
    assert(bytes_part_at(x, y, at));
}

/// Within the years that four digits can write, timestamps sort as their seconds
/// do, and their dates never against them; so no two moments share a timestamp.
pub proof fn timestamps_sort_in_time(a: int, b: int)
    requires
        four_digit_year(a),
        four_digit_year(b),
        a < b,
    ensures
        precedes(utc_text(a, false), utc_text(b, false)),
        precedes(utc_text(a, true), utc_text(b, true)) || utc_text(a, true) == utc_text(b, true),
        bytes_precede(encode_utf8(utc_text(a, false)), encode_utf8(utc_text(b, false))),
        bytes_precede(encode_utf8(utc_text(a, true)), encode_utf8(utc_text(b, true))) || utc_text(
            a,
            true,
        ) == utc_text(b, true),
        utc_text(a, false) != utc_text(b, false),
{
    timestamps_have_one_shape(a);
    timestamps_have_one_shape(b);
    lemma_four_digits(a);
    lemma_four_digits(b);
    let space = seq![' '];
    let first = civil_date(a / 86_400);
    let second = civil_date(b / 86_400);
    if a / 86_400 < b / 86_400 {
        dates_are_in_order(a / 86_400, b / 86_400);
        lemma_dates_sort(first, second);
        lemma_heads_decide(date_text(first), date_text(second), space, space);
        lemma_heads_decide(
            date_text(first) + space,
            date_text(second) + space,
            time_text(a % 86_400),
            time_text(b % 86_400),
        );
    } else {
        lemma_times_sort(a % 86_400, b % 86_400);
        lemma_tails_decide(
            date_text(first) + space,
            time_text(a % 86_400),
            time_text(b % 86_400),
        );
    }
    lemma_stamp_is_plain(a, false);
    lemma_stamp_is_plain(b, false);
    lemma_stamp_is_plain(a, true);
    lemma_stamp_is_plain(b, true);
    lemma_bytes_sort(utc_text(a, false), utc_text(b, false));
    if a / 86_400 < b / 86_400 {
        lemma_bytes_sort(utc_text(a, true), utc_text(b, true));
    }
    let at = choose|at: int| parts_at(utc_text(a, false), utc_text(b, false), at);
    assert(utc_text(a, false).len() == utc_text(b, false).len());
}

/// The system clock's type.
#[verifier::external_type_specification]
#[verifier::external_body]
pub struct ExSystemTime(std::time::SystemTime);

/// `SystemTime::now`: the clock's reading, of which nothing is claimed.
#[verifier::external_body]
fn system_now() -> std::time::SystemTime {
    std::time::SystemTime::now()
}

/// `SystemTime::duration_since` the Unix epoch; `None` where the reading lies
/// before the epoch. A reading is opaque, so nothing more is claimed.
#[verifier::external_body]
fn since_epoch(reading: std::time::SystemTime) -> Option<std::time::Duration> {
    reading.duration_since(std::time::UNIX_EPOCH).ok()
}

/// `Duration::as_secs`: its whole seconds. A duration is opaque, so nothing more
/// is claimed.
#[verifier::external_body]
fn whole_seconds(since: std::time::Duration) -> u64 {
    since.as_secs()
}

/// The Unix timestamp that a clock reading stands for. A clock set before 1970
/// is not worth a failure path: the epoch is a legal timestamp.
pub open spec fn reading_seconds(reading: Option<u64>) -> int {
    match reading {
        Some(seconds) => seconds as i64 as int,
        None => 0,
    }
}

/// The literal for a clock reading.
pub fn reading_utc(reading: Option<u64>, date_only: bool) -> (text: String)
    ensures
        text@ == utc_text(reading_seconds(reading), date_only),
{
    let seconds: i64 = match reading {
        Some(seconds) => seconds as i64,
        None => 0,
    };
    format_utc(seconds, date_only)
}

/// `YYYY-MM-DD HH:MM:SS`, or just `YYYY-MM-DD` when `date_only`.
pub fn now_utc(date_only: bool) -> (text: String)
    ensures
        exists|reading: Option<u64>|
            text@ == #[trigger] utc_text(reading_seconds(reading), date_only),
{
    let reading = match since_epoch(system_now()) {
        Some(since) => Some(whole_seconds(since)),
        None => None,
    };
    reading_utc(reading, date_only)
}

/// The days are counted from the first of January 1970: the days of that month are
/// its first.
pub proof fn the_days_are_counted_from_1970(day: int)
    requires
        1 <= day <= 31,
    ensures
        civil_date(day - 1) == (1970int, 1int, day),
{
    lemma_days_before_month(1970);
    civil_date_is(day - 1, 1970, 1, day);
}

/// A year is a leap year when four divides it, unless a hundred does and four
/// hundred does not.
pub proof fn leap_years_come_every_four_years(year: int)
    ensures
        year % 400 == 0 ==> is_leap(year),
        year % 100 == 0 && year % 400 != 0 ==> !is_leap(year),
        year % 4 == 0 && year % 100 != 0 ==> is_leap(year),
        year % 4 != 0 ==> !is_leap(year),
        year_len(year) == (if is_leap(year) {
            366int
        } else {
            365
        }),
{
}

/// The months have the lengths they have.
pub proof fn the_months_have_their_lengths(year: int)
    ensures
        forall|month: int|
            month == 1 || month == 3 || month == 5 || month == 7 || month == 8 || month == 10
                || month == 12 ==> #[trigger] month_len(year, month) == 31,
        forall|month: int|
            month == 4 || month == 6 || month == 9 || month == 11 ==> #[trigger] month_len(
                year,
                month,
            ) == 30,
        month_len(year, 2) == (if is_leap(year) {
            29int
        } else {
            28
        }),
{
}

/// A time of day is written as its hour, its minute and its second.
pub proof fn a_time_is_written_by_hour_minute_and_second(hour: int, minute: int, second: int)
    requires
        0 <= hour < 24,
        0 <= minute < 60,
        0 <= second < 60,
    ensures
        time_text(hour * 3600 + minute * 60 + second) == zero_padded(hour as nat, 2) + seq![':']
            + zero_padded(minute as nat, 2) + seq![':'] + zero_padded(second as nat, 2),
{
    let all = hour * 3600 + minute * 60 + second;
    assert(all / 3600 == hour);
    assert(all % 3600 == minute * 60 + second);
    assert((all % 3600) / 60 == minute);
    assert(all % 60 == second);
}

/// A moment is written as the date of its day, and behind it the time of that day.
pub proof fn a_moment_is_written_by_day_and_time(days: int, second: int)
    requires
        0 <= second < 86_400,
    ensures
        utc_text(days * 86_400 + second, true) == date_text(civil_date(days)),
        utc_text(days * 86_400 + second, false) == date_text(civil_date(days)) + seq![' ']
            + time_text(second),
{
    let all = days * 86_400 + second;
    assert(all / 86_400 == days);
    assert(all % 86_400 == second);
}

/// A date is written as its year, its month and its day.
pub proof fn a_date_is_written_by_year_month_and_day(year: int, month: int, day: int)
    requires
        0 <= year <= 9999,
        valid_date(year, month, day),
    ensures
        date_text((year, month, day)) == zero_padded(year as nat, 4) + seq!['-'] + zero_padded(
            month as nat,
            2,
        ) + seq!['-'] + zero_padded(day as nat, 2),
{
}

/// A clock that cannot be read is at the start of the count, and any other where it
/// reads.
pub proof fn a_clock_is_where_it_reads(seconds: u64)
    ensures
        reading_seconds(None) == 0,
        seconds <= i64::MAX ==> reading_seconds(Some(seconds)) == seconds,
{
}

} // verus!
