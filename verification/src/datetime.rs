//! Points in time as dates and times of day of the Gregorian calendar, in UTC.
use crate::order::{equal_fronts_leave_the_rest, text_less};
use crate::text::{
    decimal, decimal_value, digit, push_padded, zero_padded, zeros_in_front_keep_the_value,
};
use vstd::prelude::*;

verus! {

/// A date of the Gregorian calendar with a time of day.
pub struct DateTime {
    pub year: i32,
    pub month: u32,
    pub day: u32,
    pub hour: u32,
    pub minute: u32,
    pub second: u32,
}

/// Whether the date, with its year in full, is `days` days after 1 January 1970.
pub open spec fn falls_on(days: int, year: int, month: int, day: int) -> bool {
    is_date(year, month, day) && days_since_epoch(year, month, day) == days
}

/// Whether the date, with its year cut to 32 bits, is `days` days after 1 January 1970.
pub open spec fn is_civil(days: int, year: i32, month: u32, day: u32) -> bool {
    exists|full_year: int| #[trigger]
        falls_on(days, full_year, month as int, day as int) && year == full_year as i32
}

/// Whether `moment` is the date and time of day `seconds` seconds after the start of 1970.
///
/// The year is cut to 32 bits.
pub open spec fn is_utc(seconds: int, moment: DateTime) -> bool {
    &&& is_civil(seconds / 86_400, moment.year, moment.month, moment.day)
    &&& moment.hour == seconds % 86_400 / 3600
    &&& moment.minute == seconds % 3600 / 60
    &&& moment.second == seconds % 60
}

/// A signed number in decimal, with zeros up to `width` characters, the sign among them.
pub open spec fn signed_padded(n: int, width: nat) -> Seq<char> {
    if n < 0 {
        seq!['-'] + zero_padded(
            decimal((-n) as nat),
            (width - 1) as nat,
        )
    } else {
        zero_padded(decimal(n as nat), width)
    }
}

/// `n` in decimal with at least two digits.
pub open spec fn two_digits(n: int) -> Seq<char> {
    zero_padded(decimal(n as nat), 2)
}

/// A moment written as in `2024-01-31 08:05:00`.
pub open spec fn date_text(moment: DateTime) -> Seq<char> {
    signed_padded(moment.year as int, 4) + seq!['-'] + two_digits(moment.month as int) + seq!['-']
        + two_digits(moment.day as int) + seq![' '] + two_digits(moment.hour as int) + seq![':']
        + two_digits(moment.minute as int) + seq![':'] + two_digits(moment.second as int)
}

impl DateTime {
    /// The moment written as in `2024-01-31 08:05:00`.
    pub fn format(&self) -> (text: String)
        ensures
            text@ == date_text(*self),
    {
        let mut text = String::new();
        if self.year < 0 {
            text.push('-');
            push_padded(&mut text, (-(self.year as i64)) as u128, 3);
        } else {
            push_padded(&mut text, self.year as u128, 4);
        }
        assert(text@ == signed_padded(self.year as int, 4));
        text.push('-');
        push_padded(&mut text, self.month as u128, 2);
        text.push('-');
        push_padded(&mut text, self.day as u128, 2);
        text.push(' ');
        push_padded(&mut text, self.hour as u128, 2);
        text.push(':');
        push_padded(&mut text, self.minute as u128, 2);
        text.push(':');
        push_padded(&mut text, self.second as u128, 2);
        assert(text@ == date_text(*self));
        text
    }
}

/// The date and time of day `seconds` seconds after the start of 1970.
pub fn from_unix_seconds(seconds: i64) -> (moment: DateTime)
    ensures
        is_utc(seconds as int, moment),
{
    let days: i64 = if seconds >= 0 {
        seconds / 86_400
    } else {
        -1 - (-1 - seconds) / 86_400
    };
    let seconds_of_day: i64 = if seconds >= 0 {
        seconds % 86_400
    } else {
        86_399 - (-1 - seconds) % 86_400
    };
    proof {
        lemma_day_and_time(seconds as int, days as int, seconds_of_day as int);
    }
    let (year, month, day) = civil_from_days(days);
    DateTime {
        year,
        month,
        day,
        hour: (seconds_of_day / 3600) as u32,
        minute: ((seconds_of_day % 3600) / 60) as u32,
        second: (seconds_of_day % 60) as u32,
    }
}

/// A number of seconds, taken apart into whole days and the rest.
#[verifier::spinoff_prover]
proof fn lemma_day_and_time(seconds: int, days: int, rest: int)
    requires
        seconds >= 0 ==> days == seconds / 86_400 && rest == seconds % 86_400,
        seconds < 0 ==> days == -1 - (-1 - seconds) / 86_400 && rest == 86_399 - (-1 - seconds)
            % 86_400,
    ensures
        days == seconds / 86_400,
        rest == seconds % 86_400,
        rest % 3600 == seconds % 3600,
        rest % 60 == seconds % 60,
        0 <= rest < 86_400,
{
    assert(seconds == 86_400 * days + rest && 0 <= rest < 86_400);
    assert(seconds == 3600 * (24 * days + rest / 3600) + rest % 3600);
    assert(seconds == 60 * (1440 * days + rest / 60) + rest % 60);
}

/// A second has one date and one time of day.
pub proof fn moments_are_unique(seconds: int, left: DateTime, right: DateTime)
    requires
        is_utc(seconds, left),
        is_utc(seconds, right),
    ensures
        left == right,
{
    let days = seconds / 86_400;
    let y1 = choose|full_year: int| #[trigger]
        falls_on(days, full_year, left.month as int, left.day as int) && left.year
            == full_year as i32;
    let y2 = choose|full_year: int| #[trigger]
        falls_on(days, full_year, right.month as int, right.day as int) && right.year
            == full_year as i32;
    dates_are_distinct(
        y1,
        left.month as int,
        left.day as int,
        y2,
        right.month as int,
        right.day as int,
    );
}

/// Whether a moment can be written in 19 characters: its year has at most four digits, and every
/// other field at most two.
pub open spec fn is_short(moment: DateTime) -> bool {
    &&& 0 <= moment.year <= 9999
    &&& moment.month <= 99
    &&& moment.day <= 99
    &&& moment.hour <= 99
    &&& moment.minute <= 99
    &&& moment.second <= 99
}

/// Whether the fields of `a`, taken from the year to the second, come before those of `b`.
pub open spec fn is_earlier(a: DateTime, b: DateTime) -> bool {
    if a.year != b.year {
        a.year < b.year
    } else if a.month != b.month {
        a.month < b.month
    } else if a.day != b.day {
        a.day < b.day
    } else if a.hour != b.hour {
        a.hour < b.hour
    } else if a.minute != b.minute {
        a.minute < b.minute
    } else {
        a.second < b.second
    }
}

/// Two numbers below 100 in two digits.
proof fn lemma_two_digits(m: int, n: int)
    requires
        0 <= m <= 99,
        0 <= n <= 99,
    ensures
        two_digits(m).len() == 2,
        two_digits(n).len() == 2,
        two_digits(m) == two_digits(n) <==> m == n,
        text_less(two_digits(m), two_digits(n)) <==> m < n,
{
    reveal_with_fuel(decimal, 3);
    assert(two_digits(m) =~= seq![digit((m / 10) as nat), digit((m % 10) as nat)]);
    assert(two_digits(n) =~= seq![digit((n / 10) as nat), digit((n % 10) as nat)]);
    lemma_digits(digit((m / 10) as nat), digit((m % 10) as nat), digit((n / 10) as nat), digit(
        (n % 10) as nat,
    ));
    lemma_digit(m / 10, n / 10);
    lemma_digit(m % 10, n % 10);
}

/// Digits are ordered as their values are.
proof fn lemma_digit(m: int, n: int)
    requires
        0 <= m <= 9,
        0 <= n <= 9,
    ensures
        digit(m as nat) < digit(n as nat) <==> m < n,
        digit(m as nat) == digit(n as nat) <==> m == n,
{
}

/// Texts of two characters, compared.
proof fn lemma_digits(a0: char, a1: char, b0: char, b1: char)
    ensures
        text_less(seq![a0, a1], seq![b0, b1]) <==> a0 < b0 || (a0 == b0 && a1 < b1),
        seq![a0, a1] == seq![b0, b1] <==> a0 == b0 && a1 == b1,
{
    let a = seq![a0, a1];
    let b = seq![b0, b1];
    assert(a[0] == a0 && a[1] == a1 && b[0] == b0 && b[1] == b1);
    assert(a.skip(1)[0] == a1 && b.skip(1)[0] == b1);
    assert(a.skip(1).skip(1).len() == 0 && b.skip(1).skip(1).len() == 0);
    reveal_with_fuel(text_less, 3);
}

/// A year of at most four digits, as two halves of two digits.
proof fn lemma_year_digits(year: int)
    requires
        0 <= year <= 9999,
    ensures
        signed_padded(year, 4) == two_digits(year / 100) + two_digits(year % 100),
{
    reveal_with_fuel(decimal, 5);
    let text = seq![
        digit((year / 1000) as nat),
        digit((year / 100 % 10) as nat),
        digit((year / 10 % 10) as nat),
        digit((year % 10) as nat),
    ];
    assert(year / 100 / 10 == year / 1000);
    assert(year / 10 / 10 == year / 100);
    assert(year % 100 / 10 == year / 10 % 10);
    assert(year % 100 % 10 == year % 10);
    assert(signed_padded(year, 4) =~= text);
    assert(two_digits(year / 100) + two_digits(year % 100) =~= text);
}

/// A date and time as its first part, of a known length, with one more field behind it.
proof fn lemma_next_field(
    front_a: Seq<char>,
    front_b: Seq<char>,
    separator: char,
    m: int,
    n: int,
)
    requires
        front_a.len() == front_b.len(),
        0 <= m <= 99,
        0 <= n <= 99,
    ensures
        ({
            let a = front_a + seq![separator] + two_digits(m);
            let b = front_b + seq![separator] + two_digits(n);
            &&& a.len() == front_a.len() + 3
            &&& b.len() == front_b.len() + 3
            &&& text_less(a, b) <==> text_less(front_a, front_b) || (front_a == front_b && m < n)
            &&& a == b <==> front_a == front_b && m == n
        }),
{
    let head_a = front_a + seq![separator];
    let head_b = front_b + seq![separator];
    let a = head_a + two_digits(m);
    let b = head_b + two_digits(n);
    lemma_two_digits(m, n);
    equal_fronts_leave_the_rest(head_a, two_digits(m), head_b, two_digits(n));
    equal_fronts_leave_the_rest(front_a, seq![separator], front_b, seq![separator]);
    assert(!text_less(seq![separator], seq![separator])) by {
        reveal_with_fuel(text_less, 3);
    }
    assert(head_a.take(front_a.len() as int) == front_a);
    assert(head_b.take(front_b.len() as int) == front_b);
    assert(a.take(head_a.len() as int) == head_a);
    assert(b.take(head_b.len() as int) == head_b);
    assert(a.skip(head_a.len() as int) == two_digits(m));
    assert(b.skip(head_b.len() as int) == two_digits(n));
}

/// Moments with years of at most four digits are written in 19 characters, different ones
/// differently, and their texts are ordered as they are.
pub proof fn date_texts_are_ordered(a: DateTime, b: DateTime)
    requires
        is_short(a),
        is_short(b),
    ensures
        date_text(a).len() == 19,
        text_less(date_text(a), date_text(b)) <==> is_earlier(a, b),
        date_text(a) == date_text(b) ==> a == b,
{
    let ya = signed_padded(a.year as int, 4);
    let yb = signed_padded(b.year as int, 4);
    lemma_year_digits(a.year as int);
    lemma_year_digits(b.year as int);
    let (ha, la) = (two_digits(a.year as int / 100), two_digits(a.year as int % 100));
    let (hb, lb) = (two_digits(b.year as int / 100), two_digits(b.year as int % 100));
    lemma_two_digits(a.year as int / 100, b.year as int / 100);
    lemma_two_digits(a.year as int % 100, b.year as int % 100);
    equal_fronts_leave_the_rest(ha, la, hb, lb);
    assert(ya.take(2) == ha && ya.skip(2) == la && yb.take(2) == hb && yb.skip(2) == lb);
    assert(text_less(ya, yb) <==> a.year < b.year);
    assert(ya == yb <==> a.year == b.year);
    let a1 = ya + seq!['-'] + two_digits(a.month as int);
    let b1 = yb + seq!['-'] + two_digits(b.month as int);
    lemma_next_field(ya, yb, '-', a.month as int, b.month as int);
    let a2 = a1 + seq!['-'] + two_digits(a.day as int);
    let b2 = b1 + seq!['-'] + two_digits(b.day as int);
    lemma_next_field(a1, b1, '-', a.day as int, b.day as int);
    let a3 = a2 + seq![' '] + two_digits(a.hour as int);
    let b3 = b2 + seq![' '] + two_digits(b.hour as int);
    lemma_next_field(a2, b2, ' ', a.hour as int, b.hour as int);
    let a4 = a3 + seq![':'] + two_digits(a.minute as int);
    let b4 = b3 + seq![':'] + two_digits(b.minute as int);
    lemma_next_field(a3, b3, ':', a.minute as int, b.minute as int);
    lemma_next_field(a4, b4, ':', a.second as int, b.second as int);
    assert(date_text(a) == a4 + seq![':'] + two_digits(a.second as int));
    assert(date_text(b) == b4 + seq![':'] + two_digits(b.second as int));
}

/// Of two seconds up to the end of the year 9999, the one that comes first has the earlier date
/// and time of day, and the text of the earlier comes first.
pub proof fn later_seconds_have_later_texts(s: int, t: int, a: DateTime, b: DateTime)
    requires
        0 <= s < 253_402_300_800,
        0 <= t < 253_402_300_800,
        is_utc(s, a),
        is_utc(t, b),
    ensures
        is_short(a),
        is_short(b),
        s < t <==> is_earlier(a, b),
        s < t <==> text_less(date_text(a), date_text(b)),
{
    lemma_short_moment(s, a);
    lemma_short_moment(t, b);
    lemma_earlier_moment(s, t, a, b);
    lemma_earlier_moment(t, s, b, a);
    if s == t {
        moments_are_unique(s, a, b);
    }
    date_texts_are_ordered(a, b);
}

/// A second up to the end of the year 9999 has a year of at most four digits, which is not cut.
proof fn lemma_short_moment(s: int, a: DateTime)
    requires
        0 <= s < 253_402_300_800,
        is_utc(s, a),
    ensures
        is_short(a),
        falls_on(s / 86_400, a.year as int, a.month as int, a.day as int),
{
    let days = s / 86_400;
    let year = choose|full_year: int| #[trigger]
        falls_on(days, full_year, a.month as int, a.day as int) && a.year == full_year as i32;
    lemma_date_in_year(year, a.month as int, a.day as int);
    if year < 1970 {
        lemma_years_in_order(year + 1, 1970);
    }
    if year > 9999 {
        lemma_years_in_order(10_000, year);
    }
}

/// A second before another has the earlier moment.
proof fn lemma_earlier_moment(s: int, t: int, a: DateTime, b: DateTime)
    requires
        0 <= s,
        0 <= t,
        is_utc(s, a),
        is_utc(t, b),
        falls_on(s / 86_400, a.year as int, a.month as int, a.day as int),
        falls_on(t / 86_400, b.year as int, b.month as int, b.day as int),
    ensures
        s < t ==> is_earlier(a, b),
        is_earlier(a, b) ==> !is_earlier(b, a),
{
    if s < t {
        lemma_dates_in_order(
            a.year as int,
            a.month as int,
            a.day as int,
            b.year as int,
            b.month as int,
            b.day as int,
        );
        if s / 86_400 == t / 86_400 {
            lemma_time_of_day(s, t);
        }
    }
}

/// A date that is not after another is the same or comes first.
proof fn lemma_dates_in_order(y1: int, m1: int, d1: int, y2: int, m2: int, d2: int)
    requires
        is_date(y1, m1, d1),
        is_date(y2, m2, d2),
        days_since_epoch(y1, m1, d1) <= days_since_epoch(y2, m2, d2),
    ensures
        y1 < y2 || (y1 == y2 && (m1 < m2 || (m1 == m2 && d1 <= d2))),
        y1 == y2 && m1 == m2 && d1 == d2 ==> days_since_epoch(y1, m1, d1) == days_since_epoch(
            y2,
            m2,
            d2,
        ),
        days_since_epoch(y1, m1, d1) < days_since_epoch(y2, m2, d2) ==> !(y1 == y2 && m1 == m2 && d1
            == d2),
{
    reveal(days_since_epoch);
    lemma_date_in_year(y1, m1, d1);
    lemma_date_in_year(y2, m2, d2);
    if y2 < y1 {
        lemma_years_in_order(y2 + 1, y1);
    }
    lemma_days_before_month(y1);
}

/// Of two seconds of one day, the first has the earlier time of day.
proof fn lemma_time_of_day(s: int, t: int)
    requires
        0 <= s < t,
        s / 86_400 == t / 86_400,
    ensures
        ({
            let (h1, h2) = (s % 86_400 / 3600, t % 86_400 / 3600);
            let (m1, m2) = (s % 3600 / 60, t % 3600 / 60);
            h1 < h2 || (h1 == h2 && (m1 < m2 || (m1 == m2 && s % 60 < t % 60)))
        }),
{
    let (d, e) = (s % 86_400, t % 86_400);
    lemma_day_and_time(s, s / 86_400, d);
    lemma_day_and_time(t, t / 86_400, e);
    assert(d < e);
    lemma_seconds_of_hour(d);
    lemma_seconds_of_hour(e);
}

/// The seconds of a day as hours, minutes and seconds.
proof fn lemma_seconds_of_hour(d: int)
    requires
        0 <= d < 86_400,
    ensures
        d == 3600 * (d / 3600) + 60 * (d % 3600 / 60) + d % 60,
        0 <= d % 3600 / 60 < 60,
        0 <= d % 60 < 60,
{
    let r = d % 3600;
    assert(d == 3600 * (d / 3600) + r);
    assert(r == 60 * (r / 60) + r % 60);
    assert(d == 60 * (60 * (d / 3600) + r / 60) + r % 60);
    assert(d % 60 == r % 60);
}

/// Whether `text` shows the moment `millis` milliseconds after the start of 1970.
///
/// A time that is zero or does not fit 64 bits is shown as a dash.
pub open spec fn shows_time(text: Seq<char>, millis: int) -> bool {
    if millis == 0 || millis > u64::MAX {
        text == "-"@
    } else {
        exists|moment: DateTime| #[trigger]
            is_utc(millis / 1000, moment) && text == date_text(moment)
    }
}

/// The moment `value` milliseconds after the start of 1970, as text.
pub fn format_time(value: u128) -> (text: String)
    ensures
        shows_time(text@, value as int),
{
    if value == 0 || value > u64::MAX as u128 {
        return "-".to_string();
    }
    let moment = from_unix_seconds((value / 1000) as i64);
    moment.format()
}

/// Whether the year has a 29th of February.
pub open spec fn is_leap(year: int) -> bool {
    year % 4 == 0 && (year % 100 != 0 || year % 400 == 0)
}

/// The number of days of a month.
pub open spec fn days_in_month(year: int, month: int) -> int {
    if month == 2 {
        if is_leap(year) {
            29
        } else {
            28
        }
    } else if month == 4 || month == 6 || month == 9 || month == 11 {
        30
    } else {
        31
    }
}

/// The number of days from 1 January of the year 0 to 1 January of `year`.
pub open spec fn days_before_year(year: int) -> int {
    365 * year + (year + 3) / 4 - (year + 99) / 100 + (year + 399) / 400
}

/// The number of days of `year` before the first of `month`.
pub open spec fn days_before_month(year: int, month: int) -> int
    decreases month,
{
    if month <= 1 {
        0
    } else {
        days_before_month(year, month - 1) + days_in_month(year, month - 1)
    }
}

/// Whether the calendar has such a date.
pub open spec fn is_date(year: int, month: int, day: int) -> bool {
    1 <= month <= 12 && 1 <= day <= days_in_month(year, month)
}

/// The number of days from 1 January 1970 to the date.
#[verifier::opaque]
pub open spec fn days_since_epoch(year: int, month: int, day: int) -> int {
    days_before_year(year) + days_before_month(year, month) + day - 1 - 719_528
}

proof fn lemma_days_before_month(year: int)
    ensures
        days_before_month(year, 1) == 0,
        days_before_month(year, 2) == 31,
        days_before_month(year, 3) == 59 + if is_leap(year) { 1int } else { 0 },
        days_before_month(year, 4) == days_before_month(year, 3) + 31,
        days_before_month(year, 5) == days_before_month(year, 3) + 61,
        days_before_month(year, 6) == days_before_month(year, 3) + 92,
        days_before_month(year, 7) == days_before_month(year, 3) + 122,
        days_before_month(year, 8) == days_before_month(year, 3) + 153,
        days_before_month(year, 9) == days_before_month(year, 3) + 184,
        days_before_month(year, 10) == days_before_month(year, 3) + 214,
        days_before_month(year, 11) == days_before_month(year, 3) + 245,
        days_before_month(year, 12) == days_before_month(year, 3) + 275,
{
    reveal_with_fuel(days_before_month, 13);
}

/// A year is as long as its months together.
proof fn lemma_year_length(year: int)
    ensures
        days_before_year(year + 1) == days_before_year(year) + 365 + if is_leap(year) {
            1int
        } else {
            0
        },
{
    lemma_next_january(year);
    assert((year + 3) / 4 == year / 4 + if year % 4 == 0 { 0int } else { 1 });
    assert((year + 99) / 100 == year / 100 + if year % 100 == 0 { 0int } else { 1 });
    assert((year + 399) / 400 == year / 400 + if year % 400 == 0 { 0int } else { 1 });
    assert(year % 400 == 0 ==> year % 100 == 0);
    assert(year % 100 == 0 ==> year % 4 == 0);
}

proof fn lemma_years_in_order(earlier: int, later: int)
    requires
        earlier <= later,
    ensures
        days_before_year(earlier) <= days_before_year(later),
    decreases later - earlier,
{
    if earlier < later {
        lemma_years_in_order(earlier, later - 1);
        lemma_year_length(later - 1);
    }
}

/// A date falls into its own year.
proof fn lemma_date_in_year(year: int, month: int, day: int)
    requires
        is_date(year, month, day),
    ensures
        days_before_year(year) - 719_528 <= days_since_epoch(year, month, day)
            < days_before_year(year + 1) - 719_528,
{
    reveal(days_since_epoch);
    lemma_days_before_month(year);
    lemma_year_length(year);
}

/// No two dates of the calendar are the same number of days away from 1 January 1970.
pub proof fn dates_are_distinct(y1: int, m1: int, d1: int, y2: int, m2: int, d2: int)
    requires
        is_date(y1, m1, d1),
        is_date(y2, m2, d2),
        days_since_epoch(y1, m1, d1) == days_since_epoch(y2, m2, d2),
    ensures
        y1 == y2 && m1 == m2 && d1 == d2,
{
    reveal(days_since_epoch);
    lemma_date_in_year(y1, m1, d1);
    lemma_date_in_year(y2, m2, d2);
    if y1 < y2 {
        lemma_years_in_order(y1 + 1, y2);
    }
    if y2 < y1 {
        lemma_years_in_order(y2 + 1, y1);
    }
    lemma_days_before_month(y1);
}

/// The date that is `days` days after 1 January 1970.
///
/// The year is cut to 32 bits.
pub fn civil_from_days(days: i64) -> (date: (i32, u32, u32))
    requires
        days <= i64::MAX - 719_468,
    ensures
        is_civil(days as int, date.0, date.1, date.2),
{
    let shifted: i64 = days + 719_468;
    let era: i64 = if shifted >= 0 {
        shifted / 146_097
    } else {
        -1 - (-1 - shifted) / 146_097
    };
    proof {
        lemma_floor(shifted as int, 146_097, era as int);
    }
    let doe: i64 = shifted - era * 146_097;
    assert(0 <= doe < 146_097);
    let yoe: i64 = (doe - doe / 1460 + doe / 36_524 - doe / 146_096) / 365;
    proof {
        lemma_year_of_era(doe as int);
    }
    let march_year: i64 = yoe + era * 400;
    let doy: i64 = doe - (365 * yoe + yoe / 4 - yoe / 100);
    let mp: i64 = (5 * doy + 2) / 153;
    let day: i64 = doy - (153 * mp + 2) / 5 + 1;
    let month: i64 = if mp < 10 {
        mp + 3
    } else {
        mp - 9
    };
    let year: i64 = if month <= 2 {
        march_year + 1
    } else {
        march_year
    };
    proof {
        lemma_march_date(era as int, yoe as int, doy as int);
        assert(falls_on(days as int, year as int, month as int, day as int));
    }
    (year as i32, month as u32, day as u32)
}

/// Division that rounds toward negative infinity, as it is computed for either sign.
proof fn lemma_floor(n: int, d: int, q: int)
    requires
        d > 0,
        n >= 0 ==> q == n / d,
        n < 0 ==> q == -1 - (-1 - n) / d,
    ensures
        q * d <= n < q * d + d,
        d >= 2 ==> (n >= 0 ==> q <= n) && (n < 0 ==> q >= n),
{
    if n >= 0 {
        vstd::arithmetic::div_mod::lemma_fundamental_div_mod(n, d);
        vstd::arithmetic::mul::lemma_mul_is_commutative(n / d, d);
        assert(q <= n) by (nonlinear_arith)
            requires
                q * d <= n,
                d > 0,
                n >= 0,
        ;
    } else {
        let m = -1 - n;
        vstd::arithmetic::div_mod::lemma_fundamental_div_mod(m, d);
        assert(q * d <= n < q * d + d) by (nonlinear_arith)
            requires
                m == d * (m / d) + m % d,
                0 <= m % d < d,
                q == -1 - m / d,
                m == -1 - n,
        ;
        assert(q >= n) by (nonlinear_arith)
            requires
                n < q * d + d,
                d > 0,
                n < 0,
        ;
    }
}

/// The day `doe` of a 400-year era that starts on 1 March falls into the year
/// `(doe - doe / 1460 + doe / 36524 - doe / 146096) / 365` of it.
#[verifier::spinoff_prover]
#[verifier::rlimit(80)]
proof fn lemma_year_of_era(doe: int)
    requires
        0 <= doe < 146_097,
    ensures
        ({
            let yoe = (doe - doe / 1460 + doe / 36_524 - doe / 146_096) / 365;
            let doy = doe - (365 * yoe + yoe / 4 - yoe / 100);
            &&& 0 <= yoe <= 399
            &&& 0 <= doy <= 365
            &&& doy == 365 ==> yoe % 4 == 3 && (yoe % 100 != 99 || yoe == 399)
        }),
{
}

/// The day `doy` of the year that starts on 1 March of `400 * era + yoe`, as a date.
proof fn lemma_march_date(era: int, yoe: int, doy: int)
    requires
        0 <= yoe <= 399,
        0 <= doy <= 365,
        doy == 365 ==> yoe % 4 == 3 && (yoe % 100 != 99 || yoe == 399),
    ensures
        ({
            let mp = (5 * doy + 2) / 153;
            let day = doy - (153 * mp + 2) / 5 + 1;
            let month = if mp < 10 { mp + 3 } else { mp - 9 };
            let year = if month <= 2 { yoe + era * 400 + 1 } else { yoe + era * 400 };
            &&& is_date(year, month, day)
            &&& days_since_epoch(year, month, day) == era * 146_097 + 365 * yoe + yoe / 4 - yoe
                / 100 + doy - 719_468
        }),
{
    let start = yoe + era * 400;
    let mp = (5 * doy + 2) / 153;
    assert(start / 4 == yoe / 4 + 100 * era && start / 100 == yoe / 100 + 4 * era && start / 400
        == era);
    assert(doy == 365 ==> is_leap(start + 1));
    lemma_march_month(doy);
    if mp < 10 {
        lemma_march_to_december(start, doy);
    } else {
        lemma_january_and_february(start, doy);
    }
}

proof fn lemma_march_to_december(start: int, doy: int)
    requires
        0 <= doy <= 365,
        (5 * doy + 2) / 153 < 10,
    ensures
        ({
            let mp = (5 * doy + 2) / 153;
            let day = doy - (153 * mp + 2) / 5 + 1;
            &&& is_date(start, mp + 3, day)
            &&& days_since_epoch(start, mp + 3, day) == 365 * start + start / 4 - start / 100
                + start / 400 + doy - 719_468
        }),
{
    reveal(days_since_epoch);
    let mp = (5 * doy + 2) / 153;
    lemma_first_of_march(start);
    lemma_march_month(doy);
    assert(days_before_month(start, mp + 3) == days_before_month(start, 3) + (153 * mp + 2) / 5)
        by {
        lemma_days_before_month(start);
    }
}

proof fn lemma_january_and_february(start: int, doy: int)
    requires
        0 <= doy <= 365,
        (5 * doy + 2) / 153 >= 10,
        doy == 365 ==> is_leap(start + 1),
    ensures
        ({
            let mp = (5 * doy + 2) / 153;
            let day = doy - (153 * mp + 2) / 5 + 1;
            &&& is_date(start + 1, mp - 9, day)
            &&& days_since_epoch(start + 1, mp - 9, day) == 365 * start + start / 4 - start / 100
                + start / 400 + doy - 719_468
        }),
{
    reveal(days_since_epoch);
    let mp = (5 * doy + 2) / 153;
    lemma_march_month(doy);
    lemma_next_january(start);
    if mp == 10 {
        assert(days_before_month(start + 1, 1) == 0);
    } else {
        assert(mp == 11);
        reveal_with_fuel(days_before_month, 2);
        assert(days_before_month(start + 1, 2) == 31);
    }
}

/// The first of January after `year`, counted from 1 January of the year 0.
proof fn lemma_next_january(year: int)
    ensures
        days_before_year(year + 1) == 365 * year + year / 4 - year / 100 + year / 400 + 366,
{
    assert((year + 1 + 3) / 4 == year / 4 + 1);
    assert((year + 1 + 99) / 100 == year / 100 + 1);
    assert((year + 1 + 399) / 400 == year / 400 + 1);
}

/// The first of March of `year`, counted from 1 January of the year 0.
proof fn lemma_first_of_march(year: int)
    ensures
        days_before_year(year) + days_before_month(year, 3) == 365 * year + year / 4 - year / 100
            + year / 400 + 60,
{
    lemma_days_before_month(year);
}

/// The month of a year that starts in March into which its day `doy` falls.
proof fn lemma_march_month(doy: int)
    requires
        0 <= doy <= 365,
    ensures
        ({
            let mp = (5 * doy + 2) / 153;
            let day = doy - (153 * mp + 2) / 5 + 1;
            &&& 0 <= mp <= 11
            &&& 1 <= day
            &&& day <= 31
            &&& mp == 1 || mp == 3 || mp == 6 || mp == 8 ==> day <= 30
            &&& mp == 11 ==> day <= 29
            &&& mp == 11 && doy < 365 ==> day <= 28
        }),
{
}

/// Whether a date is the last of its month: the 31st, the 30th of four months, or the last of
/// February, which has a 29th in every fourth year but for three of four centuries.
pub open spec fn ends_month(year: int, month: int, day: int) -> bool {
    if month == 4 || month == 6 || month == 9 || month == 11 {
        day == 30
    } else if month == 2 {
        day == (if year % 400 == 0 || (year % 4 == 0 && year % 100 != 0) {
            29int
        } else {
            28
        })
    } else {
        day == 31
    }
}

/// Days are counted from 1 January 1970, and the day after a date is the next of its month, or the
/// first of the next month where the month ends, or of the next year.
pub proof fn days_follow_one_another(days: int, year: int, month: int, day: int)
    requires
        falls_on(days, year, month, day),
    ensures
        falls_on(0, 1970, 1, 1),
        !ends_month(year, month, day) ==> falls_on(days + 1, year, month, day + 1),
        ends_month(year, month, day) && month < 12 ==> falls_on(days + 1, year, month + 1, 1),
        ends_month(year, month, day) && month == 12 ==> falls_on(days + 1, year + 1, 1, 1),
{
    reveal(days_since_epoch);
    lemma_days_before_month(1970);
    lemma_days_before_month(year);
    lemma_days_before_month(year + 1);
    lemma_year_length(year);
    reveal_with_fuel(days_before_month, 2);
}

/// The hours, minutes and seconds of a moment are those since its day began.
pub proof fn times_of_day_add_up(seconds: int, moment: DateTime)
    requires
        seconds >= 0,
        is_utc(seconds, moment),
    ensures
        moment.hour < 24,
        moment.minute < 60,
        moment.second < 60,
        seconds == 86_400 * (seconds / 86_400) + 3600 * moment.hour + 60 * moment.minute
            + moment.second,
{
}

proof fn lemma_short_number(n: nat)
    ensures
        n < 10 ==> decimal(n).len() == 1,
        10 <= n < 100 ==> decimal(n).len() == 2,
        n < 10_000 ==> 1 <= decimal(n).len() <= 4,
{
    reveal_with_fuel(decimal, 5);
}

/// A moment of a year of four digits is written in 19 characters, with each of its fields at a
/// place of its own, the year first and the second last.
pub proof fn fields_stand_in_their_places(moment: DateTime)
    requires
        is_short(moment),
    ensures
        ({
            let text = date_text(moment);
            &&& text.len() == 19
            &&& decimal_value(text.subrange(0, 4)) == moment.year
            &&& text[4] == '-'
            &&& decimal_value(text.subrange(5, 7)) == moment.month
            &&& text[7] == '-'
            &&& decimal_value(text.subrange(8, 10)) == moment.day
            &&& text[10] == ' '
            &&& decimal_value(text.subrange(11, 13)) == moment.hour
            &&& text[13] == ':'
            &&& decimal_value(text.subrange(14, 16)) == moment.minute
            &&& text[16] == ':'
            &&& decimal_value(text.subrange(17, 19)) == moment.second
        }),
{
    let text = date_text(moment);
    let year = signed_padded(moment.year as int, 4);
    let month = two_digits(moment.month as int);
    let day = two_digits(moment.day as int);
    let hour = two_digits(moment.hour as int);
    let minute = two_digits(moment.minute as int);
    let second = two_digits(moment.second as int);
    lemma_padded_number(moment.year as nat, 4);
    lemma_padded_number(moment.month as nat, 2);
    lemma_padded_number(moment.day as nat, 2);
    lemma_padded_number(moment.hour as nat, 2);
    lemma_padded_number(moment.minute as nat, 2);
    lemma_padded_number(moment.second as nat, 2);
    assert(text.subrange(0, 4) =~= year);
    assert(text.subrange(5, 7) =~= month);
    assert(text.subrange(8, 10) =~= day);
    assert(text.subrange(11, 13) =~= hour);
    assert(text.subrange(14, 16) =~= minute);
    assert(text.subrange(17, 19) =~= second);
}

proof fn lemma_padded_number(n: nat, width: nat)
    requires
        width == 2 || width == 4,
        width == 2 ==> n < 100,
        width == 4 ==> n < 10_000,
    ensures
        zero_padded(decimal(n), width).len() == width,
        decimal_value(zero_padded(decimal(n), width)) == n,
{
    lemma_short_number(n);
    zeros_in_front_keep_the_value(n, width);
}

/// A time is shown as a moment, and only a time that is missing or out of range as a dash.
pub proof fn times_are_shown(text: Seq<char>, millis: int)
    requires
        shows_time(text, millis),
        millis >= 0,
    ensures
        millis == 0 || millis > 0xffff_ffff_ffff_ffff ==> text == "-"@,
        0 < millis <= 0xffff_ffff_ffff_ffff ==> exists|moment: DateTime| #[trigger]
            is_utc(millis / 1000, moment) && text == date_text(moment),
{
}

} // verus!
