//! Timestamped names for saved recordings.
//!
//! A save writes into the configured output directory under the name
//! `recording_<YYYYMMDD_HHMMSS>.wav`, built from the local wall-clock time.
//! Only reading the clock is trusted; turning the parts into the name is
//! verified character by character.

use vstd::prelude::*;

use chrono::Datelike;
use chrono::Timelike;

verus! {

/// A local wall-clock instant, split into plain calendar fields.
pub struct TimeParts {
    pub year: i32,
    pub month: u32,
    pub day: u32,
    pub hour: u32,
    pub minute: u32,
    pub second: u32,
}

/// The field ranges a calendar time satisfies.
pub open spec fn time_parts_wf(t: TimeParts) -> bool {
    &&& 1 <= t.month <= 12
    &&& 1 <= t.day <= 31
    &&& t.hour <= 23
    &&& t.minute <= 59
    &&& t.second <= 59
}

/// Relies on chrono's `Local::now` and its `Datelike`/`Timelike` accessors:
/// `month` ranges over 1..=12, `day` over 1..=31, `hour` over 0..=23,
/// `minute` and `second` over 0..=59.  Nothing more is assumed of the clock.
#[verifier::external_body]
pub fn local_time_now() -> (t: TimeParts)
    ensures
        time_parts_wf(t),
{
    let now = chrono::Local::now();
    TimeParts {
        year: now.year(),
        month: now.month(),
        day: now.day(),
        hour: now.hour(),
        minute: now.minute(),
        second: now.second(),
    }
}

/// The character of one decimal digit.
pub open spec fn spec_digit(d: nat) -> char {
    if d == 0 {
        '0'
    } else if d == 1 {
        '1'
    } else if d == 2 {
        '2'
    } else if d == 3 {
        '3'
    } else if d == 4 {
        '4'
    } else if d == 5 {
        '5'
    } else if d == 6 {
        '6'
    } else if d == 7 {
        '7'
    } else if d == 8 {
        '8'
    } else {
        '9'
    }
}

/// The decimal digits of a number, most significant first, no padding.
pub open spec fn spec_digits(n: nat) -> Seq<char>
    decreases n,
{
    if n < 10 {
        seq![spec_digit(n)]
    } else {
        spec_digits(n / 10).push(spec_digit(n % 10))
    }
}

/// A value below 100 as exactly two digits, zero-padded.
pub open spec fn spec_two_digits(n: nat) -> Seq<char> {
    seq![spec_digit(n / 10 % 10), spec_digit(n % 10)]
}

/// A year as at least four digits: zero-padded to four below 10000, all its
/// digits above.
pub open spec fn spec_year_digits(y: nat) -> Seq<char> {
    if y <= 9999 {
        seq![
            spec_digit(y / 1000),
            spec_digit(y / 100 % 10),
            spec_digit(y / 10 % 10),
            spec_digit(y % 10),
        ]
    } else {
        spec_digits(y)
    }
}

/// A year with its sign.
pub open spec fn spec_year(y: int) -> Seq<char> {
    if y >= 0 {
        spec_year_digits(y as nat)
    } else {
        "-"@ + spec_year_digits((-y) as nat)
    }
}

/// The name a save at the given local time writes to, inside the output
/// directory: `recording_<YYYYMMDD_HHMMSS>.wav`.
pub open spec fn spec_recording_filename(t: TimeParts) -> Seq<char> {
    "recording_"@ + spec_year(t.year as int) + spec_two_digits(t.month as nat) + spec_two_digits(
        t.day as nat,
    ) + "_"@ + spec_two_digits(t.hour as nat) + spec_two_digits(t.minute as nat) + spec_two_digits(
        t.second as nat,
    ) + ".wav"@
}

/// One decimal digit as text.
fn digit_str(d: u32) -> (r: &'static str)
    requires
        d < 10,
    ensures
        r@ == seq![spec_digit(d as nat)],
{
    let r = match d {
        0 => "0",
        1 => "1",
        2 => "2",
        3 => "3",
        4 => "4",
        5 => "5",
        6 => "6",
        7 => "7",
        8 => "8",
        _ => "9",
    };
    proof {
        reveal_strlit("0");
        reveal_strlit("1");
        reveal_strlit("2");
        reveal_strlit("3");
        reveal_strlit("4");
        reveal_strlit("5");
        reveal_strlit("6");
        reveal_strlit("7");
        reveal_strlit("8");
        reveal_strlit("9");
        assert(r@ =~= seq![spec_digit(d as nat)]);
    }
    r
}

/// Append every decimal digit of a number.
fn push_digits(s: &mut String, n: u32)
    ensures
        final(s)@ == old(s)@ + spec_digits(n as nat),
    decreases n,
{
    if n < 10 {
        s.append(digit_str(n));
        proof {
            assert(final(s)@ =~= old(s)@ + spec_digits(n as nat));
        }
    } else {
        push_digits(s, n / 10);
        s.append(digit_str(n % 10));
        proof {
            assert(final(s)@ =~= old(s)@ + spec_digits(n as nat));
        }
    }
}

/// Append a value below 100 as two zero-padded digits.
fn push_two_digits(s: &mut String, n: u32)
    requires
        n < 100,
    ensures
        final(s)@ == old(s)@ + spec_two_digits(n as nat),
{
    s.append(digit_str(n / 10));
    s.append(digit_str(n % 10));
    proof {
        assert(final(s)@ =~= old(s)@ + spec_two_digits(n as nat));
    }
}

/// Append a year's digits, zero-padded to four.
fn push_year_digits(s: &mut String, y: u32)
    ensures
        final(s)@ == old(s)@ + spec_year_digits(y as nat),
{
    if y <= 9999 {
        s.append(digit_str(y / 1000));
        s.append(digit_str(y / 100 % 10));
        s.append(digit_str(y / 10 % 10));
        s.append(digit_str(y % 10));
        proof {
            assert(final(s)@ =~= old(s)@ + spec_year_digits(y as nat));
        }
    } else {
        push_digits(s, y);
    }
}

/// Build the timestamped file name for a save: `recording_` followed by the
/// four-digit year, month, day, an underscore, hour, minute, second, and the
/// `.wav` extension.
pub fn recording_filename(t: &TimeParts) -> (name: String)
    requires
        time_parts_wf(*t),
    ensures
        name@ == spec_recording_filename(*t),
{
    let mut s = String::new();
    s.append("recording_");
    if t.year >= 0 {
        push_year_digits(&mut s, t.year as u32);
    } else {
        s.append("-");
        let mag = (-(t.year as i64)) as u32;
        push_year_digits(&mut s, mag);
    }
    push_two_digits(&mut s, t.month);
    push_two_digits(&mut s, t.day);
    s.append("_");
    push_two_digits(&mut s, t.hour);
    push_two_digits(&mut s, t.minute);
    push_two_digits(&mut s, t.second);
    s.append(".wav");
    proof {
        assert(s@ =~= spec_recording_filename(*t));
    }
    s
}

} // verus!
