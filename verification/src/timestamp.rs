use crate::text::{dec_rep, dec_rep_signed, i32_to_dec_string, push_char, u64_to_dec_string};
use chrono::{Datelike, Timelike};
use vstd::prelude::*;

verus! {

/// A calendar date with a time of day, as the front matter's
/// `YYYY-MM-DD HH:MM:SS` stamps carry it.
#[derive(Clone, Copy, PartialEq, Eq, Structural, Debug)]
pub struct Timestamp {
    pub year: i32,
    pub month: u32,
    pub day: u32,
    pub hour: u32,
    pub minute: u32,
    pub second: u32,
}

/// The field ranges every parsed timestamp satisfies.
pub open spec fn ts_valid(t: Timestamp) -> bool {
    &&& 1 <= t.month <= 12
    &&& 1 <= t.day <= 31
    &&& t.hour <= 23
    &&& t.minute <= 59
    &&& t.second <= 59
}

/// Chronological order: by year, month, day, hour, minute, second.
pub open spec fn ts_le(a: Timestamp, b: Timestamp) -> bool {
    if a.year != b.year {
        a.year < b.year
    } else if a.month != b.month {
        a.month < b.month
    } else if a.day != b.day {
        a.day < b.day
    } else if a.hour != b.hour {
        a.hour < b.hour
    } else if a.minute != b.minute {
        a.minute < b.minute
    } else {
        a.second <= b.second
    }
}

/// Whether `a` is at or before `b`.
pub fn timestamp_le(a: &Timestamp, b: &Timestamp) -> (r: bool)
    ensures
        r == ts_le(*a, *b),
{
    if a.year != b.year {
        a.year < b.year
    } else if a.month != b.month {
        a.month < b.month
    } else if a.day != b.day {
        a.day < b.day
    } else if a.hour != b.hour {
        a.hour < b.hour
    } else if a.minute != b.minute {
        a.minute < b.minute
    } else {
        a.second <= b.second
    }
}

/// What `NaiveDateTime::parse_from_str` makes of a string and a format:
/// the year, month, day, hour, minute and second fields on success; it
/// depends on the two strings alone.
pub uninterp spec fn spec_parsed_datetime(s: Seq<char>, fmt: Seq<char>) -> Option<
    (i32, u32, u32, u32, u32, u32),
>;

/// Relies on chrono's `NaiveDateTime::parse_from_str`, with the
/// `Datelike` and `Timelike` accessors converting the parsed value to
/// plain fields; chrono documents the ranges of those fields.
#[verifier::external_body]
pub(crate) fn parse_datetime(s: &str, fmt: &str) -> (r: Option<(i32, u32, u32, u32, u32, u32)>)
    ensures
        r == spec_parsed_datetime(s@, fmt@),
        r matches Some(t) ==> 1 <= t.1 <= 12 && 1 <= t.2 <= 31 && t.3 <= 23 && t.4 <= 59 && t.5
            <= 59,
{
    match chrono::NaiveDateTime::parse_from_str(s, fmt) {
        Ok(dt) => Some((dt.year(), dt.month(), dt.day(), dt.hour(), dt.minute(), dt.second())),
        Err(_) => None,
    }
}

/// The format the front matter's timestamps use.
pub open spec fn ts_format() -> Seq<char> {
    "%Y-%m-%d %H:%M:%S"@
}

/// The timestamp a front-matter value parses to, if any.
pub open spec fn spec_parse_ts(s: Seq<char>) -> Option<Timestamp> {
    match spec_parsed_datetime(s, ts_format()) {
        Some(t) => Some(
            Timestamp {
                year: t.0,
                month: t.1,
                day: t.2,
                hour: t.3,
                minute: t.4,
                second: t.5,
            },
        ),
        None => None,
    }
}

/// Parses a `YYYY-MM-DD HH:MM:SS` stamp.
pub fn parse_timestamp(s: &str) -> (r: Option<Timestamp>)
    ensures
        r == spec_parse_ts(s@),
        r matches Some(t) ==> ts_valid(t),
{
    match parse_datetime(s, "%Y-%m-%d %H:%M:%S") {
        Some(t) => Some(
            Timestamp {
                year: t.0,
                month: t.1,
                day: t.2,
                hour: t.3,
                minute: t.4,
                second: t.5,
            },
        ),
        None => None,
    }
}

/// A number in decimal, padded with a `0` to at least two digits.
pub open spec fn pad2(n: nat) -> Seq<char> {
    if n < 10 {
        seq!['0'] + dec_rep(n)
    } else {
        dec_rep(n)
    }
}

/// Appends `pad2(n)` to `s`.
pub fn push_pad2(s: &mut String, n: u32)
    ensures
        final(s)@ == old(s)@ + pad2(n as nat),
{
    if n < 10 {
        push_char(s, '0');
    }
    let d = u64_to_dec_string(n as u64);
    s.append(d.as_str());
    proof {
        assert(final(s)@ =~= old(s)@ + pad2(n as nat));
    }
}

/// The feed form of a stored timestamp: the date, a `T`, the zero-padded
/// time of day, and a literal `.000Z` tail; the stamp is a local-time
/// label, not a converted instant.
pub open spec fn spec_feed_date(t: Timestamp) -> Seq<char> {
    dec_rep_signed(t.year as int) + seq!['-'] + pad2(t.month as nat) + seq!['-'] + pad2(
        t.day as nat,
    ) + seq!['T'] + pad2(t.hour as nat) + seq![':'] + pad2(t.minute as nat) + seq![':'] + pad2(
        t.second as nat,
    ) + seq!['.', '0', '0', '0', 'Z']
}

/// Writes a timestamp in the form the feed's entries use.
pub fn format_feed_date(t: &Timestamp) -> (r: String)
    ensures
        r@ == spec_feed_date(*t),
{
    let mut s = i32_to_dec_string(t.year);
    push_char(&mut s, '-');
    push_pad2(&mut s, t.month);
    push_char(&mut s, '-');
    push_pad2(&mut s, t.day);
    push_char(&mut s, 'T');
    push_pad2(&mut s, t.hour);
    push_char(&mut s, ':');
    push_pad2(&mut s, t.minute);
    push_char(&mut s, ':');
    push_pad2(&mut s, t.second);
    push_char(&mut s, '.');
    push_char(&mut s, '0');
    push_char(&mut s, '0');
    push_char(&mut s, '0');
    push_char(&mut s, 'Z');
    proof {
        assert(s@ =~= spec_feed_date(*t));
    }
    s
}

/// The feed form of the moment the feed was written: the date, a `T`,
/// the clock's own text for the time of day, and a literal `Z`.
pub open spec fn spec_now_line(y: int, mo: nat, d: nat, time_text: Seq<char>) -> Seq<char> {
    dec_rep_signed(y) + seq!['-'] + pad2(mo) + seq!['-'] + pad2(d) + seq!['T'] + time_text + seq![
        'Z',
    ]
}

/// Writes the current-moment stamp for the feed header.
pub fn format_now_line(y: i32, mo: u32, d: u32, time_text: &str) -> (r: String)
    ensures
        r@ == spec_now_line(y as int, mo as nat, d as nat, time_text@),
{
    let mut s = i32_to_dec_string(y);
    push_char(&mut s, '-');
    push_pad2(&mut s, mo);
    push_char(&mut s, '-');
    push_pad2(&mut s, d);
    push_char(&mut s, 'T');
    s.append(time_text);
    push_char(&mut s, 'Z');
    proof {
        assert(s@ =~= spec_now_line(y as int, mo as nat, d as nat, time_text@));
    }
    s
}

/// Relies on chrono's `Local::now`, with the `Datelike` accessors and
/// the display form of its time of day converting the result to plain
/// values; the clock decides the outcome, so only the documented field
/// ranges are stated.
#[verifier::external_body]
pub(crate) fn local_now_parts() -> (r: (i32, u32, u32, String))
    ensures
        1 <= r.1 <= 12,
        1 <= r.2 <= 31,
{
    let now = chrono::Local::now();
    let time_text = format!("{}", now.time());
    (now.year(), now.month(), now.day(), time_text)
}

} // verus!
