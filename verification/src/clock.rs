//! Time as plain numbers: readings of a monotonic clock, calendar timestamps,
//! and the calls that read the clocks or turn text into a timestamp.

use chrono::{Datelike, Timelike};
use crate::text::{decimal, digit_char};
use vstd::prelude::*;

verus! {

/// `std::time::Instant`, a reading of the monotonic clock of which nothing
/// is known but what the calls below return.
#[verifier::external_type_specification]
#[verifier::external_body]
pub struct ExInstant(std::time::Instant);

/// A reading of a monotonic clock, in nanoseconds since the clock was made.
#[derive(Clone, Copy, Debug, PartialEq, Eq, Structural)]
pub struct Moment {
    pub nanos: u128,
}

/// The whole seconds from `earlier` to `later`: zero if `later` is not after
/// `earlier`, and never more than `u64::MAX`.
pub open spec fn whole_seconds_between(later: Moment, earlier: Moment) -> int {
    if later.nanos <= earlier.nanos {
        0
    } else if (later.nanos - earlier.nanos) / 1_000_000_000 > u64::MAX {
        u64::MAX as int
    } else {
        (later.nanos - earlier.nanos) / 1_000_000_000
    }
}

/// Whether more than `secs` seconds passed from `earlier` to `later`.
pub open spec fn more_than_seconds_between(later: Moment, earlier: Moment, secs: u64) -> bool {
    later.nanos - earlier.nanos > secs * 1_000_000_000
}

impl Moment {
    /// Whether this reading is more than `secs` seconds after `earlier`.
    pub fn is_more_than_after(&self, earlier: &Moment, secs: u64) -> (yes: bool)
        ensures
            yes == more_than_seconds_between(*self, *earlier, secs),
    {
        if self.nanos <= earlier.nanos {
            false
        } else {
            let limit: u128 = (secs as u128) * 1_000_000_000;
            self.nanos - earlier.nanos > limit
        }
    }

    /// The whole seconds that passed from `earlier` to this reading.
    pub fn seconds_since(&self, earlier: &Moment) -> (secs: u64)
        ensures
            secs == whole_seconds_between(*self, *earlier),
    {
        if self.nanos <= earlier.nanos {
            0
        } else {
            let whole: u128 = (self.nanos - earlier.nanos) / 1_000_000_000;
            if whole > 0xffff_ffff_ffff_ffff {
                u64::MAX
            } else {
                whole as u64
            }
        }
    }
}

/// `Instant::now` reads the monotonic clock; nothing is promised of the reading.
#[verifier::external_body]
fn instant_now() -> std::time::Instant {
    std::time::Instant::now()
}

/// `Instant::elapsed`, as whole nanoseconds (`Duration::as_nanos`): the time
/// that has passed since `origin` was read. It depends on when it is called,
/// so nothing is promised of the number.
#[verifier::external_body]
fn nanos_since(origin: &std::time::Instant) -> u128 {
    origin.elapsed().as_nanos()
}

/// A monotonic clock whose readings count from the moment it was made.
pub struct Clock {
    origin: std::time::Instant,
}

impl Clock {
    /// A clock whose readings count from now.
    pub fn new() -> Clock {
        Clock { origin: instant_now() }
    }

    /// The current reading.
    pub fn now(&self) -> Moment {
        Moment { nanos: nanos_since(&self.origin) }
    }
}

/// A calendar date and a time of day without a time zone. A leap second is
/// second 59 with a `nanosecond` of 1,000,000,000 or more.
#[derive(Clone, Copy, Debug, PartialEq, Eq, Structural)]
pub struct Timestamp {
    pub year: i32,
    pub month: u32,
    pub day: u32,
    pub hour: u32,
    pub minute: u32,
    pub second: u32,
    pub nanosecond: u32,
}

impl Timestamp {
    /// Whether this timestamp is `other` or comes before it.
    pub open spec fn at_or_before(self, other: Timestamp) -> bool {
        if self.year != other.year {
            self.year < other.year
        } else if self.month != other.month {
            self.month < other.month
        } else if self.day != other.day {
            self.day < other.day
        } else if self.hour != other.hour {
            self.hour < other.hour
        } else if self.minute != other.minute {
            self.minute < other.minute
        } else if self.second != other.second {
            self.second < other.second
        } else {
            self.nanosecond <= other.nanosecond
        }
    }

    /// Whether this timestamp is `other` or comes before it.
    pub fn is_at_or_before(&self, other: &Timestamp) -> (yes: bool)
        ensures
            yes == self.at_or_before(*other),
    {
        if self.year != other.year {
            self.year < other.year
        } else if self.month != other.month {
            self.month < other.month
        } else if self.day != other.day {
            self.day < other.day
        } else if self.hour != other.hour {
            self.hour < other.hour
        } else if self.minute != other.minute {
            self.minute < other.minute
        } else if self.second != other.second {
            self.second < other.second
        } else {
            self.nanosecond <= other.nanosecond
        }
    }
}

/// What `chrono::NaiveDateTime::parse_from_str` makes of `text` under the
/// format `pattern`: the timestamp it reads, or `None` where it reports an error.
pub uninterp spec fn parsed_time(text: Seq<char>, pattern: Seq<char>) -> Option<Timestamp>;

/// `chrono::NaiveDateTime::parse_from_str`, with the date and time it returns
/// read off field by field (`year`, `month`, `day`, `hour`, `minute`, `second`,
/// `nanosecond`). The result depends on the two texts alone.
#[verifier::external_body]
pub(crate) fn parse_time(text: &str, pattern: &str) -> (time: Option<Timestamp>)
    ensures
        time == parsed_time(text@, pattern@),
{
    match chrono::NaiveDateTime::parse_from_str(text, pattern) {
        Ok(t) => Some(
            Timestamp {
                year: t.year(),
                month: t.month(),
                day: t.day(),
                hour: t.hour(),
                minute: t.minute(),
                second: t.second(),
                nanosecond: t.nanosecond(),
            },
        ),
        Err(_) => None,
    }
}

/// The format of a day: the directory of one day's recordings.
pub open spec fn day_pattern() -> Seq<char> {
    "%Y-%m-%d"@
}

/// The format of the minute in the name of a plain recording.
pub open spec fn minute_pattern() -> Seq<char> {
    "%Y-%m-%d-%H%M"@
}

/// The format of the timestamp in the name of a topic's recording.
pub open spec fn stream_pattern() -> Seq<char> {
    "%Y%m%d-%H%M%S"@
}

/// The format of the two ends of a statistics window.
pub open spec fn window_pattern() -> Seq<char> {
    "%Y-%m-%d %H:%M:%S"@
}

/// The format in which a caller writes the bounds of a time range.
pub open spec fn bound_pattern() -> Seq<char> {
    "%Y-%m-%d %H:%M"@
}

/// The formats in which this library writes the local time.
pub open spec fn is_written_pattern(pattern: Seq<char>) -> bool {
    ||| pattern == day_pattern()
    ||| pattern == minute_pattern()
    ||| pattern == stream_pattern()
    ||| pattern == window_pattern()
}

/// A number below 100 written with two digits.
pub open spec fn two_digits(n: int) -> Seq<char> {
    seq![digit_char(n / 10), digit_char(n % 10)]
}

/// A number written with at least four digits, zeros in front where it has
/// fewer.
pub open spec fn four_digits(n: int) -> Seq<char> {
    if n <= 9999 {
        two_digits(n / 100) + two_digits(n % 100)
    } else {
        decimal(n as nat)
    }
}

/// A year as it is written: with four digits from 0 to 9999, and with a sign
/// and at least four digits outside of that.
pub open spec fn year_text(year: int) -> Seq<char> {
    if 0 <= year <= 9999 {
        four_digits(year)
    } else if year > 9999 {
        seq!['+'] + four_digits(year)
    } else {
        seq!['-'] + four_digits(-year)
    }
}

/// The second of `t` as it is written: 60 for a leap second.
pub open spec fn written_second(t: Timestamp) -> int {
    t.second + t.nanosecond / 1_000_000_000
}

/// Whether the fields of `t` other than the year lie in the ranges of a
/// date and a time of day.
pub open spec fn is_date_and_time(t: Timestamp) -> bool {
    &&& 1 <= t.month <= 12
    &&& 1 <= t.day <= 31
    &&& t.hour <= 23
    &&& t.minute <= 59
    &&& t.second <= 59
    &&& t.nanosecond < 2_000_000_000
}

/// The date of `t` as `YYYY-MM-DD`.
pub open spec fn day_text(t: Timestamp) -> Seq<char> {
    year_text(t.year as int) + seq!['-'] + two_digits(t.month as int) + seq!['-'] + two_digits(t.day as int)
}

/// The date and the minute of `t` as `YYYY-MM-DD-HHMM`.
pub open spec fn minute_text(t: Timestamp) -> Seq<char> {
    day_text(t) + seq!['-'] + two_digits(t.hour as int) + two_digits(t.minute as int)
}

/// The date and the time of `t` as `YYYYMMDD-HHMMSS`.
pub open spec fn stream_stamp_text(t: Timestamp) -> Seq<char> {
    year_text(t.year as int) + two_digits(t.month as int) + two_digits(t.day as int) + seq!['-'] + two_digits(
        t.hour as int,
    ) + two_digits(t.minute as int) + two_digits(written_second(t))
}

/// The date and the time of `t` as `YYYY-MM-DD HH:MM:SS`.
pub open spec fn window_text(t: Timestamp) -> Seq<char> {
    day_text(t) + seq![' '] + two_digits(t.hour as int) + seq![':'] + two_digits(t.minute as int) + seq![':']
        + two_digits(written_second(t))
}

/// The date and time `t` as it is written in one of the formats in which
/// this library writes the local time.
pub open spec fn written_time(t: Timestamp, pattern: Seq<char>) -> Seq<char> {
    if pattern == day_pattern() {
        day_text(t)
    } else if pattern == minute_pattern() {
        minute_text(t)
    } else if pattern == stream_pattern() {
        stream_stamp_text(t)
    } else {
        window_text(t)
    }
}

/// Whether `text` is some date and time written in the format `pattern`.
pub open spec fn is_written_time(text: Seq<char>, pattern: Seq<char>) -> bool {
    exists|t: Timestamp| is_date_and_time(t) && text == #[trigger] written_time(t, pattern)
}

/// The four formats in which the local time is written are four different
/// texts.
proof fn lemma_patterns_differ()
    ensures
        minute_pattern() != day_pattern(),
        stream_pattern() != day_pattern(),
        stream_pattern() != minute_pattern(),
        window_pattern() != day_pattern(),
        window_pattern() != minute_pattern(),
        window_pattern() != stream_pattern(),
{
    reveal_strlit("%Y-%m-%d");
    reveal_strlit("%Y-%m-%d-%H%M");
    reveal_strlit("%Y%m%d-%H%M%S");
    reveal_strlit("%Y-%m-%d %H:%M:%S");
    assert(day_pattern().len() == 8);
    assert(minute_pattern().len() == 13);
    assert(stream_pattern().len() == 13);
    assert(minute_pattern()[2] == '-' && stream_pattern()[2] == '%');
    assert(window_pattern().len() == 17);
}

/// `chrono::Local::now`, moved back by `seconds_ago` seconds and written with
/// `format` and `to_string`. Which date and time is written depends on the
/// clock and the time zone of the machine, so nothing is promised of it but
/// that it is one. How it is written is what `format` does with `%Y`, `%m`,
/// `%d`, `%H`, `%M` and `%S`: the year with four digits, or with a sign and
/// at least four digits outside of 0 to 9999; each other field with two
/// digits; what stands between the fields as it stands in the format. The
/// formats admitted are those that `format` accepts without an error. As
/// `Local::now` does, the call panics on a machine whose clock stands before
/// 1970.
#[verifier::external_body]
fn local_time_text(pattern: &str, seconds_ago: u32) -> (text: String)
    requires
        is_written_pattern(pattern@),
    ensures
        is_written_time(text@, pattern@),
{
    let then = chrono::Local::now() - chrono::Duration::seconds(i64::from(seconds_ago));
    then.format(pattern).to_string()
}

/// Today's local date, as `YYYY-MM-DD`.
pub fn local_day() -> (day: String)
    ensures
        exists|t: Timestamp| is_date_and_time(t) && day@ == #[trigger] day_text(t),
{
    let day = local_time_text("%Y-%m-%d", 0);
    proof {
        let t = choose|t: Timestamp| is_date_and_time(t) && day@ == #[trigger] written_time(t, day_pattern());
        assert(day@ == day_text(t));
    }
    day
}

/// The local time to the minute, as `YYYY-MM-DD-HHMM`.
pub fn local_minute() -> (minute: String)
    ensures
        exists|t: Timestamp| is_date_and_time(t) && minute@ == #[trigger] minute_text(t),
{
    let minute = local_time_text("%Y-%m-%d-%H%M", 0);
    proof {
        lemma_patterns_differ();
        let t = choose|t: Timestamp| is_date_and_time(t) && minute@ == #[trigger] written_time(t, minute_pattern());
        assert(minute@ == minute_text(t));
    }
    minute
}

/// The local time to the second, as `YYYYMMDD-HHMMSS`.
pub fn local_stream_stamp() -> (stamp: String)
    ensures
        exists|t: Timestamp| is_date_and_time(t) && stamp@ == #[trigger] stream_stamp_text(t),
{
    let stamp = local_time_text("%Y%m%d-%H%M%S", 0);
    proof {
        lemma_patterns_differ();
        let t = choose|t: Timestamp| is_date_and_time(t) && stamp@ == #[trigger] written_time(t, stream_pattern());
        assert(stamp@ == stream_stamp_text(t));
    }
    stamp
}

/// The two ends of a window of statistics that closes now and has lasted
/// `window_secs` seconds, each as the local time `YYYY-MM-DD HH:MM:SS`: the
/// beginning first. A window of more than `u32::MAX` seconds is taken to
/// have lasted that long.
pub fn local_window(window_secs: u64) -> (ends: (String, String))
    ensures
        exists|t: Timestamp| is_date_and_time(t) && ends.0@ == #[trigger] window_text(t),
        exists|t: Timestamp| is_date_and_time(t) && ends.1@ == #[trigger] window_text(t),
{
    let seconds_ago: u32 = if window_secs > 0xffff_ffff {
        u32::MAX
    } else {
        window_secs as u32
    };
    let start = local_time_text("%Y-%m-%d %H:%M:%S", seconds_ago);
    let end = local_time_text("%Y-%m-%d %H:%M:%S", 0);
    proof {
        lemma_patterns_differ();
        let t0 = choose|t: Timestamp| is_date_and_time(t) && start@ == #[trigger] written_time(t, window_pattern());
        assert(start@ == window_text(t0));
        let t1 = choose|t: Timestamp| is_date_and_time(t) && end@ == #[trigger] written_time(t, window_pattern());
        assert(end@ == window_text(t1));
    }
    (start, end)
}

} // verus!
