//! Moments in time, calendar arithmetic, and what is read and written with
//! `chrono`.

use vstd::prelude::*;

use crate::text::{err_text, join3, join4, quotient};

verus! {

/// A timestamp without an offset, such as `2026-04-01T07:00:00.000`.
pub const NAIVE_FORMAT: &'static str = "%Y-%m-%dT%H:%M:%S%.3f";

/// A timestamp without an offset and without a fraction of a second.
pub const WHOLE_SECONDS_FORMAT: &'static str = "%Y-%m-%dT%H:%M:%S";

/// A timestamp with an offset, such as `2026-04-01T07:00:00.000+0000`.
pub const OFFSET_FORMAT: &'static str = "%Y-%m-%dT%H:%M:%S%.3f%z";

/// A calendar date.
pub const DATE_FORMAT: &'static str = "%Y-%m-%d";

/// A time of day in hours and minutes.
pub const TIME_FORMAT: &'static str = "%H:%M";

/// The first second of the calendar of `chrono`, counted from the Unix epoch.
pub const FIRST_SECOND: i64 = -8_334_601_228_800;

/// The last second of the calendar of `chrono`.
pub const LAST_SECOND: i64 = 8_210_266_876_799;

/// Seconds of a day.
pub const DAY: i64 = 86_400;

/// A moment: whole seconds since the Unix epoch and nanoseconds on top. As in
/// `chrono`, a fraction of one second or more marks a leap second.
#[derive(Clone, Copy, Debug, PartialEq, Eq, Structural)]
pub struct Moment {
    pub secs: i64,
    pub frac: u32,
}

/// Whether a second lies in the calendar.
pub open spec fn in_calendar(secs: int) -> bool {
    FIRST_SECOND <= secs <= LAST_SECOND
}

impl Moment {
    /// Whether the moment lies in the calendar.
    pub open spec fn valid(self) -> bool {
        in_calendar(self.secs as int) && self.frac < 2_000_000_000
    }

    /// Milliseconds since the Unix epoch.
    pub open spec fn millis(self) -> int {
        self.secs * 1000 + self.frac as int / 1_000_000
    }

    /// Whether a clock can show the moment: it lies in the calendar, and a
    /// leap second is the last of its minute.
    pub open spec fn on_clock(self) -> bool {
        self.valid() && (self.frac < 1_000_000_000 || self.secs as int % 60 == 59)
    }

    /// Whether the moment lies in a leap second.
    pub open spec fn is_leap(self) -> bool {
        self.frac >= 1_000_000_000
    }
}

/// A moment as a pair of seconds and nanoseconds.
pub open spec fn pair(m: Option<Moment>) -> Option<(i64, u32)> {
    match m {
        Some(m) => Some((m.secs, m.frac)),
        None => None,
    }
}

/// The milliseconds of a moment given as a pair.
pub open spec fn pair_millis(m: (i64, u32)) -> int {
    (Moment { secs: m.0, frac: m.1 }).millis()
}

/// What `NaiveDateTime::parse_from_str` reads from a text in a format: seconds
/// since the Unix epoch, the text taken as UTC, and nanoseconds.
pub uninterp spec fn naive_moment(text: Seq<char>, format: Seq<char>) -> Option<(i64, u32)>;

/// What `DateTime::parse_from_str` reads from a text in a format.
pub uninterp spec fn offset_moment(text: Seq<char>, format: Seq<char>) -> Option<(i64, u32)>;

/// What `DateTime::parse_from_rfc3339` reads from a text.
pub uninterp spec fn rfc3339_moment(text: Seq<char>) -> Option<(i64, u32)>;

/// What `NaiveDate::parse_from_str` reads from a text in a format: days since
/// the Unix epoch, or the message of its error.
pub uninterp spec fn calendar_day(text: Seq<char>, format: Seq<char>) -> Result<i32, Seq<char>>;

/// How `NaiveDateTime::format` writes a moment in a format.
pub uninterp spec fn moment_text(secs: i64, frac: u32, format: Seq<char>) -> Seq<char>;

/// `chrono::NaiveDateTime::parse_from_str`, its result taken as UTC. It is a
/// function of the two texts. What it reads lies in the calendar, a leap second
/// is read from second 60 alone, and three digits of a fraction are whole
/// milliseconds.
#[verifier::external_body]
pub(crate) fn parse_naive(text: &str, format: &str) -> (r: Option<Moment>)
    ensures
        pair(r) == naive_moment(text@, format@),
        r matches Some(m) ==> m.on_clock() && (format@ == NAIVE_FORMAT@ ==> m.frac % 1_000_000
            == 0),
{
    match chrono::NaiveDateTime::parse_from_str(text, format) {
        Ok(dt) => Some(Moment {
            secs: dt.and_utc().timestamp(),
            frac: dt.and_utc().timestamp_subsec_nanos(),
        }),
        Err(_) => None,
    }
}

/// `chrono::DateTime::parse_from_str`. It is a function of the two texts, and
/// what it reads lies in the calendar. What `format` wrote as a timestamp,
/// followed by `+0000`, is read back, in whole milliseconds.
#[verifier::external_body]
pub(crate) fn parse_offset(text: &str, format: &str) -> (r: Option<Moment>)
    ensures
        pair(r) == offset_moment(text@, format@),
        r matches Some(m) ==> m.valid(),
        forall|secs: i64, frac: u32|
            text@ == #[trigger] moment_text(secs, frac, NAIVE_FORMAT@) + "+0000"@ && format@
                == OFFSET_FORMAT@ && (Moment { secs, frac }).on_clock() ==> pair(r) == Some(
                (secs, (frac - frac % 1_000_000) as u32),
            ),
{
    match chrono::DateTime::parse_from_str(text, format) {
        Ok(dt) => Some(Moment { secs: dt.timestamp(), frac: dt.timestamp_subsec_nanos() }),
        Err(_) => None,
    }
}

/// `chrono::DateTime::parse_from_rfc3339`. It is a function of the text. What it
/// reads lies in the calendar, and a leap second is read from second 60 alone,
/// which an offset in whole minutes leaves the last of its minute.
#[verifier::external_body]
pub(crate) fn parse_rfc3339(text: &str) -> (r: Option<Moment>)
    ensures
        pair(r) == rfc3339_moment(text@),
        r matches Some(m) ==> m.on_clock(),
{
    match chrono::DateTime::parse_from_rfc3339(text) {
        Ok(dt) => Some(Moment { secs: dt.timestamp(), frac: dt.timestamp_subsec_nanos() }),
        Err(_) => None,
    }
}

/// `chrono::NaiveDate::parse_from_str`, the date as days since the Unix epoch.
/// It is a function of the two texts, and all seconds of the day that it reads
/// lie in the calendar.
#[verifier::external_body]
pub(crate) fn parse_day(text: &str, format: &str) -> (r: Result<i32, String>)
    ensures
        err_text(r) == calendar_day(text@, format@),
        r matches Ok(day) ==> in_calendar(day * DAY) && in_calendar(day * DAY + DAY - 1),
{
    match chrono::NaiveDate::parse_from_str(text, format) {
        Ok(date) => Ok(date.to_epoch_days()),
        Err(e) => Err(e.to_string()),
    }
}

/// `chrono::NaiveDateTime::format`. It is a function of the moment and the
/// format, and what a clock can show is read back by `parse_from_str`, in whole
/// milliseconds.
#[verifier::external_body]
pub(crate) fn write_utc(m: Moment, format: &str) -> (r: String)
    requires
        m.valid(),
        format@ == NAIVE_FORMAT@,
    ensures
        r@ == moment_text(m.secs, m.frac, format@),
        m.on_clock() ==> naive_moment(r@, format@) == Some(
            (m.secs, (m.frac - m.frac % 1_000_000) as u32),
        ),
{
    let whole = chrono::DateTime::from_timestamp(m.secs, 0).unwrap().naive_utc();
    chrono::Timelike::with_nanosecond(&whole, m.frac).unwrap().format(format).to_string()
}

/// `chrono::Utc::now`. Nothing is said of it but that it lies in the calendar.
#[verifier::external_body]
pub(crate) fn now_utc() -> (r: Moment)
    ensures
        r.valid(),
{
    let now = chrono::Utc::now();
    Moment { secs: now.timestamp(), frac: now.timestamp_subsec_nanos() }
}

/// Two decimal digits.
pub open spec fn two_digits(n: int) -> Seq<char> {
    seq![(48 + n / 10) as char, (48 + n % 10) as char]
}

/// A time of day, such as `07:05`.
pub open spec fn time_of_day(hours: int, minutes: int) -> Seq<char> {
    two_digits(hours) + seq![':'] + two_digits(minutes)
}

/// The minutes since midnight on the clock.
pub open spec fn minute_of_day(here: Moment) -> int {
    here.secs as int % 86_400 / 60
}

/// Whether a date and a time of day are those of one wall-clock time: the date
/// as `format` writes it, the time in hours and minutes since midnight.
pub open spec fn reads_clock(here: Moment, date: Seq<char>, time: Seq<char>) -> bool {
    &&& here.valid()
    &&& date == moment_text(here.secs, here.frac, DATE_FORMAT@)
    &&& time == time_of_day(minute_of_day(here) / 60, minute_of_day(here) % 60)
}

/// `chrono::Local::now`, its date and its time of day as
/// `NaiveDateTime::format` writes them. Which time it is depends on the clock
/// and the time zone of the machine; the two texts are of the same time, and
/// the second is its hours and minutes in two digits each.
#[verifier::external_body]
pub(crate) fn local_now(date_format: &str, time_format: &str) -> (r: (String, String))
    requires
        date_format@ == DATE_FORMAT@,
        time_format@ == TIME_FORMAT@,
    ensures
        exists|here: Moment| #[trigger] reads_clock(here, r.0@, r.1@),
{
    let now = chrono::Local::now().naive_local();
    (now.format(date_format).to_string(), now.format(time_format).to_string())
}

/// Whether the clock of the machine can show this date and this time of day
/// when it is read.
pub closed spec fn clock_shows(date: String, time: String) -> bool {
    call_ensures(local_now, (DATE_FORMAT, TIME_FORMAT), (date, time))
}

/// What the clock shows is what `chrono::Local::now` returns, and nothing else.
proof fn law_clock_is_the_machines(date: String, time: String)
    ensures
        clock_shows(date, time) == call_ensures(
            local_now,
            (DATE_FORMAT, TIME_FORMAT),
            (date, time),
        ),
{
}

/// The date on the clock of the machine, in its time zone.
pub fn local_today() -> (r: String)
    ensures
        exists|here: Moment, time: String| #[trigger]
            clock_shows(r, time) && #[trigger] reads_clock(here, r@, time@),
{
    let (today, time) = local_now(DATE_FORMAT, TIME_FORMAT);
    assert(clock_shows(today, time));
    today
}

/// The first of three readings that is there.
pub open spec fn first_read<T>(a: Option<T>, b: Option<T>, c: Option<T>) -> Option<T> {
    if a is Some {
        a
    } else if b is Some {
        b
    } else {
        c
    }
}

/// When a time entry started: its timestamp may have an offset, and else is in
/// UTC, with or without milliseconds.
pub open spec fn started_moment(started_at: Seq<char>) -> Option<(i64, u32)> {
    first_read(
        rfc3339_moment(started_at),
        naive_moment(started_at, NAIVE_FORMAT@),
        naive_moment(started_at, WHOLE_SECONDS_FORMAT@),
    )
}

/// A start with an offset is read with it; one without is in UTC.
pub proof fn law_start_is_read_with_its_offset(started_at: Seq<char>)
    ensures
        rfc3339_moment(started_at) is Some ==> started_moment(started_at) == rfc3339_moment(
            started_at,
        ),
        rfc3339_moment(started_at) is None && naive_moment(started_at, NAIVE_FORMAT@) is Some
            ==> started_moment(started_at) == naive_moment(started_at, NAIVE_FORMAT@),
        rfc3339_moment(started_at) is None && naive_moment(started_at, NAIVE_FORMAT@) is None
            ==> started_moment(started_at) == naive_moment(started_at, WHOLE_SECONDS_FORMAT@),
{
}

/// Takes the first of three readings that is there.
pub fn pick_read(a: Option<Moment>, b: Option<Moment>, c: Option<Moment>) -> (r: Option<Moment>)
    ensures
        r == first_read(a, b, c),
{
    if a.is_some() {
        a
    } else if b.is_some() {
        b
    } else {
        c
    }
}

/// Reads when a time entry started.
pub fn read_start(started_at: &str) -> (r: Option<Moment>)
    ensures
        pair(r) == started_moment(started_at@),
        r matches Some(m) ==> m.on_clock(),
{
    let with_offset = parse_rfc3339(started_at);
    let naive = parse_naive(started_at, NAIVE_FORMAT);
    let whole = parse_naive(started_at, WHOLE_SECONDS_FORMAT);
    pick_read(with_offset, naive, whole)
}

/// The offsets from UTC, in seconds, that a local wall-clock time can have:
/// one, two where clocks were set back, or none where they were set forward.
#[derive(Clone, Copy, Debug, PartialEq, Eq, Structural)]
pub enum LocalOffsets {
    Single(i32),
    Ambiguous(i32, i32),
    Missing,
}

/// Whether an offset is less than a day.
pub open spec fn is_offset(seconds: i32) -> bool {
    -86_400 < seconds < 86_400
}

impl LocalOffsets {
    /// Whether every offset is less than a day.
    pub open spec fn valid(self) -> bool {
        match self {
            LocalOffsets::Single(o) => is_offset(o),
            LocalOffsets::Ambiguous(o, p) => is_offset(o) && is_offset(p),
            LocalOffsets::Missing => true,
        }
    }
}

/// `offset_from_local_datetime` of `chrono::Local`: the offsets of a local
/// wall-clock time. They depend on the time zone of the machine; all that is
/// said of them is that they are less than a day.
#[verifier::external_body]
pub(crate) fn local_offsets(secs: i64) -> (r: LocalOffsets)
    requires
        in_calendar(secs as int),
    ensures
        r.valid(),
{
    let wall = chrono::DateTime::from_timestamp(secs, 0).unwrap().naive_utc();
    match chrono::TimeZone::offset_from_local_datetime(&chrono::Local, &wall) {
        chrono::LocalResult::Single(o) => LocalOffsets::Single(o.local_minus_utc()),
        chrono::LocalResult::Ambiguous(o, p) => {
            LocalOffsets::Ambiguous(o.local_minus_utc(), p.local_minus_utc())
        },
        chrono::LocalResult::None => LocalOffsets::Missing,
    }
}

/// Whether the time zone of the machine can give these offsets for a local
/// wall-clock time when it is asked.
pub closed spec fn zone_answers(secs: i64, offsets: LocalOffsets) -> bool {
    call_ensures(local_offsets, (secs,), offsets)
}

/// What the zone answers is what `chrono::Local` returns for that very second,
/// and nothing else.
proof fn law_zone_is_the_machines(secs: i64, offsets: LocalOffsets)
    ensures
        zone_answers(secs, offsets) == call_ensures(local_offsets, (secs,), offsets),
        zone_answers(secs, offsets) ==> offsets.valid(),
{
}

/// Whether these are the offsets that the zone of the machine gives for a
/// wall-clock time and for the hour later, as far as that lies in the calendar.
pub open spec fn zone_at(secs: int, offsets: LocalOffsets, later: LocalOffsets) -> bool {
    &&& zone_answers(secs as i64, offsets)
    &&& in_calendar(secs + 3600) ==> zone_answers((secs + 3600) as i64, later)
    &&& !in_calendar(secs + 3600) ==> later == LocalOffsets::Missing
}

/// The offsets at a wall-clock time are those that the machine's own zone gives
/// for that second, and those of the hour later are of 3600 seconds later.
proof fn law_zone_is_asked_at_that_time(secs: int, offsets: LocalOffsets, later: LocalOffsets)
    requires
        zone_at(secs, offsets, later),
    ensures
        call_ensures(local_offsets, (secs as i64,), offsets),
        in_calendar(secs + 3600) ==> call_ensures(local_offsets, ((secs + 3600) as i64,), later),
{
}

/// `offset_from_utc_datetime` of `chrono::Local`: the offset in force at a
/// moment. It depends on the time zone of the machine; all that is said of it
/// is that it is less than a day.
#[verifier::external_body]
pub(crate) fn local_offset_at(secs: i64) -> (r: i32)
    requires
        in_calendar(secs as int),
    ensures
        is_offset(r),
{
    let utc = chrono::DateTime::from_timestamp(secs, 0).unwrap().naive_utc();
    chrono::TimeZone::offset_from_utc_datetime(&chrono::Local, &utc).local_minus_utc()
}

/// Milliseconds since the Unix epoch.
pub fn millis_of(m: Moment) -> (r: i64)
    requires
        m.valid(),
    ensures
        r == m.millis(),
{
    m.secs * 1000 + (m.frac / 1_000_000) as i64
}

/// The leap second that the difference of two times of day counts or leaves
/// out.
pub open spec fn leap_correction(start: Moment, stop: Moment) -> int {
    let from = start.secs as int % 86_400;
    let to = stop.secs as int % 86_400;
    if to > from && start.frac >= 1_000_000_000 {
        1
    } else if to < from && stop.frac >= 1_000_000_000 {
        -1
    } else {
        0
    }
}

/// Nanoseconds from one moment to another.
pub open spec fn nanos_between(start: Moment, stop: Moment) -> int {
    (stop.secs - start.secs + leap_correction(start, stop)) * 1_000_000_000 + stop.frac - start.frac
}

/// Whole minutes from one moment to another, cut off towards zero.
pub open spec fn minutes_between(start: Moment, stop: Moment) -> int {
    quotient(nanos_between(start, stop), 60_000_000_000)
}

/// Whole minutes from one moment to another, cut off towards zero.
pub fn count_minutes(start: Moment, stop: Moment) -> (r: i64)
    requires
        start.valid(),
        stop.valid(),
    ensures
        r == minutes_between(start, stop),
{
    let from: i64 = floor_mod(start.secs, DAY);
    let to: i64 = floor_mod(stop.secs, DAY);
    let correction: i64 = if to > from && start.frac >= 1_000_000_000 {
        1
    } else if to < from && stop.frac >= 1_000_000_000 {
        -1
    } else {
        0
    };
    let secs: i128 = (stop.secs - start.secs + correction) as i128;
    let nanos: i128 = secs * 1_000_000_000 + stop.frac as i128 - start.frac as i128;
    if nanos < 0 {
        let whole: u128 = (-nanos) as u128 / 60_000_000_000;
        -(whole as i64)
    } else {
        let whole: u128 = nanos as u128 / 60_000_000_000;
        whole as i64
    }
}

/// Between moments in whole milliseconds, neither in a leap second, the minutes
/// are those of the milliseconds between them, cut off towards zero.
pub proof fn law_minutes_are_of_milliseconds(start: Moment, stop: Moment)
    requires
        !start.is_leap(),
        !stop.is_leap(),
        start.frac % 1_000_000 == 0,
        stop.frac % 1_000_000 == 0,
    ensures
        minutes_between(start, stop) == quotient(stop.millis() - start.millis(), 60_000),
{
    let apart = stop.millis() - start.millis();
    assert(nanos_between(start, stop) == 1_000_000 * apart);
}

/// The minutes back are the minutes there, with the other sign.
pub proof fn law_minutes_back_are_negative(start: Moment, stop: Moment)
    ensures
        minutes_between(stop, start) == -minutes_between(start, stop),
{
}

/// The remainder of `a` by `b` that is not negative.
pub fn floor_mod(a: i64, b: i64) -> (r: i64)
    requires
        0 < b,
    ensures
        r == a as int % b as int,
{
    if a >= 0 {
        (a as u64 % b as u64) as i64
    } else {
        let left: i64 = ((-(a as i128)) as u128 % b as u128) as i64;
        proof {
            vstd::arithmetic::div_mod::lemma_fundamental_div_mod(-a as int, b as int);
            let q = (-a as int) / (b as int);
            if left == 0 {
                assert(a as int == -q * b) by (nonlinear_arith)
                    requires
                        -a as int == b * q + left,
                        left == 0,
                ;
                vstd::arithmetic::div_mod::lemma_fundamental_div_mod_converse(
                    a as int,
                    b as int,
                    -q,
                    0,
                );
            } else {
                assert(a as int == (-q - 1) * b + (b - left)) by (nonlinear_arith)
                    requires
                        -a as int == b * q + left,
                ;
                vstd::arithmetic::div_mod::lemma_fundamental_div_mod_converse(
                    a as int,
                    b as int,
                    -q - 1,
                    b - left,
                );
            }
        }
        if left == 0 {
            0
        } else {
            b - left
        }
    }
}

/// A time of day that `chrono` takes: hours, minutes, seconds, milliseconds.
/// A leap second has 1000 to 1999 milliseconds on top of second 59.
pub open spec fn is_time_of_day(h: u32, m: u32, s: u32, ms: u32) -> bool {
    h < 24 && m < 60 && s < 60 && (ms < 1000 || (s == 59 && ms < 2000))
}

/// A time of day on a day counted from the Unix epoch.
pub open spec fn on_day(day: int, h: u32, m: u32, s: u32, ms: u32) -> Moment {
    Moment {
        secs: (day * 86_400 + h * 3600 + m * 60 + s) as i64,
        frac: (ms * 1_000_000) as u32,
    }
}

/// A local wall-clock time: a date and a time of day.
pub open spec fn wall_clock(date: Seq<char>, h: u32, m: u32, s: u32, ms: u32) -> Result<
    Moment,
    Seq<char>,
> {
    match calendar_day(date, DATE_FORMAT@) {
        Err(e) => Err("Invalid date '"@ + date + "': "@ + e),
        Ok(day) => if is_time_of_day(h, m, s, ms) {
            Ok(on_day(day as int, h, m, s, ms))
        } else {
            Err("Invalid time for date '"@ + date + "'"@)
        },
    }
}

/// Reads a date and puts a time of day on it.
pub fn read_wall_clock(date: &str, h: u32, m: u32, s: u32, ms: u32) -> (r: Result<Moment, String>)
    ensures
        err_text(r) == wall_clock(date@, h, m, s, ms),
        r matches Ok(wall) ==> wall.valid(),
{
    match parse_day(date, DATE_FORMAT) {
        Err(e) => {
            Err(join4("Invalid date '", date, "': ", e.as_str()))
        },
        Ok(day) => {
            if h < 24 && m < 60 && s < 60 && (ms < 1000 || (s == 59 && ms < 2000)) {
                Ok(
                    Moment {
                        secs: day as i64 * 86_400 + h as i64 * 3600 + m as i64 * 60 + s as i64,
                        frac: ms * 1_000_000,
                    },
                )
            } else {
                Err(join3("Invalid time for date '", date, "'"))
            }
        },
    }
}

/// The moment of a wall-clock time at an offset, where it lies in the
/// calendar.
pub open spec fn at_offset(wall: Moment, offset: i32) -> Option<Moment> {
    if in_calendar(wall.secs - offset) {
        Some(Moment { secs: (wall.secs - offset) as i64, frac: wall.frac })
    } else {
        None
    }
}

/// The moment of a wall-clock time; the earlier of two, which is the one with
/// the larger offset.
pub open spec fn first_moment(wall: Moment, offsets: LocalOffsets) -> Option<Moment> {
    match offsets {
        LocalOffsets::Single(o) => at_offset(wall, o),
        LocalOffsets::Ambiguous(o, p) => if at_offset(wall, o) is None || at_offset(wall, p)
            is None {
            None
        } else if o < p {
            at_offset(wall, p)
        } else {
            at_offset(wall, o)
        },
        LocalOffsets::Missing => None,
    }
}

/// The moment of a wall-clock time, where there is exactly one.
pub open spec fn only_moment(wall: Moment, offsets: LocalOffsets) -> Option<Moment> {
    match offsets {
        LocalOffsets::Single(o) => at_offset(wall, o),
        _ => None,
    }
}

/// A wall-clock time one hour later, where it lies in the calendar.
pub open spec fn hour_later(wall: Moment) -> Option<Moment> {
    if in_calendar(wall.secs + 3600) {
        Some(Moment { secs: (wall.secs + 3600) as i64, frac: wall.frac % 1_000_000_000 })
    } else {
        None
    }
}

/// The moment of a wall-clock time: the earlier of two, and for a time that
/// clocks jump over the moment an hour later, where that is the only one.
/// `later` are the offsets of the hour later.
pub open spec fn resolved(wall: Moment, offsets: LocalOffsets, later: LocalOffsets) -> Option<
    Moment,
> {
    match first_moment(wall, offsets) {
        Some(m) => Some(m),
        None => match hour_later(wall) {
            Some(w) => only_moment(w, later),
            None => None,
        },
    }
}

fn shift_back(wall: Moment, offset: i32) -> (r: Option<Moment>)
    requires
        wall.valid(),
        is_offset(offset),
    ensures
        r == at_offset(wall, offset),
{
    let secs: i64 = wall.secs - offset as i64;
    if FIRST_SECOND <= secs && secs <= LAST_SECOND {
        Some(Moment { secs, frac: wall.frac })
    } else {
        None
    }
}

fn add_hour(wall: Moment) -> (r: Option<Moment>)
    requires
        wall.valid(),
    ensures
        r == hour_later(wall),
{
    let secs: i64 = wall.secs + 3600;
    if secs <= LAST_SECOND {
        Some(Moment { secs, frac: wall.frac % 1_000_000_000 })
    } else {
        None
    }
}

/// Decides the moment of a wall-clock time from its offsets and those of the
/// hour later.
pub fn resolve(wall: Moment, offsets: LocalOffsets, later: LocalOffsets) -> (r: Option<Moment>)
    requires
        wall.valid(),
        offsets.valid(),
        later.valid(),
    ensures
        r == resolved(wall, offsets, later),
{
    let first: Option<Moment> = match offsets {
        LocalOffsets::Single(o) => shift_back(wall, o),
        LocalOffsets::Ambiguous(o, p) => {
            let one: Option<Moment> = shift_back(wall, o);
            let other: Option<Moment> = shift_back(wall, p);
            if one.is_none() || other.is_none() {
                None
            } else if o < p {
                other
            } else {
                one
            }
        },
        LocalOffsets::Missing => None,
    };
    if first.is_some() {
        return first;
    }
    match add_hour(wall) {
        Some(w) => match later {
            LocalOffsets::Single(o) => shift_back(w, o),
            _ => None,
        },
        None => None,
    }
}

/// Decides the moment of a wall-clock time in the time zone of the machine.
pub fn resolve_here(wall: Moment) -> (r: Option<Moment>)
    requires
        wall.valid(),
    ensures
        exists|offsets: LocalOffsets, later: LocalOffsets|
            zone_at(wall.secs as int, offsets, later) && offsets.valid() && later.valid() && r
                == #[trigger] resolved(wall, offsets, later),
        r matches Some(m) ==> m.valid() && -86_400 < m.secs - wall.secs < 90_000,
{
    let offsets = local_offsets(wall.secs);
    let later = match add_hour(wall) {
        Some(w) => local_offsets(w.secs),
        None => LocalOffsets::Missing,
    };
    let r = resolve(wall, offsets, later);
    assert(zone_at(wall.secs as int, offsets, later));
    assert(r == resolved(wall, offsets, later));
    r
}

/// The day, counted from the Unix epoch, that a moment falls on where clocks
/// are `offset` seconds ahead of UTC.
pub open spec fn day_at_offset(m: Moment, offset: i32) -> int {
    (m.secs + offset) / 86_400
}

/// The start, in milliseconds since the Unix epoch and as if in UTC, of the
/// day that a moment falls on where clocks are `offset` seconds ahead of UTC.
pub fn day_start_ms(m: Moment, offset: i32) -> (r: i64)
    requires
        m.valid(),
        is_offset(offset),
    ensures
        r == day_at_offset(m, offset) * 86_400_000,
{
    let local: i64 = m.secs + offset as i64;
    let into_day: i64 = floor_mod(local, DAY);
    proof {
        vstd::arithmetic::div_mod::lemma_fundamental_div_mod(local as int, 86_400);
    }
    (local - into_day) * 1000
}

/// The moment of a wall-clock time, seen at the offset that was taken for it,
/// shows that very time: at the only offset, at the larger of two, and where
/// clocks jump over the time at the offset of the hour later, that hour later.
/// There is none only where none of these lies in the calendar.
pub proof fn law_moment_shows_the_wall_clock(
    wall: Moment,
    offsets: LocalOffsets,
    later: LocalOffsets,
)
    requires
        wall.valid(),
    ensures
        match offsets {
            LocalOffsets::Single(o) => FIRST_SECOND <= wall.secs - o <= LAST_SECOND ==> (resolved(
                wall,
                offsets,
                later,
            ) matches Some(m) && m.secs + o == wall.secs && m.frac == wall.frac),
            LocalOffsets::Ambiguous(o, p) => FIRST_SECOND <= wall.secs - o <= LAST_SECOND
                && FIRST_SECOND <= wall.secs - p <= LAST_SECOND ==> (resolved(
                wall,
                offsets,
                later,
            ) matches Some(m) && (m.secs + o == wall.secs || m.secs + p == wall.secs) && m.secs + o
                <= wall.secs && m.secs + p <= wall.secs && m.frac == wall.frac),
            LocalOffsets::Missing => match resolved(wall, offsets, later) {
                Some(m) => later matches LocalOffsets::Single(p) && m.secs + p == wall.secs + 3600
                    && m.frac == wall.frac as int % 1_000_000_000,
                None => wall.secs + 3600 > LAST_SECOND || !(later is Single) || !(FIRST_SECOND
                    <= wall.secs + 3600 - later->Single_0 <= LAST_SECOND),
            },
        },
{
}

/// A date and a time of day are that many hours, minutes, seconds and
/// milliseconds after the midnight that begins the date.
pub proof fn law_wall_clock_counts_from_midnight(
    date: Seq<char>,
    day: i32,
    h: u32,
    m: u32,
    s: u32,
    ms: u32,
)
    ensures
        calendar_day(date, DATE_FORMAT@) == Ok::<i32, Seq<char>>(day) && in_calendar(day * DAY)
            && in_calendar(day * DAY + DAY - 1) && h < 24 && m < 60 && s < 60 && ms < 1000 ==> (
        wall_clock(date, h, m, s, ms) matches Ok(wall) && wall.secs == day * 86_400 + h * 3600 + m
            * 60 + s && wall.frac == ms * 1_000_000),
        calendar_day(date, DATE_FORMAT@) is Err || h >= 24 || m >= 60 || s >= 60 || ms >= 2000
            ==> wall_clock(date, h, m, s, ms) is Err,
{
}

/// Of the two moments that a wall-clock time can be where clocks are set back,
/// the earlier one is taken, in whichever order the offsets come.
pub proof fn law_earlier_moment_is_taken(wall: Moment, o: i32, p: i32, later: LocalOffsets)
    requires
        at_offset(wall, o) is Some,
        at_offset(wall, p) is Some,
    ensures
        resolved(wall, LocalOffsets::Ambiguous(o, p), later) matches Some(m) && (m == at_offset(
            wall,
            o,
        )->0 || m == at_offset(wall, p)->0) && m.secs <= at_offset(wall, o)->0.secs && m.secs
            <= at_offset(wall, p)->0.secs,
        resolved(wall, LocalOffsets::Ambiguous(o, p), later) == resolved(
            wall,
            LocalOffsets::Ambiguous(p, o),
            later,
        ),
{
}

/// A local day on which clocks are not changed lasts from its first to its last
/// millisecond 86,399,999 milliseconds, whatever the time zone.
pub proof fn law_day_is_whole(day: int, offset: i32, later: LocalOffsets, later_still: LocalOffsets)
    requires
        in_calendar(day * DAY),
        in_calendar(day * DAY + DAY - 1),
        in_calendar(day * DAY - offset),
        in_calendar(day * DAY + DAY - 1 - offset),
    ensures
        resolved(on_day(day, 0, 0, 0, 0), LocalOffsets::Single(offset), later) matches Some(start)
            && resolved(
            on_day(day, 23, 59, 59, 999),
            LocalOffsets::Single(offset),
            later_still,
        ) matches Some(end) && end.millis() - start.millis() == 86_399_999,
{
}

}
