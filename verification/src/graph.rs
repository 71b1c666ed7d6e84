//! The data behind the status graph: the readings of the log placed on a time
//! axis that ends now, the on/off trace drawn as a step line, and the points of
//! the temperature and humidity lines.
//!
//! A reading's place on the axis is the seconds from the current UTC time of
//! day to the time of day of its timestamp. The timestamp is read by `chrono`;
//! the current time is whatever the clock says, so the graph returns the clock
//! readings it used, and its contract fixes the graph in terms of them.

use vstd::prelude::*;
use crate::status::{log_line_spec, state_word};
use crate::text::{
    chars_eq, chars_of, decimal, decimal_spec, float_text_spec, is_float_text, lemma_concat_free,
    lemma_split_join, lemma_split_no_sep, lemma_split_nonempty, lines_of, lines_spec,
    parse_unsigned, parse_unsigned_spec, pieces_view, split_chars, split_spec, string_of_chars,
};

verus! {

/// The time of day of the instant that `chrono::DateTime::parse_from_rfc3339`
/// reads from the text, in the text's own offset: whole seconds since
/// midnight and the fraction in nanoseconds (at least a second during a leap
/// second); `None` where the text is not RFC 3339.
pub uninterp spec fn rfc3339_clock(text: Seq<char>) -> Option<(u32, u32)>;

/// `chrono::DateTime::parse_from_rfc3339` on `field`, its result taken as a
/// time of day (`Timelike::num_seconds_from_midnight` and `nanosecond`).
#[verifier::external_body]
fn clock_of_rfc3339(field: &str) -> (res: Option<(u32, u32)>)
    ensures
        res == rfc3339_clock(field@),
{
    match chrono::DateTime::parse_from_rfc3339(field) {
        Ok(d) => Some((chrono::Timelike::num_seconds_from_midnight(&d), chrono::Timelike::nanosecond(&d))),
        Err(_) => None,
    }
}

/// Whether `chrono::DateTime::from_timestamp` accepts a Unix time: it does
/// where the date lies in chrono's range and the nanoseconds are a valid
/// fraction.
pub uninterp spec fn utc_timestamp_valid(secs: int, nanos: int) -> bool;

/// `chrono::DateTime::from_timestamp`, its result taken as a UTC time of day.
/// Where it gives a time, that time is the seconds of the day (`secs`
/// modulo 86400, rounded down) and the nanoseconds given. Chrono documents
/// its dates as reaching the year 262142, so every instant from 1970 to the
/// end of the year 9999 (253 402 300 800 seconds) with a fraction below a
/// second gives a time; the exact bounds of its range are left to the name.
#[verifier::external_body]
fn utc_clock_of_timestamp(secs: i64, nanos: u32) -> (res: Option<(u32, u32)>)
    ensures
        res is Some <==> utc_timestamp_valid(secs as int, nanos as int),
        res matches Some(c) ==> c.0 == secs as int % 86400 && c.1 == nanos,
        0 <= secs < 253_402_300_800 && nanos < 1_000_000_000 ==> res is Some,
{
    match chrono::DateTime::from_timestamp(secs, nanos) {
        Some(d) => Some((chrono::Timelike::num_seconds_from_midnight(&d), chrono::Timelike::nanosecond(&d))),
        None => None,
    }
}

/// `SystemTime::now().duration_since(UNIX_EPOCH)`: the time since the Unix
/// epoch as whole seconds and nanoseconds, `None` where the clock reads
/// before the epoch. The nanoseconds are below a second, as
/// `Duration::subsec_nanos` documents; the value is whatever the clock says.
#[verifier::external_body]
fn unix_time_now() -> (res: Option<(u64, u32)>)
    ensures
        res matches Some(d) ==> d.1 < 1_000_000_000,
{
    match std::time::SystemTime::now().duration_since(std::time::UNIX_EPOCH) {
        Ok(d) => Some((d.as_secs(), d.subsec_nanos())),
        Err(_) => None,
    }
}

/// `r` is a reading that the system clock gave: a value that
/// `unix_time_now` returned.
pub closed spec fn clock_read(r: Option<(u64, u32)>) -> bool {
    call_ensures(unix_time_now, (), r)
}

/// `r` is a result that `clock_now` gave.
pub open spec fn clock_gave(r: Option<(u32, u32)>) -> bool {
    call_ensures(clock_now, (), r)
}

/// A UTC time of day as the clock can give it: a second of the day and a
/// fraction below a second.
pub open spec fn valid_now(c: (u32, u32)) -> bool {
    c.0 < 86400 && c.1 < 1_000_000_000
}

/// The UTC time of day at `secs` seconds and `nanos` nanoseconds after the
/// Unix epoch, as `chrono::Utc::now().time()` turns a clock reading into one:
/// the seconds of the day and the nanoseconds, or `None` where chrono cannot
/// take the reading (past its range, or beyond `i64`).
pub open spec fn clock_of_unix_time_spec(secs: nat, nanos: nat) -> Option<(u32, u32)> {
    if secs <= i64::MAX && utc_timestamp_valid(secs as int, nanos as int) {
        Some(((secs % 86400) as u32, nanos as u32))
    } else {
        None
    }
}

/// Turns a clock reading, seconds and nanoseconds after the Unix epoch, into
/// a UTC time of day.
pub fn clock_of_unix_time(secs: u64, nanos: u32) -> (res: Option<(u32, u32)>)
    ensures
        res == clock_of_unix_time_spec(secs as nat, nanos as nat),
        secs < 253_402_300_800 && nanos < 1_000_000_000 ==> res is Some,
        res matches Some(c) ==> c.0 == secs % 86400 && c.1 == nanos,
{
    if secs > i64::MAX as u64 {
        return None;
    }
    utc_clock_of_timestamp(secs as i64, nanos)
}

/// Where chrono takes a clock reading, its time of day is the reading's
/// seconds modulo a day, with the reading's nanoseconds.
pub proof fn lemma_clock_is_time_of_day(secs: nat, nanos: nat)
    requires
        clock_of_unix_time_spec(secs, nanos) is Some,
        nanos <= u32::MAX,
    ensures
        ({
            let c = clock_of_unix_time_spec(secs, nanos)->0;
            c.0 == secs % 86400 && c.1 == nanos
        }),
{
}

/// The current UTC time of day, as `chrono::Utc::now().time()` gives it:
/// `None` where that call cannot give one (a clock before 1970 or past
/// chrono's range). Which time it is depends on the clock; what is done with
/// the reading is `clock_of_unix_time`.
pub fn clock_now() -> (res: Option<(u32, u32)>)
    ensures
        res matches Some(c) ==> valid_now(c),
        exists|r: Option<(u64, u32)>|
            #![trigger clock_read(r)]
            {
                &&& clock_read(r)
                &&& res == match r {
                    Some(d) => clock_of_unix_time_spec(d.0 as nat, d.1 as nat),
                    None => None,
                }
                &&& match r {
                    Some(d) => d.0 < 253_402_300_800 ==> res == Some(((d.0 % 86400) as u32, d.1)),
                    None => res is None,
                }
            },
{
    let read = unix_time_now;
    let r = read();
    assert(clock_read(r));
    match r {
        Some((secs, nanos)) => clock_of_unix_time(secs, nanos),
        None => None,
    }
}

/// The whole seconds from the time of day `now` to the time of day `t`,
/// rounded toward zero, as `NaiveTime::signed_duration_since` followed by
/// `TimeDelta::num_seconds` computes them: a leap second (a fraction of a
/// second or more) counts on the later side, and a fraction behind makes the
/// seconds one less.
pub open spec fn seconds_between_spec(t: (u32, u32), now: (u32, u32)) -> int {
    let adjust: int = if t.0 > now.0 && now.1 >= 1_000_000_000 {
        1
    } else if t.0 < now.0 && t.1 >= 1_000_000_000 {
        -1
    } else {
        0
    };
    let frac: int = t.1 - now.1;
    let whole = t.0 - now.0 + adjust + frac / 1_000_000_000;
    let nanos = frac % 1_000_000_000;
    if whole < 0 && nanos > 0 {
        whole + 1
    } else {
        whole
    }
}

proof fn lemma_shifted_division(frac: int)
    requires
        -5_000_000_000 <= frac,
    ensures
        (frac + 5_000_000_000) / 1_000_000_000 == frac / 1_000_000_000 + 5,
        (frac + 5_000_000_000) % 1_000_000_000 == frac % 1_000_000_000,
{
    let d: int = 1_000_000_000;
    vstd::arithmetic::div_mod::lemma_fundamental_div_mod(frac, d);
    vstd::arithmetic::div_mod::lemma_mod_pos_bound(frac + 5 * d, d);
    assert(0 <= frac % d < d);
    vstd::arithmetic::div_mod::lemma_fundamental_div_mod_converse(
        frac + 5 * d,
        d,
        frac / d + 5,
        frac % d,
    );
}

/// The whole seconds from the time of day `now` to the time of day `t`.
pub fn seconds_between(t: (u32, u32), now: (u32, u32)) -> (secs: i64)
    ensures
        secs == seconds_between_spec(t, now),
{
    let mut whole: i64 = t.0 as i64 - now.0 as i64;
    if t.0 > now.0 && now.1 >= 1_000_000_000 {
        whole = whole + 1;
    } else if t.0 < now.0 && t.1 >= 1_000_000_000 {
        whole = whole - 1;
    }
    let shifted: u64 = t.1 as u64 + 5_000_000_000 - now.1 as u64;
    proof {
        lemma_shifted_division(t.1 - now.1);
    }
    let q: u64 = shifted / 1_000_000_000;
    let r: u64 = shifted % 1_000_000_000;
    assert(q <= 9) by {
        assert(shifted < 10_000_000_000);
    }
    whole = whole + q as i64 - 5;
    if whole < 0 && r > 0 {
        whole + 1
    } else {
        whole
    }
}

/// Where a reading stands on the time axis, which ends at the present.
/// Positions compare times of day only: the date of a reading is not looked
/// at, so a reading from another day stands where its time of day falls
/// today.
#[derive(Clone, Copy, Debug, PartialEq, Eq)]
pub enum SampleTime {
    /// This many seconds from the current time of day to the reading's time
    /// of day (negative where the reading's time of day is earlier).
    Offset(i64),
    /// At the start of the window: the reading is older than the window.
    Start,
}

/// One reading of the log as the graph sees it.
#[derive(Clone, Copy, Debug, PartialEq, Eq)]
pub struct Sample {
    pub time: SampleTime,
    pub on: bool,
}

/// A corner of the on/off line: at `time`, at the "on" or the "off" level.
#[derive(Clone, Copy, Debug, PartialEq, Eq)]
pub struct StepPoint {
    pub time: SampleTime,
    pub on: bool,
}

/// Whole minutes in `seconds`, rounded toward zero (`TimeDelta::num_minutes`).
pub open spec fn minutes_spec(seconds: int) -> int {
    if seconds >= 0 {
        seconds / 60
    } else {
        -((-seconds) / 60)
    }
}

/// Whole minutes in `seconds`, rounded toward zero.
pub fn num_minutes(seconds: i64) -> (m: i64)
    ensures
        m == minutes_spec(seconds as int),
{
    if seconds >= 0 {
        seconds / 60
    } else if seconds > -60 {
        0
    } else {
        let rest: i64 = -(seconds + 60);
        -(rest / 60 + 1)
    }
}

/// The place of a reading taken `seconds` from now, in a window that starts
/// `window_start` minutes from now: readings at or before the window's first
/// minute are drawn at its start.
pub open spec fn sample_time_spec(seconds: int, window_start: int) -> SampleTime {
    if minutes_spec(seconds) > window_start {
        SampleTime::Offset(seconds as i64)
    } else {
        SampleTime::Start
    }
}

/// Places a reading taken `seconds` from now on the time axis.
pub fn sample_time(seconds: i64, window_start: i64) -> (t: SampleTime)
    ensures
        t == sample_time_spec(seconds as int, window_start as int),
{
    if num_minutes(seconds) > window_start {
        SampleTime::Offset(seconds)
    } else {
        SampleTime::Start
    }
}

/// Whether a place on the axis is its end, the present.
pub open spec fn at_window_end(t: SampleTime, window_start: int) -> bool {
    match t {
        SampleTime::Offset(s) => s == 0,
        SampleTime::Start => window_start == 0,
    }
}

fn is_window_end(t: SampleTime, window_start: i64) -> (res: bool)
    ensures
        res == at_window_end(t, window_start as int),
{
    match t {
        SampleTime::Offset(s) => s == 0,
        SampleTime::Start => window_start == 0,
    }
}

/// The corners that reading `k` of `s` adds to the on/off line: none where
/// it repeats the state before it (unless it is the first or the last), two
/// (the old level, then the new one, both at its time) where the state
/// changes, else one.
pub open spec fn corners_of(s: Seq<Sample>, k: int) -> Seq<StepPoint> {
    let cur = s[k];
    if k != s.len() - 1 && k != 0 && s[k - 1].on == cur.on {
        Seq::empty()
    } else if k != 0 && s[k - 1].on != cur.on {
        seq![StepPoint { time: cur.time, on: !cur.on }, StepPoint { time: cur.time, on: cur.on }]
    } else {
        seq![StepPoint { time: cur.time, on: cur.on }]
    }
}

/// The corners that the first `k` readings add.
pub open spec fn corners_upto(s: Seq<Sample>, k: nat) -> Seq<StepPoint>
    decreases k,
{
    if k == 0 {
        Seq::empty()
    } else {
        corners_upto(s, (k - 1) as nat) + corners_of(s, k - 1)
    }
}

/// The on/off line: the corners of all readings, then, where the last reading
/// is not at the end of the window, a corner at the present at its level.
pub open spec fn step_points_spec(s: Seq<Sample>, window_start: int) -> Seq<StepPoint> {
    let body = corners_upto(s, s.len());
    if s.len() != 0 && !at_window_end(s.last().time, window_start) {
        body.push(StepPoint { time: SampleTime::Offset(0), on: s.last().on })
    } else {
        body
    }
}

/// Builds the on/off line of the readings `s`.
pub fn step_points(s: &Vec<Sample>, window_start: i64) -> (points: Vec<StepPoint>)
    ensures
        points@ == step_points_spec(s@, window_start as int),
{
    let n = s.len();
    let mut points: Vec<StepPoint> = Vec::new();
    let mut k: usize = 0;
    while k < n
        invariant
            k <= n == s.len(),
            points@ == corners_upto(s@, k as nat),
        decreases n - k,
    {
        let cur = s[k];
        let ghost before = points@;
        if k != n - 1 && k != 0 && s[k - 1].on == cur.on {
            assert(corners_of(s@, k as int) =~= Seq::<StepPoint>::empty());
        } else if k != 0 && s[k - 1].on != cur.on {
            points.push(StepPoint { time: cur.time, on: !cur.on });
            points.push(StepPoint { time: cur.time, on: cur.on });
        } else {
            points.push(StepPoint { time: cur.time, on: cur.on });
        }
        assert(points@ =~= before + corners_of(s@, k as int));
        k = k + 1;
    }
    if n != 0 && !is_window_end(s[n - 1].time, window_start) {
        points.push(StepPoint { time: SampleTime::Offset(0), on: s[n - 1].on });
    }
    points
}

/// The points of a reading line (temperature or humidity): each reading at
/// its place, with the number of its reading, then, where the last reading is
/// not at the end of the window, the last reading again at the present.
pub open spec fn reading_points_spec(times: Seq<SampleTime>, window_start: int) -> Seq<
    (SampleTime, usize),
> {
    let body = Seq::new(times.len(), |i: int| (times[i], i as usize));
    if times.len() != 0 && !at_window_end(times.last(), window_start) {
        body.push((SampleTime::Offset(0), (times.len() - 1) as usize))
    } else {
        body
    }
}

/// Builds the points of a reading line from the places of the readings.
pub fn reading_points(times: &Vec<SampleTime>, window_start: i64) -> (points: Vec<(SampleTime, usize)>)
    ensures
        points@ == reading_points_spec(times@, window_start as int),
{
    let n = times.len();
    let mut points: Vec<(SampleTime, usize)> = Vec::new();
    let mut k: usize = 0;
    while k < n
        invariant
            k <= n == times.len(),
            points@ == Seq::new(k as nat, |i: int| (times@[i], i as usize)),
        decreases n - k,
    {
        points.push((times[k], k));
        assert(points@ =~= Seq::new((k + 1) as nat, |i: int| (times@[i], i as usize)));
        k = k + 1;
    }
    assert(points@ =~= Seq::new(times@.len(), |i: int| (times@[i], i as usize)));
    if n != 0 && !is_window_end(times[n - 1], window_start) {
        points.push((SampleTime::Offset(0), n - 1));
    }
    points
}


/// A line made of horizontal and vertical pieces only: every two neighbouring
/// corners share their time or their level.
pub open spec fn is_step_line(points: Seq<StepPoint>) -> bool {
    forall|i: int|
        #![trigger points[i]]
        0 <= i < points.len() - 1 ==> points[i].time == points[i + 1].time || points[i].on
            == points[i + 1].on
}

proof fn lemma_corners_upto_step(s: Seq<Sample>, k: nat)
    requires
        k <= s.len(),
    ensures
        is_step_line(corners_upto(s, k)),
        k > 0 ==> corners_upto(s, k).len() > 0 && corners_upto(s, k).last().on == s[k - 1].on,
        k > 0 ==> corners_upto(s, k)[0] == (StepPoint { time: s[0].time, on: s[0].on }),
    decreases k,
{
    if k > 0 {
        let j = (k - 1) as int;
        lemma_corners_upto_step(s, (k - 1) as nat);
        let before = corners_upto(s, (k - 1) as nat);
        let added = corners_of(s, j);
        let all = corners_upto(s, k);
        assert(all == before + added);
        assert forall|i: int| #![trigger all[i]] 0 <= i < all.len() - 1 implies all[i].time
            == all[i + 1].time || all[i].on == all[i + 1].on by {
            if i + 1 < before.len() {
                assert(all[i] == before[i]);
                assert(all[i + 1] == before[i + 1]);
            } else if i + 1 == before.len() {
                assert(all[i] == before.last());
                assert(all[i + 1] == added[0]);
            } else {
                assert(all[i] == added[i - before.len()]);
                assert(all[i + 1] == added[i + 1 - before.len()]);
            }
        }
        if j == 0 {
            assert(all[0] == added[0]);
        } else {
            assert(all[0] == before[0]);
        }
    }
}

/// The on/off line is a step line; it starts at the first reading, at its
/// level, and ends at the level of the last reading.
pub proof fn lemma_step_line(s: Seq<Sample>, window_start: int)
    requires
        s.len() > 0,
    ensures
        is_step_line(step_points_spec(s, window_start)),
        step_points_spec(s, window_start)[0] == (StepPoint { time: s[0].time, on: s[0].on }),
        step_points_spec(s, window_start).last().on == s.last().on,
{
    lemma_corners_upto_step(s, s.len());
    let body = corners_upto(s, s.len());
    let all = step_points_spec(s, window_start);
    if !at_window_end(s.last().time, window_start) {
        assert forall|i: int| #![trigger all[i]] 0 <= i < all.len() - 1 implies all[i].time
            == all[i + 1].time || all[i].on == all[i + 1].on by {
            if i + 1 < body.len() {
                assert(all[i] == body[i]);
                assert(all[i + 1] == body[i + 1]);
            }
        }
    }
}


/// The readings of a log: its lines after the first, which names the columns.
pub open spec fn data_rows(text: Seq<char>) -> Seq<Seq<char>> {
    let lines = lines_spec(text);
    if lines.len() == 0 {
        lines
    } else {
        lines.drop_first()
    }
}

/// A reading line that the graph can use: at least a time, a temperature and
/// a humidity field, the time in RFC 3339, the temperature a float as
/// `str::parse` reads one, and the humidity a `u8`.
pub open spec fn row_valid(row: Seq<char>) -> bool {
    let fields = split_spec(row, ',');
    &&& fields.len() >= 3
    &&& rfc3339_clock(fields[0]) is Some
    &&& float_text_spec(fields[1])
    &&& parse_unsigned_spec(fields[2], 255) is Some
}

/// Whether every reading line of a log is valid.
pub open spec fn all_rows_valid(rows: Seq<Seq<char>>) -> bool {
    forall|i: int| 0 <= i < rows.len() ==> row_valid(#[trigger] rows[i])
}

/// The time of day of a valid reading line, from its first field.
pub open spec fn row_clock(row: Seq<char>) -> (u32, u32) {
    rfc3339_clock(split_spec(row, ',')[0])->0
}

/// The state of a reading line: its last field is `On`.
pub open spec fn row_on(row: Seq<char>) -> bool {
    split_spec(row, ',').last() == state_word(true)
}

/// The humidity of a valid reading line, its third field.
pub open spec fn row_humidity(row: Seq<char>) -> nat {
    parse_unsigned_spec(split_spec(row, ',')[2], 255)->0
}

/// Everything the graph of a log shows but the temperatures as numbers,
/// which the caller reads from `temperature`.
#[derive(Debug)]
pub struct GraphData {
    /// The readings in log order.
    pub samples: Vec<Sample>,
    /// The UTC time of day by which each reading was placed.
    pub clocks: Vec<(u32, u32)>,
    /// The humidity of each reading.
    pub humidity: Vec<u8>,
    /// The temperature field of each reading, as the log holds it.
    pub temperature: Vec<String>,
    /// The on/off line.
    pub status: Vec<StepPoint>,
    /// The points of the temperature and humidity lines, each with the number
    /// of the reading whose value it shows.
    pub readings: Vec<(SampleTime, usize)>,
}

/// Why the log cannot be drawn. Either error means the graph request cannot
/// be answered at all: the server gives up on it rather than draw part of
/// the log.
#[derive(Clone, Copy, Debug, PartialEq, Eq)]
pub enum GraphError {
    /// Line `line` of the log is not a valid reading: it has fewer than three
    /// fields, or its time, temperature or humidity does not read.
    BadLine { line: usize },
    /// The system clock gives no time of day.
    ClockUnavailable,
}

/// The places of the readings on the time axis.
pub open spec fn sample_times(s: Seq<Sample>) -> Seq<SampleTime> {
    s.map_values(|x: Sample| x.time)
}

/// The readings of valid reading lines `rows`, each placed by the clock
/// reading with the same number: at the seconds from that time of day to the
/// time of day of its timestamp, in the window that starts `window_start`
/// minutes from now.
pub open spec fn placed_samples(rows: Seq<Seq<char>>, clocks: Seq<(u32, u32)>, window_start: int) -> Seq<
    Sample,
> {
    Seq::new(
        rows.len(),
        |i: int|
            Sample {
                time: sample_time_spec(seconds_between_spec(row_clock(rows[i]), clocks[i]), window_start),
                on: row_on(rows[i]),
            },
    )
}

/// What a valid reading line holds.
struct Row {
    stamp: (u32, u32),
    on: bool,
    humidity: u8,
    temperature: String,
}

/// Reads a reading line, `None` where it is not valid.
fn read_row(line: &Vec<char>) -> (res: Option<Row>)
    ensures
        res is Some <==> row_valid(line@),
        res matches Some(r) ==> {
            &&& r.stamp == row_clock(line@)
            &&& r.on == row_on(line@)
            &&& r.humidity as nat == row_humidity(line@)
            &&& r.temperature@ == split_spec(line@, ',')[1]
        },
{
    let fields = split_chars(line, ',');
    proof {
        lemma_split_nonempty(line@, ',');
    }
    let m = fields.len();
    if m < 3 {
        return None;
    }
    assert(fields@[0]@ == split_spec(line@, ',')[0]);
    assert(fields@[1]@ == split_spec(line@, ',')[1]);
    assert(fields@[2]@ == split_spec(line@, ',')[2]);
    assert(fields@[m - 1]@ == split_spec(line@, ',').last());
    let time_field = string_of_chars(&fields[0]);
    let stamp = match clock_of_rfc3339(time_field.as_str()) {
        Some(c) => c,
        None => {
            return None;
        },
    };
    if !is_float_text(&fields[1]) {
        return None;
    }
    let temperature = string_of_chars(&fields[1]);
    let humidity = match parse_unsigned(&fields[2], 255) {
        Some(h) => h as u8,
        None => {
            return None;
        },
    };
    proof {
        reveal_strlit("On");
        assert("On"@ =~= state_word(true));
    }
    let on = chars_eq(&fields[m - 1], "On");
    Some(Row { stamp, on, humidity, temperature })
}

/// Reads the log `text` and builds the data of its graph over a window that
/// starts `window_start` minutes from now. Each reading is placed by the
/// seconds from the current UTC time of day, read from the clock for that
/// reading, to the time of day of its timestamp. The first line names the
/// columns and is never read. A log with a line that is not a valid reading
/// has no graph: the result is then `BadLine`, which stands for a request the
/// server does not answer.
pub fn gen_graph(text: &str, window_start: i64) -> (res: Result<GraphData, GraphError>)
    ensures
        (res matches Err(GraphError::BadLine { .. })) <==> !all_rows_valid(data_rows(text@)),
        res matches Err(GraphError::BadLine { line }) ==> {
            let rows = data_rows(text@);
            &&& 1 <= line <= rows.len()
            &&& !row_valid(rows[line - 1])
            &&& forall|i: int| 0 <= i < line - 1 ==> row_valid(#[trigger] rows[i])
        },
        res matches Err(GraphError::ClockUnavailable) ==> data_rows(text@).len() > 0 && clock_gave(
            None,
        ),
        res matches Ok(d) ==> {
            let rows = data_rows(text@);
            &&& d.samples.len() == rows.len()
            &&& d.clocks.len() == rows.len()
            &&& d.humidity.len() == rows.len()
            &&& d.temperature.len() == rows.len()
            &&& d.samples@ == placed_samples(rows, d.clocks@, window_start as int)
            &&& forall|i: int|
                0 <= i < rows.len() ==> {
                    &&& valid_now(#[trigger] d.clocks@[i])
                    &&& clock_gave(Some(d.clocks@[i]))
                    &&& d.humidity@[i] == row_humidity(rows[i])
                    &&& d.temperature@[i]@ == split_spec(rows[i], ',')[1]
                }
            &&& d.status@ == step_points_spec(d.samples@, window_start as int)
            &&& d.readings@ == reading_points_spec(sample_times(d.samples@), window_start as int)
        },
{
    let chars = chars_of(text);
    let lines = lines_of(&chars);
    let ghost rows = data_rows(text@);
    let n = lines.len();
    let count: usize = if n == 0 { 0 } else { n - 1 };
    assert(rows.len() == count);
    let mut parsed: Vec<Row> = Vec::new();
    let mut k: usize = 0;
    while k < count
        invariant
            count == rows.len(),
            n == lines.len(),
            count > 0 ==> count == n - 1,
            pieces_view(lines@) == lines_spec(text@),
            rows == data_rows(text@),
            k <= count,
            parsed.len() == k,
            forall|j: int| 0 <= j < k ==> row_valid(#[trigger] rows[j]),
            forall|j: int|
                0 <= j < k ==> {
                    &&& (#[trigger] parsed@[j]).stamp == row_clock(rows[j])
                    &&& parsed@[j].on == row_on(rows[j])
                    &&& parsed@[j].humidity as nat == row_humidity(rows[j])
                    &&& parsed@[j].temperature@ == split_spec(rows[j], ',')[1]
                },
        decreases count - k,
    {
        assert(rows[k as int] == lines@[k + 1]@);
        let row = match read_row(&lines[k + 1]) {
            Some(r) => r,
            None => {
                return Err(GraphError::BadLine { line: k + 1 });
            },
        };
        parsed.push(row);
        k = k + 1;
    }
    let mut samples: Vec<Sample> = Vec::new();
    let mut clocks: Vec<(u32, u32)> = Vec::new();
    let mut humidity: Vec<u8> = Vec::new();
    let mut temperature: Vec<String> = Vec::new();
    let mut times: Vec<SampleTime> = Vec::new();
    let mut j: usize = 0;
    while j < count
        invariant
            count == rows.len(),
            rows == data_rows(text@),
            all_rows_valid(rows),
            parsed.len() == count,
            j <= count,
            samples.len() == j,
            clocks.len() == j,
            humidity.len() == j,
            temperature.len() == j,
            times@ == sample_times(samples@),
            forall|i: int| 0 <= i < j ==> clock_gave(Some(#[trigger] clocks@[i])),
            forall|i: int|
                j <= i < count ==> {
                    &&& (#[trigger] parsed@[i]).stamp == row_clock(rows[i])
                    &&& parsed@[i].on == row_on(rows[i])
                    &&& parsed@[i].humidity as nat == row_humidity(rows[i])
                    &&& parsed@[i].temperature@ == split_spec(rows[i], ',')[1]
                },
            forall|i: int|
                0 <= i < j ==> {
                    &&& (#[trigger] samples@[i]).on == row_on(rows[i])
                    &&& valid_now(clocks@[i])
                    &&& samples@[i].time == sample_time_spec(
                        seconds_between_spec(row_clock(rows[i]), clocks@[i]),
                        window_start as int,
                    )
                    &&& humidity@[i] == row_humidity(rows[i])
                    &&& temperature@[i]@ == split_spec(rows[i], ',')[1]
                },
        decreases count - j,
    {
        let read = clock_now;
        let now = match read() {
            Some(c) => c,
            None => {
                return Err(GraphError::ClockUnavailable);
            },
        };
        let stamp = parsed[j].stamp;
        let on = parsed[j].on;
        let level = parsed[j].humidity;
        let mut reading = String::new();
        std::mem::swap(&mut reading, &mut parsed[j].temperature);
        let time = sample_time(seconds_between(stamp, now), window_start);
        let ghost samples0 = samples@;
        let ghost clocks0 = clocks@;
        let ghost humidity0 = humidity@;
        let ghost temperature0 = temperature@;
        samples.push(Sample { time, on });
        clocks.push(now);
        humidity.push(level);
        temperature.push(reading);
        times.push(time);
        assert(times@ =~= sample_times(samples@));
        assert forall|i: int| 0 <= i < j + 1 implies {
            &&& (#[trigger] samples@[i]).on == row_on(rows[i])
            &&& valid_now(clocks@[i])
            &&& samples@[i].time == sample_time_spec(
                seconds_between_spec(row_clock(rows[i]), clocks@[i]),
                window_start as int,
            )
            &&& humidity@[i] == row_humidity(rows[i])
            &&& temperature@[i]@ == split_spec(rows[i], ',')[1]
        } by {
            if i < j {
                assert(samples@[i] == samples0[i]);
                assert(clocks@[i] == clocks0[i]);
                assert(clock_gave(Some(clocks0[i])));
                assert(humidity@[i] == humidity0[i]);
                assert(temperature@[i] == temperature0[i]);
            }
        }
        j = j + 1;
    }
    assert(samples@ =~= placed_samples(rows, clocks@, window_start as int));
    assert forall|i: int| 0 <= i < rows.len() implies {
        &&& valid_now(#[trigger] clocks@[i])
        &&& clock_gave(Some(clocks@[i]))
        &&& humidity@[i] == row_humidity(rows[i])
        &&& temperature@[i]@ == split_spec(rows[i], ',')[1]
    } by {
        assert(samples@[i].on == row_on(rows[i]));
    }
    let status = step_points(&samples, window_start);
    let readings = reading_points(&times, window_start);
    Ok(GraphData { samples, clocks, humidity, temperature, status, readings })
}

/// The name of a window of `length` minutes: `Minute` for one, else the
/// number and `Minutes`.
pub open spec fn window_name(length: nat) -> Seq<char> {
    if length == 1 {
        "Minute"@
    } else {
        decimal_spec(length) + " Minutes"@
    }
}

fn window_name_of(length: usize) -> (name: String)
    ensures
        name@ == window_name(length as nat),
{
    if length == 1 {
        String::from_str("Minute")
    } else {
        let mut name = decimal(length as u64);
        name.append(" Minutes");
        name
    }
}

/// The title of the graph of a window of `length` minutes.
pub fn graph_title(length: usize) -> (title: String)
    ensures
        title@ == "Status Over The "@ + window_name(length as nat),
{
    let name = window_name_of(length);
    let mut title = String::from_str("Status Over The ");
    title.append(name.as_str());
    title
}

/// The label of the time axis of the graph of a window of `length` minutes.
pub fn time_axis_label(length: usize) -> (label: String)
    ensures
        label@ == "Past "@ + window_name(length as nat),
{
    let name = window_name_of(length);
    let mut label = String::from_str("Past ");
    label.append(name.as_str());
    label
}


proof fn lemma_one_char_free(x: char, c: char)
    requires
        x != c,
    ensures
        !seq![x].contains(c),
{
    if seq![x].contains(c) {
        let k = choose|k: int| 0 <= k < 1 && seq![x][k] == c;
    }
}

proof fn lemma_word_free(on: bool, c: char)
    requires
        c == ',' || c == '\n',
    ensures
        !state_word(on).contains(c),
{
    let w = state_word(on);
    if w.contains(c) {
        let k = choose|k: int| 0 <= k < w.len() && w[k] == c;
    }
}

/// What the log writer appends, the graph reads back: the appended record is
/// the last reading of the log, and its fields are the time, temperature,
/// humidity and state that were written, where the first three hold no comma
/// and no line break.
pub proof fn lemma_reading_read_back(
    text: Seq<char>,
    now: Seq<char>,
    temperature: Seq<char>,
    humidity: Seq<char>,
    on: bool,
)
    requires
        !now.contains(','),
        !now.contains('\n'),
        !temperature.contains(','),
        !temperature.contains('\n'),
        !humidity.contains(','),
        !humidity.contains('\n'),
    ensures
        ({
            let rows = data_rows(text + log_line_spec(now, temperature, humidity, on));
            &&& rows.len() > 0
            &&& split_spec(rows.last(), ',') == seq![now, temperature, humidity, state_word(on)]
            &&& row_on(rows.last()) == on
        }),
{
    let word = state_word(on);
    let tail3 = humidity + seq![','] + word;
    let tail2 = temperature + seq![','] + tail3;
    let record = now + seq![','] + tail2;
    let full = text + log_line_spec(now, temperature, humidity, on);
    assert(full =~= text + seq!['\n'] + record);
    lemma_word_free(on, ',');
    lemma_word_free(on, '\n');
    lemma_one_char_free(',', '\n');
    lemma_concat_free(humidity, seq![','], '\n');
    lemma_concat_free(humidity + seq![','], word, '\n');
    lemma_concat_free(temperature, seq![','], '\n');
    lemma_concat_free(temperature + seq![','], tail3, '\n');
    lemma_concat_free(now, seq![','], '\n');
    lemma_concat_free(now + seq![','], tail2, '\n');
    lemma_split_no_sep(record, '\n');
    lemma_split_join(text, record, '\n');
    lemma_split_nonempty(text, '\n');
    let pieces = split_spec(full, '\n');
    assert(pieces.last() == record);
    assert(full.last() == word.last());
    let lines = lines_spec(full);
    assert(lines.len() == pieces.len());
    assert(lines.last() == record);
    assert(data_rows(full).last() == record);
    lemma_split_no_sep(now, ',');
    lemma_split_no_sep(temperature, ',');
    lemma_split_no_sep(humidity, ',');
    lemma_split_no_sep(word, ',');
    lemma_split_join(humidity, word, ',');
    lemma_split_join(temperature, tail3, ',');
    lemma_split_join(now, tail2, ',');
    assert(split_spec(record, ',') =~= seq![now, temperature, humidity, word]);
}



proof fn lemma_corners_end_at_last(s: Seq<Sample>)
    requires
        s.len() > 0,
    ensures
        corners_upto(s, s.len()).len() > 0,
        corners_upto(s, s.len()).last() == (StepPoint { time: s.last().time, on: s.last().on }),
{
    let k = (s.len() - 1) as int;
    let added = corners_of(s, k);
    assert(corners_upto(s, s.len()) == corners_upto(s, (s.len() - 1) as nat) + added);
    assert(added.last() == (StepPoint { time: s[k].time, on: s[k].on }));
}

/// In a window of nonzero length the on/off line always reaches the present:
/// its last corner is now, at the level of the last reading, whether that
/// reading lies inside the window or before its start.
pub proof fn lemma_step_line_reaches_now(s: Seq<Sample>, window_start: int)
    requires
        s.len() > 0,
        window_start != 0,
    ensures
        step_points_spec(s, window_start).last() == (StepPoint {
            time: SampleTime::Offset(0),
            on: s.last().on,
        }),
{
    lemma_corners_end_at_last(s);
}

/// In a window of nonzero length the temperature and humidity lines always
/// reach the present: their last point is now, showing the last reading;
/// before it stands each reading in order at its own place.
pub proof fn lemma_reading_line_reaches_now(times: Seq<SampleTime>, window_start: int)
    requires
        times.len() > 0,
        times.len() <= usize::MAX,
        window_start != 0,
    ensures
        reading_points_spec(times, window_start).last() == (
            SampleTime::Offset(0),
            (times.len() - 1) as usize,
        ),
        forall|i: int|
            0 <= i < times.len() ==> #[trigger] reading_points_spec(times, window_start)[i] == (
                times[i],
                i as usize,
            ),
{
}

} // verus!
