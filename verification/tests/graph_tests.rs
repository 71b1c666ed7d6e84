use chrono::NaiveTime;
use mmm::graph::{
    clock_now, clock_of_unix_time, gen_graph, seconds_between, graph_title, num_minutes, reading_points, sample_time, step_points, time_axis_label,
    GraphError, Sample, SampleTime, StepPoint,
};
use mmm::graph::SampleTime::{Offset, Start};

const HEADER: &str = "Time,Temperature (°C),Humidity,Status";

fn sample(time: SampleTime, on: bool) -> Sample {
    Sample { time, on }
}

fn point(time: SampleTime, on: bool) -> StepPoint {
    StepPoint { time, on }
}

#[test]
fn minutes_round_toward_zero() {
    assert_eq!(num_minutes(0), 0);
    assert_eq!(num_minutes(59), 0);
    assert_eq!(num_minutes(119), 1);
    assert_eq!(num_minutes(-59), 0);
    assert_eq!(num_minutes(-60), -1);
    assert_eq!(num_minutes(-61), -1);
    assert_eq!(num_minutes(-121), -2);
    assert_eq!(num_minutes(i64::MIN), i64::MIN / 60);
}

#[test]
fn readings_before_the_window_start_are_clamped() {
    assert_eq!(sample_time(-300, -10), SampleTime::Offset(-300));
    assert_eq!(sample_time(-600, -10), SampleTime::Start);
    assert_eq!(sample_time(-659, -10), SampleTime::Start);
    assert_eq!(sample_time(-539, -10), SampleTime::Offset(-539));
    assert_eq!(sample_time(0, 0), SampleTime::Start);
}

#[test]
fn step_line_of_changes() {
    let s = vec![
        sample(Offset(-500), false),
        sample(Offset(-400), false),
        sample(Offset(-300), true),
        sample(Offset(-200), true),
        sample(Offset(-100), true),
    ];
    assert_eq!(
        step_points(&s, -10),
        vec![
            point(Offset(-500), false),
            point(Offset(-300), false),
            point(Offset(-300), true),
            point(Offset(-100), true),
            point(Offset(0), true),
        ]
    );
}

#[test]
fn step_line_ends_at_last_reading_when_it_is_now() {
    let s = vec![sample(Offset(-60), true), sample(Offset(0), false)];
    assert_eq!(
        step_points(&s, -10),
        vec![point(Offset(-60), true), point(Offset(0), true), point(Offset(0), false)]
    );
    assert_eq!(step_points(&vec![], -10), vec![]);
    assert_eq!(step_points(&vec![sample(SampleTime::Start, true)], 0), vec![point(SampleTime::Start, true)]);
}

#[test]
fn step_line_is_made_of_level_and_vertical_pieces() {
    let s: Vec<Sample> = (0..12).map(|i| sample(Offset(-600 + 40 * i), (i * 7) % 3 == 0)).collect();
    let points = step_points(&s, -20);
    for w in points.windows(2) {
        assert!(w[0].time == w[1].time || w[0].on == w[1].on);
    }
    assert_eq!(points[0], point(s[0].time, s[0].on));
    assert_eq!(points.last().unwrap().on, s.last().unwrap().on);
}

#[test]
fn reading_points_repeat_the_last_reading_now() {
    assert_eq!(
        reading_points(&vec![Start, Offset(-30)], -5),
        vec![(Start, 0), (Offset(-30), 1), (Offset(0), 1)]
    );
    assert_eq!(reading_points(&vec![Offset(0)], -5), vec![(Offset(0), 0)]);
    assert_eq!(reading_points(&vec![], -5), vec![]);
}

#[test]
fn graph_of_a_log() {
    let text = format!(
        "{}\n2021-06-01T10:00:00+00:00,21.5,40,Off\n2021-06-01T11:00:00+02:00,22,41,On\n2021-06-01T12:00:00Z,23,42,On",
        HEADER
    );
    let data = gen_graph(&text, -100_000).unwrap();
    assert_eq!(data.samples.iter().map(|s| s.on).collect::<Vec<_>>(), vec![false, true, true]);
    assert_eq!(data.humidity, vec![40, 41, 42]);
    assert_eq!(data.temperature, vec!["21.5", "22", "23"]);
    let stamps = [(36_000, 0), (39_600, 0), (43_200, 0)];
    for i in 0..3 {
        let clock = data.clocks[i];
        assert!(clock.0 < 86_400 && clock.1 < 1_000_000_000);
        assert_eq!(data.samples[i].time, sample_time(seconds_between(stamps[i], clock), -100_000));
    }
    assert_eq!(data.status, step_points(&data.samples, -100_000));
    let times: Vec<SampleTime> = data.samples.iter().map(|s| s.time).collect();
    assert_eq!(data.readings, reading_points(&times, -100_000));
}

#[test]
fn graph_of_header_only_or_empty_log() {
    let data = gen_graph(HEADER, -10).unwrap();
    assert!(data.samples.is_empty() && data.status.is_empty() && data.readings.is_empty());
    assert!(gen_graph("", -10).unwrap().samples.is_empty());
}

#[test]
fn graph_refuses_a_bad_time() {
    let text = format!("{}\n2021-06-01T10:00:00+00:00,21,40,On\nyesterday,21,40,On", HEADER);
    assert_eq!(gen_graph(&text, -10).unwrap_err(), GraphError::BadLine { line: 2 });
}

#[test]
fn graph_refuses_a_short_line() {
    let text = format!("{}\n2021-06-01T10:00:00+00:00,On", HEADER);
    assert_eq!(gen_graph(&text, -10).unwrap_err(), GraphError::BadLine { line: 1 });
}

#[test]
fn graph_refuses_a_bad_humidity() {
    let text = format!("{}\n2021-06-01T10:00:00+00:00,21,300,On", HEADER);
    assert_eq!(gen_graph(&text, -10).unwrap_err(), GraphError::BadLine { line: 1 });
}

#[test]
fn titles() {
    assert_eq!(graph_title(1), "Status Over The Minute");
    assert_eq!(graph_title(10), "Status Over The 10 Minutes");
    assert_eq!(graph_title(0), "Status Over The 0 Minutes");
    assert_eq!(time_axis_label(1), "Past Minute");
    assert_eq!(time_axis_label(60), "Past 60 Minutes");
}

#[test]
fn appended_reading_is_read_back_by_the_graph() {
    for on in [true, false] {
        let text = format!(
            "{}{}",
            HEADER,
            mmm::status::log_line("2021-06-01T10:00:00+00:00", "21.5", "40", on)
        );
        let data = gen_graph(&text, -100_000).unwrap();
        assert_eq!(data.samples.len(), 1);
        assert_eq!(data.samples[0].on, on);
        assert_eq!(data.temperature, vec!["21.5"]);
        assert_eq!(data.humidity, vec![40]);
    }
}

#[test]
fn graph_refuses_a_bad_temperature() {
    let text = format!("{}\n2021-06-01T10:00:00+00:00,warm,40,On", HEADER);
    assert_eq!(gen_graph(&text, -10).unwrap_err(), GraphError::BadLine { line: 1 });
    let text = format!("{}\n2021-06-01T10:00:00+00:00,21,40,On\n2021-06-01T10:00:00+00:00,,40,On", HEADER);
    assert_eq!(gen_graph(&text, -10).unwrap_err(), GraphError::BadLine { line: 2 });
}

#[test]
fn seconds_between_follows_chrono() {
    let times = [
        (0u32, 0u32),
        (59, 0),
        (59, 1_500_000_000),
        (60, 0),
        (3_600, 250_000_000),
        (43_199, 999_999_999),
        (86_399, 0),
        (86_399, 1_999_999_999),
    ];
    for &a in &times {
        for &b in &times {
            let ta = NaiveTime::from_num_seconds_from_midnight_opt(a.0, a.1).unwrap();
            let tb = NaiveTime::from_num_seconds_from_midnight_opt(b.0, b.1).unwrap();
            assert_eq!(seconds_between(a, b), ta.signed_duration_since(tb).num_seconds(), "{:?} {:?}", a, b);
        }
    }
}

#[test]
fn clock_reads_a_time_of_day() {
    let c = clock_now().unwrap();
    assert!(c.0 < 86_400 && c.1 < 1_000_000_000);
}

#[test]
fn clock_of_unix_time_takes_the_time_of_day() {
    assert_eq!(clock_of_unix_time(0, 0), Some((0, 0)));
    assert_eq!(clock_of_unix_time(1_622_541_600, 250), Some((36_000, 250)));
    assert_eq!(clock_of_unix_time(86_400 * 3 + 59, 999_999_999), Some((59, 999_999_999)));
    assert_eq!(clock_of_unix_time(u64::MAX, 0), None);
    assert_eq!(clock_of_unix_time(i64::MAX as u64, 0), None);
}
