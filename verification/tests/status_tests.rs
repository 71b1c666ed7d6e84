use mmm::status::{log_line, state, state_from_log, state_with_headers, status_body};
use mmm::switch::Transition;

const HEADER: &str = "Time,Temperature (°C),Humidity,Status";

#[test]
fn log_line_is_exact() {
    assert_eq!(
        log_line("2021-06-01T10:00:00+00:00", "21.5", "40", true),
        "\n2021-06-01T10:00:00+00:00,21.5,40,On"
    );
    assert_eq!(log_line("t", "0", "0", false), "\nt,0,0,Off");
}

#[test]
fn state_read_back_after_append() {
    for start in ["", HEADER, "garbage\nmore,On", "x,Off\n"] {
        for on in [true, false] {
            let text = format!("{}{}", start, log_line("2021-06-01T10:00:00+00:00", "21", "40", on));
            assert_eq!(state_from_log(&text), on, "log {:?}", text);
        }
    }
}

#[test]
fn state_of_empty_or_header_only_log_is_off() {
    assert!(!state_from_log(""));
    assert!(!state_from_log(HEADER));
    assert!(!state_from_log("\n"));
}

#[test]
fn state_reads_last_field_of_last_line() {
    assert!(state_from_log("a,On\n"));
    assert!(state_from_log("a,On\r\n"));
    assert!(state_from_log("On"));
    assert!(!state_from_log("a,On "));
    assert!(!state_from_log("a,On\nb,Off"));
    assert!(state_from_log("a,Off\nb,On"));
}

#[test]
fn state_bodies() {
    assert_eq!(state(true), "{\"state\":\"On\"}");
    assert_eq!(state(false), "{\"state\":\"Off\"}");
    assert_eq!(state_with_headers(false, None), "{\"state\":\"Off\"}");
    assert_eq!(
        state_with_headers(true, Some("no gpio".to_string())),
        "{\"state\":\"On\",\"error\":\"no gpio\"}"
    );
}

#[test]
fn status_bodies() {
    assert_eq!(status_body(&Ok(Transition::Switched)), "{\"status\":\"0\",\"message\":\"working!\"}");
    assert_eq!(status_body(&Ok(Transition::Unchanged)), "{\"status\":\"0\",\"message\":\"working!\"}");
    assert_eq!(
        status_body(&Err(("busy".to_string(), 503))),
        "{\"status\":\"503\",\"message\":\"busy\"}"
    );
}
