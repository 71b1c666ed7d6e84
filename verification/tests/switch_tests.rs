use mmm::switch::{parse_bool, state_record, toggle, PinCommand, Switcher, Transition};

#[test]
fn switcher_starts_off() {
    assert!(!Switcher::new().state);
}

#[test]
fn switching_on_twice_switches_once() {
    let mut s = Switcher::new();
    assert_eq!(s.on(), Ok(Transition::Switched));
    assert!(s.state);
    assert_eq!(s.on(), Ok(Transition::Unchanged));
    assert!(s.state);
}

#[test]
fn switching_off_when_on_and_off() {
    let mut s = Switcher::new();
    assert_eq!(s.off(), Ok(Transition::Unchanged));
    assert!(!s.state);
    s.on().unwrap();
    assert_eq!(s.off(), Ok(Transition::Switched));
    assert!(!s.state);
}

#[test]
fn toggle_drives_the_pin_the_other_way() {
    assert_eq!(toggle(true), PinCommand::TurnOff);
    assert_eq!(toggle(false), PinCommand::TurnOn);
}

#[test]
fn toggle_twice_returns_to_the_start() {
    for start in [true, false] {
        let after_one = toggle(start) == PinCommand::TurnOn;
        let after_two = toggle(after_one) == PinCommand::TurnOn;
        assert_eq!(after_two, start);
    }
}

#[test]
fn records_read_back() {
    assert_eq!(state_record(true), "true");
    assert_eq!(state_record(false), "false");
    for on in [true, false] {
        assert_eq!(parse_bool(&state_record(on)), Some(on));
    }
}

#[test]
fn parse_bool_takes_only_the_two_words() {
    assert_eq!(parse_bool("True"), None);
    assert_eq!(parse_bool(""), None);
    assert_eq!(parse_bool("true "), None);
    assert_eq!(parse_bool("yes"), None);
}
