//! The sprinkler switch: its state, what switching on or off does to it, and
//! which way a toggle request drives the valve pin.

use vstd::prelude::*;
use crate::text::{chars_eq, chars_of};

verus! {

/// What a switch request did.
#[derive(Clone, Copy, Debug, PartialEq, Eq)]
pub enum Transition {
    /// The switch already was in the requested state; nothing is recorded.
    Unchanged,
    /// The switch changed state; the change is to be recorded.
    Switched,
}

/// The switch of the HTTP controller. Every change of state is recorded by
/// the caller, keyed by the time of the change.
#[derive(Debug)]
pub struct Switcher {
    pub state: bool,
}

/// What a request for state `target` does to a switch in state `state`.
pub open spec fn transition_spec(state: bool, target: bool) -> Transition {
    if state == target {
        Transition::Unchanged
    } else {
        Transition::Switched
    }
}

impl Switcher {
    /// A switch that is off.
    pub fn new() -> (s: Switcher)
        ensures
            !s.state,
    {
        Switcher { state: false }
    }

    /// Switches on. The result tells whether the state changed; it is never
    /// an error.
    pub fn on(&mut self) -> (res: Result<Transition, (String, usize)>)
        ensures
            final(self).state,
            res matches Ok(t) && t == transition_spec(old(self).state, true),
    {
        if self.state {
            Ok(Transition::Unchanged)
        } else {
            self.state = true;
            Ok(Transition::Switched)
        }
    }

    /// Switches off. The result tells whether the state changed; it is never
    /// an error.
    pub fn off(&mut self) -> (res: Result<Transition, (String, usize)>)
        ensures
            !final(self).state,
            res matches Ok(t) && t == transition_spec(old(self).state, false),
    {
        if self.state {
            self.state = false;
            Ok(Transition::Switched)
        } else {
            Ok(Transition::Unchanged)
        }
    }
}

/// A second request for the same state changes nothing: after any switch to
/// `target`, switching to `target` again is `Unchanged`; and a request
/// changes the state exactly when it asks for the other one.
pub proof fn lemma_switch_idempotent(state: bool, target: bool)
    ensures
        transition_spec(target, target) == Transition::Unchanged,
        (transition_spec(state, target) == Transition::Switched) <==> (state != target),
{
}

/// The text by which a switch state is recorded, as `bool::to_string` writes it.
pub open spec fn record_spec(on: bool) -> Seq<char> {
    if on {
        seq!['t', 'r', 'u', 'e']
    } else {
        seq!['f', 'a', 'l', 's', 'e']
    }
}

/// The text that records switch state `on`.
pub fn state_record(on: bool) -> (s: String)
    ensures
        s@ == record_spec(on),
{
    proof {
        reveal_strlit("true");
        reveal_strlit("false");
    }
    if on {
        String::from_str("true")
    } else {
        String::from_str("false")
    }
}

/// What `str::parse::<bool>` gives: `true` and `false` exactly, else nothing.
pub open spec fn parse_bool_spec(s: Seq<char>) -> Option<bool> {
    if s == record_spec(true) {
        Some(true)
    } else if s == record_spec(false) {
        Some(false)
    } else {
        None
    }
}

/// Reads a recorded switch state.
pub fn parse_bool(s: &str) -> (res: Option<bool>)
    ensures
        res == parse_bool_spec(s@),
{
    proof {
        reveal_strlit("true");
        reveal_strlit("false");
        assert("true"@ =~= record_spec(true));
        assert("false"@ =~= record_spec(false));
    }
    let chars = chars_of(s);
    if chars_eq(&chars, "true") {
        Some(true)
    } else if chars_eq(&chars, "false") {
        Some(false)
    } else {
        None
    }
}

/// A recorded state reads back as the state it records.
pub proof fn lemma_record_read_back(on: bool)
    ensures
        parse_bool_spec(record_spec(on)) == Some(on),
{
    assert(record_spec(true) != record_spec(false)) by {
        assert(record_spec(true).len() != record_spec(false).len());
    }
}

/// Which way a toggle drives the valve pin.
#[derive(Clone, Copy, Debug, PartialEq, Eq)]
pub enum PinCommand {
    TurnOff,
    TurnOn,
}

/// The state that a pin command puts the valve in.
pub open spec fn pin_target(c: PinCommand) -> bool {
    match c {
        PinCommand::TurnOff => false,
        PinCommand::TurnOn => true,
    }
}

/// The command that a toggle request gives when the valve is in state
/// `current`: off when it is on, on when it is off.
pub open spec fn toggle_spec(current: bool) -> PinCommand {
    if current {
        PinCommand::TurnOff
    } else {
        PinCommand::TurnOn
    }
}

/// Decides which way a toggle request drives the valve pin.
pub fn toggle(current: bool) -> (cmd: PinCommand)
    ensures
        cmd == toggle_spec(current),
        pin_target(cmd) == !current,
{
    if current {
        PinCommand::TurnOff
    } else {
        PinCommand::TurnOn
    }
}

/// Two toggles that succeed bring the valve back to the state it started in.
pub proof fn lemma_toggle_twice(current: bool)
    ensures
        pin_target(toggle_spec(pin_target(toggle_spec(current)))) == current,
{
}

} // verus!
