//! The status log that the controller appends to on every switch, the state
//! read back from it at start-up, and the small JSON bodies of the status
//! endpoints.

use vstd::prelude::*;
use crate::switch::Transition;
use crate::text::{
    chars_eq, chars_of, decimal, decimal_spec, lemma_split_append, lemma_split_nonempty, lines_of, lines_spec, split_chars,
    split_spec,
};

verus! {

/// The word by which the log records a state.
pub open spec fn state_word(on: bool) -> Seq<char> {
    if on {
        seq!['O', 'n']
    } else {
        seq!['O', 'f', 'f']
    }
}

fn state_str(on: bool) -> (s: &'static str)
    ensures
        s@ == state_word(on),
{
    proof {
        reveal_strlit("On");
        reveal_strlit("Off");
    }
    if on {
        "On"
    } else {
        "Off"
    }
}

/// The record appended to the log for one reading: a line break, then the
/// time, temperature, humidity and state, separated by commas.
pub open spec fn log_line_spec(
    now: Seq<char>,
    temperature: Seq<char>,
    humidity: Seq<char>,
    on: bool,
) -> Seq<char> {
    seq!['\n'] + now + seq![','] + temperature + seq![','] + humidity + seq![','] + state_word(on)
}

/// Builds the record that is appended to the log for one reading.
pub fn log_line(now: &str, temperature: &str, humidity: &str, on: bool) -> (line: String)
    ensures
        line@ == log_line_spec(now@, temperature@, humidity@, on),
{
    proof {
        reveal_strlit("\n");
        reveal_strlit(",");
    }
    let mut line = String::from_str("\n");
    line.append(now);
    line.append(",");
    line.append(temperature);
    line.append(",");
    line.append(humidity);
    line.append(",");
    line.append(state_str(on));
    line
}

/// The state that the log records last: the last field of its last line is
/// `On`. An empty log reads as the line `Off`.
pub open spec fn state_from_log_spec(text: Seq<char>) -> bool {
    let lines = lines_spec(text);
    let line = if lines.len() == 0 {
        state_word(false)
    } else {
        lines.last()
    };
    split_spec(line, ',').last() == state_word(true)
}

/// Reads the switch state that the log records last.
pub fn state_from_log(text: &str) -> (on: bool)
    ensures
        on == state_from_log_spec(text@),
{
    let chars = chars_of(text);
    let lines = lines_of(&chars);
    let line: Vec<char> = if lines.len() == 0 {
        chars_of(state_str(false))
    } else {
        let mut lines = lines;
        let last = lines.pop().unwrap();
        last
    };
    let fields = split_chars(&line, ',');
    proof {
        lemma_split_nonempty(line@, ',');
    }
    let n = fields.len();
    let last = &fields[n - 1];
    assert(last@ == split_spec(line@, ',').last());
    chars_eq(last, state_str(true))
}

/// Whatever the log held before, appending the record of a reading makes the
/// log read back as the state that the record holds.
pub proof fn lemma_state_read_back(
    text: Seq<char>,
    now: Seq<char>,
    temperature: Seq<char>,
    humidity: Seq<char>,
    on: bool,
)
    ensures
        state_from_log_spec(text + log_line_spec(now, temperature, humidity, on)) == on,
{
    let word = state_word(on);
    let full = text + log_line_spec(now, temperature, humidity, on);
    let a = text + seq!['\n'] + now + seq![','] + temperature + seq![','] + humidity;
    let b = seq![','] + word;
    assert(full =~= a + b);
    assert(!b.contains('\n')) by {
        if b.contains('\n') {
            let k = choose|k: int| 0 <= k < b.len() && b[k] == '\n';
            assert(b[k] == '\n');
        }
    }
    assert(full.last() == word.last());
    lemma_split_append(a, b, '\n');
    lemma_split_nonempty(full, '\n');
    let x = split_spec(a, '\n').last();
    let line = split_spec(full, '\n').last();
    assert(lines_spec(full).last() == line);
    assert(line == x + b);
    assert(line =~= x.push(',') + word);
    assert(!word.contains(',')) by {
        if word.contains(',') {
            let k = choose|k: int| 0 <= k < word.len() && word[k] == ',';
            assert(word[k] == ',');
        }
    }
    lemma_split_append(x.push(','), word, ',');
    assert(x.push(',').drop_last() =~= x);
    assert(split_spec(x.push(','), ',').last() =~= Seq::<char>::empty());
    assert(split_spec(line, ',').last() =~= word);
    if !on {
        assert(word.len() != state_word(true).len());
    }
}


/// The JSON body that reports the switch state.
pub open spec fn state_body_spec(on: bool) -> Seq<char> {
    "{\"state\":\""@ + state_word(on) + "\"}"@
}

/// The body of the state endpoint: `{"state":"On"}` or `{"state":"Off"}`.
pub fn state(on: bool) -> (body: String)
    ensures
        body@ == state_body_spec(on),
{
    let mut body = String::from_str("{\"state\":\"");
    body.append(state_str(on));
    body.append("\"}");
    body
}

/// The body of the toggle endpoint: the state the valve is in, and the error
/// that kept it from switching, if there was one.
pub fn state_with_headers(on: bool, error: Option<String>) -> (body: String)
    ensures
        body@ == match error {
            Some(e) => "{\"state\":\""@ + state_word(on) + "\",\"error\":\""@ + e@ + "\"}"@,
            None => state_body_spec(on),
        },
{
    match error {
        Some(e) => {
            let mut body = String::from_str("{\"state\":\"");
            body.append(state_str(on));
            body.append("\",\"error\":\"");
            body.append(e.as_str());
            body.append("\"}");
            body
        },
        None => state(on),
    }
}

/// The body that answers a switch request of the HTTP controller: status 0
/// and `working!` on success, else the error's code and message.
pub fn status_body(res: &Result<Transition, (String, usize)>) -> (body: String)
    ensures
        body@ == match res {
            Ok(_) => "{\"status\":\"0\",\"message\":\"working!\"}"@,
            Err((message, code)) => "{\"status\":\""@ + decimal_spec(*code as nat)
                + "\",\"message\":\""@ + message@ + "\"}"@,
        },
{
    match res {
        Ok(_) => String::from_str("{\"status\":\"0\",\"message\":\"working!\"}"),
        Err((message, code)) => {
            let mut body = String::from_str("{\"status\":\"");
            let digits = decimal(*code as u64);
            body.append(digits.as_str());
            body.append("\",\"message\":\"");
            body.append(message.as_str());
            body.append("\"}");
            body
        },
    }
}

} // verus!
