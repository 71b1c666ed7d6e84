//! The switch history of the HTTP controller: the YAML mapping from the time
//! of each change to the recorded state, read back as states, and the CSV
//! that the data endpoint serves from it.

use vstd::prelude::*;
use crate::switch::{parse_bool, parse_bool_spec};

verus! {

/// The entries that `serde_yaml::from_str` finds in `text` when it reads it as
/// a mapping from strings to strings, in key order, or `None` where it fails.
pub uninterp spec fn yaml_string_map(text: Seq<char>) -> Option<Seq<(Seq<char>, Seq<char>)>>;

/// `serde_yaml::from_str` into a `BTreeMap<String, String>`, its entries
/// taken out in key order. The contract names the result and states that no
/// key comes twice, as a map holds each key once.
#[verifier::external_body]
fn yaml_entries(text: &str) -> (res: Option<Vec<(String, String)>>)
    ensures
        res is Some <==> yaml_string_map(text@) is Some,
        res matches Some(v) ==> v.deep_view() == yaml_string_map(text@)->0,
        res matches Some(v) ==> forall|i: int, j: int|
            0 <= i < j < v.len() ==> v@[i].0@ != v@[j].0@,
{
    let map: Option<std::collections::BTreeMap<String, String>> = serde_yaml::from_str(text).ok();
    map.map(|m| m.into_iter().collect())
}

/// Whether every recorded value of a history reads as a state.
pub open spec fn all_states(entries: Seq<(Seq<char>, Seq<char>)>) -> bool {
    forall|i: int| 0 <= i < entries.len() ==> (#[trigger] parse_bool_spec(entries[i].1)) is Some
}

/// Reads the switch history `text`: each change time with the state that
/// was recorded for it. `None` where the text is not a mapping of strings or
/// a recorded value is not `true` or `false`: such a history cannot be read
/// at all, and the server gives up on the request rather than serve part of
/// it.
pub fn get_data(text: &str) -> (res: Option<Vec<(String, bool)>>)
    ensures
        res is Some <==> (yaml_string_map(text@) is Some && all_states(
            yaml_string_map(text@)->0,
        )),
        res matches Some(v) ==> {
            let entries = yaml_string_map(text@)->0;
            &&& v.len() == entries.len()
            &&& forall|i: int|
                0 <= i < v.len() ==> (#[trigger] v@[i]).0@ == entries[i].0 && Some(v@[i].1)
                    == parse_bool_spec(entries[i].1)
            &&& forall|i: int, j: int| 0 <= i < j < v.len() ==> v@[i].0@ != v@[j].0@
        },
{
    let entries = match yaml_entries(text) {
        Some(e) => e,
        None => {
            return None;
        },
    };
    let ghost view = yaml_string_map(text@)->0;
    let mut out: Vec<(String, bool)> = Vec::new();
    let mut i: usize = 0;
    while i < entries.len()
        invariant
            i <= entries.len(),
            entries.deep_view() == view,
            view == yaml_string_map(text@)->0,
            yaml_string_map(text@) is Some,
            forall|a: int, b: int|
                0 <= a < b < entries.len() ==> entries@[a].0@ != entries@[b].0@,
            out.len() == i,
            forall|k: int|
                0 <= k < i ==> (#[trigger] out@[k]).0@ == view[k].0 && Some(out@[k].1)
                    == parse_bool_spec(view[k].1),
            forall|k: int| 0 <= k < i ==> (#[trigger] parse_bool_spec(view[k].1)) is Some,
        decreases entries.len() - i,
    {
        assert(entries@[i as int].1@ == view[i as int].1);
        assert(entries@[i as int].0@ == view[i as int].0);
        let state = match parse_bool(entries[i].1.as_str()) {
            Some(b) => b,
            None => {
                assert(parse_bool_spec(view[i as int].1) is None);
                assert(!all_states(view));
                return None;
            },
        };
        let key = entries[i].0.clone();
        out.push((key, state));
        i = i + 1;
    }
    assert forall|a: int, b: int| 0 <= a < b < out.len() implies out@[a].0@ != out@[b].0@ by {
        assert(out@[a].0@ == view[a].0);
        assert(out@[b].0@ == view[b].0);
        assert(entries@[a].0@ == view[a].0);
        assert(entries@[b].0@ == view[b].0);
    }
    Some(out)
}

/// The CSV that the data endpoint serves: a line `TIME,on` or `TIME,off` for
/// each entry, in order.
pub open spec fn data_csv_spec(entries: Seq<(Seq<char>, bool)>) -> Seq<char>
    decreases entries.len(),
{
    if entries.len() == 0 {
        Seq::empty()
    } else {
        let last = entries.last();
        data_csv_spec(entries.drop_last()) + last.0 + ","@ + (if last.1 {
            "on"@
        } else {
            "off"@
        }) + "\n"@
    }
}

/// Writes the history as the CSV of the data endpoint.
pub fn data_csv(entries: &Vec<(String, bool)>) -> (csv: String)
    ensures
        csv@ == data_csv_spec(entries.deep_view()),
{
    let mut csv = String::new();
    let mut i: usize = 0;
    while i < entries.len()
        invariant
            i <= entries.len(),
            csv@ == data_csv_spec(entries.deep_view().take(i as int)),
        decreases entries.len() - i,
    {
        let ghost before = entries.deep_view().take(i as int);
        assert(entries.deep_view().take(i + 1).drop_last() =~= before);
        csv.append(entries[i].0.as_str());
        csv.append(",");
        if entries[i].1 {
            csv.append("on");
        } else {
            csv.append("off");
        }
        csv.append("\n");
        i = i + 1;
    }
    assert(entries.deep_view().take(entries.len() as int) =~= entries.deep_view());
    csv
}

} // verus!
