use mmm::store::{data_csv, get_data};

#[test]
fn history_reads_back_in_key_order() {
    let text = "'2021-06-01 10:00:00 UTC': 'true'\n'2021-06-01 09:00:00 UTC': 'false'\n";
    assert_eq!(
        get_data(text),
        Some(vec![
            ("2021-06-01 09:00:00 UTC".to_string(), false),
            ("2021-06-01 10:00:00 UTC".to_string(), true),
        ])
    );
}

#[test]
fn empty_history() {
    assert_eq!(get_data("{}\n"), Some(vec![]));
}

#[test]
fn history_with_a_bad_state_is_refused() {
    assert_eq!(get_data("a: 'maybe'\n"), None);
    assert_eq!(get_data("a: 'True'\n"), None);
}

#[test]
fn text_that_is_not_a_mapping_is_refused() {
    assert_eq!(get_data("- a\n- b\n"), None);
    assert_eq!(get_data("a: [1, 2]\n"), None);
}

#[test]
fn data_csv_is_exact() {
    let entries = vec![("t1".to_string(), true), ("t2".to_string(), false)];
    assert_eq!(data_csv(&entries), "t1,on\nt2,off\n");
    assert_eq!(data_csv(&vec![]), "");
}
