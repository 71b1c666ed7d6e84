use mmm::route::{route, route_checked, Route};

#[test]
fn fixed_paths() {
    assert_eq!(route("/toggle"), Route::Toggle);
    assert_eq!(route("/state"), Route::State);
    assert_eq!(route("/clear"), Route::Clear);
    assert_eq!(route("/weather"), Route::Weather);
    assert_eq!(route("/data.csv"), Route::Data);
    assert_eq!(route("/favicon.ico"), Route::Favicon);
    assert_eq!(route("/Vulf_Sans-Regular.woff2"), Route::Font);
}

#[test]
fn graph_path() {
    assert_eq!(route("/graph_10_800x600.svg"), Route::Graph { length: 10, width: 800, height: 600 });
    assert_eq!(route("/graph_1_320x240"), Route::Graph { length: 1, width: 320, height: 240 });
}

#[test]
fn graph_length_defaults_to_one() {
    assert_eq!(route("/graph_ten_800x600.svg"), Route::Graph { length: 1, width: 800, height: 600 });
    assert_eq!(route("/graph__800x600.svg"), Route::Graph { length: 1, width: 800, height: 600 });
}

#[test]
fn graph_size_takes_first_and_last_parts() {
    assert_eq!(route("/g_5_800x1x600.svg"), Route::Graph { length: 5, width: 800, height: 600 });
}

#[test]
fn bad_graph_size_has_no_page() {
    assert_eq!(route_checked("/graph_10_wide.svg"), None);
    assert_eq!(route_checked("/graph_10_800xtall.svg"), None);
    assert_eq!(route_checked("/graph_10_x600.svg"), None);
    assert_eq!(route_checked("/g_10_800.svg"), None);
}

#[test]
fn anything_else_is_the_index() {
    assert_eq!(route("/"), Route::Index);
    assert_eq!(route("/a_b"), Route::Index);
    assert_eq!(route("/a_b_c_d"), Route::Index);
    assert_eq!(route_checked("/nothing"), Some(Route::Index));
}
