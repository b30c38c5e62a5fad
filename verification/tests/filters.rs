use gpxfilter::{
    filter_wpt_by_ccs_count, filter_wpt_by_description, sum_ccs, try_filter_wpt_by_description,
    Document, Wpt, DEFAULT_FILTER,
};

fn wpt(name: Option<&str>, desc: Option<&str>, sym: Option<&str>) -> Wpt {
    Wpt {
        point: gpx::Waypoint::default(),
        name: name.map(|s| s.to_string()),
        description: desc.map(|s| s.to_string()),
        symbol: sym.map(|s| s.to_string()),
    }
}

fn doc(waypoints: Vec<Wpt>) -> Document {
    let mut base = gpx::Gpx::default();
    base.version = gpx::GpxVersion::Gpx11;
    Document { base, waypoints }
}

fn names(d: &Document) -> Vec<String> {
    d.waypoints
        .iter()
        .map(|w| w.name.clone().unwrap_or_default())
        .collect()
}

#[test]
fn description_filter_keeps_matches_in_order() {
    let d = doc(vec![
        wpt(Some("A"), Some("fast charger"), None),
        wpt(Some("B"), Some("slow plug"), None),
        wpt(Some("C"), Some("another charger"), None),
    ]);
    let r = filter_wpt_by_description("charger", d);
    assert_eq!(names(&r), vec!["A".to_string(), "C".to_string()]);
}

#[test]
fn description_filter_treats_missing_description_as_empty() {
    let d = doc(vec![
        wpt(Some("A"), Some("charger"), None),
        wpt(Some("B"), None, None),
    ]);
    let r = filter_wpt_by_description("charger", d);
    assert_eq!(names(&r), vec!["A".to_string()]);
}

#[test]
fn description_filter_empty_pattern_keeps_all() {
    let d = doc(vec![
        wpt(Some("A"), Some("anything"), None),
        wpt(Some("B"), None, None),
    ]);
    let r = filter_wpt_by_description("", d);
    assert_eq!(names(&r), vec!["A".to_string(), "B".to_string()]);
}

#[test]
fn try_filter_rejects_invalid_pattern() {
    let d = doc(vec![wpt(Some("A"), Some("x"), None)]);
    let r = try_filter_wpt_by_description("(", d);
    assert!(r.is_none());
}

#[test]
fn try_filter_accepts_valid_pattern() {
    let d = doc(vec![
        wpt(Some("A"), Some("charger"), None),
        wpt(Some("B"), Some("plug"), None),
    ]);
    let r = try_filter_wpt_by_description("charger", d).unwrap();
    assert_eq!(names(&r), vec!["A".to_string()]);
}

#[test]
fn default_filter_selects_two_to_thirty_nine_chargers() {
    let d = doc(vec![
        wpt(Some("one"), Some("1 x Combo Typ 2 (CCS)"), None),
        wpt(Some("three"), Some("3 x Combo Typ 2 (CCS)"), None),
        wpt(Some("twelve"), Some("12 x Combo Typ 2 (CCS)"), None),
        wpt(Some("forty"), Some("40 x Combo Typ 2 (CCS)"), None),
    ]);
    let r = filter_wpt_by_description(DEFAULT_FILTER, d);
    assert_eq!(names(&r), vec!["three".to_string(), "twelve".to_string()]);
}

#[test]
fn ccs_filter_scenario_keeps_only_counted_waypoint() {
    let d = doc(vec![
        wpt(Some("first"), Some("2 x Combo Typ 2 (CCS)"), None),
        wpt(Some("second"), Some("0 x Combo Typ 2 (CCS)"), None),
        wpt(Some("third"), None, None),
    ]);
    let r = filter_wpt_by_ccs_count(1, 5, d);
    assert_eq!(names(&r), vec!["first".to_string()]);
}

#[test]
fn ccs_filter_bounds_are_inclusive() {
    let d = doc(vec![
        wpt(Some("two"), Some("2 x Combo Typ 2 (CCS)"), None),
        wpt(Some("three"), Some("3 x Combo Typ 2 (CCS)"), None),
        wpt(Some("four"), Some("4 x Combo Typ 2 (CCS)"), None),
    ]);
    let r = filter_wpt_by_ccs_count(2, 3, d);
    assert_eq!(names(&r), vec!["two".to_string(), "three".to_string()]);
}

#[test]
fn ccs_filter_zero_range_keeps_unmatched_and_missing() {
    let d = doc(vec![
        wpt(Some("none"), Some("no marker here"), None),
        wpt(Some("bare"), None, None),
        wpt(Some("two"), Some("2 x Combo Typ 2 (CCS)"), None),
    ]);
    let r = filter_wpt_by_ccs_count(0, 0, d);
    assert_eq!(names(&r), vec!["none".to_string(), "bare".to_string()]);
}

#[test]
fn sum_ccs_adds_every_occurrence() {
    let total = sum_ccs("2 x Combo Typ 2 (CCS) and also 1 x Combo Typ 2 (CCS)");
    assert_eq!(total, 3);
}

#[test]
fn sum_ccs_of_plain_text_is_zero() {
    assert_eq!(sum_ccs(""), 0);
    assert_eq!(sum_ccs("nothing to count"), 0);
    assert_eq!(sum_ccs("0 x Combo Typ 2 (CCS)"), 0);
}
