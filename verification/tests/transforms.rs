use gpxfilter::{format_dec, set_name_ccs_count, set_symbol, Document, Wpt};

fn wpt(name: Option<&str>, desc: Option<&str>, sym: Option<&str>) -> Wpt {
    Wpt {
        point: gpx::Waypoint::default(),
        name: name.map(|s| s.to_string()),
        description: desc.map(|s| s.to_string()),
        symbol: sym.map(|s| s.to_string()),
    }
}

fn doc(waypoints: Vec<Wpt>) -> Document {
    let mut base = gpx::Gpx::default();
    base.version = gpx::GpxVersion::Gpx11;
    Document { base, waypoints }
}

fn symbols(d: &Document) -> Vec<Option<String>> {
    d.waypoints.iter().map(|w| w.symbol.clone()).collect()
}

fn names(d: &Document) -> Vec<Option<String>> {
    d.waypoints.iter().map(|w| w.name.clone()).collect()
}

#[test]
fn set_symbol_overwrites_every_symbol() {
    let d = doc(vec![
        wpt(Some("A"), None, Some("old")),
        wpt(Some("B"), None, None),
    ]);
    let r = set_symbol("Bar", d);
    assert_eq!(
        symbols(&r),
        vec![Some("Bar".to_string()), Some("Bar".to_string())]
    );
    assert_eq!(names(&r), vec![Some("A".to_string()), Some("B".to_string())]);
}

#[test]
fn set_symbol_twice_equals_once() {
    let d = doc(vec![
        wpt(Some("A"), Some("d"), Some("old")),
        wpt(Some("B"), None, None),
    ]);
    let once = set_symbol("Pin", d);
    let names_once = names(&once);
    let symbols_once = symbols(&once);
    let twice = set_symbol("Pin", once);
    assert_eq!(names(&twice), names_once);
    assert_eq!(symbols(&twice), symbols_once);
}

#[test]
fn rename_replaces_power_prefix_with_count() {
    let d = doc(vec![wpt(
        Some("50kW Station"),
        Some("1 x Combo Typ 2 (CCS), 2 x Combo Typ 2 (CCS)"),
        None,
    )]);
    let r = set_name_ccs_count(d);
    assert_eq!(names(&r), vec![Some("3x Station".to_string())]);
}

#[test]
fn rename_leaves_name_without_prefix_unchanged() {
    let d = doc(vec![wpt(
        Some("Plain Station"),
        Some("2 x Combo Typ 2 (CCS)"),
        None,
    )]);
    let r = set_name_ccs_count(d);
    assert_eq!(names(&r), vec![Some("Plain Station".to_string())]);
}

#[test]
fn rename_counts_zero_without_markers() {
    let d = doc(vec![wpt(Some("150kW Hub"), None, None)]);
    let r = set_name_ccs_count(d);
    assert_eq!(names(&r), vec![Some("0x Hub".to_string())]);
}

#[test]
fn format_dec_writes_decimal_numerals() {
    assert_eq!(format_dec(0), "0");
    assert_eq!(format_dec(7), "7");
    assert_eq!(format_dec(10), "10");
    assert_eq!(format_dec(12345), "12345");
}
