use gpxfilter::{load_gpx, write_gpx, Document, LoadError, Wpt, WriteError};

const THREE_WPTS: &str = r#"<?xml version="1.0" encoding="UTF-8"?>
<gpx version="1.1" creator="test">
<wpt lat="48" lon="16"><name>A</name><desc>2 x Combo Typ 2 (CCS)</desc><sym>Pin</sym></wpt>
<wpt lat="49" lon="17"><name>B</name><desc>slow plug</desc></wpt>
<wpt lat="50" lon="18"><name>C</name></wpt>
</gpx>"#;

const FIVE_WPTS: &str = r#"<?xml version="1.0" encoding="UTF-8"?>
<gpx version="1.1" creator="test">
<wpt lat="1" lon="1"><name>A</name></wpt>
<wpt lat="2" lon="2"><name>B</name></wpt>
<wpt lat="3" lon="3"><name>C</name></wpt>
<wpt lat="4" lon="4"><name>D</name></wpt>
<wpt lat="5" lon="5"><name>E</name></wpt>
</gpx>"#;

fn names(d: &Document) -> Vec<String> {
    d.waypoints
        .iter()
        .map(|w| w.name.clone().unwrap_or_default())
        .collect()
}

#[test]
fn load_reads_names_descriptions_symbols() {
    let d = load_gpx(THREE_WPTS.as_bytes()).unwrap();
    assert_eq!(d.waypoints.len(), 3);
    assert_eq!(names(&d), vec!["A".to_string(), "B".to_string(), "C".to_string()]);
    assert_eq!(
        d.waypoints[0].description,
        Some("2 x Combo Typ 2 (CCS)".to_string())
    );
    assert_eq!(d.waypoints[0].symbol, Some("Pin".to_string()));
    assert_eq!(d.waypoints[1].symbol, None);
    assert_eq!(d.waypoints[2].description, None);
}

#[test]
fn load_skips_utf8_byte_order_mark() {
    let mut bytes = vec![0xefu8, 0xbb, 0xbf];
    bytes.extend_from_slice(THREE_WPTS.as_bytes());
    let d = load_gpx(&bytes).unwrap();
    assert_eq!(d.waypoints.len(), 3);
}

#[test]
fn load_truncated_after_mark_fails() {
    let bytes = [0xffu8, 0xfe];
    let r = load_gpx(&bytes);
    assert!(matches!(r, Err(LoadError::Truncated)));
}

#[test]
fn load_malformed_input_fails_with_parse_error() {
    let r = load_gpx(b"this is no gpx document");
    assert!(matches!(r, Err(LoadError::Parse(_))));
}

#[test]
fn write_whole_document_to_one_file() {
    let d = load_gpx(THREE_WPTS.as_bytes()).unwrap();
    let files = write_gpx(&d, "out.gpx", &None).unwrap();
    assert_eq!(files.len(), 1);
    assert_eq!(files[0].path, "out.gpx");
    let back = load_gpx(&files[0].content).unwrap();
    assert_eq!(back.waypoints.len(), 3);
    assert_eq!(names(&back), vec!["A".to_string(), "B".to_string(), "C".to_string()]);
}

#[test]
fn write_in_batches_of_two() {
    let d = load_gpx(FIVE_WPTS.as_bytes()).unwrap();
    let files = write_gpx(&d, "out.gpx", &Some(2)).unwrap();
    assert_eq!(files.len(), 3);
    assert_eq!(files[0].path, "out_1.gpx");
    assert_eq!(files[1].path, "out_2.gpx");
    assert_eq!(files[2].path, "out_3.gpx");
    let mut collected: Vec<String> = Vec::new();
    let mut sizes: Vec<usize> = Vec::new();
    for f in &files {
        let part = load_gpx(&f.content).unwrap();
        sizes.push(part.waypoints.len());
        collected.extend(names(&part));
    }
    assert_eq!(sizes, vec![2, 2, 1]);
    let first = load_gpx(&files[0].content).unwrap();
    let p = first.waypoints[0].point.point();
    assert_eq!(p.x(), 1.0);
    assert_eq!(p.y(), 1.0);
    assert_eq!(
        collected,
        vec![
            "A".to_string(),
            "B".to_string(),
            "C".to_string(),
            "D".to_string(),
            "E".to_string()
        ]
    );
}

#[test]
fn write_with_large_or_zero_batch_stays_single() {
    let d = load_gpx(FIVE_WPTS.as_bytes()).unwrap();
    let files = write_gpx(&d, "out.gpx", &Some(10)).unwrap();
    assert_eq!(files.len(), 1);
    assert_eq!(files[0].path, "out.gpx");
    let d = load_gpx(FIVE_WPTS.as_bytes()).unwrap();
    let files = write_gpx(&d, "out.gpx", &Some(0)).unwrap();
    assert_eq!(files.len(), 1);
}

#[test]
fn round_trip_preserves_waypoint_fields() {
    let d = load_gpx(THREE_WPTS.as_bytes()).unwrap();
    let before: Vec<(Option<String>, Option<String>, Option<String>)> = d
        .waypoints
        .iter()
        .map(|w| (w.name.clone(), w.description.clone(), w.symbol.clone()))
        .collect();
    let files = write_gpx(&d, "out.gpx", &None).unwrap();
    let back = load_gpx(&files[0].content).unwrap();
    let after: Vec<(Option<String>, Option<String>, Option<String>)> = back
        .waypoints
        .iter()
        .map(|w| (w.name.clone(), w.description.clone(), w.symbol.clone()))
        .collect();
    assert_eq!(before, after);
}

#[test]
fn write_refuses_document_of_unknown_version() {
    let d = Document {
        base: gpx::Gpx::default(),
        waypoints: vec![Wpt {
            point: gpx::Waypoint::default(),
            name: Some("A".to_string()),
            description: None,
            symbol: None,
        }],
    };
    let r = write_gpx(&d, "out.gpx", &None);
    assert!(matches!(r, Err(WriteError::Serialize(_))));
}
