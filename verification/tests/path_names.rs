use gpxfilter::{change_file_name, file_stem};

#[test]
fn change_file_name_keeps_extension() {
    assert_eq!(change_file_name("a/b/out.gpx", "out_1"), "a/b/out_1.gpx");
}

#[test]
fn change_file_name_without_extension() {
    assert_eq!(change_file_name("a/b/out", "fresh"), "a/b/fresh");
}

#[test]
fn change_file_name_without_directory() {
    assert_eq!(change_file_name("out.gpx", "out_2"), "out_2.gpx");
}

#[test]
fn change_file_name_hidden_file_has_no_extension() {
    assert_eq!(change_file_name(".hidden", "fresh"), "fresh");
}

#[test]
fn file_stem_stops_at_last_dot() {
    assert_eq!(file_stem("a/archive.tar.gz"), "archive.tar");
    assert_eq!(file_stem("a/b/out.gpx"), "out");
    assert_eq!(file_stem("plain"), "plain");
}
