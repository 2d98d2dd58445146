use ron_config::{ConfigSource, ConfigValue, FileConfigSource, SegmentedPath, StringConfigSource};

#[test]
fn string_source_parses_its_text() {
    let s = StringConfigSource::new("(foo: 1)");
    let v = s.get_value().expect("parses");
    let expected = ConfigValue::Table(vec![(
        ConfigValue::Text("foo".to_string()),
        ConfigValue::Int(1),
    )]);
    assert_eq!(v, expected);
}

#[test]
fn string_source_with_bad_text_yields_nothing() {
    let s = StringConfigSource::new("(foo: ");
    assert!(s.get_value().is_none());
}

#[test]
fn file_source_remembers_path() {
    let f = FileConfigSource::new("settings.ron".to_string());
    assert_eq!(f.path(), "settings.ron");
}

#[test]
fn get_segments_splits_on_dots() {
    let segs = "a.b.c".to_string().get_segments();
    assert_eq!(segs, vec!["a", "b", "c"]);
}
