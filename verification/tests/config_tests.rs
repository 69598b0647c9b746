use matrix_printing::config::{
    apply_settings_document, initial_settings, manual_load_fallbacks, settings_document,
    startup_fallbacks,
};

#[test]
fn preset_overrides_the_fields_it_holds() {
    let mut s = initial_settings();
    let read = apply_settings_document(
        &mut s,
        r#"{"start_x": "12.5", "font_size": 3, "grid_rows": "8", "other": "x"}"#,
        &manual_load_fallbacks(),
    );
    assert!(read);
    assert_eq!(s.start_x, "12.5");
    assert_eq!(s.font_size, "");
    assert_eq!(s.grid_rows, "8");
    assert_eq!(s.start_y, "");
    assert_eq!(s.offset_x, "1");
    assert_eq!(s.line_thickness, "2");
}

#[test]
fn fallbacks_apply_to_members_that_are_not_strings() {
    let doc = r#"{"start_x": 1, "offset_x": null, "line_thickness": [2]}"#;
    let mut s = initial_settings();
    assert!(apply_settings_document(&mut s, doc, &manual_load_fallbacks()));
    assert_eq!(s.start_x, "0.0");
    assert_eq!(s.offset_x, "1");
    assert_eq!(s.line_thickness, "1.0");
    let mut t = initial_settings();
    assert!(apply_settings_document(&mut t, doc, &startup_fallbacks()));
    assert_eq!(t.start_x, "");
}

#[test]
fn text_that_is_not_json_changes_nothing() {
    let mut s = initial_settings();
    s.grid_columns = "20".to_string();
    let before = s.clone();
    assert!(!apply_settings_document(&mut s, "{not json", &manual_load_fallbacks()));
    assert_eq!(s, before);
}

#[test]
fn json_that_is_not_an_object_changes_nothing_but_is_read() {
    let mut s = initial_settings();
    let before = s.clone();
    assert!(apply_settings_document(&mut s, "[1, 2]", &manual_load_fallbacks()));
    assert_eq!(s, before);
}

#[test]
fn reading_a_preset_twice_is_reading_it_once() {
    let doc = r#"{"cell_width": "30.0", "offset_y": 5}"#;
    let mut once = initial_settings();
    apply_settings_document(&mut once, doc, &manual_load_fallbacks());
    let mut twice = once.clone();
    apply_settings_document(&mut twice, doc, &manual_load_fallbacks());
    assert_eq!(once, twice);
    assert_eq!(once.cell_width, "30.0");
    assert_eq!(once.offset_y, "-1");
}

#[test]
fn a_saved_preset_loads_back() {
    let mut s = initial_settings();
    s.start_x = "12.5".to_string();
    s.grid_columns = "20".to_string();
    s.font_size = "say \"hi\"".to_string();
    let doc = settings_document(&s);
    let value: serde_json::Value = serde_json::from_str(&doc).unwrap();
    assert_eq!(value["grid_columns"], "20");
    assert_eq!(value.as_object().unwrap().len(), 10);
    let mut loaded = manual_load_fallbacks();
    assert!(apply_settings_document(&mut loaded, &doc, &manual_load_fallbacks()));
    assert_eq!(loaded, s);
}
