use matrix_printing::fonts::{find_font, has_font_extension, load_fonts};
use matrix_printing::config::initial_settings;
use matrix_printing::workflow::{
    missing_input, missing_input_message, preview_needs_redraw, preview_shows_text, MissingInput,
    PreviewInputs,
};

#[test]
fn font_files_are_known_by_extension() {
    for (name, expected) in [
        ("kai.ttf", true),
        ("Song.OTF", true),
        ("x.TtF", true),
        ("..ttf", true),
        (".ttf", false),
        ("font.ttf.bak", false),
        ("readme", false),
        ("a.tt", false),
        ("a.ttff", false),
        ("a.ttc", false),
    ] {
        assert_eq!(has_font_extension(name), expected, "{}", name);
    }
}

#[test]
fn find_font_gives_the_first_match() {
    let names = vec!["a.ttf".to_string(), "b.otf".to_string(), "b.otf".to_string()];
    assert_eq!(find_font(&names, "b.otf"), Some(1));
    assert_eq!(find_font(&names, "c.ttf"), None);
}

#[test]
fn missing_inputs_are_reported_in_order() {
    assert_eq!(missing_input(false, 5, 0), Some(MissingInput::Image));
    assert_eq!(missing_input(true, 0, 0), Some(MissingInput::Font));
    assert_eq!(missing_input(true, 1, 2), None);
    assert_eq!(missing_input_message(MissingInput::Image), "请先上传格子纸图片");
    assert_eq!(missing_input_message(MissingInput::Font), "请先选择字体");
}

#[test]
fn preview_text_needs_text_and_a_font() {
    assert!(preview_shows_text("字", 0, 1));
    assert!(!preview_shows_text("", 0, 1));
    assert!(!preview_shows_text("字", 1, 1));
}

#[test]
fn files_that_are_not_fonts_are_skipped() {
    let names = vec!["a.ttf".to_string(), "notes.txt".to_string(), "b.otf".to_string()];
    let datas = vec![Some(vec![0u8, 1, 2, 3]), Some(vec![]), None];
    assert!(load_fonts(&names, &datas).is_empty());
    assert!(load_fonts(&Vec::new(), &Vec::new()).is_empty());
}

#[test]
fn preview_is_redrawn_when_an_input_changes() {
    let a = PreviewInputs {
        settings: initial_settings(),
        text: "字".to_string(),
        first_line_indent: true,
        first_line_newline: false,
        output_size: 0,
        selected_font: 0,
        has_image: true,
    };
    assert!(preview_needs_redraw(&None, &a));
    assert!(!preview_needs_redraw(&Some(a.clone()), &a));
    let mut b = a.clone();
    b.settings.grid_rows = "12".to_string();
    assert!(preview_needs_redraw(&Some(a.clone()), &b));
    let mut c = a.clone();
    c.text.push('x');
    assert!(preview_needs_redraw(&Some(a), &c));
}
