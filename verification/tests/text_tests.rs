use matrix_printing::text::split_text_paragraphs;

fn owned(v: &[&str]) -> Vec<String> {
    v.iter().map(|s| s.to_string()).collect()
}

#[test]
fn splits_on_every_kind_of_line_break() {
    let r = split_text_paragraphs("第一段\r\n  第二段  \n\n\r第三段\r");
    assert_eq!(r, owned(&["第一段", "第二段", "第三段"]));
}

#[test]
fn lone_carriage_return_breaks_a_line() {
    assert_eq!(split_text_paragraphs("a\rb"), owned(&["a", "b"]));
}

#[test]
fn trims_unicode_white_space() {
    let r = split_text_paragraphs("\u{3000}甲 乙\u{a0}\t\n\u{2003}\u{85}");
    assert_eq!(r, owned(&["甲 乙"]));
}

#[test]
fn empty_and_blank_text_give_no_paragraphs() {
    assert!(split_text_paragraphs("").is_empty());
    assert!(split_text_paragraphs(" \r\n\t\n \u{3000}").is_empty());
}

#[test]
fn inner_white_space_is_kept() {
    assert_eq!(split_text_paragraphs("  a  b  "), owned(&["a  b"]));
}

#[test]
fn paragraphs_are_stable_when_joined_again() {
    let first = split_text_paragraphs(" one \r\n\r\n two\rthree  \n");
    let again = split_text_paragraphs(&first.join("\n"));
    assert_eq!(first, again);
    assert_eq!(first, owned(&["one", "two", "three"]));
}

#[test]
fn paragraphs_are_clean() {
    let r = split_text_paragraphs("x \n\r\n y\u{2028}z \r w");
    for p in &r {
        assert!(!p.is_empty());
        assert_eq!(p.trim(), p.as_str());
        assert!(!p.contains('\n') && !p.contains('\r'));
    }
    assert_eq!(r, owned(&["x", "y\u{2028}z", "w"]));
}

#[test]
fn paragraphs_survive_a_crlf_join_and_resplitting_one_by_one() {
    let r = split_text_paragraphs(" 甲乙 \n\n丙\r丁  ");
    assert_eq!(split_text_paragraphs(&r.join("\r\n")), r);
    for p in &r {
        assert_eq!(split_text_paragraphs(p), vec![p.clone()]);
    }
}

#[test]
fn a_line_break_separates_paragraphs() {
    let (a, b) = ("one \r\n two\r", "\n three \n");
    let joined = split_text_paragraphs(&format!("{}\n{}", a, b));
    assert_eq!(joined, [split_text_paragraphs(a), split_text_paragraphs(b)].concat());
}

#[test]
fn line_ending_style_does_not_matter() {
    let text = "a\r\nb\rc\n\r\nd";
    let r = split_text_paragraphs(text);
    assert_eq!(split_text_paragraphs(&text.replace("\r\n", "\n")), r);
    assert_eq!(split_text_paragraphs(&text.replace('\r', "\n")), r);
    assert_eq!(split_text_paragraphs(&text.replace('\n', "\r\n")), r);
    assert_eq!(r, owned(&["a", "b", "c", "d"]));
}
