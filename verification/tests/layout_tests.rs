use matrix_printing::layout::{layout_paragraphs, PlacedChar};

fn cells(v: &[(char, usize, usize)]) -> Vec<PlacedChar> {
    v.iter().map(|&(ch, column, row)| PlacedChar { ch, column, row }).collect()
}

fn paras(v: &[&str]) -> Vec<String> {
    v.iter().map(|s| s.to_string()).collect()
}

#[test]
fn first_line_indent_wraps_and_new_paragraph_starts_a_row() {
    let r = layout_paragraphs(&paras(&["ab", "c"]), 3, true, false);
    assert_eq!(r, cells(&[('a', 2, 0), ('b', 0, 1), ('c', 2, 2)]));
}

#[test]
fn first_line_newline_moves_down_one_row() {
    let r = layout_paragraphs(&paras(&["ab"]), 5, false, true);
    assert_eq!(r, cells(&[('a', 0, 1), ('b', 1, 1)]));
}

#[test]
fn without_indent_the_first_paragraph_starts_at_column_zero() {
    let r = layout_paragraphs(&paras(&["abcd", "e"]), 3, false, false);
    assert_eq!(
        r,
        cells(&[('a', 0, 0), ('b', 1, 0), ('c', 2, 0), ('d', 0, 1), ('e', 2, 2)])
    );
}

#[test]
fn empty_paragraph_leaves_a_blank_row() {
    let r = layout_paragraphs(&paras(&["a", "", "b"]), 10, false, false);
    assert_eq!(r, cells(&[('a', 0, 0), ('b', 2, 2)]));
}

#[test]
fn zero_columns_puts_every_character_on_its_own_row() {
    let r = layout_paragraphs(&paras(&["xy"]), 0, false, false);
    assert_eq!(r, cells(&[('x', 0, 1), ('y', 0, 2)]));
}

#[test]
fn layout_keeps_text_order_columns_and_rows() {
    let ps = paras(&["春眠不觉晓", "处处闻啼鸟", "夜来风雨声"]);
    let r = layout_paragraphs(&ps, 4, true, true);
    let text: String = r.iter().map(|p| p.ch).collect();
    assert_eq!(text, ps.concat());
    for p in &r {
        assert!(p.column < 4);
    }
    for w in r.windows(2) {
        assert!((w[0].row, w[0].column) < (w[1].row, w[1].column));
    }
    let first_len = ps[0].chars().count();
    let last_row_of_first = r[first_len - 1].row;
    assert!(r[first_len..].iter().all(|p| p.row > last_row_of_first));
    assert_eq!(r[0], PlacedChar { ch: '春', column: 2, row: 1 });
}

#[test]
fn every_paragraph_begins_two_cells_in() {
    let ps = paras(&["一二三四五", "六", "七八"]);
    let r = layout_paragraphs(&ps, 3, false, false);
    assert_eq!(r[0].column, 0);
    assert_eq!(r[5], PlacedChar { ch: '六', column: 2, row: 2 });
    assert_eq!(r[6], PlacedChar { ch: '七', column: 2, row: 3 });
    assert_eq!(r[7], PlacedChar { ch: '八', column: 0, row: 4 });
}
