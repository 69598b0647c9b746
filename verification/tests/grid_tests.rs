use matrix_printing::grid::{calculate_grid_metrics, grid_metrics_from_text, GridMetrics};
use matrix_printing::numparse::parse_usize;

#[test]
fn metrics_divide_the_image_evenly() {
    let m = calculate_grid_metrics((100, 50), 10, 5, 4).unwrap();
    assert_eq!(
        m,
        GridMetrics { start_x: 0, start_y: 0, cell_width: 10, cell_height: 10, font_size: 6 }
    );
}

#[test]
fn metrics_round_cells_down_and_use_the_smaller_side() {
    let m = calculate_grid_metrics((1003, 2000), 10, 10, 4).unwrap();
    assert_eq!(m.cell_width, 100);
    assert_eq!(m.cell_height, 200);
    assert_eq!(m.font_size, 96);
}

#[test]
fn font_size_is_at_least_one() {
    let m = calculate_grid_metrics((10, 10), 10, 10, 4).unwrap();
    assert_eq!(m.font_size, 1);
    let m = calculate_grid_metrics((100, 100), 10, 10, -5).unwrap();
    assert_eq!(m.font_size, 15);
}

#[test]
fn zero_rows_or_columns_are_refused() {
    let e = calculate_grid_metrics((100, 100), 0, 10, 4).unwrap_err();
    assert_eq!(e, "Grid rows and columns must be positive integers");
    assert!(calculate_grid_metrics((100, 100), 10, 0, 4).is_err());
}

#[test]
fn metrics_from_text_need_an_image_and_positive_counts() {
    assert_eq!(grid_metrics_from_text(None, "10", "10"), None);
    assert_eq!(grid_metrics_from_text(Some((100, 100)), "abc", "10"), None);
    assert_eq!(grid_metrics_from_text(Some((100, 100)), "10", "0"), None);
    let m = grid_metrics_from_text(Some((300, 200)), "+15", "10").unwrap();
    assert_eq!(m.cell_width, 20);
    assert_eq!(m.cell_height, 20);
    assert_eq!(m.font_size, 16);
}

#[test]
fn parse_usize_matches_std() {
    for s in ["0", "7", "+7", "0012", "", "+", "-1", " 1", "1 ", "1a", "٣", "18446744073709551615", "18446744073709551616", "99999999999999999999999"] {
        assert_eq!(parse_usize(s), s.parse::<usize>().ok(), "input {:?}", s);
    }
    assert_eq!(parse_usize("123"), Some(123));
}

#[test]
fn metrics_from_text_without_an_image_take_any_count() {
    assert_eq!(grid_metrics_from_text(None, "4294967296", "10"), None);
}
