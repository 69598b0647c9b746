use matrix_printing::canvas::{black, letterbox, place_centred, red, white, Canvas, Rgba};

fn grey(v: u8) -> Rgba {
    Rgba { r: v, g: v, b: v, a: 255 }
}

fn painted(c: &Canvas, color: Rgba) -> Vec<(u32, u32)> {
    let mut v = Vec::new();
    for y in 0..c.height() {
        for x in 0..c.width() {
            if c.get(x, y) == color {
                v.push((x, y));
            }
        }
    }
    v
}

#[test]
fn new_canvas_is_filled() {
    let c = Canvas::new_filled(3, 2, grey(7));
    assert_eq!(c.width(), 3);
    assert_eq!(c.height(), 2);
    assert!(c.pixel_data().iter().all(|p| *p == grey(7)));
    assert_eq!(c.pixel_data().len(), 6);
}

#[test]
fn from_pixels_checks_the_count() {
    assert!(Canvas::from_pixels(2, 2, vec![white(); 3]).is_none());
    let c = Canvas::from_pixels(2, 2, vec![white(), black(), red(), grey(1)]).unwrap();
    assert_eq!(c.get(1, 0), black());
    assert_eq!(c.get(0, 1), red());
}

#[test]
fn set_changes_one_pixel() {
    let mut c = Canvas::new_filled(4, 3, white());
    c.set(2, 1, red());
    assert_eq!(painted(&c, red()), vec![(2, 1)]);
}

#[test]
fn fill_rect_paints_a_rectangle() {
    let mut c = Canvas::new_filled(4, 4, white());
    c.fill_rect(1, 3, 2, 4, black());
    assert_eq!(painted(&c, black()), vec![(1, 2), (2, 2), (1, 3), (2, 3)]);
}

#[test]
fn column_band_is_cut_to_the_image_and_the_run() {
    let mut c = Canvas::new_filled(6, 6, white());
    c.paint_column_band(-1, 3, -5, 2, red());
    assert_eq!(painted(&c, red()), vec![(0, 0), (1, 0), (0, 1), (1, 1), (0, 2), (1, 2)]);
}

#[test]
fn thin_lines_are_one_pixel_wide() {
    let mut c = Canvas::new_filled(5, 3, white());
    c.paint_column_band(2, 0, 0, 100, red());
    assert_eq!(painted(&c, red()), vec![(2, 0), (2, 1), (2, 2)]);
}

#[test]
fn row_band_runs_to_the_image_edge() {
    let mut c = Canvas::new_filled(4, 4, white());
    c.paint_row_band(1, 2, 1, 2, red());
    assert_eq!(painted(&c, red()), vec![(1, 1), (2, 1), (1, 2), (2, 2)]);
    c.paint_row_band(3, 1, 2, i32::MAX, black());
    assert_eq!(painted(&c, black()), vec![(2, 3), (3, 3)]);
}

#[test]
fn grid_lines_cover_the_grid() {
    let mut c = Canvas::new_filled(7, 7, white());
    c.draw_grid_lines(&vec![0, 3, 6], &vec![0, 3, 6], 1, 0, 0, 6, 6, black());
    let b = painted(&c, black());
    assert_eq!(b.len(), 33);
    assert!(b.contains(&(3, 5)) && b.contains(&(5, 3)) && !b.contains(&(1, 1)));
}

#[test]
fn glyph_coverage_is_stamped_where_it_lands() {
    let mut c = Canvas::new_filled(4, 4, white());
    let coverage = vec![0, 9, 255, 0, 1, 0];
    c.stamp_coverage(&coverage, &vec![-1, 1, 3], &vec![0, 2], black());
    assert_eq!(painted(&c, black()), vec![(1, 0), (3, 0), (1, 2)]);
    let mut d = Canvas::new_filled(2, 2, white());
    d.stamp_coverage(&vec![7, 7, 7, 7], &vec![0, 0], &vec![1, 1], red());
    assert_eq!(painted(&d, red()), vec![(0, 1)]);
}

#[test]
fn duplicate_and_blit() {
    let mut c = Canvas::new_filled(5, 4, white());
    let s = Canvas::from_pixels(2, 1, vec![red(), black()]).unwrap();
    c.blit(&s, 3, 2);
    assert_eq!(c.get(3, 2), red());
    assert_eq!(c.get(4, 2), black());
    let d = c.duplicate();
    assert_eq!(d.pixel_data(), c.pixel_data());
}

#[test]
fn letterbox_centres_the_resampled_image_on_white() {
    let source = Canvas::new_filled(4, 2, red());
    let out = letterbox(&source, 10, 9, 8, 4);
    assert_eq!(out.width(), 10);
    assert_eq!(out.height(), 9);
    let r = painted(&out, red());
    assert_eq!(r.len(), 32);
    assert!(r.iter().all(|&(x, y)| (1..9).contains(&x) && (2..6).contains(&y)));
    assert_eq!(out.get(0, 0), white());
    assert_eq!(out.get(9, 8), white());
}

#[test]
fn place_centred_puts_the_image_in_the_middle() {
    let inner = Canvas::from_pixels(2, 1, vec![red(), black()]).unwrap();
    let out = place_centred(&inner, 5, 4);
    assert_eq!(out.width(), 5);
    assert_eq!(out.height(), 4);
    assert_eq!(out.get(1, 1), red());
    assert_eq!(out.get(2, 1), black());
    assert_eq!(painted(&out, white()).len(), 18);
}

#[test]
fn letterbox_of_the_same_size_keeps_the_pixels() {
    let source = Canvas::from_pixels(2, 2, vec![red(), black(), grey(9), white()]).unwrap();
    let out = letterbox(&source, 4, 2, 2, 2);
    assert_eq!(out.get(1, 0), red());
    assert_eq!(out.get(2, 0), black());
    assert_eq!(out.get(1, 1), grey(9));
    assert_eq!(out.get(0, 0), white());
}

#[test]
fn letterbox_of_an_empty_image_leaves_a_transparent_box() {
    let source = Canvas::new_filled(0, 3, red());
    let out = letterbox(&source, 4, 4, 2, 2);
    assert_eq!(out.get(1, 1), Rgba { r: 0, g: 0, b: 0, a: 0 });
    assert_eq!(out.get(0, 0), white());
}
