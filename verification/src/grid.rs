//! Cell size and a safe font size for a grid laid over an image.

use vstd::prelude::*;
use crate::numparse::{parse_usize, usize_from_text};

verus! {

/// Where the grid starts, how large its cells are, and a font size that fits
/// in a cell, all in pixels.
#[derive(Clone, Copy, Debug, PartialEq, Eq)]
pub struct GridMetrics {
    pub start_x: u32,
    pub start_y: u32,
    pub cell_width: u32,
    pub cell_height: u32,
    pub font_size: i64,
}

/// The message of the error for a grid without rows or columns.
pub open spec fn grid_size_message() -> Seq<char> {
    "Grid rows and columns must be positive integers"@
}

/// The metrics of a grid of `columns` by `rows` cells over an image of
/// `image_size`: the grid starts at the origin, each cell gets the whole
/// pixels that an even share of the image gives it (the counts taken as `u32`
/// values), and the font is the smaller cell side less the padding, but at
/// least one pixel.
pub open spec fn grid_metrics(image_size: (u32, u32), columns: usize, rows: usize, font_padding: i32) -> GridMetrics {
    let cell_width = (image_size.0 / (columns as u32)) as u32;
    let cell_height = (image_size.1 / (rows as u32)) as u32;
    let smaller = if cell_width <= cell_height { cell_width as int } else { cell_height as int };
    let font = smaller - font_padding;
    GridMetrics {
        start_x: 0,
        start_y: 0,
        cell_width,
        cell_height,
        font_size: (if font >= 1 { font } else { 1 }) as i64,
    }
}

/// A grid count whose `u32` value is not zero unless the count is.
pub open spec fn count_fits(count: usize) -> bool {
    count == 0 || count as u32 != 0
}

/// Return cell size and a safe font size for the given grid settings.
pub fn calculate_grid_metrics(
    image_size: (u32, u32),
    columns: usize,
    rows: usize,
    font_padding: i32,
) -> (r: Result<GridMetrics, String>)
    requires
        count_fits(columns),
        count_fits(rows),
    ensures
        r is Err <==> (columns == 0 || rows == 0),
        r matches Err(e) ==> e@ == grid_size_message(),
        r matches Ok(m) ==> m == grid_metrics(image_size, columns, rows, font_padding),
{
    if columns == 0 || rows == 0 {
        return Err(String::from_str("Grid rows and columns must be positive integers"));
    }
    let (img_w, img_h) = image_size;
    let cell_width = img_w / (columns as u32);
    let cell_height = img_h / (rows as u32);
    let smaller: i64 = if cell_width <= cell_height { cell_width as i64 } else { cell_height as i64 };
    let font = smaller - font_padding as i64;
    let font_size = if font >= 1 { font } else { 1 };
    Ok(GridMetrics { start_x: 0, start_y: 0, cell_width, cell_height, font_size })
}

/// The grid count that `text` gives, when it parses as a positive `usize`.
pub open spec fn positive_count(text: Seq<char>) -> Option<usize> {
    match usize_from_text(text) {
        Some(n) => if n > 0 { Some(n) } else { None },
        None => None,
    }
}

/// The metrics that the grid settings give for the shown image, with a
/// padding of four pixels: `None` when there is no image or when either count
/// is not a positive integer.
pub fn grid_metrics_from_text(
    image_size: Option<(u32, u32)>,
    columns_text: &str,
    rows_text: &str,
) -> (r: Option<GridMetrics>)
    requires
        image_size is Some && positive_count(columns_text@) is Some && positive_count(rows_text@) is Some
            ==> count_fits(positive_count(columns_text@).unwrap()) && count_fits(positive_count(rows_text@).unwrap()),
    ensures
        r == match (image_size, positive_count(columns_text@), positive_count(rows_text@)) {
            (Some(size), Some(c), Some(rw)) => Some(grid_metrics(size, c, rw, 4)),
            _ => None,
        },
{
    let size = match image_size {
        Some(s) => s,
        None => return None,
    };
    let cols = match parse_usize(columns_text) {
        Some(v) => if v > 0 { v } else { return None },
        None => return None,
    };
    let rows = match parse_usize(rows_text) {
        Some(v) => if v > 0 { v } else { return None },
        None => return None,
    };
    match calculate_grid_metrics(size, cols, rows, 4) {
        Ok(m) => Some(m),
        Err(_) => None,
    }
}

/// The grid fits the image and the font fits the cells: the columns of whole
/// cells span at most the image width and leave less than one more column
/// (likewise the rows and the height), and the font size is at least one
/// pixel, is the padded width, the padded height or one, and never exceeds
/// either padded side unless that side leaves less than one pixel.
pub proof fn lemma_grid_metrics_fit(image_size: (u32, u32), columns: usize, rows: usize, font_padding: i32)
    requires
        columns as u32 != 0,
        rows as u32 != 0,
    ensures
        grid_metrics(image_size, columns, rows, font_padding).start_x == 0,
        grid_metrics(image_size, columns, rows, font_padding).start_y == 0,
        grid_metrics(image_size, columns, rows, font_padding).cell_width * (columns as u32) <= image_size.0,
        image_size.0 < (grid_metrics(image_size, columns, rows, font_padding).cell_width + 1) * (columns as u32),
        grid_metrics(image_size, columns, rows, font_padding).cell_height * (rows as u32) <= image_size.1,
        image_size.1 < (grid_metrics(image_size, columns, rows, font_padding).cell_height + 1) * (rows as u32),
        grid_metrics(image_size, columns, rows, font_padding).font_size >= 1,
        grid_metrics(image_size, columns, rows, font_padding).font_size
            <= grid_metrics(image_size, columns, rows, font_padding).cell_width - font_padding
            || grid_metrics(image_size, columns, rows, font_padding).font_size == 1,
        grid_metrics(image_size, columns, rows, font_padding).font_size
            <= grid_metrics(image_size, columns, rows, font_padding).cell_height - font_padding
            || grid_metrics(image_size, columns, rows, font_padding).font_size == 1,
        grid_metrics(image_size, columns, rows, font_padding).font_size
            == grid_metrics(image_size, columns, rows, font_padding).cell_width - font_padding
            || grid_metrics(image_size, columns, rows, font_padding).font_size
            == grid_metrics(image_size, columns, rows, font_padding).cell_height - font_padding
            || grid_metrics(image_size, columns, rows, font_padding).font_size == 1,
{
    let w = image_size.0 as int;
    let h = image_size.1 as int;
    let c = (columns as u32) as int;
    let r = (rows as u32) as int;
    let m = grid_metrics(image_size, columns, rows, font_padding);
    assert(m.cell_width == w / c);
    assert(m.cell_height == h / r);
    assert((w / c) * c <= w && w < (w / c + 1) * c) by (nonlinear_arith)
        requires
            c > 0,
            w >= 0,
    {
        assert(w == c * (w / c) + w % c);
    }
    assert((h / r) * r <= h && h < (h / r + 1) * r) by (nonlinear_arith)
        requires
            r > 0,
            h >= 0,
    {
        assert(h == r * (h / r) + h % r);
    }
}

} // verus!
