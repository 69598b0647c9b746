//! What must be in place before the preview shows text or an image is made.

use vstd::prelude::*;
use crate::config::GridSettings;

verus! {

/// An input that making the image needs and that is missing.
#[derive(Clone, Copy, Debug, PartialEq, Eq, Structural)]
pub enum MissingInput {
    /// No squared-paper image has been loaded.
    Image,
    /// No font is selected.
    Font,
}

/// What blocks making the image: first a missing image, then a missing
/// font; `None` when both are there.
pub fn missing_input(has_image: bool, selected_font: usize, font_count: usize) -> (r: Option<MissingInput>)
    ensures
        r == if !has_image {
            Some(MissingInput::Image)
        } else if selected_font >= font_count {
            Some(MissingInput::Font)
        } else {
            None::<MissingInput>
        },
{
    if !has_image {
        Some(MissingInput::Image)
    } else if selected_font >= font_count {
        Some(MissingInput::Font)
    } else {
        None
    }
}

/// The status line that tells the user what is missing.
pub fn missing_input_message(missing: MissingInput) -> (s: String)
    ensures
        s@ == match missing {
            MissingInput::Image => "请先上传格子纸图片"@,
            MissingInput::Font => "请先选择字体"@,
        },
{
    match missing {
        MissingInput::Image => String::from_str("请先上传格子纸图片"),
        MissingInput::Font => String::from_str("请先选择字体"),
    }
}

/// The preview writes text only when there is text and a font is selected.
pub fn preview_shows_text(text: &str, selected_font: usize, font_count: usize) -> (r: bool)
    ensures
        r == (text@.len() > 0 && selected_font < font_count),
{
    !text.is_empty() && selected_font < font_count
}

/// Everything the preview is drawn from, but the images and fonts
/// themselves.
#[derive(Clone, Debug)]
pub struct PreviewInputs {
    pub settings: GridSettings,
    pub text: String,
    pub first_line_indent: bool,
    pub first_line_newline: bool,
    pub output_size: usize,
    pub selected_font: usize,
    pub has_image: bool,
}

/// The texts of the settings, in field order.
pub open spec fn settings_texts(s: GridSettings) -> Seq<Seq<char>> {
    seq![
        s.start_x@,
        s.start_y@,
        s.cell_width@,
        s.cell_height@,
        s.font_size@,
        s.offset_x@,
        s.offset_y@,
        s.grid_columns@,
        s.grid_rows@,
        s.line_thickness@,
    ]
}

/// The preview inputs `a` and `b` are the same.
pub open spec fn same_inputs(a: PreviewInputs, b: PreviewInputs) -> bool {
    &&& settings_texts(a.settings) == settings_texts(b.settings)
    &&& a.text@ == b.text@
    &&& a.first_line_indent == b.first_line_indent
    &&& a.first_line_newline == b.first_line_newline
    &&& a.output_size == b.output_size
    &&& a.selected_font == b.selected_font
    &&& a.has_image == b.has_image
}

/// Whether the preview must be drawn again: there was no preview yet, or an
/// input has changed since the last one.
pub fn preview_needs_redraw(last: &Option<PreviewInputs>, now: &PreviewInputs) -> (r: bool)
    ensures
        r == match last {
            None => true,
            Some(l) => !same_inputs(*l, *now),
        },
{
    match last {
        None => true,
        Some(l) => {
            let a = l;
            let b = now;
            let same_settings = a.settings.start_x == b.settings.start_x && a.settings.start_y == b.settings.start_y && a.settings.cell_width == b.settings.cell_width && a.settings.cell_height == b.settings.cell_height && a.settings.font_size == b.settings.font_size && a.settings.offset_x == b.settings.offset_x && a.settings.offset_y == b.settings.offset_y && a.settings.grid_columns == b.settings.grid_columns && a.settings.grid_rows == b.settings.grid_rows && a.settings.line_thickness == b.settings.line_thickness;
            proof {
                if same_settings {
                    assert(settings_texts(a.settings) =~= settings_texts(b.settings));
                }
            }
            !(same_settings && a.text == b.text && a.first_line_indent == b.first_line_indent
                && a.first_line_newline == b.first_line_newline && a.output_size == b.output_size
                && a.selected_font == b.selected_font && a.has_image == b.has_image)
        },
    }
}

} // verus!
