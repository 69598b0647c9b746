# matrix_printing

Lays text out on squared writing paper: a photo of the paper is loaded, a grid
is fitted over it, and the text is written one character per cell, paragraph by
paragraph, into a printable image.

`src/` is the verified library (Verus):

- `text` — paragraphs of pasted text (line breaks normalized, lines trimmed,
  blank lines dropped), with the laws that paragraphs are clean and stable.
- `layout` — the cell of every character: indentation, wrapping at the grid's
  width, a new row for each paragraph; laws on reading order, kept text, the
  grid's width and paragraph rows.
- `numparse`, `grid` — reading counts and computing cell and font sizes.
- `canvas` — an RGBA image: rectangles, grid lines, glyph coverage, and the
  page at a preset size: the image resampled by the `image` crate and centred
  on white.
- `config` — reading and writing presets of the grid settings as JSON
  (`serde_json`).
- `fonts`, `workflow` — loading the fonts of the font folder (`fontdue`),
  font lookup, what must be in place before an image is made, and when the
  preview must be drawn again.

`app/` is the window (egui/eframe), the file dialogs (rfd), file I/O, font
rasterization (fontdue) and the floating-point geometry around the library.
