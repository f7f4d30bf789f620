//! The colors of the active theme, and the looks of the cells that use them.

use vstd::prelude::*;

verus! {

/// A color: red, green, blue and alpha, each as the bit pattern of its floating-point value.
#[derive(Clone, Copy, PartialEq, Eq, Debug, Structural)]
pub struct Color {
    pub red: u32,
    pub green: u32,
    pub blue: u32,
    pub alpha: u32,
}

/// How a cell looks.
#[derive(Clone, Copy, PartialEq, Eq, Debug, Structural)]
pub struct CellStyle {
    pub foreground: Color,
    pub background: Color,
    pub bold: bool,
    pub italic: bool,
}

/// Colors sampled from the active theme, so that rendering adapts to the user's palette.
#[derive(Clone, Copy, PartialEq, Eq, Debug, Structural)]
pub struct ChatPalette {
    pub bg: Color,
    pub fg: Color,
    pub accent: Color,
    pub border: Color,
    pub user_header: Color,
    pub user_text: Color,
    pub ai_text: Color,
    pub dim_fg: Color,
}

/// A cell in the given colors, without emphasis.
pub open spec fn plain_style(foreground: Color, background: Color) -> CellStyle {
    CellStyle { foreground, background, bold: false, italic: false }
}

/// A bold cell in the given colors.
pub open spec fn bold_style(foreground: Color, background: Color) -> CellStyle {
    CellStyle { foreground, background, bold: true, italic: false }
}

impl ChatPalette {
    fn make_attrs(&self, fg: Color, bg: Color) -> (r: CellStyle)
        ensures
            r == plain_style(fg, bg),
    {
        CellStyle { foreground: fg, background: bg, bold: false, italic: false }
    }

    fn make_attrs_bold(&self, fg: Color, bg: Color) -> (r: CellStyle)
        ensures
            r == bold_style(fg, bg),
    {
        let mut style: CellStyle = self.make_attrs(fg, bg);
        style.bold = true;
        style
    }

    /// Borders and titles.
    pub fn accent_cell(&self) -> (r: CellStyle)
        ensures
            r == plain_style(self.accent, self.bg),
    {
        self.make_attrs(self.accent, self.bg)
    }

    /// Dim borders.
    pub fn border_dim_cell(&self) -> (r: CellStyle)
        ensures
            r == plain_style(self.border, self.bg),
    {
        self.make_attrs(self.border, self.bg)
    }

    /// Empty space.
    pub fn plain_cell(&self) -> (r: CellStyle)
        ensures
            r == plain_style(self.fg, self.bg),
    {
        self.make_attrs(self.fg, self.bg)
    }

    /// The header of a message of the user.
    pub fn user_header_cell(&self) -> (r: CellStyle)
        ensures
            r == bold_style(self.user_header, self.bg),
    {
        self.make_attrs_bold(self.user_header, self.bg)
    }

    /// The text of a message of the user.
    pub fn user_text_cell(&self) -> (r: CellStyle)
        ensures
            r == plain_style(self.user_text, self.bg),
    {
        self.make_attrs(self.user_text, self.bg)
    }

    /// The header of an answer.
    pub fn ai_header_cell(&self) -> (r: CellStyle)
        ensures
            r == bold_style(self.accent, self.bg),
    {
        self.make_attrs_bold(self.accent, self.bg)
    }

    /// The text of an answer.
    pub fn ai_text_cell(&self) -> (r: CellStyle)
        ensures
            r == plain_style(self.ai_text, self.bg),
    {
        self.make_attrs(self.ai_text, self.bg)
    }

    /// The input row, and other dimmed text.
    pub fn input_cell(&self) -> (r: CellStyle)
        ensures
            r == plain_style(self.dim_fg, self.bg),
    {
        self.make_attrs(self.dim_fg, self.bg)
    }

    /// Selected text: the colors of empty space, exchanged.
    pub fn selection_cell(&self) -> (r: CellStyle)
        ensures
            r == plain_style(self.bg, self.fg),
    {
        self.make_attrs(self.bg, self.fg)
    }

    /// Cursor highlight of the pickers. The accent color is the background, so that it adapts to
    /// dark and light themes.
    pub fn picker_cursor_cell(&self) -> (r: CellStyle)
        ensures
            r == plain_style(self.bg, self.accent),
    {
        self.make_attrs(self.bg, self.accent)
    }
}

} // verus!
