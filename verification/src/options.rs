//! What a caller can choose: the theme and a few measures.

use vstd::prelude::*;
use vstd::string::StringExecFns;

verus! {

/// The colour scheme of a drawing.
#[derive(Debug, Clone, Copy, PartialEq, Eq, Structural)]
pub enum Theme {
    /// Dark strokes on a white background.
    Light,
    /// Light strokes on a dark background.
    Dark,
}

impl Default for Theme {
    /// The light theme.
    fn default() -> (theme: Self)
        ensures
            theme == Theme::Light,
    {
        Theme::Light
    }
}

/// The five colours of a theme.
#[derive(Debug, Clone)]
pub struct ThemeColors {
    /// The colour behind everything.
    pub background: String,
    /// The colour of text.
    pub text: String,
    /// The colour of lines and arrows.
    pub line: String,
    /// The colour inside a participant box.
    pub participant_bg: String,
    /// The colour of the border of a participant box.
    pub participant_border: String,
}

/// The background colour of `theme`.
pub open spec fn background_of(theme: Theme) -> Seq<char> {
    match theme {
        Theme::Light => "#ffffff"@,
        Theme::Dark => "#1a1a2e"@,
    }
}

/// The colour of text, lines and box borders in `theme`.
pub open spec fn ink_of(theme: Theme) -> Seq<char> {
    match theme {
        Theme::Light => "#333333"@,
        Theme::Dark => "#eaeaea"@,
    }
}

/// The colour inside a participant box in `theme`.
pub open spec fn box_fill_of(theme: Theme) -> Seq<char> {
    match theme {
        Theme::Light => "#ecf0f1"@,
        Theme::Dark => "#16213e"@,
    }
}

impl ThemeColors {
    /// Whether these are the colours of `theme`.
    pub open spec fn is_palette_of(self, theme: Theme) -> bool {
        &&& self.background@ == background_of(theme)
        &&& self.text@ == ink_of(theme)
        &&& self.line@ == ink_of(theme)
        &&& self.participant_bg@ == box_fill_of(theme)
        &&& self.participant_border@ == ink_of(theme)
    }

    /// The colours of the light theme.
    pub fn light() -> (colors: Self)
        ensures
            colors.is_palette_of(Theme::Light),
    {
        Self {
            background: String::from_str("#ffffff"),
            text: String::from_str("#333333"),
            line: String::from_str("#333333"),
            participant_bg: String::from_str("#ecf0f1"),
            participant_border: String::from_str("#333333"),
        }
    }

    /// The colours of the dark theme.
    pub fn dark() -> (colors: Self)
        ensures
            colors.is_palette_of(Theme::Dark),
    {
        Self {
            background: String::from_str("#1a1a2e"),
            text: String::from_str("#eaeaea"),
            line: String::from_str("#eaeaea"),
            participant_bg: String::from_str("#16213e"),
            participant_border: String::from_str("#eaeaea"),
        }
    }
}

/// How a diagram is to be rendered.
#[derive(Debug, Clone)]
pub struct RenderOptions {
    /// The colour scheme.
    pub theme: Theme,
    /// A fixed width in pixels, if the caller wants one. The layout sizes
    /// the canvas by its content and does not read this.
    pub width: Option<u32>,
    /// A fixed height in pixels, if the caller wants one. The layout sizes
    /// the canvas by its content and does not read this.
    pub height: Option<u32>,
    /// A padding in pixels, if the caller wants one. The layout keeps a
    /// fixed padding of 20 pixels around the content and does not read this.
    pub padding: u32,
    /// The font family, written into every text element as it is given.
    pub font_family: String,
    /// The font size in pixels. Text widths scale with it.
    pub font_size: u32,
    /// Whether the background is left out, so that what lies behind the
    /// image shows through.
    pub transparent_bg: bool,
}

impl RenderOptions {
    /// Whether these are the default options but for the theme, which is
    /// `theme`.
    pub open spec fn is_default_with(self, theme: Theme) -> bool {
        &&& self.theme == theme
        &&& self.width.is_none()
        &&& self.height.is_none()
        &&& self.padding == 20
        &&& self.font_family@ == "Arial, sans-serif"@
        &&& self.font_size == 14
        &&& !self.transparent_bg
    }

    /// The default options with the theme `theme`.
    pub fn with_theme(theme: Theme) -> (options: Self)
        ensures
            options.is_default_with(theme),
    {
        Self {
            theme,
            width: None,
            height: None,
            padding: 20,
            font_family: String::from_str("Arial, sans-serif"),
            font_size: 14,
            transparent_bg: false,
        }
    }

    /// The colours of the chosen theme.
    pub fn colors(&self) -> (colors: ThemeColors)
        ensures
            colors.is_palette_of(self.theme),
    {
        match self.theme {
            Theme::Light => ThemeColors::light(),
            Theme::Dark => ThemeColors::dark(),
        }
    }

    /// These options with the background left out.
    pub fn transparent(self) -> (options: Self)
        ensures
            options.transparent_bg,
            options.theme == self.theme,
            options.width == self.width,
            options.height == self.height,
            options.padding == self.padding,
            options.font_family == self.font_family,
            options.font_size == self.font_size,
    {
        let mut options = self;
        options.transparent_bg = true;
        options
    }
}

impl Default for RenderOptions {
    /// The light theme, content-sized canvas, 20 pixels of padding, a
    /// sans-serif font of 14 pixels, and a solid background.
    fn default() -> (options: Self)
        ensures
            options.is_default_with(Theme::Light),
    {
        Self::with_theme(Theme::Light)
    }
}

} // verus!
