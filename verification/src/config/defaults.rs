//! Typography and display settings with their built-in defaults.
use crate::text::owned;
use vstd::prelude::*;

verus! {

#[derive(Debug, Clone, PartialEq, Eq)]
pub struct TypographyConfig {
    pub measure: u16,
    pub line_spacing: u8,
    pub paragraph_indent: u8,
    pub paragraph_spacing: u8,
    pub hyphenation: bool,
    pub justified: bool,
}

impl Default for TypographyConfig {
    fn default() -> (r: Self)
        ensures
            r.measure == 80,
            r.line_spacing == 1,
            r.paragraph_indent == 2,
            r.paragraph_spacing == 1,
            !r.hyphenation,
            !r.justified,
    {
        TypographyConfig {
            measure: 80,
            line_spacing: 1,
            paragraph_indent: 2,
            paragraph_spacing: 1,
            hyphenation: false,
            justified: false,
        }
    }
}

#[derive(Debug, Clone, PartialEq, Eq)]
pub struct DisplayConfig {
    pub simplified_mode: bool,
    pub respect_epub_css: bool,
    pub image_protocol: String,
    pub widescreen: bool,
}

impl Default for DisplayConfig {
    fn default() -> (r: Self)
        ensures
            !r.simplified_mode,
            r.respect_epub_css,
            r.image_protocol@ == "auto"@,
            !r.widescreen,
    {
        DisplayConfig {
            simplified_mode: false,
            respect_epub_css: true,
            image_protocol: owned("auto"),
            widescreen: false,
        }
    }
}

} // verus!
