//! The command line of the reader, as plain values.
use vstd::prelude::*;

verus! {

/// What the command line asks for.
#[derive(Debug, Clone, PartialEq, Eq)]
pub struct CliArgs {
    /// Path to the e-book file to open (.fb2, .fb2.zip, .epub).
    pub file_path: Option<String>,
    /// Open in library mode.
    pub library: bool,
    /// Color theme to use instead of the configured one.
    pub theme: Option<String>,
    /// Path of the TOML configuration file.
    pub config: Option<String>,
    /// Directory to scan for books and import before starting.
    pub scan_dir: Option<String>,
    /// Graphics protocol for images (auto, kitty, sixel, iterm2, halfblocks, none).
    pub image_protocol: Option<String>,
}

} // verus!
