pub mod defaults;
pub mod keymap;

pub use defaults::{DisplayConfig, TypographyConfig};
pub use keymap::{normalize_key, KeyAction, KeyMap, StringMap};

use crate::text::owned;
use crate::utils::Result;
use keymap::{has_conflict, norm_at};
use vstd::prelude::*;

verus! {

pub struct Config {
    pub theme: String,
    pub typography: TypographyConfig,
    pub display: DisplayConfig,
    pub db_path: Option<String>,
    pub keymap: KeyMap,
    /// Named OPDS catalogs (name to feed URL).
    pub opds_catalogs: StringMap<String>,
}

impl Default for Config {
    fn default() -> (r: Self)
        ensures
            r.theme@ == "dracula"@,
            r.typography.measure == 80,
            r.typography.paragraph_indent == 2,
            r.typography.paragraph_spacing == 1,
            r.typography.line_spacing == 1,
            !r.typography.hyphenation,
            !r.typography.justified,
            !r.display.simplified_mode,
            r.display.respect_epub_css,
            r.db_path is None,
            r.keymap.bindings.keys() == keymap::default_keys(),
            r.keymap.bindings.values() == keymap::default_actions(),
            r.opds_catalogs.lookup("gutenberg"@) matches Some(u) && u@
                == "https://www.gutenberg.org/ebooks/search.opds/"@,
    {
        let mut opds_catalogs: StringMap<String> = StringMap::new();
        opds_catalogs.insert(owned("gutenberg"), owned("https://www.gutenberg.org/ebooks/search.opds/"));
        Config {
            theme: owned("dracula"),
            typography: TypographyConfig::default(),
            display: DisplayConfig::default(),
            db_path: None,
            keymap: KeyMap::default(),
            opds_catalogs,
        }
    }
}

/// The measure limited to 30..=200 columns.
pub open spec fn clamped_measure(m: u16) -> u16 {
    if m < 30 {
        30
    } else if m > 200 {
        200
    } else {
        m
    }
}

impl Config {
    /// Limits the measure to 30..=200 columns, then normalizes the key
    /// bindings (see `KeyMap::validate_and_normalize`), failing on a
    /// conflict.
    pub fn clamp_and_validate(&mut self) -> (r: Result<()>)
        ensures
            final(self).typography.measure == clamped_measure(old(self).typography.measure),
            final(self).typography.line_spacing == old(self).typography.line_spacing,
            final(self).typography.paragraph_indent == old(self).typography.paragraph_indent,
            final(self).typography.paragraph_spacing == old(self).typography.paragraph_spacing,
            final(self).typography.hyphenation == old(self).typography.hyphenation,
            final(self).typography.justified == old(self).typography.justified,
            final(self).theme == old(self).theme,
            final(self).display == old(self).display,
            final(self).db_path == old(self).db_path,
            r is Err <==> has_conflict(old(self).keymap.bindings.keys(), old(self).keymap.bindings.values()),
            r matches Err(e) ==> e is KeybindingConflict,
            r is Ok ==> forall|i: int|
                0 <= i < old(self).keymap.bindings.keys().len() ==> final(self).keymap.bindings.lookup(
                    #[trigger] norm_at(old(self).keymap.bindings.keys(), i),
                ) == Some(old(self).keymap.bindings.values()[i]),
            r is Ok ==> forall|k: Seq<char>|
                #[trigger] final(self).keymap.bindings.lookup(k) is Some ==> exists|i: int|
                    0 <= i < old(self).keymap.bindings.keys().len() && norm_at(
                        old(self).keymap.bindings.keys(),
                        i,
                    ) == k,
    {
        if self.typography.measure < 30 {
            self.typography.measure = 30;
        } else if self.typography.measure > 200 {
            self.typography.measure = 200;
        }
        self.keymap.validate_and_normalize()
    }
}

} // verus!
