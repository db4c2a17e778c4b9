//! Library directory scanning: which files are books, and the tally of
//! an import pass.
use crate::text::{chars_of, ends_with, ends_with_exec, lowercase, lowercase_string};
use vstd::prelude::*;

verus! {

/// A recognized e-book file: its name, lowercased, ends with `.fb2`,
/// `.fb2.zip` or `.epub`.
pub open spec fn is_book_path(path: Seq<char>) -> bool {
    let l = lowercase(path);
    ends_with(l, ".fb2"@) || ends_with(l, ".fb2.zip"@) || ends_with(l, ".epub"@)
}

pub fn is_supported_book_file(path: &str) -> (r: bool)
    ensures
        r == is_book_path(path@),
{
    let l = chars_of(lowercase_string(path).as_str());
    ends_with_exec(&l, ".fb2") || ends_with_exec(&l, ".fb2.zip") || ends_with_exec(&l, ".epub")
}

/// What a directory walk does with one entry.
#[derive(Debug, Clone, Copy, PartialEq, Eq, Structural)]
pub enum EntryAction {
    /// Walk into the subdirectory.
    Descend,
    /// Keep the file as a book to import.
    Collect,
    /// Pass over it.
    Skip,
}

/// The walk descends into directories and keeps recognized book files.
pub fn entry_action(path: &str, is_dir: bool) -> (r: EntryAction)
    ensures
        r == (if is_dir {
            EntryAction::Descend
        } else if is_book_path(path@) {
            EntryAction::Collect
        } else {
            EntryAction::Skip
        }),
{
    if is_dir {
        EntryAction::Descend
    } else if is_supported_book_file(path) {
        EntryAction::Collect
    } else {
        EntryAction::Skip
    }
}

/// What became of one file of an import pass.
#[derive(Debug, Clone, Copy, PartialEq, Eq, Structural)]
pub enum ImportOutcome {
    /// Parsed and added to the library.
    Imported,
    /// Already in the library (by its path-derived id), left untouched.
    AlreadyKnown,
    /// Not parsed, or not stored.
    Failed,
}

/// Outcome of a directory scan/import pass.
#[derive(Debug, Clone, Copy, PartialEq, Eq, Structural)]
pub struct ScanSummary {
    pub imported: usize,
    pub skipped: usize,
    pub failed: usize,
}

impl Default for ScanSummary {
    fn default() -> (r: Self)
        ensures
            r.imported == 0 && r.skipped == 0 && r.failed == 0,
    {
        ScanSummary { imported: 0, skipped: 0, failed: 0 }
    }
}

impl ScanSummary {
    /// The number of files seen.
    pub fn total(&self) -> (r: usize)
        requires
            self.imported + self.skipped + self.failed <= usize::MAX,
        ensures
            r == self.imported + self.skipped + self.failed,
    {
        self.imported + self.skipped + self.failed
    }

    /// The outcome of a file classified by what the import found: a file
    /// that did not parse fails, a known one is skipped, and a new one is
    /// imported when it could be stored.
    pub fn outcome_of(parsed: bool, already_known: bool, stored: bool) -> (r: ImportOutcome)
        ensures
            r == (if !parsed {
                ImportOutcome::Failed
            } else if already_known {
                ImportOutcome::AlreadyKnown
            } else if stored {
                ImportOutcome::Imported
            } else {
                ImportOutcome::Failed
            }),
    {
        if !parsed {
            ImportOutcome::Failed
        } else if already_known {
            ImportOutcome::AlreadyKnown
        } else if stored {
            ImportOutcome::Imported
        } else {
            ImportOutcome::Failed
        }
    }

    /// Counts one file.
    pub fn record(&mut self, outcome: ImportOutcome)
        requires
            old(self).imported + old(self).skipped + old(self).failed < usize::MAX,
        ensures
            final(self).imported == old(self).imported + (if outcome == ImportOutcome::Imported { 1int } else { 0 }),
            final(self).skipped == old(self).skipped + (if outcome == ImportOutcome::AlreadyKnown { 1int } else { 0 }),
            final(self).failed == old(self).failed + (if outcome == ImportOutcome::Failed { 1int } else { 0 }),
            final(self).imported + final(self).skipped + final(self).failed == old(self).imported + old(self).skipped
                + old(self).failed + 1,
    {
        match outcome {
            ImportOutcome::Imported => self.imported = self.imported + 1,
            ImportOutcome::AlreadyKnown => self.skipped = self.skipped + 1,
            ImportOutcome::Failed => self.failed = self.failed + 1,
        }
    }
}

} // verus!
