pub mod index;

pub use index::{fold_str, BookSearchIndex, SearchMatch};
