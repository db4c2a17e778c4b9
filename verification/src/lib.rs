pub mod cli;
pub mod config;
pub mod formats;
pub mod library;
pub mod opds;
pub mod renderer;
pub mod search;
pub mod text;
pub mod themes;
pub mod tui;
pub mod utils;

pub use formats::{Block, Book, BookFormat, Inline, Metadata};
