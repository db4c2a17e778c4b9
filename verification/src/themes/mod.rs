pub mod catalog;

pub use catalog::{theme_name, Color, Theme, ThemeKind, THEME_COUNT};
