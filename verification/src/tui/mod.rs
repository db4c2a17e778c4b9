pub mod app;
pub mod keymap_dispatcher;

pub use app::{App, AppMode};
pub use keymap_dispatcher::{format_key_event, KeyCode, KeyInput, KeymapDispatcher};
