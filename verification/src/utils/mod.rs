pub mod errors;

pub use errors::{sha1_hex, sha1_hex_of, AppError, Result};
