pub mod layout;
pub mod order;
pub mod simplify;

pub use layout::{BookLayout, StyledSpan, WrappedLine};
pub use simplify::simplify_blocks;
