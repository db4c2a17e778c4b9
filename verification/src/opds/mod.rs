pub mod model;
pub mod navigation;
pub mod parser;

pub use model::{OpdsEntry, OpdsFeed, OpdsLinkType};
pub use navigation::{feed_key, FeedCommand};
pub use parser::{parse_opds_feed, resolve_url};
