pub mod archive;
pub mod book_file;
pub mod encoding;
pub mod epub;
pub mod fb2;
pub mod html;
pub mod model;
pub mod uri;
pub mod xml;

pub use book_file::parse_book_bytes;
pub use epub::parse_epub_bytes;
pub use fb2::{parse_fb2_bytes, parse_fb2_zip_bytes};
pub use model::{
    Block, Book, BookFormat, Inline, ListItem, Metadata, PoemStanza, TableCell, TableRow, TocItem,
};
