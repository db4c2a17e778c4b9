//! Choosing the parser for a book file: by its name, or, when the name
//! says nothing, by its content.
use crate::formats::archive::{zip_member, zip_names, zip_open_failure};
use crate::formats::encoding::decoded_text;
use crate::formats::epub::{container_outcome, epub_outcome, package_outcome, parse_epub_bytes, toc_outcome};
use crate::formats::fb2::{
    fb2_member, fb2_outcome, fb2_zip_outcome, parse_fb2_bytes, parse_fb2_zip_bytes, root_element,
};
use crate::formats::model::{Book, BookFormat};
use crate::formats::uri::{format_for_path, format_from_path};
use crate::formats::xml::{document_tree, xml_records};
use crate::text::owned;
use crate::utils::{sha1_hex_of, AppError, Result};
use vstd::prelude::*;
use vstd::utf8::encode_utf8;

verus! {

/// The bytes begin with the signature of a ZIP archive (`PK\x03\x04`).
pub open spec fn has_zip_signature(b: Seq<u8>) -> bool {
    b.len() >= 4 && b[0] == 0x50u8 && b[1] == 0x4Bu8 && b[2] == 0x03u8 && b[3] == 0x04u8
}

/// The archive parses as an EPUB book (see `epub_outcome`).
pub open spec fn epub_parses(a: Seq<u8>) -> bool {
    &&& zip_open_failure(a) is None
    &&& match container_outcome(a) {
        Ok(p) => match package_outcome(a, p) {
            Ok(st) => toc_outcome(a, st) is Ok,
            Err(_) => false,
        },
        Err(_) => false,
    }
}

/// The bytes parse as an FB2 document (see `fb2_outcome`).
pub open spec fn fb2_parses(b: Seq<u8>) -> bool {
    match decoded_text(b) {
        Ok(t) => match xml_records(t) {
            Ok(recs) => recs.len() > 0 && root_element(document_tree(recs)) is Some,
            Err(_) => false,
        },
        Err(_) => false,
    }
}

/// The archive parses as a zipped FB2 (see `fb2_zip_outcome`).
pub open spec fn fb2_zip_parses(a: Seq<u8>) -> bool {
    &&& zip_open_failure(a) is None
    &&& match zip_names(a) {
        Ok(names) => match fb2_member(names) {
            Some(i) => match zip_member(a, names[i]) {
                Ok(b) => fb2_parses(b),
                Err(_) => false,
            },
            None => false,
        },
        Err(_) => false,
    }
}

/// The error for a file that no parser accepts.
pub open spec fn is_unsupported(r: Result<Book>, path: Seq<char>) -> bool {
    r matches Err(AppError::Parse(m)) && m@ == "Unsupported or unrecognized e-book format for file: "@ + path
}

/// What reading the book file at `path`, holding `bytes`, gives: a name
/// ending in `.fb2.zip`, `.fb2` or `.epub` (ASCII case aside) picks the
/// parser; otherwise a ZIP archive is tried as EPUB, then as zipped FB2,
/// and anything else as FB2, and a file that none of these accepts is
/// refused as unsupported.
pub open spec fn book_outcome(bytes: Seq<u8>, path: Seq<char>, r: Result<Book>) -> bool {
    match format_for_path(path) {
        Some(BookFormat::Fb2Zip) => fb2_zip_outcome(bytes, path, r),
        Some(BookFormat::Fb2) => fb2_outcome(bytes, path, BookFormat::Fb2, r),
        Some(BookFormat::Epub) => epub_outcome(bytes, path, r),
        None => if has_zip_signature(bytes) {
            if epub_parses(bytes) {
                epub_outcome(bytes, path, r)
            } else if fb2_zip_parses(bytes) {
                fb2_zip_outcome(bytes, path, r)
            } else {
                is_unsupported(r, path)
            }
        } else if fb2_parses(bytes) {
            fb2_outcome(bytes, path, BookFormat::Fb2, r)
        } else {
            is_unsupported(r, path)
        },
    }
}

/// The error for a file that no parser accepts.
pub fn unsupported_format(path: &str) -> (r: AppError)
    ensures
        r matches AppError::Parse(m) && m@ == "Unsupported or unrecognized e-book format for file: "@ + path@,
{
    let mut m = owned("Unsupported or unrecognized e-book format for file: ");
    m.append(path);
    AppError::Parse(m)
}

/// Parses the book file at `path`, whose content is `bytes` (see
/// `book_outcome`).
pub fn parse_book_bytes(bytes: &[u8], path: &str) -> (r: Result<Book>)
    ensures
        book_outcome(bytes@, path@, r),
{
    match format_from_path(path) {
        Some(BookFormat::Fb2Zip) => parse_fb2_zip_bytes(bytes, path),
        Some(BookFormat::Fb2) => parse_fb2_bytes(bytes, path),
        Some(BookFormat::Epub) => parse_epub_bytes(bytes, path),
        None => {
            let zip = bytes.len() >= 4 && bytes[0] == 0x50u8 && bytes[1] == 0x4Bu8 && bytes[2] == 0x03u8
                && bytes[3] == 0x04u8;
            if zip {
                match parse_epub_bytes(bytes, path) {
                    Ok(book) => {
                        return Ok(book);
                    },
                    Err(_) => {},
                }
                match parse_fb2_zip_bytes(bytes, path) {
                    Ok(book) => {
                        return Ok(book);
                    },
                    Err(_) => {},
                }
            } else {
                match parse_fb2_bytes(bytes, path) {
                    Ok(book) => {
                        return Ok(book);
                    },
                    Err(_) => {},
                }
            }
            Err(unsupported_format(path))
        },
    }
}

/// A book's identity depends on its path alone: two files read from the
/// same path (the same book before and after an edit, say) give books
/// with the same id, the SHA-1 of the path.
pub proof fn lemma_book_id_depends_on_path_only(b1: Seq<u8>, b2: Seq<u8>, path: Seq<char>, x1: Book, x2: Book)
    requires
        book_outcome(b1, path, Ok(x1)),
        book_outcome(b2, path, Ok(x2)),
    ensures
        x1.id@ == x2.id@,
        x1.id@ == sha1_hex_of(encode_utf8(path)),
{
}

} // verus!
