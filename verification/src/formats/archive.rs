//! Reading the members of ZIP archives (EPUB files and zipped FB2) held
//! in memory, through the `zip` crate.
use vstd::prelude::*;

verus! {

/// `zip::ZipArchive::new` on the bytes: the message of the error that
/// refuses them as an archive, if any.
pub uninterp spec fn zip_open_failure(archive: Seq<u8>) -> Option<Seq<char>>;

/// The names of an archive's members in the order of its central
/// directory, or the message of the error met reading them.
pub uninterp spec fn zip_names(archive: Seq<u8>) -> Result<Seq<Seq<char>>, Seq<char>>;

/// The decompressed bytes of the member `name`, or the message of the
/// error met finding or reading it.
pub uninterp spec fn zip_member(archive: Seq<u8>, name: Seq<char>) -> Result<Seq<u8>, Seq<char>>;

pub open spec fn string_views(v: Seq<String>) -> Seq<Seq<char>> {
    v.map_values(|s: String| s@)
}

/// `zip::ZipArchive::new`; the contract names the result.
#[verifier::external_body]
pub(crate) fn zip_open_error(archive: &[u8]) -> (r: Option<String>)
    ensures
        match r {
            Some(m) => zip_open_failure(archive@) == Some(m@),
            None => zip_open_failure(archive@) is None,
        },
{
    match zip::ZipArchive::new(std::io::Cursor::new(archive)) {
        Ok(_) => None,
        Err(e) => Some(e.to_string()),
    }
}

/// `zip::ZipArchive::file_names`; the contract names the result.
#[verifier::external_body]
pub(crate) fn zip_entry_names(archive: &[u8]) -> (r: Result<Vec<String>, String>)
    ensures
        match r {
            Ok(v) => zip_names(archive@) == Ok::<Seq<Seq<char>>, Seq<char>>(string_views(v@)),
            Err(m) => zip_names(archive@) == Err::<Seq<Seq<char>>, Seq<char>>(m@),
        },
{
    let a = zip::ZipArchive::new(std::io::Cursor::new(archive)).map_err(|e| e.to_string())?;
    a.file_names().map(|n| n.map(|c| c.into_owned())).collect::<Result<Vec<String>, _>>().map_err(|e| e.to_string())
}

/// `zip::ZipArchive::by_name`, read to the end; the contract names the
/// result.
#[verifier::external_body]
pub(crate) fn zip_read(archive: &[u8], name: &str) -> (r: Result<Vec<u8>, String>)
    ensures
        match r {
            Ok(v) => zip_member(archive@, name@) == Ok::<Seq<u8>, Seq<char>>(v@),
            Err(m) => zip_member(archive@, name@) == Err::<Seq<u8>, Seq<char>>(m@),
        },
{
    let mut a = zip::ZipArchive::new(std::io::Cursor::new(archive)).map_err(|e| e.to_string())?;
    let mut f = a.by_name(name).map_err(|e| e.to_string())?;
    let mut buf = Vec::new();
    std::io::Read::read_to_end(&mut f, &mut buf).map_err(|e| e.to_string())?;
    Ok(buf)
}

} // verus!
