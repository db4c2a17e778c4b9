//! Book locations: `file://` URIs, percent-encoded paths, remote URLs and
//! the stable identifier derived from a book's path.
use crate::formats::model::BookFormat;
use crate::text::{
    chars_of, contains_exec, contains_seq, ends_with, ends_with_exec, is_ws, leading_ws, lowercase,
    lowercase_string, owned, starts_with, starts_with_exec, string_from_chars, trailing_ws, trim_chars, trimmed,
};
use crate::utils::{sha1_hex, sha1_hex_of};
use vstd::prelude::*;
use vstd::string::StringSliceAdditionalSpecFns;
use vstd::utf8::{decode_utf8, valid_utf8};

verus! {

/// `String::from_utf8_lossy`: the text of `bytes`, invalid sequences being
/// replaced by U+FFFD.
pub uninterp spec fn utf8_lossy(bytes: Seq<u8>) -> Seq<char>;

/// `String::from_utf8_lossy`; valid UTF-8 decodes as UTF-8, anything else
/// is only named.
#[verifier::external_body]
pub(crate) fn string_from_utf8_lossy(bytes: &[u8]) -> (r: String)
    ensures
        r@ == utf8_lossy(bytes@),
        valid_utf8(bytes@) ==> r@ == decode_utf8(bytes@),
{
    String::from_utf8_lossy(bytes).into_owned()
}

pub open spec fn is_hex_digit(b: u8) -> bool {
    (0x30 <= b <= 0x39) || (0x41 <= b <= 0x46) || (0x61 <= b <= 0x66)
}

pub open spec fn hex_value(b: u8) -> int {
    if 0x30 <= b <= 0x39 {
        b - 0x30
    } else if 0x41 <= b <= 0x46 {
        b - 0x41 + 10
    } else {
        b - 0x61 + 10
    }
}

/// Two bytes after `%` that make an escape: two hexadecimal digits.
pub open spec fn is_escape(x: u8, y: u8) -> bool {
    is_hex_digit(x) && is_hex_digit(y)
}

pub open spec fn escape_value(x: u8, y: u8) -> u8 {
    (16 * hex_value(x) + hex_value(y)) as u8
}

/// The bytes of a percent-encoded byte string with every escape `%XX`
/// replaced by the byte it stands for; a `%` without two escape bytes
/// after it stays as it is.
pub open spec fn percent_decoded(b: Seq<u8>) -> Seq<u8>
    decreases b.len(),
{
    if b.len() == 0 {
        Seq::empty()
    } else if b[0] == 0x25 && b.len() > 2 && is_escape(b[1], b[2]) {
        seq![escape_value(b[1], b[2])] + percent_decoded(b.skip(3))
    } else {
        seq![b[0]] + percent_decoded(b.skip(1))
    }
}

/// The uppercase hexadecimal digit of `d` (0 to 15).
pub open spec fn hex_digit(d: int) -> u8 {
    if d < 10 {
        (0x30 + d) as u8
    } else {
        (0x41 + d - 10) as u8
    }
}

/// Every byte written as an escape `%XX`.
pub open spec fn percent_encoded(b: Seq<u8>) -> Seq<u8>
    decreases b.len(),
{
    if b.len() == 0 {
        Seq::empty()
    } else {
        seq![0x25u8, hex_digit(b[0] as int / 16), hex_digit(b[0] as int % 16)] + percent_encoded(b.skip(1))
    }
}

/// Decoding works on whole bytes: a byte string written entirely as
/// escapes (a UTF-8 file name, say) decodes to exactly its bytes.
pub proof fn lemma_percent_decoding_undoes_encoding(b: Seq<u8>)
    ensures
        percent_decoded(percent_encoded(b)) == b,
    decreases b.len(),
{
    if b.len() > 0 {
        let e = percent_encoded(b);
        let hi = hex_digit(b[0] as int / 16);
        let lo = hex_digit(b[0] as int % 16);
        assert(e[0] == 0x25u8 && e[1] == hi && e[2] == lo);
        assert(is_hex_digit(hi) && is_hex_digit(lo));
        assert(hex_value(hi) == b[0] as int / 16 && hex_value(lo) == b[0] as int % 16);
        assert(escape_value(hi, lo) == b[0]);
        assert(e.skip(3) =~= percent_encoded(b.skip(1)));
        lemma_percent_decoding_undoes_encoding(b.skip(1));
        assert(seq![b[0]] + b.skip(1) =~= b);
    }
}

/// A text whose UTF-8 bytes are all written as escapes comes back whole:
/// the decoded bytes are valid UTF-8 and decode to the text (so that
/// `percent_encoding_decode` gives it back, by its contract).
pub proof fn lemma_percent_round_trip(t: Seq<char>)
    ensures
        percent_decoded(percent_encoded(vstd::utf8::encode_utf8(t))) == vstd::utf8::encode_utf8(t),
        valid_utf8(percent_decoded(percent_encoded(vstd::utf8::encode_utf8(t)))),
        decode_utf8(percent_decoded(percent_encoded(vstd::utf8::encode_utf8(t)))) == t,
{
    lemma_percent_decoding_undoes_encoding(vstd::utf8::encode_utf8(t));
    vstd::utf8::encode_utf8_valid_utf8(t);
    vstd::utf8::encode_utf8_decode_utf8(t);
}

/// The characters of a byte string of ASCII bytes.
pub open spec fn ascii_text_of(b: Seq<u8>) -> Seq<char> {
    b.map_values(|x: u8| x as char)
}

proof fn lemma_percent_encoded_ascii(b: Seq<u8>)
    ensures
        forall|i: int| 0 <= i < percent_encoded(b).len() ==> #[trigger] percent_encoded(b)[i] < 128,
    decreases b.len(),
{
    if b.len() > 0 {
        lemma_percent_encoded_ascii(b.skip(1));
        let e = percent_encoded(b);
        let head = seq![0x25u8, hex_digit(b[0] as int / 16), hex_digit(b[0] as int % 16)];
        assert forall|i: int| 0 <= i < e.len() implies #[trigger] e[i] < 128 by {
            if i >= 3 {
                assert(e[i] == percent_encoded(b.skip(1))[i - 3]);
            } else {
                assert(e[i] == head[i]);
            }
        }
    }
}

/// The text that writes every UTF-8 byte of `t` as an escape `%XX`
/// (`t.bytes().map(|b| format!("%{:02X}", b))`) is percent-decoded back
/// to `t`: its bytes are the escapes, they decode to the bytes of `t`,
/// and those are valid UTF-8 (so `percent_encoding_decode` returns `t`).
pub proof fn lemma_percent_text_round_trip(t: Seq<char>)
    ensures
        vstd::utf8::encode_utf8(ascii_text_of(percent_encoded(vstd::utf8::encode_utf8(t)))) == percent_encoded(
            vstd::utf8::encode_utf8(t),
        ),
        valid_utf8(percent_decoded(vstd::utf8::encode_utf8(ascii_text_of(percent_encoded(vstd::utf8::encode_utf8(t)))))),
        decode_utf8(percent_decoded(vstd::utf8::encode_utf8(ascii_text_of(percent_encoded(vstd::utf8::encode_utf8(t))))))
            == t,
{
    let e = percent_encoded(vstd::utf8::encode_utf8(t));
    let s = ascii_text_of(e);
    lemma_percent_encoded_ascii(vstd::utf8::encode_utf8(t));
    assert(vstd::utf8::is_ascii_chars(s)) by {
        assert forall|i: int| 0 <= i < s.len() implies '\0' <= #[trigger] s[i] <= '\u{7f}' by {
            assert(e[i] < 128);
            assert(s[i] == e[i] as char);
        }
    }
    vstd::utf8::is_ascii_chars_encode_utf8(s);
    assert forall|i: int| 0 <= i < s.len() implies vstd::utf8::encode_utf8(s)[i] == e[i] by {
        assert(s[i] as u8 == vstd::utf8::encode_utf8(s)[i]);
        assert(e[i] < 128);
        assert(s[i] == e[i] as char);
        let x = e[i];
        assert((x as char) as u8 == x);
    }
    assert(vstd::utf8::encode_utf8(s) =~= e);
    lemma_percent_round_trip(t);
}

/// Text without `%` is left as it is.
pub proof fn lemma_percent_decoded_plain(b: Seq<u8>)
    requires
        forall|i: int| 0 <= i < b.len() ==> b[i] != 0x25u8,
    ensures
        percent_decoded(b) == b,
    decreases b.len(),
{
    if b.len() > 0 {
        lemma_percent_decoded_plain(b.skip(1));
        assert(seq![b[0]] + b.skip(1) =~= b);
    }
}

fn is_hex_digit_exec(b: u8) -> (r: bool)
    ensures
        r == is_hex_digit(b),
{
    (0x30 <= b && b <= 0x39) || (0x41 <= b && b <= 0x46) || (0x61 <= b && b <= 0x66)
}

fn hex_value_exec(b: u8) -> (r: u8)
    requires
        is_hex_digit(b),
    ensures
        r == hex_value(b),
{
    if 0x30 <= b && b <= 0x39 {
        b - 0x30
    } else if 0x41 <= b && b <= 0x46 {
        b - 0x41 + 10
    } else {
        b - 0x61 + 10
    }
}

/// Decodes `%XX` escapes over whole bytes, then reads the bytes as UTF-8,
/// so that escaped multi-byte characters are decoded correctly.
pub fn percent_encoding_decode(s: &str) -> (r: String)
    ensures
        r@ == utf8_lossy(percent_decoded(s.spec_bytes())),
        valid_utf8(percent_decoded(s.spec_bytes())) ==> r@ == decode_utf8(percent_decoded(s.spec_bytes())),
{
    let bytes = s.as_bytes();
    let mut out: Vec<u8> = Vec::new();
    let mut i: usize = 0;
    assert(bytes@.skip(0) =~= bytes@);
    while i < bytes.len()
        invariant
            i <= bytes@.len(),
            out@ + percent_decoded(bytes@.skip(i as int)) == percent_decoded(bytes@),
        decreases bytes.len() - i,
    {
        let ghost rest = bytes@.skip(i as int);
        if bytes[i] == 0x25 && bytes.len() - i > 2 && is_escape_exec(bytes[i + 1], bytes[i + 2]) {
            let x = bytes[i + 1];
            let y = bytes[i + 2];
            let v = 16 * hex_value_exec(x) + hex_value_exec(y);
            let ghost prev = out@;
            out.push(v);
            assert(rest[0] == bytes@[i as int] && rest[1] == x && rest[2] == y);
            assert(rest.skip(3) =~= bytes@.skip(i + 3));
            assert(out@ + percent_decoded(bytes@.skip(i + 3)) =~= prev + percent_decoded(rest));
            i = i + 3;
        } else {
            let ghost prev = out@;
            out.push(bytes[i]);
            assert(rest[0] == bytes@[i as int]);
            assert(rest.skip(1) =~= bytes@.skip(i + 1));
            assert(out@ + percent_decoded(bytes@.skip(i + 1)) =~= prev + percent_decoded(rest));
            i = i + 1;
        }
    }
    assert(out@ =~= out@ + percent_decoded(bytes@.skip(bytes.len() as int)));
    string_from_utf8_lossy(out.as_slice())
}

fn is_escape_exec(x: u8, y: u8) -> (r: bool)
    ensures
        r == is_escape(x, y),
{
    is_hex_digit_exec(x) && is_hex_digit_exec(y)
}

/// A remote book location (`http://` or `https://`), after trimming.
pub open spec fn is_remote_uri(uri: Seq<char>) -> bool {
    starts_with(trimmed(uri), "http://"@) || starts_with(trimmed(uri), "https://"@)
}

pub fn is_remote(uri: &str) -> (r: bool)
    ensures
        r == is_remote_uri(uri@),
{
    let t = trim_chars(uri);
    starts_with_exec(&t, "http://") || starts_with_exec(&t, "https://")
}

/// The file extension under which a downloaded book is stored, guessed
/// from its (lowercased) URL.
pub open spec fn remote_extension(uri: Seq<char>) -> Seq<char> {
    let l = lowercase(trimmed(uri));
    if contains_seq(l, ".fb2.zip"@) {
        ".fb2.zip"@
    } else if contains_seq(l, ".epub"@) {
        ".epub"@
    } else if contains_seq(l, ".fb2"@) {
        ".fb2"@
    } else {
        ".tmp"@
    }
}

pub fn download_extension(uri: &str) -> (r: String)
    ensures
        r@ == remote_extension(uri@),
{
    let t = trim_chars(uri);
    let ts = string_from_chars(t.as_slice());
    let l = chars_of(lowercase_string(ts.as_str()).as_str());
    if contains_exec(&l, ".fb2.zip") {
        owned(".fb2.zip")
    } else if contains_exec(&l, ".epub") {
        owned(".epub")
    } else if contains_exec(&l, ".fb2") {
        owned(".fb2")
    } else {
        owned(".tmp")
    }
}

/// The bytes of the path named by a local location, escapes decoded
/// (see `local_path_of`).
pub open spec fn local_path_bytes(uri: Seq<char>) -> Seq<u8> {
    let t = trimmed(uri);
    let p = if starts_with(t, "file://"@) {
        let rest = t.skip(7);
        if starts_with(rest, "localhost"@) {
            rest.skip(9)
        } else {
            rest
        }
    } else if starts_with(t, "file:"@) {
        t.skip(5)
    } else {
        t
    };
    percent_decoded(vstd::utf8::encode_utf8(p))
}

/// The path named by a local location: `file://` (and a following
/// `localhost`) or `file:` is removed, then escapes are decoded.
pub open spec fn local_path_of(uri: Seq<char>) -> Seq<char> {
    utf8_lossy(local_path_bytes(uri))
}

proof fn lemma_trimmed_when_ends_are_not_ws(s: Seq<char>)
    requires
        s.len() > 0,
        !is_ws(s[0]),
        !is_ws(s.last()),
    ensures
        trimmed(s) == s,
{
    assert(leading_ws(s) == 0);
    assert(s.skip(0) =~= s);
    assert(trailing_ws(s) == 0);
    assert(s.take(s.len() as int) =~= s);
}

/// A path, written plainly, after `file://` or after `file://localhost`,
/// names the same file (for a path that does not itself begin with
/// `file:` or `localhost` and has no whitespace at its ends).
pub proof fn lemma_local_uri_forms_agree(p: Seq<char>)
    requires
        p.len() > 0,
        !is_ws(p[0]),
        !is_ws(p.last()),
        !starts_with(p, "file:"@),
        !starts_with(p, "localhost"@),
    ensures
        local_path_of("file://"@ + p) == local_path_of(p),
        local_path_of("file://"@ + "localhost"@ + p) == local_path_of(p),
{
    reveal_strlit("file://");
    reveal_strlit("file:");
    reveal_strlit("localhost");
    let a = "file://"@ + p;
    let b = "file://"@ + "localhost"@ + p;
    lemma_trimmed_when_ends_are_not_ws(p);
    assert(a.last() == p.last());
    assert(b.last() == p.last());
    lemma_trimmed_when_ends_are_not_ws(a);
    lemma_trimmed_when_ends_are_not_ws(b);
    assert(a.take(7) =~= "file://"@);
    assert(a.skip(7) =~= p);
    assert(b.take(7) =~= "file://"@);
    assert(b.skip(7) =~= "localhost"@ + p);
    assert(("localhost"@ + p).take(9) =~= "localhost"@);
    assert(("localhost"@ + p).skip(9) =~= p);
    assert(!starts_with(p, "file://"@)) by {
        if starts_with(p, "file://"@) {
            assert(p.take(5) =~= p.take(7).take(5));
            assert(p.take(5) =~= "file:"@);
        }
    }
    assert(local_path_bytes(a) == local_path_bytes(p));
    assert(local_path_bytes(b) == local_path_bytes(p));
}

pub fn local_path_from_uri(uri: &str) -> (r: String)
    ensures
        r@ == local_path_of(uri@),
        valid_utf8(local_path_bytes(uri@)) ==> r@ == decode_utf8(local_path_bytes(uri@)),
{
    let t = trim_chars(uri);
    proof {
        reveal_strlit("file://");
        reveal_strlit("localhost");
        reveal_strlit("file:");
    }
    let p: Vec<char> = if starts_with_exec(&t, "file://") {
        let rest = skip_chars(&t, 7);
        if starts_with_exec(&rest, "localhost") {
            skip_chars(&rest, 9)
        } else {
            rest
        }
    } else if starts_with_exec(&t, "file:") {
        skip_chars(&t, 5)
    } else {
        t
    };
    let ps = string_from_chars(p.as_slice());
    percent_encoding_decode(ps.as_str())
}

fn skip_chars(v: &Vec<char>, n: usize) -> (r: Vec<char>)
    requires
        n <= v.len(),
    ensures
        r@ == v@.skip(n as int),
{
    let mut r: Vec<char> = Vec::new();
    let mut i = n;
    while i < v.len()
        invariant
            n <= i <= v.len(),
            r@ == v@.subrange(n as int, i as int),
        decreases v.len() - i,
    {
        r.push(v[i]);
        assert(v@.subrange(n as int, i + 1) =~= v@.subrange(n as int, i as int).push(v@[i as int]));
        i = i + 1;
    }
    assert(v@.subrange(n as int, v.len() as int) =~= v@.skip(n as int));
    r
}

/// Which parser a path calls for, by its (lowercased) name; `None` when
/// the name says nothing and the content has to be sniffed.
pub open spec fn format_for_path(path: Seq<char>) -> Option<BookFormat> {
    let l = lowercase(path);
    if ends_with(l, ".fb2.zip"@) {
        Some(BookFormat::Fb2Zip)
    } else if ends_with(l, ".fb2"@) {
        Some(BookFormat::Fb2)
    } else if ends_with(l, ".epub"@) {
        Some(BookFormat::Epub)
    } else {
        None
    }
}

pub fn format_from_path(path: &str) -> (r: Option<BookFormat>)
    ensures
        r == format_for_path(path@),
{
    let l = chars_of(lowercase_string(path).as_str());
    if ends_with_exec(&l, ".fb2.zip") {
        Some(BookFormat::Fb2Zip)
    } else if ends_with_exec(&l, ".fb2") {
        Some(BookFormat::Fb2)
    } else if ends_with_exec(&l, ".epub") {
        Some(BookFormat::Epub)
    } else {
        None
    }
}

/// The identifier of a book: the SHA-1 of its canonical path, so that it
/// survives edits of the file and differs between files of the same name.
pub fn book_id_for_path(canonical_path: &str) -> (r: String)
    ensures
        r@ == sha1_hex_of(canonical_path.spec_bytes()),
{
    sha1_hex(canonical_path.as_bytes())
}

} // verus!
