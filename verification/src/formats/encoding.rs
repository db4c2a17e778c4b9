//! Decoding the bytes of an XML document: a UTF-8 byte order mark, else
//! the charset of the XML declaration, else UTF-8.
use crate::formats::uri::{string_from_utf8_lossy, utf8_lossy};
use crate::text::{ascii_lower, chars_of, matches_at, owned, string_of_range};
use crate::utils::{AppError, Result};
use vstd::prelude::*;

verus! {

/// `encoding_rs`: the text of `bytes` decoded with the encoding that
/// `label` names, or `None` when the label names no encoding.
pub uninterp spec fn labelled_decode(label: Seq<char>, bytes: Seq<u8>) -> Option<Seq<char>>;

pub open spec fn opt_text(o: Option<String>) -> Option<Seq<char>> {
    match o {
        Some(s) => Some(s@),
        None => None,
    }
}

/// `encoding_rs::Encoding::for_label`, then `Encoding::decode` with the
/// encoding found; the contract names the result, and states only what
/// the crate documents of the label `utf-8`: that it names an encoding
/// (UTF-8).
#[verifier::external_body]
fn decode_with_label(label: &str, bytes: &[u8]) -> (r: Option<String>)
    ensures
        opt_text(r) == labelled_decode(label@, bytes@),
        label@ == "utf-8"@ ==> r is Some,
{
    encoding_rs::Encoding::for_label(label.as_bytes()).map(|e| e.decode(bytes).0.into_owned())
}

/// The bytes decoded as UTF-8 (with `encoding_rs`).
pub open spec fn utf8_decoded(bytes: Seq<u8>) -> Seq<char> {
    labelled_decode("utf-8"@, bytes)->0
}

fn decode_utf8(bytes: &[u8]) -> (r: String)
    ensures
        r@ == utf8_decoded(bytes@),
{
    match decode_with_label("utf-8", bytes) {
        Some(t) => t,
        None => String::new(),
    }
}

/// `p` (lower case) occurs at `i` in `s`, ASCII case aside.
pub open spec fn matches_at_ci(s: Seq<char>, p: Seq<char>, i: int) -> bool {
    0 <= i && i + p.len() <= s.len() && forall|k: int| 0 <= k < p.len() ==> ascii_lower(#[trigger] s[i + k]) == p[k]
}

/// The first position from `from` on where `p` occurs in `s`.
pub open spec fn find_from(s: Seq<char>, p: Seq<char>, from: int) -> Option<int>
    decreases s.len() + 1 - from,
{
    if from < 0 || from + p.len() > s.len() {
        None
    } else if matches_at(s, p, from) {
        Some(from)
    } else {
        find_from(s, p, from + 1)
    }
}

/// The first position where `p` occurs in `s`, ASCII case aside.
pub open spec fn find_ci_from(s: Seq<char>, p: Seq<char>, from: int) -> Option<int>
    decreases s.len() + 1 - from,
{
    if from < 0 || from + p.len() > s.len() {
        None
    } else if matches_at_ci(s, p, from) {
        Some(from)
    } else {
        find_ci_from(s, p, from + 1)
    }
}

/// What the XML declaration at the start of `t` says of the encoding:
/// `Ok(Some(name))` for `encoding="name"` (or with `'`), `Ok(None)` when
/// there is no such declaration, `Err(())` when the declaration ends right
/// after `encoding=`.
pub open spec fn declared_encoding(t: Seq<char>) -> core::result::Result<Option<Seq<char>>, ()> {
    match find_from(t, "<?xml"@, 0) {
        None => Ok(None),
        Some(st) => match find_from(t.skip(st), ">"@, 0) {
            None => Ok(None),
            Some(en) => {
                let decl = t.subrange(st, st + en);
                match find_ci_from(decl, "encoding="@, 0) {
                    None => Ok(None),
                    Some(k) => {
                        let rest = decl.skip(k + 9);
                        if rest.len() == 0 {
                            Err(())
                        } else if rest[0] == '"' || rest[0] == '\'' {
                            match find_from(rest.skip(1), seq![rest[0]], 0) {
                                Some(e) => Ok(Some(rest.subrange(1, 1 + e))),
                                None => Ok(None),
                            }
                        } else {
                            Ok(None)
                        }
                    },
                }
            },
        },
    }
}

/// After a UTF-8 byte order mark the bytes are read as UTF-8, whatever
/// they declare.
pub proof fn lemma_bom_means_utf8(rest: Seq<u8>)
    ensures
        decoded_text(seq![0xEFu8, 0xBBu8, 0xBFu8] + rest) == Ok::<Seq<char>, ()>(utf8_lossy(rest)),
{
    let b = seq![0xEFu8, 0xBBu8, 0xBFu8] + rest;
    assert(b[0] == 0xEF && b[1] == 0xBB && b[2] == 0xBF);
    assert(b.skip(3) =~= rest);
}

/// `p` first occurs at `i`, from `from` on.
proof fn lemma_find_from_first(s: Seq<char>, p: Seq<char>, from: int, i: int)
    requires
        0 <= from <= i,
        matches_at(s, p, i),
        forall|j: int| from <= j < i ==> !#[trigger] matches_at(s, p, j),
    ensures
        find_from(s, p, from) == Some(i),
    decreases i - from,
{
    if from < i {
        lemma_find_from_first(s, p, from + 1, i);
    }
}

/// `p` first occurs at `i`, ASCII case aside, from `from` on.
proof fn lemma_find_ci_from_first(s: Seq<char>, p: Seq<char>, from: int, i: int)
    requires
        0 <= from <= i,
        matches_at_ci(s, p, i),
        forall|j: int| from <= j < i ==> !#[trigger] matches_at_ci(s, p, j),
    ensures
        find_ci_from(s, p, from) == Some(i),
    decreases i - from,
{
    if from < i {
        lemma_find_ci_from_first(s, p, from + 1, i);
    }
}

/// The XML declaration `<?xml .. encoding=QxQ?>` names the charset `x`
/// with either quote `Q`, `"` or `'`: both styles are read alike (for a
/// declaration with no `>` before its end and no earlier `encoding=`, and
/// a name without `>` or the quote).
pub proof fn lemma_declared_encoding_either_quote(a: Seq<char>, x: Seq<char>, rest: Seq<char>, q: char)
    requires
        q == '"' || q == '\'',
        forall|i: int| 0 <= i < a.len() ==> #[trigger] a[i] != '>',
        forall|i: int| 0 <= i < x.len() ==> #[trigger] x[i] != '>' && x[i] != q,
        forall|j: int|
            0 <= j < 5 + a.len() ==> !#[trigger] matches_at_ci("<?xml"@ + a + "encoding="@, "encoding="@, j),
    ensures
        declared_encoding("<?xml"@ + a + "encoding="@ + seq![q] + x + seq![q] + "?>"@ + rest) == Ok::<
            Option<Seq<char>>,
            (),
        >(Some(x)),
{
    reveal_strlit("<?xml");
    reveal_strlit("encoding=");
    reveal_strlit("?>");
    reveal_strlit(">");
    let pre = "<?xml"@ + a;
    let pe = pre + "encoding="@;
    let t = pe + seq![q] + x + seq![q] + "?>"@ + rest;
    let np = pre.len() as int;
    let en = np + 9 + 1 + x.len() + 1 + 1;
    // the declaration starts at 0
    assert(t.subrange(0, 5) =~= "<?xml"@);
    lemma_find_from_first(t, "<?xml"@, 0, 0);
    // it ends at the `>` of `?>`
    assert(t.skip(0) =~= t);
    assert forall|j: int| 0 <= j < en implies !#[trigger] matches_at(t, ">"@, j) by {
        if matches_at(t, ">"@, j) {
            assert(t.subrange(j, j + 1)[0] == t[j]);
            if j < 5 {
                assert(t[j] == "<?xml"@[j]);
            } else if j < np {
                assert(t[j] == a[j - 5]);
            } else if j < np + 9 {
                assert(t[j] == "encoding="@[j - np]);
            } else if j == np + 9 {
                assert(t[j] == q);
            } else if j < np + 10 + x.len() {
                assert(t[j] == x[j - np - 10]);
            } else if j == np + 10 + x.len() {
                assert(t[j] == q);
            } else {
                assert(t[j] == '?');
            }
        }
    }
    assert(t[en] == '>');
    assert(t.subrange(en, en + 1) =~= ">"@);
    lemma_find_from_first(t, ">"@, 0, en);
    let decl = t.subrange(0, en);
    // `encoding=` first occurs right after the prefix
    assert(decl.subrange(0, np + 9) =~= pe);
    assert forall|j: int| 0 <= j < np implies !#[trigger] matches_at_ci(decl, "encoding="@, j) by {
        if matches_at_ci(decl, "encoding="@, j) {
            assert forall|k: int| 0 <= k < 9 implies ascii_lower(#[trigger] pe[j + k]) == "encoding="@[k] by {
                assert(pe[j + k] == decl[j + k]);
            }
            assert(matches_at_ci(pe, "encoding="@, j));
        }
    }
    assert forall|k: int| 0 <= k < 9 implies ascii_lower(#[trigger] decl[np + k]) == "encoding="@[k] by {
        assert(decl[np + k] == "encoding="@[k]);
    }
    lemma_find_ci_from_first(decl, "encoding="@, 0, np);
    let r = decl.skip(np + 9);
    assert(r =~= seq![q] + x + seq![q] + seq!['?']);
    assert(r[0] == q);
    let r1 = r.skip(1);
    assert(r1 =~= x + seq![q] + seq!['?']);
    assert forall|j: int| 0 <= j < x.len() implies !#[trigger] matches_at(r1, seq![r[0]], j) by {
        if matches_at(r1, seq![r[0]], j) {
            assert(r1.subrange(j, j + 1)[0] == r1[j]);
            assert(r1[j] == x[j]);
        }
    }
    assert(r1.subrange(x.len() as int, x.len() + 1int) =~= seq![r[0]]);
    lemma_find_from_first(r1, seq![r[0]], 0, x.len() as int);
    assert(r.subrange(1, 1int + x.len()) =~= x);
}

/// The text of an XML document's bytes: after a UTF-8 byte order mark
/// the rest as UTF-8; otherwise decoded with the charset that the XML
/// declaration (within the first 1024 bytes) names, or as UTF-8 when it
/// names none or one that `encoding_rs` does not know.
pub open spec fn decoded_text(b: Seq<u8>) -> core::result::Result<Seq<char>, ()> {
    if b.len() == 0 {
        Ok(Seq::empty())
    } else if b.len() >= 3 && b[0] == 0xEF && b[1] == 0xBB && b[2] == 0xBF {
        Ok(utf8_lossy(b.skip(3)))
    } else {
        let sample = utf8_lossy(b.take(if b.len() < 1024 { b.len() as int } else { 1024 }));
        match declared_encoding(sample) {
            Err(_) => Err(()),
            Ok(Some(name)) => match labelled_decode(name, b) {
                Some(t) => Ok(t),
                None => Ok(utf8_decoded(b)),
            },
            Ok(None) => Ok(utf8_decoded(b)),
        }
    }
}

proof fn lemma_find_from_bounds(s: Seq<char>, p: Seq<char>, from: int)
    ensures
        find_from(s, p, from) matches Some(i) ==> from <= i && i + p.len() <= s.len(),
    decreases s.len() + 1 - from,
{
    if from >= 0 && from + p.len() <= s.len() && !matches_at(s, p, from) {
        lemma_find_from_bounds(s, p, from + 1);
    }
}

pub fn find_exec(s: &Vec<char>, p: &Vec<char>, from: usize) -> (r: Option<usize>)
    ensures
        r matches Some(i) ==> from <= i && i + p@.len() <= s@.len(),
        match r {
            Some(i) => find_from(s@, p@, from as int) == Some(i as int),
            None => find_from(s@, p@, from as int) is None,
        },
{
    let mut i = from;
    let sl = s.len();
    while i <= s.len() && p.len() <= s.len() - i
        invariant
            from <= i,
            sl == s@.len(),
            find_from(s@, p@, from as int) == find_from(s@, p@, i as int),
        decreases s.len() + 1 - i,
    {
        let mut k: usize = 0;
        let mut ok = true;
        while k < p.len()
            invariant
                k <= p@.len(),
                i + p@.len() <= s@.len(),
                sl == s@.len(),
                ok ==> forall|j: int| 0 <= j < k ==> s@[i + j] == p@[j],
                !ok ==> !matches_at(s@, p@, i as int),
                !ok ==> p@.len() > 0,
            decreases p.len() - k,
        {
            if s[i + k] != p[k] {
                assert(s@.subrange(i as int, i + p@.len())[k as int] != p@[k as int]);
                ok = false;
            }
            k = k + 1;
        }
        if ok {
            assert(s@.subrange(i as int, i + p@.len()) =~= p@);
            proof {
                lemma_find_from_bounds(s@, p@, i as int);
            }
            return Some(i);
        }
        i = i + 1;
    }
    None
}

pub fn find_ci_exec(s: &Vec<char>, p: &Vec<char>) -> (r: Option<usize>)
    ensures
        r matches Some(i) ==> i + p@.len() <= s@.len(),
        match r {
            Some(i) => find_ci_from(s@, p@, 0) == Some(i as int),
            None => find_ci_from(s@, p@, 0) is None,
        },
{
    let mut i: usize = 0;
    let sl = s.len();
    while i <= s.len() && p.len() <= s.len() - i
        invariant
            sl == s@.len(),
            find_ci_from(s@, p@, 0) == find_ci_from(s@, p@, i as int),
        decreases s.len() + 1 - i,
    {
        let mut k: usize = 0;
        let mut ok = true;
        while k < p.len()
            invariant
                k <= p@.len(),
                i + p@.len() <= s@.len(),
                sl == s@.len(),
                ok ==> forall|j: int| 0 <= j < k ==> ascii_lower(#[trigger] s@[i + j]) == p@[j],
                !ok ==> !matches_at_ci(s@, p@, i as int),
                !ok ==> p@.len() > 0,
            decreases p.len() - k,
        {
            let c = s[i + k];
            let lc = if 'A' <= c && c <= 'Z' { ((c as u32) + 32) as u8 as char } else { c };
            assert(lc == ascii_lower(c)) by {
                if 'A' <= c && c <= 'Z' {
                    assert((c as u32) + 32 < 128);
                }
            };
            if lc != p[k] {
                ok = false;
            }
            k = k + 1;
        }
        if ok {
            return Some(i);
        }
        i = i + 1;
    }
    None
}

fn declared_encoding_exec(t: &Vec<char>) -> (r: core::result::Result<Option<String>, ()>)
    ensures
        match r {
            Ok(Some(n)) => declared_encoding(t@) == Ok::<Option<Seq<char>>, ()>(Some(n@)),
            Ok(None) => declared_encoding(t@) == Ok::<Option<Seq<char>>, ()>(None),
            Err(_) => declared_encoding(t@) is Err,
        },
{
    proof {
        reveal_strlit("<?xml");
        reveal_strlit(">");
        reveal_strlit("encoding=");
    }
    let open = chars_of("<?xml");
    let close = chars_of(">");
    let key = chars_of("encoding=");
    let st = match find_exec(t, &open, 0) {
        Some(st) => st,
        None => {
            return Ok(None);
        },
    };
    let after = slice_from(t, st);
    let en = match find_exec(&after, &close, 0) {
        Some(en) => en,
        None => {
            return Ok(None);
        },
    };
    let tl = t.len();
    assert(after@.len() == tl - st);
    let decl = slice_range(t, st, st + en);
    let k = match find_ci_exec(&decl, &key) {
        Some(k) => k,
        None => {
            return Ok(None);
        },
    };
    let rest = slice_from(&decl, k + 9);
    if rest.len() == 0 {
        return Err(());
    }
    let q = rest[0];
    if q == '"' || q == '\'' {
        let inner = slice_from(&rest, 1);
        let mut qv: Vec<char> = Vec::new();
        qv.push(q);
        assert(qv@ =~= seq![rest@[0]]);
        match find_exec(&inner, &qv, 0) {
            Some(e) => {
                let name = string_of_range(&rest, 1, 1 + e);
                Ok(Some(name))
            },
            None => Ok(None),
        }
    } else {
        Ok(None)
    }
}

pub fn slice_from(v: &Vec<char>, a: usize) -> (r: Vec<char>)
    requires
        a <= v@.len(),
    ensures
        r@ == v@.skip(a as int),
{
    let r = slice_range(v, a, v.len());
    assert(v@.subrange(a as int, v@.len() as int) =~= v@.skip(a as int));
    r
}

pub fn slice_range(v: &Vec<char>, a: usize, b: usize) -> (r: Vec<char>)
    requires
        a <= b <= v@.len(),
    ensures
        r@ == v@.subrange(a as int, b as int),
{
    let mut r: Vec<char> = Vec::new();
    let mut i = a;
    while i < b
        invariant
            a <= i <= b <= v@.len(),
            r@ == v@.subrange(a as int, i as int),
        decreases b - i,
    {
        r.push(v[i]);
        assert(v@.subrange(a as int, i + 1) =~= v@.subrange(a as int, i as int).push(v@[i as int]));
        i = i + 1;
    }
    r
}

/// Decodes the bytes of an XML document (see `decoded_text`); a
/// declaration that ends right after `encoding=` is refused.
pub fn decode_bytes(bytes: &[u8]) -> (r: Result<String>)
    ensures
        match decoded_text(bytes@) {
            Ok(t) => r matches Ok(s) && s@ == t,
            Err(_) => r matches Err(AppError::Parse(_)),
        },
{
    if bytes.len() == 0 {
        return Ok(String::new());
    }
    if bytes.len() >= 3 && bytes[0] == 0xEF && bytes[1] == 0xBB && bytes[2] == 0xBF {
        let rest = slice_bytes(bytes, 3, bytes.len());
        assert(bytes@.subrange(3, bytes@.len() as int) =~= bytes@.skip(3));
        return Ok(string_from_utf8_lossy(rest.as_slice()));
    }
    let n = if bytes.len() < 1024 { bytes.len() } else { 1024 };
    let head = slice_bytes(bytes, 0, n);
    assert(bytes@.subrange(0, n as int) =~= bytes@.take(n as int));
    let sample = string_from_utf8_lossy(head.as_slice());
    let t = chars_of(sample.as_str());
    match declared_encoding_exec(&t) {
        Err(_) => Err(AppError::Parse(owned("XML declaration names no encoding"))),
        Ok(Some(name)) => match decode_with_label(name.as_str(), bytes) {
            Some(t) => Ok(t),
            None => Ok(decode_utf8(bytes)),
        },
        Ok(None) => Ok(decode_utf8(bytes)),
    }
}

fn slice_bytes(v: &[u8], a: usize, b: usize) -> (r: Vec<u8>)
    requires
        a <= b <= v@.len(),
    ensures
        r@ == v@.subrange(a as int, b as int),
{
    let mut r: Vec<u8> = Vec::new();
    let mut i = a;
    while i < b
        invariant
            a <= i <= b <= v@.len(),
            r@ == v@.subrange(a as int, i as int),
        decreases b - i,
    {
        r.push(v[i]);
        assert(v@.subrange(a as int, i + 1) =~= v@.subrange(a as int, i as int).push(v@[i as int]));
        i = i + 1;
    }
    r
}

} // verus!
