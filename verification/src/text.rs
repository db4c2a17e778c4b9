//! Character-level helpers shared by the parsers, the layout engine and the
//! search index. Text is handled as sequences of `char`s.
use vstd::prelude::*;

verus! {

/// Appends one character to a string (`String::push`).
#[verifier::external_body]
pub(crate) fn push_char(s: &mut String, c: char)
    ensures
        final(s)@ == old(s)@.push(c),
{
    s.push(c)
}

/// The characters of `s`, in order.
pub fn chars_of(s: &str) -> (r: Vec<char>)
    ensures
        r@ == s@,
{
    let mut r: Vec<char> = Vec::new();
    for c in it: s.chars()
        invariant
            r@ == it.seq().take(it.index() as int),
    {
        r.push(c);
    }
    r
}

/// A string holding exactly the characters of `v`.
pub fn string_from_chars(v: &[char]) -> (r: String)
    ensures
        r@ == v@,
{
    let mut r = String::new();
    let mut i: usize = 0;
    while i < v.len()
        invariant
            i <= v.len(),
            r@ == v@.take(i as int),
        decreases v.len() - i,
    {
        push_char(&mut r, v[i]);
        assert(v@.take(i + 1) =~= v@.take(i as int).push(v@[i as int]));
        i = i + 1;
    }
    assert(v@.take(v.len() as int) =~= v@);
    r
}

/// The characters `a..b` of `cs` as a string.
pub fn string_of_range(cs: &Vec<char>, a: usize, b: usize) -> (r: String)
    requires
        a <= b <= cs.len(),
    ensures
        r@ == cs@.subrange(a as int, b as int),
{
    let mut r = String::new();
    let mut i: usize = a;
    while i < b
        invariant
            a <= i <= b,
            b <= cs.len(),
            r@ == cs@.subrange(a as int, i as int),
        decreases b - i,
    {
        push_char(&mut r, cs[i]);
        assert(cs@.subrange(a as int, i + 1) =~= cs@.subrange(a as int, i as int).push(cs@[i as int]));
        i = i + 1;
    }
    r
}

/// An owned copy of `s`.
pub fn owned(s: &str) -> (r: String)
    ensures
        r@ == s@,
{
    String::from_str(s)
}

/// Concatenation of a sequence of character sequences.
pub open spec fn concat_all(parts: Seq<Seq<char>>) -> Seq<char>
    decreases parts.len(),
{
    if parts.len() == 0 {
        Seq::empty()
    } else {
        concat_all(parts.drop_last()) + parts.last()
    }
}

/// The parts joined with `sep` between consecutive parts.
pub open spec fn join(parts: Seq<Seq<char>>, sep: Seq<char>) -> Seq<char>
    decreases parts.len(),
{
    if parts.len() == 0 {
        Seq::empty()
    } else if parts.len() == 1 {
        parts[0]
    } else {
        join(parts.drop_last(), sep) + sep + parts.last()
    }
}


/// ASCII letters in lower case, other characters unchanged.
pub open spec fn ascii_lower(c: char) -> char {
    if 'A' <= c <= 'Z' {
        ((c as u32) + 32) as char
    } else {
        c
    }
}

/// Every character of `s` is ASCII.
pub open spec fn is_ascii_text(s: Seq<char>) -> bool {
    forall|i: int| 0 <= i < s.len() ==> (#[trigger] s[i] as u32) < 128
}

/// `str::to_lowercase` beyond ASCII, where the Unicode case mappings decide.
pub uninterp spec fn unicode_lowercase(s: Seq<char>) -> Seq<char>;

/// `str::to_lowercase`: the lowercase form of a string. On ASCII text the
/// Unicode mapping lowers `A`..`Z` and keeps every other character.
#[verifier::opaque]
pub open spec fn lowercase(s: Seq<char>) -> Seq<char> {
    if is_ascii_text(s) {
        s.map_values(|c: char| ascii_lower(c))
    } else {
        unicode_lowercase(s)
    }
}

/// `str::to_lowercase`. On ASCII text the result is stated; beyond it the
/// contract names the result (`unicode_lowercase`) and claims nothing else.
#[verifier::external_body]
pub(crate) fn lowercase_string(s: &str) -> (r: String)
    ensures
        r@ == lowercase(s@),
        !is_ascii_text(s@) ==> r@ == unicode_lowercase(s@),
{
    s.to_lowercase()
}

/// `char::is_whitespace`: the character has the Unicode `White_Space`
/// property, which these code points have.
pub open spec fn is_ws(c: char) -> bool {
    let u = c as u32;
    ||| 0x09 <= u <= 0x0D
    ||| u == 0x20
    ||| u == 0x85
    ||| u == 0xA0
    ||| u == 0x1680
    ||| 0x2000 <= u <= 0x200A
    ||| u == 0x2028
    ||| u == 0x2029
    ||| u == 0x202F
    ||| u == 0x205F
    ||| u == 0x3000
}

/// Whether `c` has the `White_Space` property (as `char::is_whitespace`).
pub fn is_whitespace(c: char) -> (r: bool)
    ensures
        r == is_ws(c),
{
    let u = c as u32;
    (0x09 <= u && u <= 0x0D) || u == 0x20 || u == 0x85 || u == 0xA0 || u == 0x1680 || (0x2000 <= u && u
        <= 0x200A) || u == 0x2028 || u == 0x2029 || u == 0x202F || u == 0x205F || u == 0x3000
}

/// Number of whitespace characters at the start of `s`.
pub open spec fn leading_ws(s: Seq<char>) -> nat
    decreases s.len(),
{
    if s.len() > 0 && is_ws(s[0]) {
        1 + leading_ws(s.skip(1))
    } else {
        0
    }
}

/// Number of whitespace characters at the end of `s`.
pub open spec fn trailing_ws(s: Seq<char>) -> nat
    decreases s.len(),
{
    if s.len() > 0 && is_ws(s.last()) {
        1 + trailing_ws(s.drop_last())
    } else {
        0
    }
}

/// `s` without leading and trailing whitespace (as `str::trim`).
pub open spec fn trimmed(s: Seq<char>) -> Seq<char> {
    let t = s.skip(leading_ws(s) as int);
    t.take(t.len() - trailing_ws(t))
}

pub proof fn lemma_leading_ws_bound(s: Seq<char>)
    ensures
        leading_ws(s) <= s.len(),
    decreases s.len(),
{
    if s.len() > 0 && is_ws(s[0]) {
        lemma_leading_ws_bound(s.skip(1));
    }
}

pub proof fn lemma_trailing_ws_bound(s: Seq<char>)
    ensures
        trailing_ws(s) <= s.len(),
    decreases s.len(),
{
    if s.len() > 0 && is_ws(s.last()) {
        lemma_trailing_ws_bound(s.drop_last());
    }
}

/// The characters of `s` without leading and trailing whitespace.
pub fn trim_chars(s: &str) -> (r: Vec<char>)
    ensures
        r@ == trimmed(s@),
{
    let cs = chars_of(s);
    let mut a: usize = 0;
    proof { lemma_leading_ws_bound(cs@); }
    assert(cs@.skip(0) =~= cs@);
    while a < cs.len() && is_whitespace(cs[a])
        invariant
            a <= cs.len(),
            leading_ws(cs@) == a + leading_ws(cs@.skip(a as int)),
        decreases cs.len() - a,
    {
        assert(cs@.skip(a as int).skip(1) =~= cs@.skip(a + 1));
        a = a + 1;
    }
    if a < cs.len() {
        assert(cs@.skip(a as int)[0] == cs@[a as int]);
    }
    assert(leading_ws(cs@) == a);
    let ghost t = cs@.skip(a as int);
    let mut b: usize = cs.len();
    assert(t.take(b - a) =~= t);
    while b > a && is_whitespace(cs[b - 1])
        invariant
            a <= b <= cs.len(),
            t == cs@.skip(a as int),
            trailing_ws(t) == (cs.len() - b) + trailing_ws(t.take(b - a)),
        decreases b,
    {
        assert(t.take(b - a).drop_last() =~= t.take(b - a - 1));
        assert(t.take(b - a).last() == cs@[b - 1]);
        b = b - 1;
    }
    proof {
        if b > a {
            assert(t.take(b - a).last() == cs@[b - 1]);
        }
        assert(trailing_ws(t.take(b - a)) == 0);
    }
    let mut r: Vec<char> = Vec::new();
    let mut i = a;
    while i < b
        invariant
            a <= i <= b,
            b <= cs.len(),
            r@ == cs@.subrange(a as int, i as int),
        decreases b - i,
    {
        r.push(cs[i]);
        assert(cs@.subrange(a as int, i + 1) =~= cs@.subrange(a as int, i as int).push(cs@[i as int]));
        i = i + 1;
    }
    assert(r@ =~= t.take(t.len() - trailing_ws(t)));
    r
}

// Prefixes, suffixes and occurrences ---------------------------------

pub open spec fn starts_with(s: Seq<char>, p: Seq<char>) -> bool {
    p.len() <= s.len() && s.take(p.len() as int) == p
}

pub open spec fn ends_with(s: Seq<char>, p: Seq<char>) -> bool {
    p.len() <= s.len() && s.skip(s.len() - p.len()) == p
}

/// `p` occurs in `s` at position `i`.
pub open spec fn matches_at(s: Seq<char>, p: Seq<char>, i: int) -> bool {
    0 <= i && i + p.len() <= s.len() && s.subrange(i, i + p.len()) == p
}

pub open spec fn contains_seq(s: Seq<char>, p: Seq<char>) -> bool {
    exists|i: int| #[trigger] matches_at(s, p, i)
}

pub fn starts_with_exec(s: &Vec<char>, p: &str) -> (r: bool)
    ensures
        r == starts_with(s@, p@),
{
    let pc = chars_of(p);
    if pc.len() > s.len() {
        return false;
    }
    let mut i: usize = 0;
    while i < pc.len()
        invariant
            i <= pc.len(),
            pc.len() <= s.len(),
            pc@ == p@,
            forall|j: int| 0 <= j < i ==> s@[j] == pc@[j],
        decreases pc.len() - i,
    {
        if s[i] != pc[i] {
            assert(s@.take(pc.len() as int)[i as int] != pc@[i as int]);
            return false;
        }
        i = i + 1;
    }
    assert(s@.take(pc.len() as int) =~= pc@);
    true
}

pub fn ends_with_exec(s: &Vec<char>, p: &str) -> (r: bool)
    ensures
        r == ends_with(s@, p@),
{
    let pc = chars_of(p);
    if pc.len() > s.len() {
        return false;
    }
    let off = s.len() - pc.len();
    let mut i: usize = 0;
    while i < pc.len()
        invariant
            i <= pc.len(),
            off + pc.len() == s.len(),
            pc@ == p@,
            forall|j: int| 0 <= j < i ==> s@[off + j] == pc@[j],
        decreases pc.len() - i,
    {
        if s[off + i] != pc[i] {
            assert(s@.skip(off as int)[i as int] != pc@[i as int]);
            return false;
        }
        i = i + 1;
    }
    assert(s@.skip(off as int) =~= pc@);
    true
}

pub fn contains_exec(s: &Vec<char>, p: &str) -> (r: bool)
    ensures
        r == contains_seq(s@, p@),
{
    let pc = chars_of(p);
    if pc.len() > s.len() {
        return false;
    }
    if pc.len() == 0 {
        assert(s@.subrange(0, 0) =~= pc@);
        assert(matches_at(s@, pc@, 0));
        return true;
    }
    let mut i: usize = 0;
    while i <= s.len() - pc.len()
        invariant
            1 <= pc.len() <= s.len(),
            i <= s.len() - pc.len() + 1,
            pc@ == p@,
            forall|j: int| 0 <= j < i ==> !#[trigger] matches_at(s@, pc@, j),
        decreases s.len() - i,
    {
        let mut k: usize = 0;
        let mut ok = true;
        while k < pc.len()
            invariant
                k <= pc.len(),
                i + pc.len() <= s.len(),
                ok ==> forall|j: int| 0 <= j < k ==> s@[i + j] == pc@[j],
                !ok ==> s@.subrange(i as int, i + pc.len()) != pc@,
            decreases pc.len() - k,
        {
            if s[i + k] != pc[k] {
                assert(s@.subrange(i as int, i + pc.len())[k as int] != pc@[k as int]);
                ok = false;
            }
            k = k + 1;
        }
        if ok {
            assert(s@.subrange(i as int, i + pc.len()) =~= pc@);
            assert(matches_at(s@, pc@, i as int));
            return true;
        }
        i = i + 1;
    }
    assert forall|j: int| !#[trigger] matches_at(s@, pc@, j) by {
        if 0 <= j && j + pc.len() <= s.len() {
            assert(j < i);
        }
    }
    false
}

// Decimal numbers ------------------------------------------------------

/// The value of a string of decimal digits.
pub open spec fn digits_value(d: Seq<char>) -> nat
    decreases d.len(),
{
    if d.len() == 0 {
        0
    } else {
        digits_value(d.drop_last()) * 10 + ((d.last() as int) - 48) as nat
    }
}

pub open spec fn all_digits(d: Seq<char>) -> bool {
    forall|i: int| 0 <= i < d.len() ==> '0' <= #[trigger] d[i] <= '9'
}

/// `usize::from_str`: an optional `+` and at least one decimal digit,
/// the value fitting in a `usize`.
pub open spec fn parsed_usize(s: Seq<char>) -> Option<nat> {
    let d = if s.len() > 0 && s[0] == '+' { s.skip(1) } else { s };
    if d.len() > 0 && all_digits(d) && digits_value(d) <= usize::MAX {
        Some(digits_value(d))
    } else {
        None
    }
}

proof fn lemma_digits_prefix(d: Seq<char>, k: int)
    requires
        all_digits(d),
        0 <= k <= d.len(),
    ensures
        digits_value(d.take(k)) <= digits_value(d),
    decreases d.len(),
{
    if k < d.len() {
        assert(d.drop_last().take(k) =~= d.take(k));
        lemma_digits_prefix(d.drop_last(), k);
    } else {
        assert(d.take(k) =~= d);
    }
}

/// Reads a line number (see `parsed_usize`).
pub fn parse_usize(s: &str) -> (r: Option<usize>)
    ensures
        r matches Some(n) ==> parsed_usize(s@) == Some(n as nat),
        r is None ==> parsed_usize(s@) is None,
{
    let cs = chars_of(s);
    let start: usize = if cs.len() > 0 && cs[0] == '+' { 1 } else { 0 };
    let ghost d = if cs@.len() > 0 && cs@[0] == '+' { cs@.skip(1) } else { cs@ };
    assert(d =~= cs@.skip(start as int));
    if start >= cs.len() {
        return None;
    }
    let mut v: usize = 0;
    let mut i: usize = start;
    while i < cs.len()
        invariant
            start <= i <= cs.len(),
            cs@ == s@,
            d == (if s@.len() > 0 && s@[0] == '+' { s@.skip(1) } else { s@ }),
            d == cs@.skip(start as int),
            all_digits(d.take(i - start)),
            v == digits_value(d.take(i - start)),
        decreases cs.len() - i,
    {
        let c = cs[i];
        let k = i - start;
        assert(d[k as int] == c);
        if c < '0' || c > '9' {
            assert(!all_digits(d));
            return None;
        }
        let dig = (c as u32 - 48) as usize;
        assert(d.take(k + 1).drop_last() =~= d.take(k as int));
        assert(d.take(k + 1).last() == c);
        assert(all_digits(d.take(k + 1)));
        match v.checked_mul(10) {
            Some(v10) => match v10.checked_add(dig) {
                Some(nv) => {
                    v = nv;
                },
                None => {
                    proof {
                        if all_digits(d) {
                            lemma_digits_prefix(d, k + 1);
                        }
                    }
                    return None;
                },
            },
            None => {
                proof {
                    if all_digits(d) {
                        lemma_digits_prefix(d, k + 1);
                    }
                }
                return None;
            },
        }
        i = i + 1;
    }
    assert(d.take(cs.len() - start) =~= d);
    Some(v)
}

/// `u32::from_str`: as `parsed_usize`, the value fitting in a `u32`.
pub open spec fn parsed_u32(s: Seq<char>) -> Option<nat> {
    let d = if s.len() > 0 && s[0] == '+' { s.skip(1) } else { s };
    if d.len() > 0 && all_digits(d) && digits_value(d) <= u32::MAX {
        Some(digits_value(d))
    } else {
        None
    }
}

/// Reads a `u32` (see `parsed_u32`).
pub fn parse_u32(s: &str) -> (r: Option<u32>)
    ensures
        r matches Some(n) ==> parsed_u32(s@) == Some(n as nat),
        r is None ==> parsed_u32(s@) is None,
{
    match parse_usize(s) {
        Some(n) => if n <= 0xffff_ffffusize {
            Some(n as u32)
        } else {
            None
        },
        None => None,
    }
}

} // verus!
