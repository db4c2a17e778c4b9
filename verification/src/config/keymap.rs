//! Key bindings: the actions a key sequence can trigger, the default
//! bindings and their normalization.
use crate::text::{
    chars_of, is_ws, join, leading_ws, lowercase, lowercase_string, owned, starts_with, starts_with_exec,
    string_from_chars, trailing_ws, trim_chars, trimmed,
};
use crate::utils::{AppError, Result};
use vstd::prelude::*;
use vstd::relations::{sorted_by, total_ordering};

verus! {

#[derive(Debug, Clone, Copy, PartialEq, Eq, Structural, Hash)]
pub enum KeyAction {
    ScrollDown,
    ScrollUp,
    PageDown,
    PageUp,
    HalfPageDown,
    HalfPageUp,
    GotoTop,
    GotoBottom,
    Search,
    NextMatch,
    PrevMatch,
    OpenFile,
    SaveToLibrary,
    AddBookmark,
    ListBookmarks,
    Toc,
    Info,
    Help,
    Quit,
    Command,
    ToggleSimpleMode,
    ToggleCss,
    Select,
    Delete,
    CycleSort,
    ViewImage,
    ToggleJustify,
    ToggleWidescreen,
}

impl KeyAction {
    pub open spec fn spec_name(self) -> Seq<char> {
        match self {
            KeyAction::ScrollDown => "scroll_down"@,
            KeyAction::ScrollUp => "scroll_up"@,
            KeyAction::PageDown => "page_down"@,
            KeyAction::PageUp => "page_up"@,
            KeyAction::HalfPageDown => "half_page_down"@,
            KeyAction::HalfPageUp => "half_page_up"@,
            KeyAction::GotoTop => "goto_top"@,
            KeyAction::GotoBottom => "goto_bottom"@,
            KeyAction::Search => "search"@,
            KeyAction::NextMatch => "next_match"@,
            KeyAction::PrevMatch => "prev_match"@,
            KeyAction::OpenFile => "open_file"@,
            KeyAction::SaveToLibrary => "save_to_library"@,
            KeyAction::AddBookmark => "add_bookmark"@,
            KeyAction::ListBookmarks => "list_bookmarks"@,
            KeyAction::Toc => "toc"@,
            KeyAction::Info => "info"@,
            KeyAction::Help => "help"@,
            KeyAction::Quit => "quit"@,
            KeyAction::Command => "command"@,
            KeyAction::ToggleSimpleMode => "toggle_simple_mode"@,
            KeyAction::ToggleCss => "toggle_css"@,
            KeyAction::Select => "select"@,
            KeyAction::Delete => "delete"@,
            KeyAction::CycleSort => "cycle_sort"@,
            KeyAction::ViewImage => "view_image"@,
            KeyAction::ToggleJustify => "toggle_justify"@,
            KeyAction::ToggleWidescreen => "toggle_widescreen"@,
        }
    }

    /// The configuration name of the action (`scroll_down`, ...).
    pub fn to_string(&self) -> (r: String)
        ensures
            r@ == self.spec_name(),
    {
        let name = match self {
            KeyAction::ScrollDown => "scroll_down",
            KeyAction::ScrollUp => "scroll_up",
            KeyAction::PageDown => "page_down",
            KeyAction::PageUp => "page_up",
            KeyAction::HalfPageDown => "half_page_down",
            KeyAction::HalfPageUp => "half_page_up",
            KeyAction::GotoTop => "goto_top",
            KeyAction::GotoBottom => "goto_bottom",
            KeyAction::Search => "search",
            KeyAction::NextMatch => "next_match",
            KeyAction::PrevMatch => "prev_match",
            KeyAction::OpenFile => "open_file",
            KeyAction::SaveToLibrary => "save_to_library",
            KeyAction::AddBookmark => "add_bookmark",
            KeyAction::ListBookmarks => "list_bookmarks",
            KeyAction::Toc => "toc",
            KeyAction::Info => "info",
            KeyAction::Help => "help",
            KeyAction::Quit => "quit",
            KeyAction::Command => "command",
            KeyAction::ToggleSimpleMode => "toggle_simple_mode",
            KeyAction::ToggleCss => "toggle_css",
            KeyAction::Select => "select",
            KeyAction::Delete => "delete",
            KeyAction::CycleSort => "cycle_sort",
            KeyAction::ViewImage => "view_image",
            KeyAction::ToggleJustify => "toggle_justify",
            KeyAction::ToggleWidescreen => "toggle_widescreen",
        };
        owned(name)
    }
}

// ---------------------------------------------------------------------
// Lexicographic order on strings (as `String`'s `Ord`, which compares
// UTF-8 bytes and therefore code points).

pub open spec fn key_le(a: Seq<char>, b: Seq<char>) -> bool
    decreases a.len(),
{
    if a.len() == 0 {
        true
    } else if b.len() == 0 {
        false
    } else if a[0] != b[0] {
        (a[0] as int) < (b[0] as int)
    } else {
        key_le(a.skip(1), b.skip(1))
    }
}

pub proof fn lemma_key_le_total(a: Seq<char>, b: Seq<char>)
    ensures
        key_le(a, b) || key_le(b, a),
        key_le(a, b) && key_le(b, a) ==> a == b,
        key_le(a, a),
    decreases a.len(),
{
    if a.len() > 0 && b.len() > 0 {
        lemma_key_le_total(a.skip(1), b.skip(1));
        if a[0] == b[0] && key_le(a, b) && key_le(b, a) {
            assert(a =~= seq![a[0]] + a.skip(1));
            assert(b =~= seq![b[0]] + b.skip(1));
        }

    } else if a.len() == 0 && b.len() == 0 {
        assert(a =~= b);
    }
    if a.len() > 0 {
        lemma_key_le_total(a.skip(1), a.skip(1));
    }
}

pub proof fn lemma_key_le_trans(a: Seq<char>, b: Seq<char>, c: Seq<char>)
    requires
        key_le(a, b),
        key_le(b, c),
    ensures
        key_le(a, c),
    decreases a.len(),
{
    if a.len() > 0 && b.len() > 0 && c.len() > 0 {
        if a[0] == b[0] && b[0] == c[0] {
            lemma_key_le_trans(a.skip(1), b.skip(1), c.skip(1));
        }
    }
}

pub open spec fn key_order() -> spec_fn(Seq<char>, Seq<char>) -> bool {
    |a: Seq<char>, b: Seq<char>| key_le(a, b)
}

pub proof fn lemma_key_order_total()
    ensures
        total_ordering(key_order()),
{
    assert forall|a: Seq<char>, b: Seq<char>, c: Seq<char>|
        #[trigger] key_order()(a, b) && #[trigger] key_order()(b, c) implies key_order()(a, c) by {
        lemma_key_le_trans(a, b, c);
    }
    assert forall|a: Seq<char>, b: Seq<char>| #[trigger] key_order()(a, b) || key_order()(b, a) by {
        lemma_key_le_total(a, b);
    }
    assert forall|a: Seq<char>| #[trigger] key_order()(a, a) by {
        lemma_key_le_total(a, a);
    }
    assert forall|a: Seq<char>, b: Seq<char>|
        #[trigger] key_order()(a, b) && #[trigger] key_order()(b, a) implies a == b by {
        lemma_key_le_total(a, b);
    }
}

pub fn key_le_exec(a: &Vec<char>, b: &Vec<char>) -> (r: bool)
    ensures
        r == key_le(a@, b@),
{
    let mut i: usize = 0;
    assert(a@.skip(0) =~= a@);
    assert(b@.skip(0) =~= b@);
    while i < a.len() && i < b.len() && a[i] == b[i]
        invariant
            i <= a.len(),
            i <= b.len(),
            key_le(a@, b@) == key_le(a@.skip(i as int), b@.skip(i as int)),
        decreases a.len() - i,
    {
        assert(a@.skip(i as int).skip(1) =~= a@.skip(i + 1));
        assert(b@.skip(i as int).skip(1) =~= b@.skip(i + 1));
        i = i + 1;
    }
    if i == a.len() {
        true
    } else if i == b.len() {
        false
    } else {
        assert(a@.skip(i as int)[0] == a@[i as int]);
        assert(b@.skip(i as int)[0] == b@[i as int]);
        a[i] < b[i]
    }
}

// ---------------------------------------------------------------------
// Key normalization

pub open spec fn vviews(s: Seq<Vec<char>>) -> Seq<Seq<char>> {
    s.map_values(|x: Vec<char>| x@)
}

/// The pieces of `s` between `+` signs (as `str::split('+')`).
pub open spec fn split_plus(s: Seq<char>) -> Seq<Seq<char>>
    decreases s.len(),
{
    if s.len() == 0 {
        seq![Seq::empty()]
    } else if s.last() == '+' {
        split_plus(s.drop_last()).push(Seq::empty())
    } else {
        let p = split_plus(s.drop_last());
        p.update(p.len() - 1, p.last().push(s.last()))
    }
}

pub proof fn lemma_split_plus_nonempty(s: Seq<char>)
    ensures
        split_plus(s).len() >= 1,
    decreases s.len(),
{
    if s.len() > 0 {
        lemma_split_plus_nonempty(s.drop_last());
    }
}

/// A string with no `+` is a single piece.
pub proof fn lemma_split_plus_single(s: Seq<char>)
    requires
        forall|i: int| 0 <= i < s.len() ==> s[i] != '+',
    ensures
        split_plus(s) == seq![s],
    decreases s.len(),
{
    if s.len() > 0 {
        lemma_split_plus_single(s.drop_last());
        assert(s.drop_last().push(s.last()) =~= s);
        assert(split_plus(s) =~= seq![s]);
    } else {
        assert(s =~= Seq::<char>::empty());
    }
}

/// Splitting `a + "+" + b`, where `b` has no `+`, splits `a` and adds `b`
/// as the last piece.
pub proof fn lemma_split_plus_append(a: Seq<char>, b: Seq<char>)
    requires
        forall|i: int| 0 <= i < b.len() ==> b[i] != '+',
    ensures
        split_plus(a + "+"@ + b) == split_plus(a).push(b),
    decreases b.len(),
{
    reveal_strlit("+");
    let s = a + "+"@ + b;
    if b.len() == 0 {
        assert(s.drop_last() =~= a);
        assert(b =~= Seq::<char>::empty());
    } else {
        lemma_split_plus_append(a, b.drop_last());
        assert(s.drop_last() =~= a + "+"@ + b.drop_last());
        assert(s.last() == b.last());
        assert(b.drop_last().push(b.last()) =~= b);
        lemma_split_plus_nonempty(a);
        assert(split_plus(s) =~= split_plus(a).push(b));
    }
}

/// A string without whitespace is its own trimmed form.
pub proof fn lemma_trimmed_unchanged(s: Seq<char>)
    requires
        forall|i: int| 0 <= i < s.len() ==> !is_ws(#[trigger] s[i]),
    ensures
        trimmed(s) == s,
{
    assert(leading_ws(s) == 0);
    assert(s.skip(0) =~= s);
    if s.len() > 0 {
        assert(!is_ws(s[s.len() - 1]));
    }
    assert(trailing_ws(s) == 0);
    assert(s.take(s.len() as int) =~= s);
}

/// The modifiers of a split key (all pieces but the last), lowercased.
pub open spec fn lowered_modifiers(parts: Seq<Seq<char>>) -> Seq<Seq<char>> {
    parts.take(parts.len() - 1).map_values(|m: Seq<char>| lowercase(m))
}

/// The normal form of a key description: trimmed; when it has modifiers
/// (`Ctrl+Alt+h`), they are lowercased and sorted, the key itself is
/// kept as written.
pub open spec fn normalized_key(raw: Seq<char>) -> Seq<char> {
    let k = trimmed(raw);
    let parts = split_plus(k);
    if parts.len() > 1 {
        join(lowered_modifiers(parts).sort_by(key_order()), "+"@) + "+"@ + parts.last()
    } else {
        k
    }
}

/// Text with neither `+` nor whitespace: a modifier or key name.
pub open spec fn name_text(s: Seq<char>) -> bool {
    forall|i: int| 0 <= i < s.len() ==> #[trigger] s[i] != '+' && !is_ws(s[i])
}

proof fn lemma_two_modifiers_split(a: Seq<char>, b: Seq<char>, c: Seq<char>)
    requires
        name_text(a),
        name_text(b),
        name_text(c),
    ensures
        split_plus(a + "+"@ + b + "+"@ + c) == seq![a, b, c],
        trimmed(a + "+"@ + b + "+"@ + c) == a + "+"@ + b + "+"@ + c,
{
    reveal_strlit("+");
    let k = a + "+"@ + b + "+"@ + c;
    assert forall|i: int| 0 <= i < k.len() implies !is_ws(#[trigger] k[i]) by {
        if i < a.len() {
            assert(k[i] == a[i]);
        } else if i == a.len() {
            assert(k[i] == '+');
        } else if i < a.len() + 1 + b.len() {
            assert(k[i] == b[i - a.len() - 1]);
        } else if i == a.len() + 1 + b.len() {
            assert(k[i] == '+');
        } else {
            assert(k[i] == c[i - a.len() - 2 - b.len()]);
        }
    }
    lemma_trimmed_unchanged(k);
    lemma_split_plus_single(a);
    lemma_split_plus_append(a, b);
    lemma_split_plus_append(a + "+"@ + b, c);
    assert(split_plus(a + "+"@ + b) =~= seq![a, b]);
    assert(split_plus(k) =~= seq![a, b, c]);
}

/// The order and the letter case of the modifiers do not matter: `a+b+c`
/// and `b2+a2+c`, where `a2` and `b2` are `a` and `b` up to case, have the
/// same normal form, the lowercased modifiers sorted before the key as
/// written.
pub proof fn lemma_modifier_order_irrelevant(a: Seq<char>, b: Seq<char>, a2: Seq<char>, b2: Seq<char>, c: Seq<char>)
    requires
        name_text(a),
        name_text(b),
        name_text(a2),
        name_text(b2),
        name_text(c),
        lowercase(a2) == lowercase(a),
        lowercase(b2) == lowercase(b),
    ensures
        normalized_key(a + "+"@ + b + "+"@ + c) == normalized_key(b2 + "+"@ + a2 + "+"@ + c),
        normalized_key(a + "+"@ + b + "+"@ + c) == join(
            seq![lowercase(a), lowercase(b)].sort_by(key_order()),
            "+"@,
        ) + "+"@ + c,
{
    broadcast use vstd::seq_lib::group_to_multiset_ensures;
    lemma_two_modifiers_split(a, b, c);
    lemma_two_modifiers_split(b2, a2, c);
    let p1 = seq![a, b, c];
    let p2 = seq![b2, a2, c];
    let m1 = lowered_modifiers(p1);
    let m2 = lowered_modifiers(p2);
    assert(m1 =~= seq![lowercase(a), lowercase(b)]);
    assert(m2 =~= seq![lowercase(b), lowercase(a)]);
    assert(m1.to_multiset() =~= m2.to_multiset()) by {
        assert(m1 =~= Seq::<Seq<char>>::empty().push(lowercase(a)).push(lowercase(b)));
        assert(m2 =~= Seq::<Seq<char>>::empty().push(lowercase(b)).push(lowercase(a)));
    }
    lemma_key_order_total();
    m1.lemma_sort_by_ensures(key_order());
    m2.lemma_sort_by_ensures(key_order());
    vstd::seq_lib::lemma_sorted_unique(m1.sort_by(key_order()), m2.sort_by(key_order()), key_order());
}

fn split_on_plus(cs: &Vec<char>) -> (r: Vec<Vec<char>>)
    ensures
        vviews(r@) == split_plus(cs@),
        r@.len() >= 1,
{
    let mut parts: Vec<Vec<char>> = Vec::new();
    parts.push(Vec::new());
    let mut cur: Vec<char> = Vec::new();
    let mut i: usize = 0;
    assert(cs@.take(0) =~= Seq::<char>::empty());
    while i < cs.len()
        invariant
            i <= cs.len(),
            parts@.len() >= 1,
            vviews(parts@.drop_last()) + seq![cur@]
                == split_plus(cs@.take(i as int)),
        decreases cs.len() - i,
    {
        assert(cs@.take(i + 1).drop_last() =~= cs@.take(i as int));
        assert(cs@.take(i + 1).last() == cs@[i as int]);
        let ghost prev_parts = parts@;
        let ghost prev_cur = cur@;
        let ghost sp = split_plus(cs@.take(i as int));
        if cs[i] == '+' {
            let mut done: Vec<char> = Vec::new();
            std::mem::swap(&mut done, &mut cur);
            parts.pop();
            parts.push(done);
            parts.push(Vec::new());
            assert(parts@.drop_last() =~= prev_parts.drop_last().push(parts@[parts@.len() - 2]));
            assert(vviews(parts@.drop_last()) + seq![cur@]
                =~= sp.push(Seq::empty()));
        } else {
            cur.push(cs[i]);
            assert(vviews(parts@.drop_last()) + seq![cur@]
                =~= sp.update(sp.len() - 1, sp.last().push(cs@[i as int])));
        }
        i = i + 1;
    }
    parts.pop();
    let ghost before = parts@;
    parts.push(cur);
    assert(cs@.take(cs.len() as int) =~= cs@);
    assert(vviews(parts@) =~= vviews(before) + seq![parts@.last()@]);
    parts
}

/// Sorts `v` by `key_le` (insertion sort).
fn sort_keys(v: Vec<Vec<char>>) -> (r: Vec<Vec<char>>)
    ensures
        vviews(r@) == vviews(v@).sort_by(key_order()),
{
    let ghost input = vviews(v@);
    let mut out: Vec<Vec<char>> = Vec::new();
    let mut src = v;
    let ghost mut k: int = 0;
    proof {
        lemma_key_order_total();
        broadcast use vstd::seq_lib::group_to_multiset_ensures;
        assert(input.take(0) =~= Seq::<Seq<char>>::empty());
        assert(vviews(out@) =~= Seq::<Seq<char>>::empty());
        assert(input.skip(0) =~= input);
    }
    while src.len() > 0
        invariant
            0 <= k <= input.len(),
            vviews(src@) == input.skip(k),
            vviews(out@).to_multiset() == input.take(k).to_multiset(),
            sorted_by(vviews(out@), key_order()),
            total_ordering(key_order()),
        decreases src.len(),
    {
        broadcast use vstd::seq_lib::group_to_multiset_ensures;
        let ghost src_before = src@;
        assert(vviews(src@)[0] == src@[0]@);
        let x = src.remove(0);
        assert(src@ =~= src_before.skip(1));
        assert(vviews(src_before) == input.skip(k));
        assert(vviews(src_before).len() == src_before.len());
        assert(input.skip(k).len() == input.len() - k);
        assert(src_before.len() == input.len() - k);
        assert(input.skip(k)[0] == input[k]);
        assert(vviews(src_before)[0] == x@);
        assert(x@ == input[k]);
        assert forall|i: int| 0 <= i < src@.len() implies #[trigger] vviews(src@)[i] == input.skip(k + 1)[i] by {
            assert(vviews(src@)[i] == src@[i]@);
            assert(src@[i] == src_before[i + 1]);
            assert(vviews(src_before)[i + 1] == src_before[i + 1]@);
            assert(input.skip(k)[i + 1] == input.skip(k + 1)[i]);
        }
        assert(vviews(src@) =~= input.skip(k + 1));
        let ghost ov = vviews(out@);
        let mut j: usize = 0;
        while j < out.len() && !key_le_exec(&x, &out[j])
            invariant
                j <= out@.len(),
                ov == vviews(out@),
                forall|i: int| 0 <= i < j ==> !key_le(x@, #[trigger] ov[i]),
            decreases out.len() - j,
        {
            j = j + 1;
        }
        out.insert(j, x);
        proof {
            let nv = vviews(out@);
            assert(nv =~= ov.insert(j as int, x@));
            vstd::seq_lib::to_multiset_insert(ov, j as int, x@);
            assert(input.take(k + 1) =~= input.take(k).push(input[k]));
            vstd::seq_lib::to_multiset_build(input.take(k), input[k]);
            assert forall|a: int, b: int| 0 <= a < b < nv.len() implies key_le(#[trigger] nv[a], #[trigger] nv[b]) by {
                if a < j && b < j {
                    assert(key_order()(ov[a], ov[b]));
                } else if a < j && b == j {
                    lemma_key_le_total(ov[a], x@);
                } else if a < j && b > j {
                    lemma_key_le_total(ov[a], x@);
                    assert(key_order()(ov[a], ov[b - 1]));
                } else if a == j {
                    assert(key_le(x@, ov[j as int]));
                    if b - 1 > j {
                        assert(key_order()(ov[j as int], ov[b - 1]));
                        lemma_key_le_trans(x@, ov[j as int], ov[b - 1]);
                    }
                } else {
                    assert(key_order()(ov[a - 1], ov[b - 1]));
                }
            }
            k = k + 1;
        }
    }
    proof {
        assert(input.take(input.len() as int) =~= input);
        input.lemma_sort_by_ensures(key_order());
        vstd::seq_lib::lemma_sorted_unique(
            vviews(out@),
            input.sort_by(key_order()),
            key_order(),
        );
    }
    out
}


fn push_chars(s: &mut String, v: &Vec<char>)
    ensures
        final(s)@ == old(s)@ + v@,
{
    let t = string_from_chars(v.as_slice());
    s.append(t.as_str());
}

/// Normalizes a key description (see `normalized_key`): `Ctrl+Alt+h`
/// becomes `alt+ctrl+h`.
pub fn normalize_key(key: &str) -> (r: String)
    ensures
        r@ == normalized_key(key@),
{
    let k = trim_chars(key);
    let parts = split_on_plus(&k);
    if parts.len() > 1 {
        let n = parts.len() - 1;
        let ghost pv = vviews(parts@);
        let mut mods: Vec<Vec<char>> = Vec::new();
        let mut i: usize = 0;
        while i < n
            invariant
                i <= n,
                n == parts@.len() - 1,
                pv == vviews(parts@),
                vviews(mods@) =~= lowered_modifiers(pv).take(i as int),
            decreases n - i,
        {
            let m = string_from_chars(parts[i].as_slice());
            let lm = lowercase_string(m.as_str());
            let ghost prev = mods@;
            mods.push(chars_of(lm.as_str()));
            assert(vviews(mods@) =~= vviews(prev).push(lowercase(pv[i as int])));
            i = i + 1;
        }
        assert(lowered_modifiers(pv).take(n as int) =~= lowered_modifiers(pv));
        let sorted = sort_keys(mods);
        let ghost sv = vviews(sorted@);
        let mut r = String::new();
        let mut j: usize = 0;
        while j < sorted.len()
            invariant
                j <= sorted.len(),
                sv == vviews(sorted@),
                r@ == join(sv.take(j as int), "+"@),
            decreases sorted.len() - j,
        {
            assert(sv.take(j + 1).drop_last() =~= sv.take(j as int));
            if j > 0 {
                r.append("+");
            }
            push_chars(&mut r, &sorted[j]);
            j = j + 1;
        }
        assert(sv.take(sorted.len() as int) =~= sv);
        r.append("+");
        push_chars(&mut r, &parts[n]);
        r
    } else {
        string_from_chars(k.as_slice())
    }
}

// ---------------------------------------------------------------------
// String-keyed maps

/// A map from strings to values that keeps its entries in insertion
/// order; a key is bound to the value of its first entry.
pub struct StringMap<V> {
    entries: Vec<(String, V)>,
}

impl<V> StringMap<V> {
    pub closed spec fn entries_view(&self) -> Seq<(String, V)> {
        self.entries@
    }

    pub closed spec fn keys(&self) -> Seq<Seq<char>> {
        self.entries@.map_values(|e: (String, V)| e.0@)
    }

    pub closed spec fn values(&self) -> Seq<V> {
        self.entries@.map_values(|e: (String, V)| e.1)
    }

    /// The value bound to `k`: that of the first entry with key `k`.
    pub closed spec fn lookup(&self, k: Seq<char>) -> Option<V> {
        if exists|i: int| 0 <= i < self.keys().len() && #[trigger] self.keys()[i] == k {
            let i = choose|i: int|
                0 <= i < self.keys().len() && #[trigger] self.keys()[i] == k && forall|j: int|
                    0 <= j < i ==> self.keys()[j] != k;
            Some(self.values()[i])
        } else {
            None
        }
    }

    proof fn lemma_lookup_at(&self, i: int)
        requires
            0 <= i < self.keys().len(),
            forall|j: int| 0 <= j < i ==> self.keys()[j] != self.keys()[i],
        ensures
            self.lookup(self.keys()[i]) == Some(self.values()[i]),
    {
        let k = self.keys()[i];
        assert(0 <= i < self.keys().len() && self.keys()[i] == k && forall|j: int|
            0 <= j < i ==> self.keys()[j] != k);
        let j = choose|j: int|
            0 <= j < self.keys().len() && #[trigger] self.keys()[j] == k && forall|l: int|
                0 <= l < j ==> self.keys()[l] != k;
        if j < i {
            assert(self.keys()[j] != k);
        }
        if i < j {
            assert(self.keys()[i] != k);
        }
    }

    proof fn lemma_lookup_first(&self, k: Seq<char>)
        ensures
            self.lookup(k) is Some ==> exists|i: int|
                0 <= i < self.keys().len() && self.keys()[i] == k && (forall|j: int|
                    0 <= j < i ==> self.keys()[j] != k) && self.lookup(k) == Some(self.values()[i]),
            self.lookup(k) is None ==> forall|i: int| 0 <= i < self.keys().len() ==> self.keys()[i] != k,
    {
        if exists|i: int| 0 <= i < self.keys().len() && #[trigger] self.keys()[i] == k {
            let i0 = choose|i: int| 0 <= i < self.keys().len() && #[trigger] self.keys()[i] == k;
            self.lemma_exists_first(k, i0);
        }
    }

    proof fn lemma_exists_first(&self, k: Seq<char>, i0: int)
        requires
            0 <= i0 < self.keys().len(),
            self.keys()[i0] == k,
        ensures
            exists|i: int|
                0 <= i < self.keys().len() && self.keys()[i] == k && (forall|j: int|
                    0 <= j < i ==> self.keys()[j] != k),
        decreases i0,
    {
        if exists|j: int| 0 <= j < i0 && self.keys()[j] == k {
            let j = choose|j: int| 0 <= j < i0 && self.keys()[j] == k;
            self.lemma_exists_first(k, j);
        } else {
            assert(forall|j: int| 0 <= j < i0 ==> self.keys()[j] != k);
        }
    }

    pub fn new() -> (r: Self)
        ensures
            r.keys().len() == 0,
            forall|k: Seq<char>| r.lookup(k) is None,
    {
        StringMap { entries: Vec::new() }
    }

    pub fn len(&self) -> (r: usize)
        ensures
            r == self.keys().len(),
    {
        self.entries.len()
    }

    pub fn is_empty(&self) -> (r: bool)
        ensures
            r == (self.keys().len() == 0),
    {
        self.entries.len() == 0
    }

    /// Position of the first entry with key `k`, if any.
    pub fn position(&self, k: &str) -> (r: Option<usize>)
        ensures
            r matches Some(i) ==> i < self.keys().len() && self.keys()[i as int] == k@ && forall|j: int|
                0 <= j < i ==> self.keys()[j] != k@,
            r is None ==> forall|i: int| 0 <= i < self.keys().len() ==> self.keys()[i] != k@,
    {
        let mut i: usize = 0;
        while i < self.entries.len()
            invariant
                i <= self.keys().len(),
                forall|j: int| 0 <= j < i ==> self.keys()[j] != k@,
            decreases self.entries.len() - i,
        {
            if str_eq(self.entries[i].0.as_str(), k) {
                return Some(i);
            }
            i = i + 1;
        }
        None
    }

    /// The value bound to `k`, if any.
    pub fn get(&self, k: &str) -> (r: Option<&V>)
        ensures
            r matches Some(v) ==> self.lookup(k@) == Some(*v),
            r is None ==> self.lookup(k@) is None,
    {
        match self.position(k) {
            Some(i) => {
                proof { self.lemma_lookup_at(i as int); }
                Some(&self.entries[i].1)
            },
            None => None,
        }
    }

    pub fn contains_key(&self, k: &str) -> (r: bool)
        ensures
            r == (self.lookup(k@) is Some),
    {
        match self.position(k) {
            Some(i) => {
                proof { self.lemma_lookup_at(i as int); }
                true
            },
            None => false,
        }
    }

    /// Binds `k` to `v`, replacing the binding of `k` if there is one.
    pub fn insert(&mut self, k: String, v: V)
        ensures
            final(self).lookup(k@) == Some(v),
            forall|k2: Seq<char>| k2 != k@ ==> final(self).lookup(k2) == old(self).lookup(k2),
    {
        let ghost kv = k@;
        let ghost old_self = *self;
        let ghost old_keys = self.keys();
        let ghost old_vals = self.values();
        match self.position(k.as_str()) {
            Some(i) => {
                let _ = self.entries.remove(i);
                self.entries.insert(i, (k, v));
                assert(self.keys() =~= old_keys.update(i as int, kv));
                assert(self.values() =~= old_vals.update(i as int, v));
                proof { self.lemma_lookup_at(i as int); }
            },
            None => {
                self.entries.push((k, v));
                assert(self.keys() =~= old_keys.push(kv));
                assert(self.values() =~= old_vals.push(v));
                proof { self.lemma_lookup_at(old_keys.len() as int); }
            },
        }
        proof {
            Self::lemma_insert_frame(old_self, *self, kv);
        }
    }

    #[verifier::rlimit(40)]
    proof fn lemma_insert_frame(old_self: Self, new_self: Self, kv: Seq<char>)
        requires
            new_self.keys().len() >= old_self.keys().len(),
            forall|j: int|
                0 <= j < old_self.keys().len() && old_self.keys()[j] != kv ==> new_self.keys()[j]
                    == old_self.keys()[j] && new_self.values()[j] == old_self.values()[j],
            forall|j: int|
                0 <= j < old_self.keys().len() && old_self.keys()[j] == kv ==> new_self.keys()[j] == kv,
            forall|j: int| old_self.keys().len() <= j < new_self.keys().len() ==> new_self.keys()[j] == kv,
        ensures
            forall|k2: Seq<char>| k2 != kv ==> new_self.lookup(k2) == old_self.lookup(k2),
    {
        let old_keys = old_self.keys();
        let old_vals = old_self.values();
        assert forall|k2: Seq<char>| k2 != kv implies new_self.lookup(k2) == old_self.lookup(k2) by {
            old_self.lemma_lookup_first(k2);
            new_self.lemma_lookup_first(k2);
            if old_self.lookup(k2) is Some {
                let j = choose|j: int|
                    0 <= j < old_keys.len() && old_keys[j] == k2 && (forall|l: int|
                        0 <= l < j ==> old_keys[l] != k2) && old_self.lookup(k2) == Some(old_vals[j]);
                assert(new_self.keys()[j] == k2);
                assert forall|l: int| 0 <= l < j implies new_self.keys()[l] != k2 by {
                    if old_keys[l] == kv {
                        assert(new_self.keys()[l] == kv);
                    }
                }
                new_self.lemma_lookup_at(j);
            } else if new_self.lookup(k2) is Some {
                let j = choose|j: int|
                    0 <= j < new_self.keys().len() && new_self.keys()[j] == k2 && (forall|l: int|
                        0 <= l < j ==> new_self.keys()[l] != k2) && new_self.lookup(k2) == Some(new_self.values()[j]);
                if j < old_keys.len() {
                    if old_keys[j] == kv {
                        assert(new_self.keys()[j] == kv);
                    } else {
                        assert(old_keys[j] == k2);
                    }
                }
            }
        }
    }

    /// Removes every binding.
    pub fn clear(&mut self)
        ensures
            final(self).keys().len() == 0,
            forall|k: Seq<char>| final(self).lookup(k) is None,
    {
        self.entries.clear();
    }

    /// Whether some bound key begins with `p`.
    pub fn any_key_starts_with(&self, p: &str) -> (r: bool)
        ensures
            r == exists|i: int| 0 <= i < self.keys().len() && #[trigger] starts_with(self.keys()[i], p@),
    {
        let mut i: usize = 0;
        while i < self.entries.len()
            invariant
                i <= self.entries@.len(),
                self.keys().len() == self.entries@.len(),
                forall|j: int| 0 <= j < i ==> !#[trigger] starts_with(self.keys()[j], p@),
            decreases self.entries.len() - i,
        {
            let k = chars_of(self.entries[i].0.as_str());
            assert(self.keys()[i as int] == self.entries@[i as int].0@);
            if starts_with_exec(&k, p) {
                return true;
            }
            i = i + 1;
        }
        false
    }

    /// The entries, in insertion order.
    pub fn entries(&self) -> (r: &Vec<(String, V)>)
        ensures
            r@ == self.entries_view(),
    {
        &self.entries
    }
}

impl<V> StringMap<V> {
    fn push_entry(&mut self, k: &str, v: V)
        ensures
            final(self).keys() == old(self).keys().push(k@),
            final(self).values() == old(self).values().push(v),
    {
        let ghost ok = self.keys();
        let ghost ov = self.values();
        self.entries.push((owned(k), v));
        assert(self.keys() =~= ok.push(k@));
        assert(self.values() =~= ov.push(v));
    }
}

/// The keys of the default bindings, in order.
pub open spec fn default_keys() -> Seq<Seq<char>> {
    seq![
        "j"@,
        "Down"@,
        "k"@,
        "Up"@,
        "ctrl+f"@,
        "PageDown"@,
        "ctrl+b"@,
        "PageUp"@,
        "ctrl+d"@,
        "ctrl+u"@,
        "gg"@,
        "G"@,
        "/"@,
        "n"@,
        "N"@,
        "o"@,
        "s"@,
        "b"@,
        "B"@,
        "t"@,
        "i"@,
        "?"@,
        "q"@,
        "Esc"@,
        "Enter"@,
        ":"@,
        "S"@,
        "C"@,
        "d"@,
        "r"@,
        "R"@,
        "v"@,
        "J"@,
        "W"@
    ]
}

/// The actions of the default bindings, in the order of `default_keys`.
pub open spec fn default_actions() -> Seq<KeyAction> {
    seq![
        KeyAction::ScrollDown,
        KeyAction::ScrollDown,
        KeyAction::ScrollUp,
        KeyAction::ScrollUp,
        KeyAction::PageDown,
        KeyAction::PageDown,
        KeyAction::PageUp,
        KeyAction::PageUp,
        KeyAction::HalfPageDown,
        KeyAction::HalfPageUp,
        KeyAction::GotoTop,
        KeyAction::GotoBottom,
        KeyAction::Search,
        KeyAction::NextMatch,
        KeyAction::PrevMatch,
        KeyAction::OpenFile,
        KeyAction::SaveToLibrary,
        KeyAction::AddBookmark,
        KeyAction::ListBookmarks,
        KeyAction::Toc,
        KeyAction::Info,
        KeyAction::Help,
        KeyAction::Quit,
        KeyAction::Quit,
        KeyAction::Select,
        KeyAction::Command,
        KeyAction::ToggleSimpleMode,
        KeyAction::ToggleCss,
        KeyAction::Delete,
        KeyAction::CycleSort,
        KeyAction::CycleSort,
        KeyAction::ViewImage,
        KeyAction::ToggleJustify,
        KeyAction::ToggleWidescreen
    ]
}

pub struct KeyMap {
    pub bindings: StringMap<KeyAction>,
}

impl Default for KeyMap {
    fn default() -> (r: Self)
        ensures
            r.bindings.keys() == default_keys(),
            r.bindings.values() == default_actions(),
    {
        let mut m: StringMap<KeyAction> = StringMap::new();
        m.push_entry("j", KeyAction::ScrollDown);
        m.push_entry("Down", KeyAction::ScrollDown);
        m.push_entry("k", KeyAction::ScrollUp);
        m.push_entry("Up", KeyAction::ScrollUp);
        m.push_entry("ctrl+f", KeyAction::PageDown);
        m.push_entry("PageDown", KeyAction::PageDown);
        m.push_entry("ctrl+b", KeyAction::PageUp);
        m.push_entry("PageUp", KeyAction::PageUp);
        m.push_entry("ctrl+d", KeyAction::HalfPageDown);
        m.push_entry("ctrl+u", KeyAction::HalfPageUp);
        m.push_entry("gg", KeyAction::GotoTop);
        m.push_entry("G", KeyAction::GotoBottom);
        m.push_entry("/", KeyAction::Search);
        m.push_entry("n", KeyAction::NextMatch);
        m.push_entry("N", KeyAction::PrevMatch);
        m.push_entry("o", KeyAction::OpenFile);
        m.push_entry("s", KeyAction::SaveToLibrary);
        m.push_entry("b", KeyAction::AddBookmark);
        m.push_entry("B", KeyAction::ListBookmarks);
        m.push_entry("t", KeyAction::Toc);
        m.push_entry("i", KeyAction::Info);
        m.push_entry("?", KeyAction::Help);
        m.push_entry("q", KeyAction::Quit);
        m.push_entry("Esc", KeyAction::Quit);
        m.push_entry("Enter", KeyAction::Select);
        m.push_entry(":", KeyAction::Command);
        m.push_entry("S", KeyAction::ToggleSimpleMode);
        m.push_entry("C", KeyAction::ToggleCss);
        m.push_entry("d", KeyAction::Delete);
        m.push_entry("r", KeyAction::CycleSort);
        m.push_entry("R", KeyAction::CycleSort);
        m.push_entry("v", KeyAction::ViewImage);
        m.push_entry("J", KeyAction::ToggleJustify);
        m.push_entry("W", KeyAction::ToggleWidescreen);
        KeyMap { bindings: m }
    }
}

/// Normalized form of the `i`-th key of a binding list.
pub open spec fn norm_at(keys: Seq<Seq<char>>, i: int) -> Seq<char> {
    normalized_key(keys[i])
}

/// Two keys that normalize alike are bound to different actions.
pub open spec fn has_conflict(keys: Seq<Seq<char>>, actions: Seq<KeyAction>) -> bool {
    exists|i: int, j: int|
        0 <= i < j < keys.len() && #[trigger] norm_at(keys, i) == #[trigger] norm_at(keys, j)
            && actions[i] != actions[j]
}

pub open spec fn conflict_message(key: Seq<char>, first: KeyAction, second: KeyAction) -> Seq<char> {
    "Key binding conflict for '"@ + key + "': bound to '"@ + first.spec_name() + "' and '"@
        + second.spec_name() + "'"@
}

impl KeyMap {
    /// Replaces every key by its normal form. Fails, leaving no binding,
    /// when two keys with the same normal form are bound to different
    /// actions.
    pub fn validate_and_normalize(&mut self) -> (r: Result<()>)
        ensures
            r is Err <==> has_conflict(old(self).bindings.keys(), old(self).bindings.values()),
            r matches Err(e) ==> e matches AppError::KeybindingConflict(m) && exists|i: int, j: int|
                0 <= i < j < old(self).bindings.keys().len() && norm_at(old(self).bindings.keys(), i)
                    == norm_at(old(self).bindings.keys(), j) && m@ == conflict_message(
                    norm_at(old(self).bindings.keys(), j),
                    old(self).bindings.values()[i],
                    old(self).bindings.values()[j],
                ) && old(self).bindings.values()[i] != old(self).bindings.values()[j],
            r is Err ==> final(self).bindings.keys().len() == 0,
            r is Ok ==> forall|i: int|
                0 <= i < old(self).bindings.keys().len() ==> final(self).bindings.lookup(
                    #[trigger] norm_at(old(self).bindings.keys(), i),
                ) == Some(old(self).bindings.values()[i]),
            r is Ok ==> forall|k: Seq<char>|
                #[trigger] final(self).bindings.lookup(k) is Some ==> exists|i: int|
                    0 <= i < old(self).bindings.keys().len() && norm_at(old(self).bindings.keys(), i)
                        == k,
    {
        let ghost ks = self.bindings.keys();
        let ghost vs = self.bindings.values();
        assert(ks == old(self).bindings.keys());
        assert(vs == old(self).bindings.values());
        let mut old_map: StringMap<KeyAction> = StringMap::new();
        std::mem::swap(&mut old_map, &mut self.bindings);
        let n = old_map.len();
        let mut normalized: StringMap<KeyAction> = StringMap::new();
        let mut i: usize = 0;
        while i < n
            invariant
                i <= n,
                n == ks.len(),
                old_map.keys() == ks,
                old_map.values() == vs,
                old_map.entries_view().len() == n,
                ks == old(self).bindings.keys(),
                vs == old(self).bindings.values(),
                self.bindings.keys().len() == 0,
                !(exists|a: int, b: int|
                    0 <= a < b < i && #[trigger] norm_at(ks, a) == #[trigger] norm_at(ks, b) && vs[a] != vs[b]),
                forall|j: int| 0 <= j < i ==> normalized.lookup(#[trigger] norm_at(ks, j)) == Some(vs[j]),
                forall|k: Seq<char>|
                    #[trigger] normalized.lookup(k) is Some ==> exists|j: int| 0 <= j < i && norm_at(ks, j) == k,
            decreases n - i,
        {
            let entries = old_map.entries();
            assert(entries@[i as int].0@ == ks[i as int]);
            assert(entries@[i as int].1 == vs[i as int]);
            let norm = normalize_key(entries[i].0.as_str());
            let action = entries[i].1;
            let existing = normalized.get(norm.as_str());
            if let Some(e) = existing {
                let existing_action = *e;
                if existing_action != action {
                    let ghost j = choose|j: int| 0 <= j < i && norm_at(ks, j) == norm@;
                    assert(normalized.lookup(norm_at(ks, j)) == Some(vs[j]));
                    let mut msg = owned("Key binding conflict for '");
                    msg.append(norm.as_str());
                    msg.append("': bound to '");
                    let first = existing_action.to_string();
                    msg.append(first.as_str());
                    msg.append("' and '");
                    let second = action.to_string();
                    msg.append(second.as_str());
                    msg.append("'");
                    assert(norm_at(ks, j) == norm_at(ks, i as int));
                    assert(has_conflict(ks, vs));
                    assert(msg@ == conflict_message(norm_at(ks, i as int), vs[j], vs[i as int]));
                    let r = Err(AppError::KeybindingConflict(msg));
                    assert(r matches Err(e) ==> e matches AppError::KeybindingConflict(m) && exists|a: int, b: int|
                        0 <= a < b < ks.len() && norm_at(ks, a) == norm_at(ks, b) && m@ == conflict_message(norm_at(ks, b), vs[a], vs[b])
                        && vs[a] != vs[b]);
                    return r;
                }
            }
            let ghost before = normalized;
            assert(norm_at(ks, i as int) == norm@);
            normalized.insert(norm, action);
            assert forall|j: int| 0 <= j < i + 1 implies normalized.lookup(#[trigger] norm_at(ks, j)) == Some(vs[j]) by {
                if j < i && norm_at(ks, j) != norm_at(ks, i as int) {
                    assert(before.lookup(norm_at(ks, j)) == Some(vs[j]));
                }
            }
            assert forall|k: Seq<char>| #[trigger] normalized.lookup(k) is Some implies exists|j: int|
                0 <= j < i + 1 && norm_at(ks, j) == k by {
                if k != norm@ {
                    assert(before.lookup(k) is Some);
                }
            }
            i = i + 1;
        }
        self.bindings = normalized;
        Ok(())
    }
}

/// Whether two strings are equal: the same characters in the same order.
pub fn str_eq(a: &str, b: &str) -> (r: bool)
    ensures
        r == (a@ == b@),
{
    let x = chars_of(a);
    let y = chars_of(b);
    if x.len() != y.len() {
        return false;
    }
    let mut i: usize = 0;
    while i < x.len()
        invariant
            i <= x.len(),
            x.len() == y.len(),
            x@ == a@,
            y@ == b@,
            forall|j: int| 0 <= j < i ==> x@[j] == y@[j],
        decreases x.len() - i,
    {
        if x[i] != y[i] {
            return false;
        }
        i = i + 1;
    }
    assert(x@ =~= y@);
    true
}

} // verus!
