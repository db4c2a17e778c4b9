//! Turning key presses into actions, including multi-key sequences such
//! as `gg`.
use crate::config::keymap::{
    key_le, key_order, lemma_key_order_total, name_text, lemma_split_plus_append, lemma_split_plus_single,
    lemma_trimmed_unchanged, lowered_modifiers, normalized_key, split_plus,
};
use crate::config::{KeyAction, KeyMap, StringMap};
use crate::text::{
    ascii_lower, is_ascii_text, is_ws, join, lowercase, lowercase_string, owned, push_char, starts_with,
};
use vstd::prelude::*;
use vstd::relations::sorted_by;

verus! {

/// The key of a key press, as far as key bindings can name it.
#[derive(Debug, Clone, Copy, PartialEq, Eq, Structural)]
pub enum KeyCode {
    Char(char),
    Enter,
    Esc,
    Backspace,
    Tab,
    Up,
    Down,
    Left,
    Right,
    PageUp,
    PageDown,
    /// Any other key; it has no name in bindings.
    Other,
}

/// A key press: the key and the modifiers that bindings can name.
#[derive(Debug, Clone, Copy, PartialEq, Eq, Structural)]
pub struct KeyInput {
    pub code: KeyCode,
    pub ctrl: bool,
    pub alt: bool,
}

impl KeyInput {
    pub fn new(code: KeyCode, ctrl: bool, alt: bool) -> (r: Self)
        ensures
            r == (KeyInput { code, ctrl, alt }),
    {
        KeyInput { code, ctrl, alt }
    }
}

pub open spec fn code_name(c: KeyCode) -> Seq<char> {
    match c {
        KeyCode::Char(ch) => seq![ch],
        KeyCode::Enter => "Enter"@,
        KeyCode::Esc => "Esc"@,
        KeyCode::Backspace => "Backspace"@,
        KeyCode::Tab => "Tab"@,
        KeyCode::Up => "Up"@,
        KeyCode::Down => "Down"@,
        KeyCode::Left => "Left"@,
        KeyCode::Right => "Right"@,
        KeyCode::PageUp => "PageUp"@,
        KeyCode::PageDown => "PageDown"@,
        KeyCode::Other => Seq::empty(),
    }
}

/// The modifiers of a key press as bindings write them: in the order that
/// `normalize_key` sorts them to, `alt` before `ctrl`.
pub open spec fn modifier_names(e: KeyInput) -> Seq<char> {
    if e.ctrl && e.alt {
        "alt+ctrl"@
    } else if e.ctrl {
        "ctrl"@
    } else {
        "alt"@
    }
}

/// The name of a key press in bindings: the modifiers (see
/// `modifier_names`) and `+` before the lowercased key name when
/// modifiers are held.
pub open spec fn key_name(e: KeyInput) -> Seq<char> {
    if e.ctrl || e.alt {
        modifier_names(e) + "+"@ + lowercase(code_name(e.code))
    } else {
        code_name(e.code)
    }
}

/// A key press whose name needs no normalizing: its key is not `+` nor
/// whitespace, and is ASCII when modifiers are held.
pub open spec fn plain_key(e: KeyInput) -> bool {
    match e.code {
        KeyCode::Char(ch) => ch != '+' && !is_ws(ch) && ((e.ctrl || e.alt) ==> (ch as u32) < 128),
        _ => true,
    }
}

proof fn lemma_code_name_bare(e: KeyInput)
    requires
        plain_key(e),
    ensures
        name_text(code_name(e.code)),
        (e.ctrl || e.alt) ==> is_ascii_text(code_name(e.code)),
{
    match e.code {
        KeyCode::Char(ch) => {},
        KeyCode::Enter => { reveal_strlit("Enter"); },
        KeyCode::Esc => { reveal_strlit("Esc"); },
        KeyCode::Backspace => { reveal_strlit("Backspace"); },
        KeyCode::Tab => { reveal_strlit("Tab"); },
        KeyCode::Up => { reveal_strlit("Up"); },
        KeyCode::Down => { reveal_strlit("Down"); },
        KeyCode::Left => { reveal_strlit("Left"); },
        KeyCode::Right => { reveal_strlit("Right"); },
        KeyCode::PageUp => { reveal_strlit("PageUp"); },
        KeyCode::PageDown => { reveal_strlit("PageDown"); },
        KeyCode::Other => {},
    }
}

/// Lowering ASCII text keeps it free of `+` and whitespace.
proof fn lemma_lowercase_bare(s: Seq<char>)
    requires
        name_text(s),
        is_ascii_text(s),
    ensures
        name_text(lowercase(s)),
{
    reveal(lowercase);
    let l = lowercase(s);
    assert forall|i: int| 0 <= i < l.len() implies #[trigger] l[i] != '+' && !is_ws(l[i]) by {
        assert(l[i] == ascii_lower(s[i]));
        assert(s[i] != '+' && !is_ws(s[i]));
    }
}

/// Lowercase ASCII words are their own lowercase form.
proof fn lemma_modifier_words_lowered()
    ensures
        lowercase("alt"@) == "alt"@,
        lowercase("ctrl"@) == "ctrl"@,
{
    reveal(lowercase);
    reveal_strlit("alt");
    reveal_strlit("ctrl");
    assert(is_ascii_text("alt"@));
    assert(is_ascii_text("ctrl"@));
    assert("alt"@.map_values(|c: char| ascii_lower(c)) =~= "alt"@);
    assert("ctrl"@.map_values(|c: char| ascii_lower(c)) =~= "ctrl"@);
}

/// A sorted list of modifiers is left as it is by the sort.
proof fn lemma_sorted_stays(m: Seq<Seq<char>>)
    requires
        sorted_by(m, key_order()),
    ensures
        m.sort_by(key_order()) == m,
{
    lemma_key_order_total();
    m.lemma_sort_by_ensures(key_order());
    vstd::seq_lib::lemma_sorted_unique(m, m.sort_by(key_order()), key_order());
}

/// The name of a plain key press is already in normal form, so a binding
/// normalized by `KeyMap::validate_and_normalize` matches it.
pub proof fn lemma_key_name_normalized(e: KeyInput)
    requires
        plain_key(e),
    ensures
        normalized_key(key_name(e)) == key_name(e),
{
    reveal_strlit("+");
    reveal_strlit("alt");
    reveal_strlit("ctrl");
    reveal_strlit("alt+ctrl");
    lemma_code_name_bare(e);
    let code = code_name(e.code);
    let k = key_name(e);
    if !(e.ctrl || e.alt) {
        lemma_trimmed_unchanged(code);
        lemma_split_plus_single(code);
    } else {
        let low = lowercase(code);
        lemma_lowercase_bare(code);
        let m = modifier_names(e);
        assert forall|i: int| 0 <= i < k.len() implies !is_ws(#[trigger] k[i]) by {
            if i >= m.len() + 1 {
                assert(k[i] == low[i - m.len() - 1]);
            }
        }
        lemma_trimmed_unchanged(k);
        lemma_split_plus_append(m, low);
        lemma_modifier_words_lowered();
        let parts = split_plus(k);
        if e.ctrl && e.alt {
            assert("alt+ctrl"@ =~= "alt"@ + "+"@ + "ctrl"@);
            lemma_split_plus_single("alt"@);
            lemma_split_plus_single("ctrl"@);
            lemma_split_plus_append("alt"@, "ctrl"@);
            assert(split_plus(m) =~= seq!["alt"@, "ctrl"@]);
            assert(parts =~= seq!["alt"@, "ctrl"@, low]);
            let mods = lowered_modifiers(parts);
            assert(mods =~= seq!["alt"@, "ctrl"@]);
            assert(key_le("alt"@, "ctrl"@));
            assert(sorted_by(mods, key_order()));
            lemma_sorted_stays(mods);
            assert(join(mods, "+"@) =~= "alt"@ + "+"@ + "ctrl"@) by {
                assert(mods.drop_last() =~= seq!["alt"@]);
                assert(join(mods.drop_last(), "+"@) == "alt"@);
                assert(mods.last() == "ctrl"@);
            }
        } else {
            lemma_split_plus_single(m);
            assert(parts =~= seq![m, low]);
            let mods = lowered_modifiers(parts);
            assert(mods =~= seq![m]);
            assert(sorted_by(mods, key_order()));
            lemma_sorted_stays(mods);
        }
        assert(normalized_key(k) =~= k);
    }
}

fn code_string(c: KeyCode) -> (r: String)
    ensures
        r@ == code_name(c),
{
    match c {
        KeyCode::Char(ch) => {
            let mut s = String::new();
            push_char(&mut s, ch);
            assert(s@ =~= seq![ch]);
            s
        },
        KeyCode::Enter => owned("Enter"),
        KeyCode::Esc => owned("Esc"),
        KeyCode::Backspace => owned("Backspace"),
        KeyCode::Tab => owned("Tab"),
        KeyCode::Up => owned("Up"),
        KeyCode::Down => owned("Down"),
        KeyCode::Left => owned("Left"),
        KeyCode::Right => owned("Right"),
        KeyCode::PageUp => owned("PageUp"),
        KeyCode::PageDown => owned("PageDown"),
        KeyCode::Other => String::new(),
    }
}

/// The name under which a key press is looked up in the bindings; for a
/// plain key press it is its own normal form.
pub fn format_key_event(event: KeyInput) -> (r: String)
    ensures
        r@ == key_name(event),
        plain_key(event) ==> normalized_key(r@) == r@,
{
    proof {
        if plain_key(event) {
            lemma_key_name_normalized(event);
        }
    }
    let code = code_string(event.code);
    if event.ctrl || event.alt {
        let mut r = if event.ctrl && event.alt {
            owned("alt+ctrl")
        } else if event.ctrl {
            owned("ctrl")
        } else {
            owned("alt")
        };
        r.append("+");
        let low = lowercase_string(code.as_str());
        r.append(low.as_str());
        r
    } else {
        code
    }
}

/// One key press handed to the dispatcher: the buffer of keys typed so far
/// and the action that fires, if any.
///
/// The buffer with the new key appended fires its binding if it has one.
/// Otherwise, while it begins some binding, it is kept and nothing fires;
/// when it begins none, the buffer is dropped and the new key alone fires
/// its binding, if any.
pub open spec fn dispatch(pending: Seq<char>, key: Seq<char>, m: StringMap<KeyAction>) -> (Seq<char>, Option<KeyAction>) {
    let buf = pending + key;
    if m.lookup(buf) is Some {
        (Seq::empty(), m.lookup(buf))
    } else if exists|i: int| 0 <= i < m.keys().len() && #[trigger] starts_with(m.keys()[i], buf) {
        (buf, None)
    } else {
        (Seq::empty(), m.lookup(key))
    }
}

/// Resolves key presses into actions, buffering the keys of a sequence
/// that has not been completed yet.
#[derive(Debug)]
pub struct KeymapDispatcher {
    pending_buffer: String,
}

impl KeymapDispatcher {
    /// The keys typed since the last action fired or the sequence broke.
    pub closed spec fn pending(&self) -> Seq<char> {
        self.pending_buffer@
    }

    pub fn new() -> (r: Self)
        ensures
            r.pending() == Seq::<char>::empty(),
    {
        KeymapDispatcher { pending_buffer: String::new() }
    }

    /// Feeds one key press; see `dispatch`.
    pub fn handle_event(&mut self, event: KeyInput, keymap: &KeyMap) -> (r: Option<KeyAction>)
        ensures
            (final(self).pending(), r) == dispatch(old(self).pending(), key_name(event), keymap.bindings),
            keymap.bindings.lookup(old(self).pending() + key_name(event)) is None && !(exists|i: int|
                0 <= i < keymap.bindings.keys().len() && #[trigger] starts_with(
                    keymap.bindings.keys()[i],
                    old(self).pending() + key_name(event),
                )) ==> r == keymap.bindings.lookup(key_name(event)) && final(self).pending().len() == 0,
    {
        let key_str = format_key_event(event);
        self.pending_buffer.append(key_str.as_str());
        match keymap.bindings.get(self.pending_buffer.as_str()) {
            Some(a) => {
                let action = *a;
                self.pending_buffer = String::new();
                return Some(action);
            },
            None => {},
        }
        if keymap.bindings.any_key_starts_with(self.pending_buffer.as_str()) {
            return None;
        }
        self.pending_buffer = String::new();
        match keymap.bindings.get(key_str.as_str()) {
            Some(a) => Some(*a),
            None => None,
        }
    }
}

/// Whenever an action fires the buffer is empty, and a buffer that is
/// kept always begins some binding.
pub proof fn lemma_dispatch_buffer(pending: Seq<char>, key: Seq<char>, m: StringMap<KeyAction>)
    ensures
        dispatch(pending, key, m).1 is Some ==> dispatch(pending, key, m).0.len() == 0,
        dispatch(pending, key, m).0.len() > 0 ==> exists|i: int|
            0 <= i < m.keys().len() && #[trigger] starts_with(m.keys()[i], dispatch(pending, key, m).0),
{
}

/// A key that breaks a pending sequence (the keys typed so far and this
/// one name no binding and begin none) is read on its own: the buffer is
/// dropped and the key fires its own binding, if it has one; so it fires
/// exactly what it would fire with nothing pending.
pub proof fn lemma_dispatch_broken_sequence(pending: Seq<char>, key: Seq<char>, m: StringMap<KeyAction>)
    requires
        m.lookup(pending + key) is None,
        forall|i: int| 0 <= i < m.keys().len() ==> !#[trigger] starts_with(m.keys()[i], pending + key),
    ensures
        dispatch(pending, key, m) == (Seq::<char>::empty(), m.lookup(key)),
        dispatch(pending, key, m).1 == dispatch(Seq::empty(), key, m).1,
{
    assert(Seq::<char>::empty() + key =~= key);
}

/// A key press with its own binding fires that binding at once when
/// nothing is buffered.
pub proof fn lemma_dispatch_single_key(key: Seq<char>, m: StringMap<KeyAction>)
    requires
        m.lookup(key) is Some,
    ensures
        dispatch(Seq::empty(), key, m) == (Seq::<char>::empty(), m.lookup(key)),
{
    assert(Seq::<char>::empty() + key =~= key);
}

} // verus!
