use vstd::prelude::*;

pub use crate::modifiers::{Modifier, ModifierState};
use crate::modifiers::{
    law_modifier_text_determines_set, law_state_of_ignores_order, modifier_text, state_of,
};
use crate::InputEvent;

verus! {

/// A key, by its Linux input event code (the number that evdev's `KeyCode` holds).
#[derive(Debug, Clone, Copy, PartialEq, Eq, Hash, Structural)]
pub struct Key {
    pub code: u16,
}

impl Key {
    pub fn new(code: u16) -> (r: Key)
        ensures
            r.code == code,
    {
        Key { code }
    }

    pub fn code(&self) -> (r: u16)
        ensures
            r == self.code,
    {
        self.code
    }
}

/// Input event codes of the keys that the library itself names. The letter keys
/// lie in three runs, along the rows of the keyboard: Q to P, A to L and Z to M.
pub const KEY_Q: u16 = 16;

pub const KEY_P: u16 = 25;

pub const KEY_LEFTCTRL: u16 = 29;

pub const KEY_A: u16 = 30;

pub const KEY_L: u16 = 38;

pub const KEY_LEFTSHIFT: u16 = 42;

pub const KEY_Z: u16 = 44;

pub const KEY_M: u16 = 50;

pub const KEY_RIGHTSHIFT: u16 = 54;

pub const KEY_LEFTALT: u16 = 56;

pub const KEY_RIGHTCTRL: u16 = 97;

pub const KEY_RIGHTALT: u16 = 100;

pub const KEY_LEFTMETA: u16 = 125;

pub const KEY_RIGHTMETA: u16 = 126;

/// The codes of the 26 letter keys, KEY_A to KEY_Z.
pub open spec fn is_letter_code(code: u16) -> bool {
    (KEY_Q <= code <= KEY_P) || (KEY_A <= code <= KEY_L) || (KEY_Z <= code <= KEY_M)
}

/// The modifier that a key code stands for: either Ctrl, Shift, Alt or Meta key,
/// left or right.
pub open spec fn modifier_of_code(code: u16) -> Option<Modifier> {
    if code == KEY_LEFTCTRL || code == KEY_RIGHTCTRL {
        Some(Modifier::Ctrl)
    } else if code == KEY_LEFTSHIFT || code == KEY_RIGHTSHIFT {
        Some(Modifier::Shift)
    } else if code == KEY_LEFTALT || code == KEY_RIGHTALT {
        Some(Modifier::Alt)
    } else if code == KEY_LEFTMETA || code == KEY_RIGHTMETA {
        Some(Modifier::Super)
    } else {
        None
    }
}

/// Exactly the eight modifier keys stand for a modifier: left and right Ctrl (codes
/// 29 and 97), Shift (42 and 54), Alt (56 and 100) and Meta (125 and 126, the Super
/// modifier). Every other key, letters, function and media keys included, stands
/// for none.
pub proof fn law_only_modifier_keys_are_modifiers(code: u16)
    ensures
        modifier_of_code(code) == if code == 29 || code == 97 {
            Some(Modifier::Ctrl)
        } else if code == 42 || code == 54 {
            Some(Modifier::Shift)
        } else if code == 56 || code == 100 {
            Some(Modifier::Alt)
        } else if code == 125 || code == 126 {
            Some(Modifier::Super)
        } else {
            None::<Modifier>
        },
        modifier_of_code(code) is Some ==> 29 <= code <= 126,
{
}

/// Things that may stand for a modifier.
pub trait IntoModifier {
    fn into_modifier(self) -> Option<Modifier>;
}

impl IntoModifier for Key {
    /// The modifier that the key stands for, if it is one of the eight modifier keys.
    fn into_modifier(self) -> (r: Option<Modifier>)
        ensures
            r == modifier_of_code(self.code),
    {
        if self.code == KEY_LEFTCTRL || self.code == KEY_RIGHTCTRL {
            Some(Modifier::Ctrl)
        } else if self.code == KEY_LEFTSHIFT || self.code == KEY_RIGHTSHIFT {
            Some(Modifier::Shift)
        } else if self.code == KEY_LEFTALT || self.code == KEY_RIGHTALT {
            Some(Modifier::Alt)
        } else if self.code == KEY_LEFTMETA || self.code == KEY_RIGHTMETA {
            Some(Modifier::Super)
        } else {
            None
        }
    }
}

/// `KEY_`, the prefix of evdev's key names.
pub open spec fn key_prefix() -> Seq<char> {
    seq!['K', 'E', 'Y', '_']
}

pub open spec fn has_key_prefix(s: Seq<char>) -> bool {
    s.len() >= 4 && s.take(4) == key_prefix()
}

/// The characters of evdev's key names: upper case ASCII letters, digits and `_`.
pub open spec fn is_name_char(c: char) -> bool {
    ('A' <= c && c <= 'Z') || ('0' <= c && c <= '9') || c == '_'
}

pub open spec fn all_name_chars(s: Seq<char>) -> bool {
    forall|i: int| 0 <= i < s.len() ==> is_name_char(#[trigger] s[i])
}

/// Text made of ASCII characters only.
pub open spec fn is_ascii_text(s: Seq<char>) -> bool {
    forall|i: int| 0 <= i < s.len() ==> (#[trigger] s[i] as u32) < 128
}

/// The ASCII upper case of a character: a to z become A to Z, others stay.
pub open spec fn ascii_upper(c: char) -> char {
    if 'a' <= c && c <= 'z' {
        (c as int - 32) as char
    } else {
        c
    }
}

pub open spec fn ascii_uppercase(s: Seq<char>) -> Seq<char> {
    s.map_values(|c: char| ascii_upper(c))
}

/// The key code that evdev's `KeyCode::from_str` gives for a name (`None` where it
/// refuses the name).
pub uninterp spec fn evdev_code_named(name: Seq<char>) -> Option<u16>;

/// The text of evdev's `Debug` form of a key code.
pub uninterp spec fn evdev_debug_text(code: u16) -> Seq<char>;

/// The text of `str::to_uppercase`.
pub uninterp spec fn unicode_uppercase(s: Seq<char>) -> Seq<char>;

/// Calls `<evdev::KeyCode as FromStr>::from_str`, which looks `name` up in evdev's
/// table of key names; nothing about that table is stated here.
#[verifier::external_body]
fn evdev_parse_key(name: &str) -> (r: Option<u16>)
    ensures
        r == evdev_code_named(name@),
{
    match name.parse::<evdev::KeyCode>() {
        Ok(key) => Some(key.0),
        Err(_) => None,
    }
}

/// Formats an `evdev::KeyCode` with `Debug`. evdev writes the first of its names
/// whose value is the code (all of them upper case ASCII letters, digits and `_`,
/// none of them beginning with `KEY_KEY_`), or `unknown key: ` and the number.
/// Stated: a text with the `KEY_` prefix is such a name, made of those characters,
/// that does not go on with a second `KEY_`, and that `from_str` maps back to the
/// code. Which name a code has is left unsaid.
#[verifier::external_body]
fn evdev_key_text(code: u16) -> (r: String)
    ensures
        r@ == evdev_debug_text(code),
        has_key_prefix(r@) ==> all_name_chars(r@),
        has_key_prefix(r@) ==> !has_key_prefix(r@.skip(4)),
        has_key_prefix(r@) ==> evdev_code_named(r@) == Some(code),
{
    format!("{:?}", evdev::KeyCode(code))
}

/// Calls `str::to_uppercase`. Its mappings beyond ASCII are left unsaid; stated is
/// that ASCII text comes back with a to z turned into A to Z and all else unchanged.
#[verifier::external_body]
fn to_uppercase(s: &str) -> (r: String)
    ensures
        r@ == unicode_uppercase(s@),
        is_ascii_text(s@) ==> r@ == ascii_uppercase(s@),
{
    s.to_uppercase()
}

/// The key that evdev names `name`.
pub open spec fn key_named(name: Seq<char>) -> Option<Key> {
    match evdev_code_named(name) {
        Some(code) => Some(Key { code }),
        None => None,
    }
}

/// The evdev name that a text in a key binding stands for: the text itself where
/// it begins with `KEY_`, else `KEY_` and the text in upper case.
pub open spec fn full_key_name(text: Seq<char>) -> Seq<char> {
    if has_key_prefix(text) {
        text
    } else {
        key_prefix() + unicode_uppercase(text)
    }
}

/// Reading a key binding's text as a full evdev name twice changes nothing more.
pub proof fn law_full_key_name_idempotent(text: Seq<char>)
    ensures
        full_key_name(full_key_name(text)) == full_key_name(text),
{
    if !has_key_prefix(text) {
        let full = key_prefix() + unicode_uppercase(text);
        assert(full.take(4) =~= key_prefix());
    }
}

/// How a key is written in a key binding: evdev's name for it without the `KEY_`
/// prefix (names of other kinds, and the text for unknown codes, unchanged).
pub open spec fn short_key_text(code: u16) -> Seq<char> {
    let text = evdev_debug_text(code);
    if has_key_prefix(text) {
        text.skip(4)
    } else {
        text
    }
}

fn starts_with_key_prefix(s: &str) -> (r: bool)
    ensures
        r == has_key_prefix(s@),
{
    let n = s.unicode_len();
    if n < 4 {
        return false;
    }
    let r = s.get_char(0) == 'K' && s.get_char(1) == 'E' && s.get_char(2) == 'Y' && s.get_char(3)
        == '_';
    assert(r == has_key_prefix(s@)) by {
        if r {
            assert(s@.take(4) =~= key_prefix());
        }
        if has_key_prefix(s@) {
            assert(s@.take(4)[0] == 'K' && s@.take(4)[1] == 'E' && s@.take(4)[2] == 'Y'
                && s@.take(4)[3] == '_');
        }
    }
    r
}

/// Parses an evdev key name (e.g. "KEY_ENTER"); `None` where evdev knows no such name.
pub fn key_from_str(name: &str) -> (r: Option<Key>)
    ensures
        r == key_named(name@),
{
    match evdev_parse_key(name) {
        Some(code) => Some(Key { code }),
        None => None,
    }
}

/// The evdev name that a key binding's text stands for (see `full_key_name`).
pub fn full_key_name_of(text: &str) -> (r: String)
    ensures
        r@ == full_key_name(text@),
        is_ascii_text(text@) && !has_key_prefix(text@) ==> r@ == key_prefix() + ascii_uppercase(
            text@,
        ),
{
    if starts_with_key_prefix(text) {
        String::from_str(text)
    } else {
        let mut r = String::from_str("KEY_");
        proof {
            reveal_strlit("KEY_");
        }
        let upper = to_uppercase(text);
        r.append(upper.as_str());
        r
    }
}

/// The key that a key binding's text names: `a`, `ENTER` and `KEY_ENTER` are
/// all accepted; `None` where evdev knows no such key.
pub fn key_from_text(text: &str) -> (r: Option<Key>)
    ensures
        r == key_named(full_key_name(text@)),
        is_ascii_text(text@) && !has_key_prefix(text@) ==> r == key_named(
            key_prefix() + ascii_uppercase(text@),
        ),
{
    let name = full_key_name_of(text);
    key_from_str(name.as_str())
}

/// How a key binding writes a key: evdev's name without `KEY_` (e.g. "ENTER").
/// A key whose evdev name has the `KEY_` prefix is written in upper case ASCII
/// letters, digits and `_`, without that prefix, and `KEY_` and the text name it
/// again: so `key_from_text` reads the text back as the same key.
pub fn key_text(key: Key) -> (r: String)
    ensures
        r@ == short_key_text(key.code),
        has_key_prefix(evdev_debug_text(key.code)) ==> {
            &&& all_name_chars(r@)
            &&& is_ascii_text(r@)
            &&& ascii_uppercase(r@) == r@
            &&& !has_key_prefix(r@)
            &&& key_named(key_prefix() + r@) == Some(key)
        },
{
    let text = evdev_key_text(key.code);
    if starts_with_key_prefix(text.as_str()) {
        let n = text.as_str().unicode_len();
        let rest = text.as_str().substring_char(4, n);
        let r = String::from_str(rest);
        proof {
            assert(key_prefix() + r@ =~= text@);
            assert forall|i: int| 0 <= i < r@.len() implies is_name_char(#[trigger] r@[i]) by {
                assert(r@[i] == text@[i + 4]);
            }
            assert(ascii_uppercase(r@) =~= r@);
        }
        r
    } else {
        text
    }
}

/// The action taken when `key` is pressed while exactly `modifiers` are held.
#[derive(Clone, Debug, PartialEq, Eq, Hash)]
pub struct Keybind<T: InputEvent> {
    pub key: Key,
    pub modifiers: ModifierState,
    pub action: T,
}

/// How a key binding reads: the action's text, `: `, the modifiers' names joined
/// by `+`, another `+` and the key's text.
pub open spec fn keybind_text(action: Seq<char>, modifiers: ModifierState, key: Key) -> Seq<char> {
    action + seq![':', ' '] + modifier_text(modifiers@) + seq!['+'] + short_key_text(key.code)
}

/// Bindings of the same action and key with different sets of modifiers read
/// differently: the text shows the whole set, the same text that the set's own
/// `to_string` gives, between `: ` and the `+` before the key.
pub proof fn law_binding_text_shows_its_modifiers(
    action: Seq<char>,
    a: ModifierState,
    b: ModifierState,
    key: Key,
)
    ensures
        keybind_text(action, a, key).subrange(
            action.len() + 2 as int,
            action.len() + 2 + modifier_text(a@).len() as int,
        ) == modifier_text(a@),
        keybind_text(action, a, key) == keybind_text(action, b, key) ==> a@ == b@,
{
    let ta = keybind_text(action, a, key);
    let tb = keybind_text(action, b, key);
    let start: int = action.len() + 2int;
    assert(ta.subrange(start, start + modifier_text(a@).len() as int) =~= modifier_text(a@));
    if ta == tb {
        assert(ta.len() == action.len() + 2 + modifier_text(a@).len() + 1 + short_key_text(
            key.code,
        ).len());
        assert(tb.len() == action.len() + 2 + modifier_text(b@).len() + 1 + short_key_text(
            key.code,
        ).len());
        assert(modifier_text(a@).len() == modifier_text(b@).len());
        assert(tb.subrange(start, start + modifier_text(b@).len() as int) =~= modifier_text(b@));
        law_modifier_text_determines_set(a@, b@);
    }
}

impl<T: InputEvent> Keybind<T> {
    /// A binding of `key` with the set of modifiers that `modifiers` names.
    pub fn new(key: Key, modifiers: &[Modifier], action: T) -> (r: Self)
        ensures
            r.key == key,
            r.modifiers@ == modifiers@.to_set(),
            r.modifiers == state_of(modifiers@),
            r.action == action,
    {
        Keybind { key, modifiers: ModifierState::from(modifiers), action }
    }

    /// The text that `Display` gives for the binding, with `action_text` (the
    /// action's `Debug` form) in front.
    pub fn to_text(&self, action_text: &str) -> (r: String)
        ensures
            r@ == keybind_text(action_text@, self.modifiers, self.key),
    {
        let mut r = String::from_str(action_text);
        r.append(": ");
        let mods = self.modifiers.to_string();
        r.append(mods.as_str());
        r.append("+");
        let key = key_text(self.key);
        r.append(key.as_str());
        proof {
            reveal_strlit(": ");
            reveal_strlit("+");
        }
        assert(r@ =~= keybind_text(action_text@, self.modifiers, self.key));
        r
    }
}

/// Bindings made by `Keybind::new` from lists that name the same modifiers, in
/// whatever order and however often, with the same key and action, are equal.
pub proof fn law_keybind_ignores_modifier_order<T: InputEvent>(
    key: Key,
    ms1: Seq<Modifier>,
    ms2: Seq<Modifier>,
    action: T,
)
    requires
        ms1.to_set() == ms2.to_set(),
    ensures
        (Keybind { key, modifiers: state_of(ms1), action }) == (Keybind {
            key,
            modifiers: state_of(ms2),
            action,
        }),
{
    law_state_of_ignores_order(ms1, ms2);
}

/// A list of key bindings, in the order in which they were read.
pub struct Keybinds<T: InputEvent> {
    binds: Vec<Keybind<T>>,
}

impl<T: InputEvent> View for Keybinds<T> {
    type V = Seq<Keybind<T>>;

    closed spec fn view(&self) -> Seq<Keybind<T>> {
        self.binds@
    }
}

impl<T: InputEvent> Keybinds<T> {
    pub fn from_vec(keybinds: Vec<Keybind<T>>) -> (r: Self)
        ensures
            r@ == keybinds@,
    {
        Keybinds { binds: keybinds }
    }

    pub fn as_slice(&self) -> (r: &[Keybind<T>])
        ensures
            r@ == self@,
    {
        self.binds.as_slice()
    }

    pub fn into_vec(self) -> (r: Vec<Keybind<T>>)
        ensures
            r@ == self@,
    {
        self.binds
    }
}

impl<T: InputEvent> core::ops::Deref for Keybinds<T> {
    type Target = [Keybind<T>];

    fn deref(&self) -> (r: &[Keybind<T>])
        ensures
            r@ == self@,
    {
        self.binds.as_slice()
    }
}

impl<T: InputEvent> IntoIterator for Keybinds<T> {
    type Item = Keybind<T>;

    type IntoIter = std::vec::IntoIter<Keybind<T>>;

    /// The bindings, in their order.
    fn into_iter(self) -> (r: std::vec::IntoIter<Keybind<T>>)
        ensures
            vstd::std_specs::iter::IteratorSpec::remaining(&r) == self@,
    {
        self.binds.into_iter()
    }
}

impl<T: InputEvent> From<Keybinds<T>> for Vec<Keybind<T>> {
    fn from(value: Keybinds<T>) -> (r: Vec<Keybind<T>>)
        ensures
            r@ == value@,
    {
        value.binds
    }
}

impl<T: InputEvent> vstd::std_specs::convert::FromSpecImpl<Keybinds<T>> for Vec<Keybind<T>> {
    open spec fn obeys_from_spec() -> bool {
        false
    }

    open spec fn from_spec(v: Keybinds<T>) -> Vec<Keybind<T>> {
        arbitrary()
    }
}

} // verus!
