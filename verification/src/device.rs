use vstd::prelude::*;

use std::path::PathBuf;

use crate::error::Error;
use crate::keys::{is_letter_code, Key, KEY_A, KEY_L, KEY_M, KEY_P, KEY_Q, KEY_Z};

verus! {

/// `std::path::PathBuf`, carried through as it comes.
#[verifier::external_type_specification]
#[verifier::external_body]
pub struct ExPathBuf(PathBuf);

/// `Clone` of `PathBuf`, which `DeviceInfo`'s derived `Clone` calls; nothing is
/// stated of the copy.
pub assume_specification[ <PathBuf as Clone>::clone ](path: &PathBuf) -> PathBuf;

/// Lightweight descriptor of a discovered keyboard device.
#[derive(Debug, Clone)]
pub struct DeviceInfo {
    /// Path to the device file, e.g. /dev/input/event3
    pub path: PathBuf,
    /// Human-readable name reported by the device
    pub name: String,
}

impl DeviceInfo {
    pub fn new(path: PathBuf, name: String) -> (r: Self)
        ensures
            r.path == path,
            r.name == name,
    {
        DeviceInfo { path, name }
    }
}

/// What the library reads of an input device found on the system: its path,
/// the name it reports and the keys it says it supports.
pub struct DeviceCandidate {
    pub path: PathBuf,
    pub name: Option<String>,
    pub supported_keys: Option<Vec<Key>>,
}

/// A device is taken for a keyboard if it supports every letter key, A to Z.
pub open spec fn has_keyboard_keys(keys: Seq<Key>) -> bool {
    forall|code: u16| is_letter_code(code) ==> #[trigger] keys.contains((Key { code }))
}

/// Supporting more keys never makes a keyboard less of a keyboard: a device that
/// supports every key of a keyboard, and others besides, is a keyboard.
pub proof fn law_keyboard_keys_monotone(keys: Seq<Key>, more: Seq<Key>)
    requires
        has_keyboard_keys(keys),
        forall|k: Key| keys.contains(k) ==> more.contains(k),
    ensures
        has_keyboard_keys(more),
{
    assert forall|code: u16| is_letter_code(code) implies #[trigger] more.contains((Key { code })) by {
        assert(keys.contains(Key { code }));
    }
}

/// Adding a key to what a keyboard supports leaves it a keyboard; the 26 letter keys
/// alone make a keyboard, and no key set missing one of them is one.
pub proof fn law_keyboard_needs_exactly_the_letters(keys: Seq<Key>, key: Key, letter: u16)
    ensures
        has_keyboard_keys(keys) ==> has_keyboard_keys(keys.push(key)),
        (forall|c: u16| (16 <= c <= 25 || 30 <= c <= 38 || 44 <= c <= 50) ==> #[trigger] keys.contains(
            (Key { code: c }),
        )) ==> has_keyboard_keys(keys),
        (16 <= letter <= 25 || 30 <= letter <= 38 || 44 <= letter <= 50) && !keys.contains(
            (Key { code: letter }),
        ) ==> !has_keyboard_keys(keys),
{
    if has_keyboard_keys(keys) {
        assert forall|k: Key| keys.contains(k) implies keys.push(key).contains(k) by {
            let i = choose|i: int| 0 <= i < keys.len() && keys[i] == k;
            assert(keys.push(key)[i] == k);
        }
        law_keyboard_keys_monotone(keys, keys.push(key));
    }
}

pub open spec fn is_keyboard_candidate(c: DeviceCandidate) -> bool {
    match c.supported_keys {
        Some(keys) => has_keyboard_keys(keys@),
        None => false,
    }
}

/// The name under which a device is listed: the one it reports, or "Unknown Device".
pub open spec fn listed_name(name: Option<String>) -> Seq<char> {
    match name {
        Some(n) => n@,
        None => seq!['U', 'n', 'k', 'n', 'o', 'w', 'n', ' ', 'D', 'e', 'v', 'i', 'c', 'e'],
    }
}

/// `infos` describes, in order, the keyboards among `candidates`.
pub open spec fn describes_keyboards(infos: Seq<DeviceInfo>, candidates: Seq<DeviceCandidate>) -> bool
    decreases candidates.len(),
{
    if candidates.len() == 0 {
        infos.len() == 0
    } else if is_keyboard_candidate(candidates.last()) {
        &&& infos.len() > 0
        &&& infos.last().path == candidates.last().path
        &&& infos.last().name@ == listed_name(candidates.last().name)
        &&& describes_keyboards(infos.drop_last(), candidates.drop_last())
    } else {
        describes_keyboards(infos, candidates.drop_last())
    }
}

fn supports_key(keys: &[Key], code: u16) -> (r: bool)
    ensures
        r == keys@.contains((Key { code })),
{
    let mut i: usize = 0;
    while i < keys.len()
        invariant
            i <= keys@.len(),
            forall|j: int| 0 <= j < i ==> keys@[j] != (Key { code }),
        decreases keys@.len() - i,
    {
        if keys[i].code == code {
            assert(keys@[i as int] == (Key { code }));
            return true;
        }
        i = i + 1;
    }
    false
}

/// Whether `keys` holds every key with a code from `first` to `last`.
fn supports_run(keys: &[Key], first: u16, last: u16) -> (r: bool)
    requires
        first <= last,
        last < u16::MAX,
    ensures
        r == forall|code: u16| first <= code <= last ==> #[trigger] keys@.contains((Key { code })),
{
    let mut code = first;
    while code <= last
        invariant
            first <= code <= last + 1,
            last < u16::MAX,
            forall|c: u16| first <= c < code ==> #[trigger] keys@.contains((Key { code: c })),
        decreases last + 1 - code,
    {
        if !supports_key(keys, code) {
            return false;
        }
        code = code + 1;
    }
    true
}

/// Heuristic: a device is a keyboard if it supports the letter keys A to Z.
pub fn is_keyboard(supported_keys: Option<&[Key]>) -> (r: bool)
    ensures
        r == match supported_keys {
            Some(keys) => has_keyboard_keys(keys@),
            None => false,
        },
{
    match supported_keys {
        Some(keys) => {
            let r = supports_run(keys, KEY_Q, KEY_P) && supports_run(keys, KEY_A, KEY_L)
                && supports_run(keys, KEY_Z, KEY_M);
            assert(r == has_keyboard_keys(keys@)) by {
                if r {
                    assert forall|code: u16| is_letter_code(code) implies #[trigger] keys@.contains(
                        (Key { code }),
                    ) by {
                        if KEY_Q <= code <= KEY_P {
                        } else if KEY_A <= code <= KEY_L {
                        } else {
                        }
                    }
                }
            }
            r
        },
        None => false,
    }
}

/// The keyboards among the devices found, in the order found, each under the name it
/// reports or "Unknown Device".
pub fn keyboards(candidates: Vec<DeviceCandidate>) -> (r: Vec<DeviceInfo>)
    ensures
        describes_keyboards(r@, candidates@),
{
    let ghost all = candidates@;
    let count = candidates.len();
    let mut r: Vec<DeviceInfo> = Vec::new();
    let mut rest = candidates;
    let mut i: usize = 0;
    while i < count
        invariant
            i + rest@.len() == all.len(),
            all.len() == count,
            rest@ == all.skip(i as int),
            describes_keyboards(r@, all.take(i as int)),
        decreases rest@.len(),
    {
        let c = rest.remove(0);
        assert(c == all[i as int]);
        assert(all.take(i + 1).drop_last() =~= all.take(i as int));
        assert(rest@ =~= all.skip(i + 1));
        let keyboard = match &c.supported_keys {
            Some(keys) => is_keyboard(Some(keys.as_slice())),
            None => false,
        };
        assert(keyboard == is_keyboard_candidate(all[i as int]));
        assert(all.take(i + 1).last() == all[i as int]);
        if keyboard {
            let name = match c.name {
                Some(n) => n,
                None => {
                    let n = String::from_str("Unknown Device");
                    proof {
                        reveal_strlit("Unknown Device");
                    }
                    n
                },
            };
            let ghost before = r@;
            r.push(DeviceInfo::new(c.path, name));
            assert(r@.drop_last() =~= before);
            assert(r@.last().path == all[i as int].path);
            assert(r@.last().name@ == listed_name(all[i as int].name));
            assert(describes_keyboards(r@, all.take(i + 1)));
        } else {
            assert(describes_keyboards(r@, all.take(i + 1)));
        }
        i = i + 1;
    }
    assert(all.take(all.len() as int) =~= all);
    r
}

/// The devices to choose from, for a program that asks its user which keyboard to use.
pub trait SelectKeyboard<T> {
    fn select_keyboard(self) -> Result<T, Error>;
}

/// Where the choice of a keyboard needs no question: `NoKeyboardDevices` for none,
/// the first for one; `None` where the user must choose.
pub fn automatic_choice(count: usize) -> (r: Result<Option<usize>, Error>)
    ensures
        count == 0 <==> r matches Err(Error::NoKeyboardDevices),
        count == 1 <==> r matches Ok(Some(0usize)),
        count > 1 <==> r matches Ok(None),
{
    if count == 0 {
        Err(Error::NoKeyboardDevices)
    } else if count == 1 {
        Ok(Some(0))
    } else {
        Ok(None)
    }
}

pub open spec fn is_ascii_digit(c: char) -> bool {
    '0' <= c && c <= '9'
}

/// The number that a text of decimal digits writes.
pub open spec fn digits_value(s: Seq<char>) -> int
    decreases s.len(),
{
    if s.len() == 0 {
        0
    } else {
        10 * digits_value(s.drop_last()) + (s.last() as int - '0' as int)
    }
}

/// The number that an optional `+` followed by at least one decimal digit writes;
/// `None` for any other text.
pub open spec fn unsigned_text_value(s: Seq<char>) -> Option<int> {
    let digits = if s.len() > 0 && s[0] == '+' {
        s.skip(1)
    } else {
        s
    };
    if digits.len() > 0 && forall|i: int| 0 <= i < digits.len() ==> is_ascii_digit(#[trigger] digits[i]) {
        Some(digits_value(digits))
    } else {
        None
    }
}

/// What `usize`'s `from_str` gives for a text: the number it writes where that fits
/// in `usize`.
pub open spec fn parsed_usize(s: Seq<char>) -> Option<usize> {
    match unsigned_text_value(s) {
        Some(v) => if 0 <= v <= usize::MAX {
            Some(v as usize)
        } else {
            None
        },
        None => None,
    }
}

/// The characters with Unicode's White_Space property.
pub open spec fn is_white_space(c: char) -> bool {
    let n = c as u32;
    ||| 0x9 <= n <= 0xD
    ||| n == 0x20
    ||| n == 0x85
    ||| n == 0xA0
    ||| n == 0x1680
    ||| 0x2000 <= n <= 0x200A
    ||| n == 0x2028
    ||| n == 0x2029
    ||| n == 0x202F
    ||| n == 0x205F
    ||| n == 0x3000
}

/// `s` without the white space at its start.
pub open spec fn trim_start(s: Seq<char>) -> Seq<char>
    decreases s.len(),
{
    if s.len() > 0 && is_white_space(s[0]) {
        trim_start(s.drop_first())
    } else {
        s
    }
}

/// `s` without the white space at its end.
pub open spec fn trim_end(s: Seq<char>) -> Seq<char>
    decreases s.len(),
{
    if s.len() > 0 && is_white_space(s.last()) {
        trim_end(s.drop_last())
    } else {
        s
    }
}

/// `s` without the white space at either end.
pub open spec fn trimmed(s: Seq<char>) -> Seq<char> {
    trim_end(trim_start(s))
}

/// Calls `str::trim`, which drops the leading and trailing characters that have
/// Unicode's White_Space property.
#[verifier::external_body]
fn trim(s: &str) -> (r: &str)
    ensures
        r@ == trimmed(s@),
{
    s.trim()
}

/// Calls `<usize as FromStr>::from_str`, which accepts an optional `+` followed by
/// decimal digits whose value fits in `usize`, and nothing else.
#[verifier::external_body]
fn parse_usize(s: &str) -> (r: Option<usize>)
    ensures
        r == parsed_usize(s@),
{
    s.parse::<usize>().ok()
}

/// The index of the keyboard that the user's answer picks out of `count`: the answer,
/// trimmed, is a number from 1 to `count`; `None` for any other answer.
pub open spec fn chosen_index(answer: Seq<char>, count: usize) -> Option<usize> {
    match parsed_usize(trimmed(answer)) {
        Some(n) => if 1 <= n && n <= count {
            Some((n - 1) as usize)
        } else {
            None
        },
        None => None,
    }
}

/// An answer picks the keyboard listed under the number it gives, whichever of the
/// `count` that is, and an answer picks a keyboard only by giving its number.
pub proof fn law_answer_picks_its_number(answer: Seq<char>, count: usize, n: usize, i: usize)
    ensures
        parsed_usize(trimmed(answer)) == Some(n) && 1 <= n && n <= count ==> chosen_index(
            answer,
            count,
        ) == Some((n - 1) as usize),
        chosen_index(answer, count) == Some(i) ==> i < count && parsed_usize(trimmed(answer))
            == Some((i + 1) as usize),
        parsed_usize(trimmed(answer)) is None ==> chosen_index(answer, count) is None,
{
}

/// The index of the keyboard that the user's answer picks out of `count` listed
/// from 1; `None` for an answer that picks none.
pub fn choice_from_input(answer: &str, count: usize) -> (r: Option<usize>)
    ensures
        r == chosen_index(answer@, count),
        r matches Some(i) ==> i < count,
{
    let trimmed = trim(answer);
    match parse_usize(trimmed) {
        Some(n) => if 1 <= n && n <= count {
            Some(n - 1)
        } else {
            None
        },
        None => None,
    }
}

} // verus!
