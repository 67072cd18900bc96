use keyboard_listener::keys::{
    full_key_name_of, key_from_str, key_from_text, key_text, IntoModifier, Key, Keybind, Keybinds,
    KEY_A, KEY_L, KEY_LEFTALT, KEY_LEFTCTRL, KEY_LEFTMETA, KEY_LEFTSHIFT, KEY_M, KEY_P, KEY_Q,
    KEY_RIGHTALT, KEY_RIGHTCTRL, KEY_RIGHTMETA, KEY_RIGHTSHIFT, KEY_Z,
};

const KEY_D: u16 = evdev::KeyCode::KEY_D.code();
const KEY_ENTER: u16 = evdev::KeyCode::KEY_ENTER.code();
use keyboard_listener::modifiers::{Modifier, ModifierState};
use keyboard_listener::InputEvent;

#[derive(Clone, Debug, PartialEq, Eq, Hash)]
enum Action {
    Start,
    Pause,
}

impl InputEvent for Action {}

#[test]
fn key_codes_are_evdevs() {
    assert_eq!(evdev::KeyCode::KEY_Q.code(), KEY_Q);
    assert_eq!(evdev::KeyCode::KEY_P.code(), KEY_P);
    assert_eq!(evdev::KeyCode::KEY_A.code(), KEY_A);
    assert_eq!(evdev::KeyCode::KEY_L.code(), KEY_L);
    assert_eq!(evdev::KeyCode::KEY_Z.code(), KEY_Z);
    assert_eq!(evdev::KeyCode::KEY_M.code(), KEY_M);
    assert_eq!(evdev::KeyCode::KEY_LEFTCTRL.code(), KEY_LEFTCTRL);
    assert_eq!(evdev::KeyCode::KEY_RIGHTCTRL.code(), KEY_RIGHTCTRL);
    assert_eq!(evdev::KeyCode::KEY_LEFTSHIFT.code(), KEY_LEFTSHIFT);
    assert_eq!(evdev::KeyCode::KEY_RIGHTSHIFT.code(), KEY_RIGHTSHIFT);
    assert_eq!(evdev::KeyCode::KEY_LEFTALT.code(), KEY_LEFTALT);
    assert_eq!(evdev::KeyCode::KEY_RIGHTALT.code(), KEY_RIGHTALT);
    assert_eq!(evdev::KeyCode::KEY_LEFTMETA.code(), KEY_LEFTMETA);
    assert_eq!(evdev::KeyCode::KEY_RIGHTMETA.code(), KEY_RIGHTMETA);
}

#[test]
fn modifier_keys() {
    assert_eq!(Key::new(KEY_LEFTCTRL).into_modifier(), Some(Modifier::Ctrl));
    assert_eq!(Key::new(KEY_RIGHTCTRL).into_modifier(), Some(Modifier::Ctrl));
    assert_eq!(Key::new(KEY_LEFTSHIFT).into_modifier(), Some(Modifier::Shift));
    assert_eq!(Key::new(KEY_RIGHTSHIFT).into_modifier(), Some(Modifier::Shift));
    assert_eq!(Key::new(KEY_LEFTALT).into_modifier(), Some(Modifier::Alt));
    assert_eq!(Key::new(KEY_RIGHTALT).into_modifier(), Some(Modifier::Alt));
    assert_eq!(Key::new(KEY_LEFTMETA).into_modifier(), Some(Modifier::Super));
    assert_eq!(Key::new(KEY_RIGHTMETA).into_modifier(), Some(Modifier::Super));
    assert_eq!(Key::new(KEY_A).into_modifier(), None);
    assert_eq!(Key::new(KEY_ENTER).into_modifier(), None);
}

#[test]
fn parse_evdev_names() {
    assert_eq!(key_from_str("KEY_A"), Some(Key::new(KEY_A)));
    assert_eq!(key_from_str("KEY_ENTER"), Some(Key::new(KEY_ENTER)));
    assert_eq!(key_from_str("KEY_FOOBAR"), None);
    assert_eq!(key_from_str("a"), None);
    assert_eq!(key_from_str(""), None);
}

#[test]
fn binding_text_names_keys() {
    assert_eq!(full_key_name_of("a"), "KEY_A");
    assert_eq!(full_key_name_of("enter"), "KEY_ENTER");
    assert_eq!(full_key_name_of("KEY_ESC"), "KEY_ESC");
    assert_eq!(full_key_name_of("key_esc"), "KEY_KEY_ESC");
    assert_eq!(key_from_text("a"), Some(Key::new(KEY_A)));
    assert_eq!(key_from_text("A"), Some(Key::new(KEY_A)));
    assert_eq!(key_from_text("Enter"), Some(Key::new(KEY_ENTER)));
    assert_eq!(key_from_text("KEY_D"), Some(Key::new(KEY_D)));
    assert_eq!(key_from_text("nokey"), None);
}

#[test]
fn lower_and_upper_case_name_one_key() {
    for c in 'a'..='z' {
        let lower = c.to_string();
        let upper = c.to_ascii_uppercase().to_string();
        assert!(key_from_text(&lower).is_some());
        assert_eq!(key_from_text(&lower), key_from_text(&upper));
    }
    assert_eq!(full_key_name_of("leftCtrl"), "KEY_LEFTCTRL");
}

#[test]
fn letter_key_codes_are_the_three_runs() {
    let mut codes: Vec<u16> = ('A'..='Z')
        .map(|c| key_from_str(&format!("KEY_{}", c)).unwrap().code())
        .collect();
    codes.sort();
    let runs: Vec<u16> = (KEY_Q..=KEY_P).chain(KEY_A..=KEY_L).chain(KEY_Z..=KEY_M).collect();
    assert_eq!(codes, runs);
}

#[test]
fn full_key_name_idempotent() {
    for t in ["a", "KEY_A", "leftctrl", "x1", ""] {
        let once = full_key_name_of(t);
        assert_eq!(full_key_name_of(&once), once);
    }
}

#[test]
fn key_texts() {
    assert_eq!(key_text(Key::new(KEY_A)), "A");
    assert_eq!(key_text(Key::new(KEY_ENTER)), "ENTER");
    assert_eq!(key_text(Key::new(KEY_LEFTCTRL)), "LEFTCTRL");
    assert_eq!(key_text(Key::new(0x110)), "BTN_LEFT");
    assert_eq!(key_text(Key::new(0x2ff)), "unknown key: 767");
}

#[test]
fn key_text_reads_back() {
    for code in 0u16..0x300 {
        let name = format!("{:?}", evdev::KeyCode::new(code));
        if name.starts_with("KEY_") {
            let text = key_text(Key::new(code));
            assert_eq!(key_from_text(&text), Some(Key::new(code)), "{}", name);
        }
    }
}

#[test]
fn keybind_new_collects_modifiers() {
    let b = Keybind::new(Key::new(KEY_A), &[Modifier::Shift, Modifier::Ctrl], Action::Start);
    assert_eq!(b.key, Key::new(KEY_A));
    assert_eq!(b.modifiers, ModifierState::from(&[Modifier::Ctrl, Modifier::Shift][..]));
    assert_eq!(b.action, Action::Start);
}

#[test]
fn keybind_text() {
    let b = Keybind::new(Key::new(KEY_A), &[Modifier::Ctrl, Modifier::Shift], Action::Pause);
    assert_eq!(b.to_text(&format!("{:?}", b.action)), "Pause: Ctrl+Shift+A");
    let plain = Keybind::new(Key::new(KEY_ENTER), &[], Action::Start);
    assert_eq!(plain.to_text("Start"), "Start: +ENTER");
}

#[test]
fn keybinds_keep_order() {
    let a = Keybind::new(Key::new(KEY_A), &[Modifier::Ctrl], Action::Start);
    let b = Keybind::new(Key::new(KEY_A), &[Modifier::Ctrl, Modifier::Shift], Action::Pause);
    let binds = Keybinds::from_vec(vec![a.clone(), b.clone()]);
    assert_eq!(binds.len(), 2);
    assert_eq!(binds.as_slice()[0], a);
    assert_eq!(binds[1], b);
    let v: Vec<Keybind<Action>> = binds.into();
    assert_eq!(v, vec![a.clone(), b.clone()]);
    let again = Keybinds::from_vec(vec![a.clone(), b.clone()]);
    let items: Vec<Keybind<Action>> = again.into_iter().collect();
    assert_eq!(items, vec![a, b]);
}
