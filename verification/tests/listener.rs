use std::path::PathBuf;

use keyboard_listener::device::DeviceInfo;
use keyboard_listener::keys::{Key, Keybind, KEY_A, KEY_LEFTCTRL, KEY_LEFTSHIFT, KEY_RIGHTCTRL};

const KEY_S: u16 = evdev::KeyCode::KEY_S.code();
const KEY_D: u16 = evdev::KeyCode::KEY_D.code();
use keyboard_listener::listener::{Listener, ListenerBuilder};
use keyboard_listener::modifiers::{Modifier, ModifierState};
use keyboard_listener::{Error, InputEvent};

#[derive(Clone, Debug, PartialEq)]
enum Action {
    Play,
    Next,
    Pause,
}

impl InputEvent for Action {}

fn device() -> DeviceInfo {
    DeviceInfo::new(PathBuf::from("/dev/input/event3"), "Test Keyboard".to_string())
}

fn listener() -> Listener<Action> {
    Listener::builder()
        .device(device())
        .bind(Keybind::new(Key::new(KEY_A), &[Modifier::Ctrl], Action::Play))
        .binds(vec![
            Keybind::new(Key::new(KEY_A), &[Modifier::Ctrl, Modifier::Shift], Action::Pause),
            Keybind::new(Key::new(KEY_S), &[], Action::Next),
        ])
        .build()
        .unwrap()
}

#[test]
fn build_needs_a_device() {
    let r = ListenerBuilder::<Action>::new()
        .bind(Keybind::new(Key::new(KEY_A), &[], Action::Play))
        .build();
    match r {
        Err(Error::Config(msg)) => assert_eq!(msg, "Listener requires a device"),
        _ => panic!("expected a Config error"),
    }
    assert!(matches!(ListenerBuilder::<Action>::default().build(), Err(Error::Config(_))));
}

#[test]
fn build_needs_keybinds() {
    let r = Listener::<Action>::builder().device(device()).build();
    assert!(matches!(r, Err(Error::NoKeybindsSet)));
}

#[test]
fn build_keeps_order_and_device() {
    let l = listener();
    assert_eq!(l.device_info().name, "Test Keyboard");
    assert_eq!(l.device_info().path, PathBuf::from("/dev/input/event3"));
    let actions: Vec<Action> = l.keybinds().iter().map(|b| b.action.clone()).collect();
    assert_eq!(actions, vec![Action::Play, Action::Pause, Action::Next]);
    assert_eq!(l.held(), ModifierState::empty());
}

#[test]
fn translate_finds_exact_modifiers() {
    let l = listener();
    let binds = l.keybinds();
    let ctrl = ModifierState::from(Modifier::Ctrl);
    let ctrl_shift = ModifierState::from(&[Modifier::Shift, Modifier::Ctrl][..]);
    assert_eq!(Listener::translate(Key::new(KEY_A), ctrl, binds), Some(Action::Play));
    assert_eq!(Listener::translate(Key::new(KEY_A), ctrl_shift, binds), Some(Action::Pause));
    assert_eq!(Listener::translate(Key::new(KEY_A), ModifierState::empty(), binds), None);
    assert_eq!(Listener::translate(Key::new(KEY_S), ModifierState::empty(), binds), Some(Action::Next));
    assert_eq!(Listener::translate(Key::new(KEY_S), ctrl, binds), None);
    assert_eq!(Listener::translate(Key::new(KEY_D), ModifierState::empty(), binds), None);
    assert_eq!(Listener::find_keybind(Key::new(KEY_A), ctrl_shift, binds), Some(1));
}

#[test]
fn earlier_binding_wins() {
    let binds = vec![
        Keybind::new(Key::new(KEY_A), &[], Action::Play),
        Keybind::new(Key::new(KEY_A), &[], Action::Next),
    ];
    assert_eq!(Listener::translate(Key::new(KEY_A), ModifierState::empty(), &binds), Some(Action::Play));
    assert_eq!(Listener::find_keybind(Key::new(KEY_A), ModifierState::empty(), &binds), Some(0));
}

#[test]
fn first_match_unique() {
    let binds = vec![
        Keybind::new(Key::new(KEY_S), &[], Action::Play),
        Keybind::new(Key::new(KEY_A), &[], Action::Next),
        Keybind::new(Key::new(KEY_A), &[], Action::Pause),
    ];
    assert_eq!(Listener::find_keybind(Key::new(KEY_A), ModifierState::empty(), &binds), Some(1));
    assert_eq!(Listener::find_keybind(Key::new(KEY_A), ModifierState::empty(), &binds), Some(1));
}

#[test]
fn handle_key_tracks_modifiers() {
    let mut l = listener();
    assert_eq!(l.handle_key(Key::new(KEY_LEFTCTRL), 1), None);
    assert_eq!(l.held(), ModifierState::from(Modifier::Ctrl));
    assert_eq!(l.handle_key(Key::new(KEY_A), 1), Some(Action::Play));
    assert_eq!(l.handle_key(Key::new(KEY_A), 2), None);
    assert_eq!(l.handle_key(Key::new(KEY_A), 0), None);
    assert_eq!(l.handle_key(Key::new(KEY_LEFTSHIFT), 1), None);
    assert_eq!(l.handle_key(Key::new(KEY_A), 1), Some(Action::Pause));
    assert_eq!(l.handle_key(Key::new(KEY_LEFTCTRL), 0), None);
    assert_eq!(l.held(), ModifierState::from(Modifier::Shift));
    assert_eq!(l.handle_key(Key::new(KEY_A), 1), None);
    assert_eq!(l.handle_key(Key::new(KEY_LEFTSHIFT), 0), None);
    assert_eq!(l.held(), ModifierState::empty());
    assert_eq!(l.handle_key(Key::new(KEY_S), 1), Some(Action::Next));
}

#[test]
fn press_release_modifier() {
    let mut l = listener();
    l.handle_key(Key::new(KEY_LEFTSHIFT), 1);
    l.handle_key(Key::new(KEY_LEFTCTRL), 1);
    l.handle_key(Key::new(KEY_LEFTCTRL), 0);
    assert_eq!(l.held(), ModifierState::from(Modifier::Shift));
}

#[test]
fn repeats_and_other_keys_keep_modifiers() {
    let mut l = listener();
    l.handle_key(Key::new(KEY_LEFTCTRL), 1);
    l.handle_key(Key::new(KEY_LEFTCTRL), 2);
    l.handle_key(Key::new(KEY_D), 1);
    l.handle_key(Key::new(KEY_D), 0);
    assert_eq!(l.held(), ModifierState::from(Modifier::Ctrl));
}

#[test]
fn left_right_alike() {
    let mut l = listener();
    l.handle_key(Key::new(KEY_RIGHTCTRL), 1);
    assert_eq!(l.handle_key(Key::new(KEY_A), 1), Some(Action::Play));
    l.handle_key(Key::new(KEY_LEFTCTRL), 0);
    assert_eq!(l.held(), ModifierState::empty());
}

#[test]
fn run_of_events_ignores_repeats_and_sides() {
    let events = [
        (KEY_LEFTCTRL, 1),
        (KEY_D, 1),
        (KEY_LEFTCTRL, 2),
        (KEY_D, 0),
        (KEY_LEFTSHIFT, 1),
        (KEY_LEFTCTRL, 0),
    ];
    let mut l = listener();
    for (code, value) in events {
        l.handle_key(Key::new(code), value);
    }
    let mut m = listener();
    for (code, value) in [(KEY_RIGHTCTRL, 1), (evdev::KeyCode::KEY_RIGHTSHIFT.code(), 1), (KEY_RIGHTCTRL, 0)] {
        m.handle_key(Key::new(code), value);
    }
    assert_eq!(l.held(), m.held());
    assert_eq!(l.held(), ModifierState::from(Modifier::Shift));
}

fn fired(events: &[(u16, i32)]) -> Vec<Action> {
    let mut l = listener();
    events
        .iter()
        .filter_map(|(code, value)| l.handle_key(Key::new(*code), *value))
        .collect()
}

#[test]
fn run_fires_alike_on_both_sides() {
    let right_shift = evdev::KeyCode::KEY_RIGHTSHIFT.code();
    let left = [(KEY_LEFTCTRL, 1), (KEY_A, 1), (KEY_LEFTSHIFT, 1), (KEY_A, 1), (KEY_LEFTCTRL, 0), (KEY_LEFTSHIFT, 0), (KEY_S, 1)];
    let right = [(KEY_RIGHTCTRL, 1), (KEY_A, 1), (right_shift, 1), (KEY_A, 1), (KEY_RIGHTCTRL, 0), (right_shift, 0), (KEY_S, 1)];
    assert_eq!(fired(&left), vec![Action::Play, Action::Pause, Action::Next]);
    assert_eq!(fired(&right), fired(&left));
}

#[test]
fn run_ignores_quiet_events() {
    let plain = [(KEY_LEFTCTRL, 1), (KEY_A, 1), (KEY_LEFTCTRL, 0), (KEY_S, 1)];
    let noisy = [
        (KEY_LEFTCTRL, 1),
        (KEY_LEFTCTRL, 2),
        (KEY_D, 0),
        (KEY_A, 1),
        (KEY_A, 2),
        (KEY_A, 0),
        (KEY_LEFTCTRL, 0),
        (KEY_S, 2),
        (KEY_S, 1),
    ];
    assert_eq!(fired(&plain), vec![Action::Play, Action::Next]);
    assert_eq!(fired(&noisy), fired(&plain));
}
