use keyboard_listener::modifiers::{Modifier, ModifierState};

#[test]
fn empty_state_holds_nothing() {
    let s = ModifierState::empty();
    assert!(s.to_modifiers().is_empty());
    assert_eq!(s.to_string(), "");
}

#[test]
fn modifier_names() {
    assert_eq!(Modifier::Ctrl.to_string(), "Ctrl");
    assert_eq!(Modifier::Shift.to_string(), "Shift");
    assert_eq!(Modifier::Alt.to_string(), "Alt");
    assert_eq!(Modifier::Super.to_string(), "Super");
}

#[test]
fn collecting_ignores_order_and_repeats() {
    let a = ModifierState::from(&[Modifier::Shift, Modifier::Ctrl, Modifier::Shift][..]);
    let b = ModifierState::from(&[Modifier::Ctrl, Modifier::Shift][..]);
    assert_eq!(a, b);
    assert_eq!(a.to_modifiers(), vec![Modifier::Ctrl, Modifier::Shift]);
}

#[test]
fn listing_is_in_canonical_order() {
    let s = ModifierState::from(&[Modifier::Super, Modifier::Alt, Modifier::Shift, Modifier::Ctrl][..]);
    assert_eq!(
        s.to_modifiers(),
        vec![Modifier::Ctrl, Modifier::Shift, Modifier::Alt, Modifier::Super]
    );
    assert_eq!(s.to_string(), "Ctrl+Shift+Alt+Super");
    let v: Vec<Modifier> = s.into();
    assert_eq!(v.len(), 4);
}

#[test]
fn state_list_roundtrip() {
    for bits in 0u8..16 {
        let mut ms = Vec::new();
        for (i, m) in [Modifier::Ctrl, Modifier::Shift, Modifier::Alt, Modifier::Super]
            .into_iter()
            .enumerate()
        {
            if bits & (1 << i) != 0 {
                ms.push(m);
            }
        }
        let s = ModifierState::from(ms.as_slice());
        let listed = s.to_modifiers();
        assert_eq!(listed, ms);
        assert_eq!(ModifierState::from(listed.as_slice()), s);
    }
}

#[test]
fn single_modifier_state() {
    let s = ModifierState::from(Modifier::Alt);
    assert_eq!(s.to_modifiers(), vec![Modifier::Alt]);
    assert_eq!(s.to_string(), "Alt");
}

#[test]
fn insert_remove_union_contains() {
    let mut s = ModifierState::empty();
    s.insert(ModifierState::from(Modifier::Ctrl));
    s.insert(ModifierState::from(Modifier::Alt));
    assert!(s.contains(ModifierState::from(Modifier::Ctrl)));
    assert!(!s.contains(ModifierState::from(Modifier::Shift)));
    assert!(s.contains(ModifierState::from(&[Modifier::Ctrl, Modifier::Alt][..])));
    assert!(s.contains(ModifierState::empty()));
    s.remove(ModifierState::from(Modifier::Ctrl));
    assert_eq!(s, ModifierState::from(Modifier::Alt));
    s.remove(ModifierState::from(Modifier::Ctrl));
    assert_eq!(s, ModifierState::from(Modifier::Alt));
    let u = s.union(ModifierState::from(Modifier::Super));
    assert_eq!(u.to_string(), "Alt+Super");
}

#[test]
fn bits_all_and_from_bits() {
    assert_eq!(ModifierState::empty().bits(), 0);
    assert_eq!(ModifierState::from(Modifier::Ctrl).bits(), 1);
    assert_eq!(ModifierState::from(Modifier::Shift).bits(), 2);
    assert_eq!(ModifierState::from(Modifier::Alt).bits(), 4);
    assert_eq!(ModifierState::from(Modifier::Super).bits(), 8);
    assert_eq!(ModifierState::all().bits(), 15);
    assert_eq!(ModifierState::all().to_string(), "Ctrl+Shift+Alt+Super");
    for b in 0u8..16 {
        let s = ModifierState::from_bits(b).unwrap();
        assert_eq!(s.bits(), b);
    }
    assert_eq!(ModifierState::from_bits(16), None);
    assert_eq!(ModifierState::from_bits(0x80), None);
    assert!(ModifierState::empty().is_empty());
    assert!(!ModifierState::all().is_empty());
}

#[test]
fn same_set_same_binding_modifiers() {
    let a = ModifierState::from(&[Modifier::Alt, Modifier::Ctrl, Modifier::Alt][..]);
    let b = ModifierState::from(&[Modifier::Ctrl, Modifier::Alt][..]);
    assert_eq!(a, b);
}

#[test]
fn named_flags() {
    assert_eq!(ModifierState::CTRL(), ModifierState::from(Modifier::Ctrl));
    assert_eq!(ModifierState::SHIFT().bits(), 2);
    assert_eq!(ModifierState::ALT().to_modifiers(), vec![Modifier::Alt]);
    assert_eq!(ModifierState::SUPER().bits(), 8);
    let all = ModifierState::CTRL()
        .union(ModifierState::SHIFT())
        .union(ModifierState::ALT())
        .union(ModifierState::SUPER());
    assert_eq!(all, ModifierState::all());
}

#[test]
fn from_bits_roundtrip() {
    for s in [ModifierState::empty(), ModifierState::all(), ModifierState::ALT()] {
        assert_eq!(ModifierState::from_bits(s.bits()), Some(s));
    }
}
