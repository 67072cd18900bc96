use vstd::prelude::*;

use crate::device::DeviceInfo;
use crate::error::Error;
use crate::keys::{
    modifier_of_code, IntoModifier, Key, Keybind, KEY_LEFTALT, KEY_LEFTCTRL, KEY_LEFTMETA,
    KEY_LEFTSHIFT, KEY_RIGHTALT, KEY_RIGHTCTRL, KEY_RIGHTMETA, KEY_RIGHTSHIFT,
};
use crate::modifiers::{
    law_state_determined_by_modifiers, lemma_state_of, state_of, Modifier, ModifierState,
};
use crate::InputEvent;

verus! {

/// A binding fires for `key` while exactly the modifiers `held` are held.
pub open spec fn binding_matches<T: InputEvent>(
    bind: Keybind<T>,
    key: Key,
    held: Set<Modifier>,
) -> bool {
    bind.key == key && bind.modifiers@ == held
}

/// A binding fires only with exactly its own modifiers held: every modifier held is
/// one of the binding's, and every one of the binding's is held.
pub proof fn law_binding_needs_exactly_its_modifiers<T: InputEvent>(
    bind: Keybind<T>,
    key: Key,
    held: Set<Modifier>,
)
    ensures
        binding_matches(bind, key, held) <==> bind.key == key && (forall|m: Modifier|
            #[trigger] held.contains(m) == bind.modifiers@.contains(m)),
{
    if bind.key == key && (forall|m: Modifier| #[trigger] held.contains(m) == bind.modifiers@.contains(m)) {
        assert(held =~= bind.modifiers@);
    }
}

/// A binding made by `Keybind::new` from a list of modifiers fires for its key with
/// exactly the modifiers of that list held, and with no other set held.
pub proof fn law_new_binding_fires_with_its_list<T: InputEvent>(
    key: Key,
    modifiers: Seq<Modifier>,
    action: T,
    held: Set<Modifier>,
)
    ensures
        binding_matches(Keybind { key, modifiers: state_of(modifiers), action }, key, held)
            <==> held == modifiers.to_set(),
        fires(seq![Keybind { key, modifiers: state_of(modifiers), action }], key.code, 1, held)
            == if modifier_of_code(key.code) is None && held == modifiers.to_set() {
            Some(0int)
        } else {
            None::<int>
        },
{
    lemma_state_of(modifiers);
    let binds = seq![Keybind { key, modifiers: state_of(modifiers), action }];
    if modifier_of_code(key.code) is None && held == modifiers.to_set() {
        assert(Key { code: key.code } == key);
        assert(is_first_fired(binds, key.code, held, 0));
        let j = choose|j: int| is_first_fired(binds, key.code, held, j);
        law_first_match_unique(binds, key, held, 0, j);
    }
}

/// `i` is the position of the first binding of `binds` that fires for `key` and `held`.
pub open spec fn is_first_match<T: InputEvent>(
    binds: Seq<Keybind<T>>,
    key: Key,
    held: Set<Modifier>,
    i: int,
) -> bool {
    &&& 0 <= i < binds.len()
    &&& binding_matches(binds[i], key, held)
    &&& forall|j: int| 0 <= j < i ==> !binding_matches(#[trigger] binds[j], key, held)
}

/// No binding of `binds` fires for `key` and `held`.
pub open spec fn no_match<T: InputEvent>(binds: Seq<Keybind<T>>, key: Key, held: Set<Modifier>) -> bool {
    forall|j: int| 0 <= j < binds.len() ==> !binding_matches(#[trigger] binds[j], key, held)
}

/// The modifiers held after a key event: a modifier key's press (value 1) adds its
/// modifier and its release (value 0) drops it; its repeats, and every event of
/// another key, leave the modifiers as they were.
pub open spec fn next_held(held: Set<Modifier>, code: u16, value: i32) -> Set<Modifier> {
    match modifier_of_code(code) {
        Some(m) => if value == 1 {
            held.insert(m)
        } else if value == 0 {
            held.remove(m)
        } else {
            held
        },
        None => held,
    }
}

/// Bindings are looked up on the press (value 1) of a key that is no modifier key.
pub open spec fn looks_up_binding(code: u16, value: i32) -> bool {
    modifier_of_code(code) is None && value == 1
}

/// Pressing a modifier key and releasing it again leaves the other modifiers as they
/// were, and that modifier not held.
pub proof fn law_press_release_modifier(held: Set<Modifier>, code: u16, m: Modifier)
    requires
        modifier_of_code(code) == Some(m),
    ensures
        next_held(held, code, 1).contains(m),
        next_held(next_held(held, code, 1), code, 0) == held.remove(m),
{
    assert(held.insert(m).remove(m) =~= held.remove(m));
}

/// Keys that are no modifier keys never change the modifiers held.
pub proof fn law_other_keys_keep_modifiers(held: Set<Modifier>, code: u16, value: i32)
    requires
        modifier_of_code(code) is None,
    ensures
        next_held(held, code, value) == held,
{
}

/// Key repeats (and any value other than press and release) leave the modifiers as
/// they were.
pub proof fn law_repeats_keep_modifiers(held: Set<Modifier>, code: u16, value: i32)
    requires
        value != 0,
        value != 1,
    ensures
        next_held(held, code, value) == held,
{
}

/// The left and the right key of a modifier act alike.
pub proof fn law_left_right_alike(held: Set<Modifier>, value: i32)
    ensures
        next_held(held, KEY_LEFTCTRL, value) == next_held(held, KEY_RIGHTCTRL, value),
        next_held(held, KEY_LEFTSHIFT, value) == next_held(held, KEY_RIGHTSHIFT, value),
        next_held(held, KEY_LEFTALT, value) == next_held(held, KEY_RIGHTALT, value),
        next_held(held, KEY_LEFTMETA, value) == next_held(held, KEY_RIGHTMETA, value),
{
}

/// `i` is the position of the first binding of `binds` that fires for the key with
/// code `code` while `held` is held.
pub open spec fn is_first_fired<T: InputEvent>(
    binds: Seq<Keybind<T>>,
    code: u16,
    held: Set<Modifier>,
    i: int,
) -> bool {
    is_first_match(binds, Key { code }, held, i)
}

/// The position of the binding that a key event fires while `held` is held: the
/// first that fires for the key, on the press of a key that is no modifier key;
/// `None` for any other event, or where no binding fires.
pub open spec fn fires<T: InputEvent>(
    binds: Seq<Keybind<T>>,
    code: u16,
    value: i32,
    held: Set<Modifier>,
) -> Option<int> {
    if looks_up_binding(code, value) && exists|i: int| is_first_fired(binds, code, held, i) {
        Some(choose|i: int| is_first_fired(binds, code, held, i))
    } else {
        None
    }
}

/// The modifiers held after a run of key events, each a key code and a value
/// (1 press, 0 release, 2 repeat), starting from `held`.
pub open spec fn held_after(held: Set<Modifier>, events: Seq<(u16, i32)>) -> Set<Modifier>
    decreases events.len(),
{
    if events.len() == 0 {
        held
    } else {
        next_held(held_after(held, events.drop_last()), events.last().0, events.last().1)
    }
}

/// An event that never changes the modifiers held: a repeat, or any event of a key
/// that is no modifier key.
pub open spec fn leaves_modifiers(event: (u16, i32)) -> bool {
    modifier_of_code(event.0) is None || (event.1 != 0 && event.1 != 1)
}

/// The key code of the other side's key, for the modifier keys; other codes stay.
pub open spec fn other_side(code: u16) -> u16 {
    if code == KEY_LEFTCTRL {
        KEY_RIGHTCTRL
    } else if code == KEY_RIGHTCTRL {
        KEY_LEFTCTRL
    } else if code == KEY_LEFTSHIFT {
        KEY_RIGHTSHIFT
    } else if code == KEY_RIGHTSHIFT {
        KEY_LEFTSHIFT
    } else if code == KEY_LEFTALT {
        KEY_RIGHTALT
    } else if code == KEY_RIGHTALT {
        KEY_LEFTALT
    } else if code == KEY_LEFTMETA {
        KEY_RIGHTMETA
    } else if code == KEY_RIGHTMETA {
        KEY_LEFTMETA
    } else {
        code
    }
}

/// A run of events with every modifier key swapped for its other side's key.
pub open spec fn mirrored(events: Seq<(u16, i32)>) -> Seq<(u16, i32)> {
    events.map_values(|e: (u16, i32)| (other_side(e.0), e.1))
}

/// Each step of a run is one call of `handle_key`: the modifiers held after a run
/// and one more event are those that event leaves of the ones held after the run.
pub proof fn law_held_after_step(held: Set<Modifier>, events: Seq<(u16, i32)>, code: u16, value: i32)
    ensures
        held_after(held, events.push((code, value))) == next_held(held_after(held, events), code, value),
{
    assert(events.push((code, value)).drop_last() =~= events);
}

/// Dropping from a run of key events a repeat, or an event of a key that is no
/// modifier key, leaves the modifiers held at its end as they were.
pub proof fn law_run_ignores_other_events(
    held: Set<Modifier>,
    before: Seq<(u16, i32)>,
    event: (u16, i32),
    after: Seq<(u16, i32)>,
)
    requires
        leaves_modifiers(event),
    ensures
        held_after(held, before + seq![event] + after) == held_after(held, before + after),
    decreases after.len(),
{
    if after.len() == 0 {
        assert(before + seq![event] + after =~= before.push(event));
        assert(before + after =~= before);
        assert(before.push(event).drop_last() =~= before);
    } else {
        law_run_ignores_other_events(held, before, event, after.drop_last());
        assert((before + seq![event] + after).drop_last() =~= before + seq![event]
            + after.drop_last());
        assert((before + after).drop_last() =~= before + after.drop_last());
        assert((before + seq![event] + after).last() == after.last());
        assert((before + after).last() == after.last());
    }
}

/// Pressing and releasing the left or the right key of a modifier comes to the
/// same: swapping every modifier key of a run for its other side's key leaves the
/// modifiers held at its end as they were.
pub proof fn law_run_sides_alike(held: Set<Modifier>, events: Seq<(u16, i32)>)
    ensures
        held_after(held, mirrored(events)) == held_after(held, events),
    decreases events.len(),
{
    if events.len() > 0 {
        law_run_sides_alike(held, events.drop_last());
        assert(mirrored(events).drop_last() =~= mirrored(events.drop_last()));
        let e = events.last();
        assert(mirrored(events).last() == (other_side(e.0), e.1));
        assert(modifier_of_code(other_side(e.0)) == modifier_of_code(e.0));
    }
}

/// The position of a fired binding as a run's output: one position, or none.
pub open spec fn fired_output(fired: Option<int>) -> Seq<int> {
    match fired {
        Some(i) => seq![i],
        None => seq![],
    }
}

/// The positions of the bindings that a run of key events fires, in order, starting
/// with `held` held: each event fires what `fires` says, with the modifiers held
/// after the events before it. `handle_key` takes one step of a run.
pub open spec fn fired_in_run<T: InputEvent>(
    binds: Seq<Keybind<T>>,
    held: Set<Modifier>,
    events: Seq<(u16, i32)>,
) -> Seq<int>
    decreases events.len(),
{
    if events.len() == 0 {
        seq![]
    } else {
        let before = events.drop_last();
        fired_in_run(binds, held, before) + fired_output(
            fires(binds, events.last().0, events.last().1, held_after(held, before)),
        )
    }
}

/// An event that neither fires a binding nor changes the modifiers held: a repeat
/// of any key, or the release of a key that is no modifier key.
pub open spec fn is_quiet_event(event: (u16, i32)) -> bool {
    event.1 != 1 && (event.1 != 0 || modifier_of_code(event.0) is None)
}

/// A run and one more event fire what the run fired and then what `handle_key`,
/// given the modifiers held after the run, answers to that event.
pub proof fn law_fired_in_run_step<T: InputEvent>(
    binds: Seq<Keybind<T>>,
    held: Set<Modifier>,
    events: Seq<(u16, i32)>,
    code: u16,
    value: i32,
)
    ensures
        fired_in_run(binds, held, events.push((code, value))) == fired_in_run(binds, held, events)
            + fired_output(fires(binds, code, value, held_after(held, events))),
        held_after(held, events.push((code, value))) == next_held(
            held_after(held, events),
            code,
            value,
        ),
{
    assert(events.push((code, value)).drop_last() =~= events);
}

/// Swapping every modifier key of a run for its other side's key changes neither
/// the bindings the run fires nor the modifiers held at its end.
pub proof fn law_run_fires_alike_on_both_sides<T: InputEvent>(
    binds: Seq<Keybind<T>>,
    held: Set<Modifier>,
    events: Seq<(u16, i32)>,
)
    ensures
        fired_in_run(binds, held, mirrored(events)) == fired_in_run(binds, held, events),
        held_after(held, mirrored(events)) == held_after(held, events),
    decreases events.len(),
{
    law_run_sides_alike(held, events);
    if events.len() > 0 {
        let before = events.drop_last();
        law_run_fires_alike_on_both_sides(binds, held, before);
        law_run_sides_alike(held, before);
        assert(mirrored(events).drop_last() =~= mirrored(before));
        let e = events.last();
        assert(mirrored(events).last() == (other_side(e.0), e.1));
        assert(modifier_of_code(other_side(e.0)) == modifier_of_code(e.0));
        if modifier_of_code(e.0) is None {
            assert(other_side(e.0) == e.0);
        }
    }
}

/// Repeats of any key, and releases of keys that are no modifier keys, can be added
/// anywhere to a run: it fires the same bindings and ends with the same modifiers
/// held.
pub proof fn law_run_ignores_quiet_events<T: InputEvent>(
    binds: Seq<Keybind<T>>,
    held: Set<Modifier>,
    before: Seq<(u16, i32)>,
    event: (u16, i32),
    after: Seq<(u16, i32)>,
)
    requires
        is_quiet_event(event),
    ensures
        fired_in_run(binds, held, before + seq![event] + after) == fired_in_run(
            binds,
            held,
            before + after,
        ),
        held_after(held, before + seq![event] + after) == held_after(held, before + after),
    decreases after.len(),
{
    law_run_ignores_other_events(held, before, event, after);
    if after.len() == 0 {
        assert(before + seq![event] + after =~= before.push(event));
        assert(before + after =~= before);
        assert(before.push(event).drop_last() =~= before);
        assert(fired_output(fires(binds, event.0, event.1, held_after(held, before))) =~= seq![]);
        assert(fired_in_run(binds, held, before) + seq![] =~= fired_in_run(binds, held, before));
    } else {
        law_run_ignores_quiet_events(binds, held, before, event, after.drop_last());
        law_run_ignores_other_events(held, before, event, after.drop_last());
        assert((before + seq![event] + after).drop_last() =~= before + seq![event]
            + after.drop_last());
        assert((before + after).drop_last() =~= before + after.drop_last());
        assert((before + seq![event] + after).last() == after.last());
        assert((before + after).last() == after.last());
    }
}

/// At most one binding is the first that fires.
pub proof fn law_first_match_unique<T: InputEvent>(
    binds: Seq<Keybind<T>>,
    key: Key,
    held: Set<Modifier>,
    i: int,
    j: int,
)
    requires
        is_first_match(binds, key, held, i),
        is_first_match(binds, key, held, j),
    ensures
        i == j,
{
    if i < j {
        assert(!binding_matches(binds[i], key, held));
    }
    if j < i {
        assert(!binding_matches(binds[j], key, held));
    }
}

/// Bindings added later never take over from an earlier one that fires.
pub proof fn law_earlier_binding_wins<T: InputEvent>(
    binds: Seq<Keybind<T>>,
    more: Seq<Keybind<T>>,
    key: Key,
    held: Set<Modifier>,
    i: int,
)
    requires
        is_first_match(binds, key, held, i),
    ensures
        is_first_match(binds + more, key, held, i),
{
    assert forall|j: int| 0 <= j < i implies !binding_matches(#[trigger] (binds + more)[j], key, held) by {
        assert((binds + more)[j] == binds[j]);
    }
}

/// The input device, the key bindings, and the modifiers held now: what a running
/// listener decides each key event with. The program opens the device and feeds
/// its key events to `handle_key`, which answers with the action to send.
pub struct Listener<T: InputEvent> {
    device_info: DeviceInfo,
    keybinds: Vec<Keybind<T>>,
    held: ModifierState,
}

impl<T: InputEvent> Listener<T> {
    pub closed spec fn spec_device_info(&self) -> DeviceInfo {
        self.device_info
    }

    pub closed spec fn spec_keybinds(&self) -> Seq<Keybind<T>> {
        self.keybinds@
    }

    pub closed spec fn spec_held(&self) -> ModifierState {
        self.held
    }

    pub fn builder() -> (r: ListenerBuilder<T>)
        ensures
            r.spec_device_info() is None,
            r.spec_keybinds() == Seq::<Keybind<T>>::empty(),
    {
        ListenerBuilder::new()
    }

    /// The device that the listener reads.
    pub fn device_info(&self) -> (r: &DeviceInfo)
        ensures
            *r == self.spec_device_info(),
    {
        &self.device_info
    }

    pub fn keybinds(&self) -> (r: &[Keybind<T>])
        ensures
            r@ == self.spec_keybinds(),
    {
        self.keybinds.as_slice()
    }

    /// The modifiers held now.
    pub fn held(&self) -> (r: ModifierState)
        ensures
            r == self.spec_held(),
    {
        self.held
    }

    /// The position of the first binding that fires for `key` while `held` is held.
    pub fn find_keybind(key: Key, held: ModifierState, keybinds: &[Keybind<T>]) -> (r: Option<
        usize,
    >)
        ensures
            match r {
                Some(i) => is_first_match(keybinds@, key, held@, i as int),
                None => no_match(keybinds@, key, held@),
            },
    {
        let mut i: usize = 0;
        while i < keybinds.len()
            invariant
                i <= keybinds@.len(),
                forall|j: int| 0 <= j < i ==> !binding_matches(#[trigger] keybinds@[j], key, held@),
            decreases keybinds@.len() - i,
        {
            let m = keybinds[i].modifiers;
            let same = keybinds[i].key == key && m == held;
            proof {
                use_type_invariant(&m);
                use_type_invariant(&held);
                if m@ == held@ {
                    law_state_determined_by_modifiers(m, held);
                }
            }
            if same {
                return Some(i);
            }
            i = i + 1;
        }
        None
    }

    /// Translates a key and the modifiers held into the action of the first binding
    /// that fires for them (a clone of it), returning `None` if the combination
    /// doesn't match any binding.
    pub fn translate(key: Key, held: ModifierState, keybinds: &[Keybind<T>]) -> (r: Option<T>)
        ensures
            r is None <==> no_match(keybinds@, key, held@),
            r matches Some(action) ==> exists|i: int|
                is_first_match(keybinds@, key, held@, i) && cloned(
                    #[trigger] keybinds@[i].action,
                    action,
                ),
    {
        match Self::find_keybind(key, held, keybinds) {
            Some(i) => {
                let action = keybinds[i].action.clone();
                assert(is_first_match(keybinds@, key, held@, i as int) && cloned(
                    keybinds@[i as int].action,
                    action,
                ));
                Some(action)
            },
            None => None,
        }
    }

    /// Handles a key event of the device: `key` went down (value 1), up (value 0) or
    /// repeated (value 2). Updates the modifiers held, and answers with the action of
    /// the binding that the event fires, if any.
    pub fn handle_key(&mut self, key: Key, value: i32) -> (r: Option<T>)
        ensures
            final(self).spec_held()@ == next_held(old(self).spec_held()@, key.code, value),
            final(self).spec_keybinds() == old(self).spec_keybinds(),
            final(self).spec_device_info() == old(self).spec_device_info(),
            r is Some <==> fires(old(self).spec_keybinds(), key.code, value, old(self).spec_held()@)
                is Some,
            r matches Some(action) ==> cloned(
                old(self).spec_keybinds()[fires(
                    old(self).spec_keybinds(),
                    key.code,
                    value,
                    old(self).spec_held()@,
                )->0].action,
                action,
            ),
    {
        match key.into_modifier() {
            Some(modifier) => {
                if value == 1 {
                    self.held.insert(ModifierState::from(modifier));
                } else if value == 0 {
                    self.held.remove(ModifierState::from(modifier));
                }
                proof {
                    if value == 1 {
                        assert(self.held@ =~= old(self).held@.insert(modifier));
                    } else if value == 0 {
                        assert(self.held@ =~= old(self).held@.remove(modifier));
                    }
                }
                None
            },
            None => {
                if value != 1 {
                    return None;
                }
                let r = Self::translate(key, self.held, self.keybinds.as_slice());
                proof {
                    let binds = self.keybinds@;
                    let h = self.held@;
                    if r is Some {
                        let i = choose|i: int|
                            is_first_match(binds, key, h, i) && cloned(
                                #[trigger] binds[i].action,
                                r->0,
                            );
                        let j = choose|j: int| is_first_fired(binds, key.code, h, j);
                        assert(is_first_fired(binds, key.code, h, i));
                        law_first_match_unique(binds, key, h, i, j);
                    } else {
                        assert forall|j: int| !is_first_fired(binds, key.code, h, j) by {
                            if 0 <= j < binds.len() {
                                assert(!binding_matches(binds[j], key, h));
                            }
                        }
                    }
                }
                r
            },
        }
    }
}

/// Collects what a listener needs: the device and the key bindings.
#[derive(Debug)]
pub struct ListenerBuilder<T: InputEvent> {
    device_info: Option<DeviceInfo>,
    keybinds: Vec<Keybind<T>>,
}

/// "Listener requires a device"
pub open spec fn missing_device_message() -> Seq<char> {
    seq![
        'L', 'i', 's', 't', 'e', 'n', 'e', 'r', ' ', 'r', 'e', 'q', 'u', 'i', 'r', 'e', 's', ' ',
        'a', ' ', 'd', 'e', 'v', 'i', 'c', 'e',
    ]
}

impl<T: InputEvent> ListenerBuilder<T> {
    pub closed spec fn spec_device_info(&self) -> Option<DeviceInfo> {
        self.device_info
    }

    pub closed spec fn spec_keybinds(&self) -> Seq<Keybind<T>> {
        self.keybinds@
    }

    pub fn new() -> (r: Self)
        ensures
            r.spec_device_info() is None,
            r.spec_keybinds() == Seq::<Keybind<T>>::empty(),
    {
        ListenerBuilder { device_info: None, keybinds: Vec::new() }
    }

    /// Sets the device to listen to, in place of any set before.
    pub fn device(self, device_info: DeviceInfo) -> (r: Self)
        ensures
            r.spec_device_info() == Some(device_info),
            r.spec_keybinds() == self.spec_keybinds(),
    {
        let mut b = self;
        b.device_info = Some(device_info);
        b
    }

    /// Adds a binding after those added before.
    pub fn bind(self, keybind: Keybind<T>) -> (r: Self)
        ensures
            r.spec_device_info() == self.spec_device_info(),
            r.spec_keybinds() == self.spec_keybinds().push(keybind),
    {
        let mut b = self;
        b.keybinds.push(keybind);
        b
    }

    /// Adds bindings, in their order, after those added before.
    pub fn binds(self, keybinds: Vec<Keybind<T>>) -> (r: Self)
        ensures
            r.spec_device_info() == self.spec_device_info(),
            r.spec_keybinds() == self.spec_keybinds() + keybinds@,
    {
        let mut b = self;
        let mut more = keybinds;
        b.keybinds.append(&mut more);
        b
    }

    /// The listener, with no modifier held; a `Config` error where no device was set,
    /// and `NoKeybindsSet` where a device was set but no binding added.
    pub fn build(self) -> (r: Result<Listener<T>, Error>)
        ensures
            self.spec_device_info() is None <==> r matches Err(Error::Config(msg)),
            r matches Err(Error::Config(msg)) ==> msg@ == missing_device_message(),
            self.spec_device_info() is Some && self.spec_keybinds().len() == 0 <==> r matches Err(
                Error::NoKeybindsSet,
            ),
            r is Ok <==> self.spec_device_info() is Some && self.spec_keybinds().len() > 0,
            r matches Ok(listener) ==> {
                &&& Some(listener.spec_device_info()) == self.spec_device_info()
                &&& listener.spec_keybinds() == self.spec_keybinds()
                &&& listener.spec_held()@ == Set::<Modifier>::empty()
            },
    {
        let device_info = match self.device_info {
            Some(info) => info,
            None => {
                let msg = String::from_str("Listener requires a device");
                proof {
                    reveal_strlit("Listener requires a device");
                }
                return Err(Error::Config(msg));
            },
        };
        let keybinds = self.keybinds;
        if keybinds.len() == 0 {
            return Err(Error::NoKeybindsSet);
        }
        Ok(Listener { device_info, keybinds, held: ModifierState::empty() })
    }
}

impl<T: InputEvent> Default for ListenerBuilder<T> {
    fn default() -> (r: Self)
        ensures
            r.spec_device_info() is None,
            r.spec_keybinds() == Seq::<Keybind<T>>::empty(),
    {
        ListenerBuilder::new()
    }
}

} // verus!
