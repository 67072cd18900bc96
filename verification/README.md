# keyboard_listener

Listens to a keyboard through evdev and turns key combinations into actions of
the program's own `InputEvent` type.

- `src/` is the library, verified with Verus:
  - `modifiers.rs`: `Modifier` and `ModifierState`, a set of modifiers held as
    flag bits, with its conversions to and from lists and its text.
  - `keys.rs`: `Key` (an input event code), the modifier keys, key names as
    evdev and key binding files write them, `Keybind` and `Keybinds`.
  - `device.rs`: `DeviceInfo`, the keyboard heuristic, the filtering of the
    devices found, and the decisions of choosing a keyboard.
  - `listener.rs`: `ListenerBuilder`, `Listener` and its key event handling:
    modifier tracking and the lookup of the first binding that fires.
- `app/` holds what talks to the system: enumerating and opening devices,
  prompting on stdin, the event thread, serde forms and `Display` impls.
- `tests/` runs the library on concrete values.
