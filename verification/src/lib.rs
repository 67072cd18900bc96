//! Keyboard shortcut listening: key bindings, modifier tracking and the
//! decisions of the listener loop, with their contracts proved by Verus.

pub mod device;
pub mod error;
pub mod keys;
pub mod listener;
pub mod modifiers;

pub use device::{DeviceInfo, SelectKeyboard};
pub use error::Error;
pub use keys::{Key, Keybind, Keybinds};
pub use listener::{Listener, ListenerBuilder};
pub use modifiers::{Modifier, ModifierState};

use vstd::prelude::*;

verus! {

/// The actions that a program takes on key bindings; usually an enum.
pub trait InputEvent: Send + 'static + Clone + PartialEq + core::fmt::Debug {

}

} // verus!
