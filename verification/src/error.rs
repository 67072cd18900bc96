use vstd::prelude::*;

verus! {

/// `std::io::Error`, carried through as it comes.
#[verifier::external_type_specification]
#[verifier::external_body]
pub struct ExIoError(std::io::Error);

/// What can go wrong while finding a keyboard or running a listener.
#[derive(Debug)]
pub enum Error {
    Io(std::io::Error),
    Config(String),
    NoKeyboardDevices,
    InvalidDeviceSelection,
    Input(String),
    NoKeybindsSet,
    ListenerKilled,
}

impl From<std::io::Error> for Error {
    /// An I/O error, carried as `Io`.
    fn from(value: std::io::Error) -> (r: Error)
        ensures
            r == Error::Io(value),
    {
        Error::Io(value)
    }
}

impl vstd::std_specs::convert::FromSpecImpl<std::io::Error> for Error {
    open spec fn obeys_from_spec() -> bool {
        true
    }

    open spec fn from_spec(v: std::io::Error) -> Error {
        Error::Io(v)
    }
}

} // verus!
