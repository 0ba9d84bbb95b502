use vstd::prelude::*;

verus! {

/// Why installing the crash handler failed.
#[derive(Debug, Clone, Copy, PartialEq, Eq, Structural)]
pub enum Error {
    /// Only one handler may be attached to the process at a time.
    HandlerAlreadyRegistered,
    /// Memory for the handler could not be obtained.
    OutOfMemory,
}

impl Error {
    /// A description of the error.
    pub fn message(&self) -> (r: &'static str) {
        match self {
            Error::HandlerAlreadyRegistered => "unable to register crash handler, only one is allowed at a time",
            Error::OutOfMemory => "unable to allocate memory",
        }
    }
}

} // verus!
