//! An I/O port number; reading and writing it are privileged instructions
//! issued by the caller.
use vstd::prelude::*;

verus! {

/// An I/O port.
#[derive(Clone, Copy, Debug, PartialEq, Eq, Structural)]
pub struct Port {
    pub port: u16,
}

impl Port {
    /// The port numbered `port`.
    pub fn new(port: u16) -> (r: Self)
        ensures
            r.port == port,
    {
        Self { port }
    }
}

} // verus!
