//! The two transports DNS exchanges can use. The exchanges themselves are
//! carried out by the caller over the transport chosen here.
use vstd::prelude::*;

verus! {

/// Carries every DNS exchange over TCP.
#[derive(Debug, Clone, Copy)]
pub struct TcpBackend;

/// Carries every DNS exchange over UDP.
#[derive(Debug, Clone, Copy)]
pub struct UdpBackend;

impl TcpBackend {
    /// Whether exchanges go over TCP.
    pub fn uses_tcp(&self) -> (r: bool)
        ensures
            r,
    {
        true
    }
}

impl UdpBackend {
    /// Whether exchanges go over TCP.
    pub fn uses_tcp(&self) -> (r: bool)
        ensures
            !r,
    {
        false
    }
}

} // verus!
