//! Socket addresses as plain numbers.
use vstd::prelude::*;

verus! {

/// An IP address with a port.
///
/// An IP address is the number that its bytes spell, most significant byte first.
#[derive(Copy, Clone, Debug, PartialEq, Eq, PartialOrd, Ord, Hash, Structural)]
pub enum SocketAddr {
    V4 { ip: u32, port: u16 },
    V6 { ip: u128, port: u16, flowinfo: u32, scope_id: u32 },
}

} // verus!
