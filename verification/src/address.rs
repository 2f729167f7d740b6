//! How a peer names the address of a socket.

use vstd::prelude::*;

verus! {

/// The address of a socket: picked by the platform, or given as "ip:port".
///
/// `Manual` with "0.0.0.0:0" is the same as `Auto`.
#[derive(Clone)]
pub enum AddressSelection {
    /// Any local address and a port that the platform picks.
    Auto,
    /// The address as written, "ip:port".
    Manual(String),
}

impl AddressSelection {
    /// The text "ip:port" that the selection stands for.
    pub open spec fn address_text(self) -> Seq<char> {
        match self {
            AddressSelection::Auto => "0.0.0.0:0"@,
            AddressSelection::Manual(addr) => addr@,
        }
    }

    /// The text "ip:port" to hand to the socket.
    pub fn socket_address(&self) -> (addr: String)
        ensures
            addr@ == self.address_text(),
    {
        match self {
            AddressSelection::Auto => "0.0.0.0:0".to_owned(),
            AddressSelection::Manual(addr) => addr.clone(),
        }
    }
}

} // verus!
