use vstd::prelude::*;

verus! {

/// The network address of a peer, as plain values: an IPv4 address is held
/// in the low 32 bits of `ip` with `v6` false; an IPv6 address uses all 128
/// bits together with its flow label and scope id. Two addresses are equal
/// exactly when all fields are.
#[derive(Clone, Copy, Debug, PartialEq, Eq, Hash, Structural)]
pub struct PeerAddr {
    pub v6: bool,
    pub ip: u128,
    pub port: u16,
    pub flowinfo: u32,
    pub scope_id: u32,
}

/// A datagram that the server sends: its destination and its bytes.
#[derive(Debug)]
pub struct Datagram {
    pub to: PeerAddr,
    pub payload: Vec<u8>,
}

impl View for Datagram {
    type V = (PeerAddr, Seq<u8>);

    open spec fn view(&self) -> (PeerAddr, Seq<u8>) {
        (self.to, self.payload@)
    }
}

/// The destinations and bytes of a list of datagrams, in order.
pub open spec fn sent(out: Seq<Datagram>) -> Seq<(PeerAddr, Seq<u8>)> {
    out.map_values(|d: Datagram| d@)
}

} // verus!
