use vstd::prelude::*;

use crate::wire::{be_value, u32_from_be};

verus! {

/// The kind of a request to the stream server, by its first byte.
#[derive(Clone, Copy, Debug, PartialEq, Eq, Structural)]
pub enum MessageKind {
    /// First byte 0x01.
    Type01,
    /// First byte 0x02.
    Type02,
    /// Any other first byte.
    Unknown(u8),
}

/// The kind of a request whose first byte is `first`.
pub open spec fn kind_of(first: u8) -> MessageKind {
    if first == 0x01 {
        MessageKind::Type01
    } else if first == 0x02 {
        MessageKind::Type02
    } else {
        MessageKind::Unknown(first)
    }
}

/// The kind of a request whose first byte is `first`.
pub fn message_kind(first: u8) -> (r: MessageKind)
    ensures
        r == kind_of(first),
{
    match first {
        0x01 => MessageKind::Type01,
        0x02 => MessageKind::Type02,
        _ => MessageKind::Unknown(first),
    }
}

/// The payload length announced by a framed request: bytes 1 to 4,
/// big-endian.
pub open spec fn announced_len(buffer: Seq<u8>) -> u32 {
    be_value(buffer[1], buffer[2], buffer[3], buffer[4])
}

/// The kind and payload of a framed request of `received` bytes held in
/// `buffer`: present when something was received, the announced length is
/// positive and the payload fits in what was received; the payload is the
/// announced number of bytes after the 5-byte header.
pub open spec fn frame_spec(buffer: Seq<u8>, received: nat) -> Option<(MessageKind, Seq<u8>)> {
    let len = announced_len(buffer);
    if received > 0 && len > 0 && len + 5 <= received {
        Some((kind_of(buffer[0]), buffer.subrange(5, 5 + len)))
    } else {
        None
    }
}

/// Splits a framed request of `received` bytes held in `buffer` into its
/// kind and payload.
pub fn frame_request(buffer: &[u8; 1024], received: usize) -> (r: Option<(MessageKind, Vec<u8>)>)
    requires
        received <= 1024,
    ensures
        match frame_spec(buffer@, received as nat) {
            Some((k, p)) => r matches Some(x) && x.0 == k && x.1@ == p,
            None => r is None,
        },
{
    if received == 0 {
        return None;
    }
    let first_byte = buffer[0];
    let payload_len = u32_from_be(buffer[1], buffer[2], buffer[3], buffer[4]);
    if payload_len > 0 && payload_len as u64 + 5 <= received as u64 {
        let n = payload_len as usize;
        let mut payload: Vec<u8> = Vec::new();
        let mut i: usize = 0;
        while i < n
            invariant
                n + 5 <= received <= 1024,
                i <= n,
                payload@ == buffer@.subrange(5, 5 + i),
            decreases n - i,
        {
            payload.push(buffer[5 + i]);
            assert(buffer@.subrange(5, 5 + i + 1) =~= buffer@.subrange(5, 5 + i).push(buffer@[5 + i]));
            i = i + 1;
        }
        Some((message_kind(first_byte), payload))
    } else {
        None
    }
}

/// Appends the bytes of a received message to the shared store.
pub fn store_message(shared: &mut Vec<u8>, data: &[u8])
    ensures
        final(shared)@ == old(shared)@ + data@,
{
    let n = data.len();
    let mut i: usize = 0;
    while i < n
        invariant
            n == data@.len(),
            i <= n,
            shared@ == old(shared)@ + data@.take(i as int),
        decreases n - i,
    {
        shared.push(data[i]);
        assert(data@.take(i + 1) =~= data@.take(i as int).push(data@[i as int]));
        assert(old(shared)@ + data@.take(i + 1) =~= (old(shared)@ + data@.take(i as int)).push(
            data@[i as int],
        ));
        i = i + 1;
    }
    assert(data@.take(n as int) =~= data@);
}

} // verus!
