//! The requests that the command-line client sends the daemon, and what the
//! daemon does with the bytes it reads.

use vstd::prelude::*;

verus! {

/// A request of the client.
#[derive(Debug, Clone, Copy, PartialEq, Eq, Structural)]
pub enum ClientReq {
    Save,
    Load,
    Replace,
}

/// The request that the code `value` stands for: 0 saves, 1 loads, 2 replaces.
pub open spec fn request_for(value: u32) -> Option<ClientReq> {
    if value == 0 {
        Some(ClientReq::Save)
    } else if value == 1 {
        Some(ClientReq::Load)
    } else if value == 2 {
        Some(ClientReq::Replace)
    } else {
        None
    }
}

impl ClientReq {
    /// The request that the code `value` stands for, if any.
    pub fn from_u32(value: u32) -> (r: Option<ClientReq>)
        ensures
            r == request_for(value),
    {
        match value {
            0 => Some(ClientReq::Save),
            1 => Some(ClientReq::Load),
            2 => Some(ClientReq::Replace),
            _ => None,
        }
    }
}

/// The little-endian value of the first four bytes of `b`.
pub open spec fn le_u32(b: Seq<u8>) -> int {
    b[0] + 256 * b[1] + 65536 * b[2] + 16777216 * b[3]
}

/// The request code at the start of `buffer`: its first four bytes, little-endian.
pub fn request_code(buffer: &[u8]) -> (r: u32)
    requires
        buffer@.len() >= 4,
    ensures
        r == le_u32(buffer@),
{
    buffer[0] as u32 + 256 * (buffer[1] as u32) + 65536 * (buffer[2] as u32) + 16777216 * (
    buffer[3] as u32)
}

/// What the daemon does after a read from a client.
#[derive(Debug, Clone, Copy, PartialEq, Eq, Structural)]
pub enum ClientAction {
    /// The client has closed the connection.
    Stop,
    /// Carry out the request.
    Run(ClientReq),
    /// The request code is unknown: the connection ends with an error.
    Reject,
}

/// What the daemon does after reading `size` bytes into `buffer`: nothing
/// read means the client is gone; otherwise the code in the first four bytes
/// of the buffer decides.
pub open spec fn action_for(buffer: Seq<u8>, size: usize) -> ClientAction {
    if size == 0 {
        ClientAction::Stop
    } else {
        match request_for(le_u32(buffer) as u32) {
            Some(req) => ClientAction::Run(req),
            None => ClientAction::Reject,
        }
    }
}

/// What the daemon does after reading `size` bytes into `buffer`.
pub fn next_action(buffer: &[u8], size: usize) -> (r: ClientAction)
    requires
        buffer@.len() >= 4,
    ensures
        r == action_for(buffer@, size),
{
    if size == 0 {
        ClientAction::Stop
    } else {
        match ClientReq::from_u32(request_code(buffer)) {
            Some(req) => ClientAction::Run(req),
            None => ClientAction::Reject,
        }
    }
}

} // verus!
