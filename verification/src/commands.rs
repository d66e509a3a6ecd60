//! The commands of the command-line client and the message each one sends.

use vstd::prelude::*;
use crate::protocol::{ClientAction, ClientReq, action_for};

verus! {

/// The command-line arguments of the client.
pub struct Cli {
    pub command: Commands,
}

/// What the client asks the daemon to do.
#[derive(Debug, Clone, Copy, PartialEq, Eq, Structural)]
pub enum Commands {
    Save,
    Load,
    Replace,
}

impl Commands {
    /// The byte that the client sends for this command.
    pub open spec fn wire_byte(self) -> u8 {
        match self {
            Commands::Save => 0,
            Commands::Load => 1,
            Commands::Replace => 2,
        }
    }

    /// The request of the daemon that this command stands for.
    pub open spec fn request(self) -> ClientReq {
        match self {
            Commands::Save => ClientReq::Save,
            Commands::Load => ClientReq::Load,
            Commands::Replace => ClientReq::Replace,
        }
    }

    /// The message that the client sends for this command: one byte.
    pub fn message(&self) -> (r: Vec<u8>)
        ensures
            r@ == seq![self.wire_byte()],
    {
        match self {
            Commands::Save => vec![0u8],
            Commands::Load => vec![1u8],
            Commands::Replace => vec![2u8],
        }
    }
}

/// What the client sends reaches the daemon as the request it stands for:
/// a buffer that starts with the command's byte, then zeros, read with at
/// least one byte, makes the daemon carry out that request.
pub proof fn law_message_reaches_daemon(cmd: Commands, buffer: Seq<u8>, size: usize)
    requires
        buffer.len() >= 4,
        buffer[0] == cmd.wire_byte(),
        buffer[1] == 0,
        buffer[2] == 0,
        buffer[3] == 0,
        size > 0,
    ensures
        action_for(buffer, size) == ClientAction::Run(cmd.request()),
{
}

/// A buffer whose request code stands for no request is refused.
pub proof fn law_unknown_code_refused(buffer: Seq<u8>, size: usize)
    requires
        buffer.len() >= 4,
        buffer[0] > 2 || buffer[1] != 0 || buffer[2] != 0 || buffer[3] != 0,
        size > 0,
    ensures
        action_for(buffer, size) == ClientAction::Reject,
{
}

} // verus!
