//! The chat protocol: its message schemas and its command tag spaces.

pub mod login;
pub mod message;
pub mod user;

use vstd::prelude::*;

verus! {

/// A notification tag pushed from the server to a client. An out-of-range
/// byte maps to `Unknown`, which the receiver ignores; it is never a decode
/// failure.
#[derive(Clone, Copy, Debug, PartialEq, Eq, Structural)]
pub enum ClientCommand {
    /// Carries a sequence of chat messages.
    NewMessage,
    Unknown,
}

impl ClientCommand {
    /// The byte that announces this tag on the wire.
    pub open spec fn spec_byte(self) -> u8 {
        match self {
            ClientCommand::NewMessage => 0,
            ClientCommand::Unknown => 0xff,
        }
    }

    /// The tag a received byte means; total, never failing.
    pub open spec fn spec_of_byte(b: u8) -> ClientCommand {
        if b == 0 {
            ClientCommand::NewMessage
        } else {
            ClientCommand::Unknown
        }
    }

    pub fn to_byte(&self) -> (b: u8)
        ensures
            b == self.spec_byte(),
    {
        match self {
            ClientCommand::NewMessage => 0,
            ClientCommand::Unknown => 0xff,
        }
    }

    pub fn from_byte(b: u8) -> (c: ClientCommand)
        ensures
            c == ClientCommand::spec_of_byte(b),
    {
        if b == 0 {
            ClientCommand::NewMessage
        } else {
            ClientCommand::Unknown
        }
    }
}

/// Reading back the byte of any notification tag yields that tag.
pub proof fn lemma_client_command_round_trip(c: ClientCommand)
    ensures
        ClientCommand::spec_of_byte(c.spec_byte()) == c,
{
}

/// A command tag sent from a client to the server. An out-of-range byte maps
/// to `Unknown`, which the server ignores for that exchange.
#[derive(Clone, Copy, Debug, PartialEq, Eq, Structural)]
pub enum ServerCommand {
    /// Input: a login request. Output: the logged-in user.
    Login,
    /// Input: a send-message request. Output: nothing beyond the status.
    SendMessage,
    Unknown,
}

impl ServerCommand {
    pub open spec fn spec_byte(self) -> u8 {
        match self {
            ServerCommand::Login => 0,
            ServerCommand::SendMessage => 1,
            ServerCommand::Unknown => 0xff,
        }
    }

    pub open spec fn spec_of_byte(b: u8) -> ServerCommand {
        if b == 0 {
            ServerCommand::Login
        } else if b == 1 {
            ServerCommand::SendMessage
        } else {
            ServerCommand::Unknown
        }
    }

    pub fn to_byte(&self) -> (b: u8)
        ensures
            b == self.spec_byte(),
    {
        match self {
            ServerCommand::Login => 0,
            ServerCommand::SendMessage => 1,
            ServerCommand::Unknown => 0xff,
        }
    }

    pub fn from_byte(b: u8) -> (c: ServerCommand)
        ensures
            c == ServerCommand::spec_of_byte(b),
    {
        if b == 0 {
            ServerCommand::Login
        } else if b == 1 {
            ServerCommand::SendMessage
        } else {
            ServerCommand::Unknown
        }
    }
}

/// Reading back the byte of any command tag yields that tag.
pub proof fn lemma_server_command_round_trip(c: ServerCommand)
    ensures
        ServerCommand::spec_of_byte(c.spec_byte()) == c,
{
}

/// The status byte that opens every response on a bidirectional exchange.
#[derive(Clone, Copy, Debug, PartialEq, Eq, Structural)]
pub enum ServerResponse {
    Success,
    Error,
}

impl ServerResponse {
    pub open spec fn spec_byte(self) -> u8 {
        match self {
            ServerResponse::Success => 0,
            ServerResponse::Error => 1,
        }
    }

    pub open spec fn spec_of_byte(b: u8) -> Option<ServerResponse> {
        if b == 0 {
            Some(ServerResponse::Success)
        } else if b == 1 {
            Some(ServerResponse::Error)
        } else {
            None
        }
    }

    pub fn to_byte(&self) -> (b: u8)
        ensures
            b == self.spec_byte(),
    {
        match self {
            ServerResponse::Success => 0,
            ServerResponse::Error => 1,
        }
    }

    pub fn from_byte(b: u8) -> (c: Option<ServerResponse>)
        ensures
            c == ServerResponse::spec_of_byte(b),
    {
        if b == 0 {
            Some(ServerResponse::Success)
        } else if b == 1 {
            Some(ServerResponse::Error)
        } else {
            None
        }
    }
}

/// Reading back the byte of any status yields that status.
pub proof fn lemma_server_response_round_trip(c: ServerResponse)
    ensures
        ServerResponse::spec_of_byte(c.spec_byte()) == Some(c),
{
}

} // verus!
