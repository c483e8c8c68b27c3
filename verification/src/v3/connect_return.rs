//! The answer of a server to a CONNECT.

use vstd::prelude::*;
use crate::server::router::Accepted;

verus! {

/// The return code of a CONNACK.
#[derive(Clone, Copy, Debug, PartialEq, Eq, Hash, Structural)]
pub enum MConnectReturnCode {
    Accepted,
    ProtocolNotAccepted,
    IdentifierRejected,
    ServerUnavailable,
    BadUsernamePassword,
    NotAuthorized,
}

impl MConnectReturnCode {
    pub open spec fn spec_to_byte(self) -> u8 {
        match self {
            MConnectReturnCode::Accepted => 0,
            MConnectReturnCode::ProtocolNotAccepted => 1,
            MConnectReturnCode::IdentifierRejected => 2,
            MConnectReturnCode::ServerUnavailable => 3,
            MConnectReturnCode::BadUsernamePassword => 4,
            MConnectReturnCode::NotAuthorized => 5,
        }
    }

    pub open spec fn spec_from_byte(byte: u8) -> Option<MConnectReturnCode> {
        if byte == 0 {
            Some(MConnectReturnCode::Accepted)
        } else if byte == 1 {
            Some(MConnectReturnCode::ProtocolNotAccepted)
        } else if byte == 2 {
            Some(MConnectReturnCode::IdentifierRejected)
        } else if byte == 3 {
            Some(MConnectReturnCode::ServerUnavailable)
        } else if byte == 4 {
            Some(MConnectReturnCode::BadUsernamePassword)
        } else if byte == 5 {
            Some(MConnectReturnCode::NotAuthorized)
        } else {
            None
        }
    }

    pub fn to_byte(self) -> (byte: u8)
        ensures
            byte == self.spec_to_byte(),
    {
        match self {
            MConnectReturnCode::Accepted => 0,
            MConnectReturnCode::ProtocolNotAccepted => 1,
            MConnectReturnCode::IdentifierRejected => 2,
            MConnectReturnCode::ServerUnavailable => 3,
            MConnectReturnCode::BadUsernamePassword => 4,
            MConnectReturnCode::NotAuthorized => 5,
        }
    }

    pub fn from_byte(byte: u8) -> (r: Option<MConnectReturnCode>)
        ensures
            r == Self::spec_from_byte(byte),
    {
        if byte == 0 {
            Some(MConnectReturnCode::Accepted)
        } else if byte == 1 {
            Some(MConnectReturnCode::ProtocolNotAccepted)
        } else if byte == 2 {
            Some(MConnectReturnCode::IdentifierRejected)
        } else if byte == 3 {
            Some(MConnectReturnCode::ServerUnavailable)
        } else if byte == 4 {
            Some(MConnectReturnCode::BadUsernamePassword)
        } else if byte == 5 {
            Some(MConnectReturnCode::NotAuthorized)
        } else {
            None
        }
    }
}

/// Every return code survives the trip through its byte, and a byte that
/// names a return code is the byte of that code.
pub proof fn lemma_return_code_roundtrip(code: MConnectReturnCode, byte: u8)
    ensures
        MConnectReturnCode::spec_from_byte(code.spec_to_byte()) == Some(code),
        MConnectReturnCode::spec_from_byte(byte) matches Some(c) ==> c.spec_to_byte() == byte,
{
}

} // verus!
