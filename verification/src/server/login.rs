//! Who may log in.

use vstd::prelude::*;
use crate::server::ClientId;
use crate::v3::connect_return::MConnectReturnCode;
use crate::v5::reason_code::ConnackReasonCode;

verus! {

/// Errors that can occur during login.
#[derive(Clone, Copy, Debug, PartialEq, Eq, Structural)]
pub enum LoginError {
    /// The given password did not match.
    InvalidPassword,
}

impl LoginError {
    /// The return code that tells the client why it was turned away.
    pub fn as_rejection_code(&self) -> (code: MConnectReturnCode)
        ensures
            code == MConnectReturnCode::BadUsernamePassword,
    {
        match self {
            LoginError::InvalidPassword => MConnectReturnCode::BadUsernamePassword,
        }
    }

    /// The reason code that tells a client of MQTT 5.0 why it was turned
    /// away.
    pub fn as_reason_code(&self) -> (code: ConnackReasonCode)
        ensures
            code == ConnackReasonCode::NotAuthorized,
    {
        match self {
            LoginError::InvalidPassword => ConnackReasonCode::NotAuthorized,
        }
    }

    /// What the error says, as text.
    pub fn message(&self) -> (text: &'static str)
        ensures
            text@ == "The given password did not match"@,
    {
        match self {
            LoginError::InvalidPassword => "The given password did not match",
        }
    }
}

/// Objects that can handle authentication implement this trait.
pub trait LoginHandler {
    /// Check whether to allow this client to log in.
    fn allow_login(&self, client_id: &ClientId, username: Option<&str>, password: Option<&[u8]>) -> (r:
        Result<(), LoginError>);
}

/// The handler that lets everyone in.
impl LoginHandler for () {
    fn allow_login(&self, client_id: &ClientId, username: Option<&str>, password: Option<&[u8]>) -> (r:
        Result<(), LoginError>)
        ensures
            r is Ok,
    {
        Ok(())
    }
}

} // verus!
