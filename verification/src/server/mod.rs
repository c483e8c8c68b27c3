//! The dispatch core of the broker.
//!
//! The broker keeps, for every client, whether a session exists and what the
//! client subscribed to. The session table answers the first question, the
//! subscription manager the second. What a connection does on each packet
//! is decided here and carried out by the caller, which owns the transport.

pub mod login;
pub mod message;
pub mod router;
pub mod session;
pub mod subscription_laws;
pub mod subscriptions;

use vstd::prelude::*;
use crate::v5::packets::disconnect::DisconnectView;
use crate::v5::packets::disconnect::MDisconnect;
use crate::v5::properties::Properties;
use crate::v5::properties::PropertyView;
use crate::v5::reason_code::DisconnectReasonCode;
use crate::wire::read::DecodeError;
use crate::wire::read::MalformedReason;
use crate::wire::strings::MqttString;
use crate::wire::write::MqttWriteError;

verus! {

/// The identifier a client connects under.
#[derive(Debug, Clone, PartialEq, Eq, Hash)]
pub struct ClientId(pub String);

impl View for ClientId {
    type V = Seq<char>;

    open spec fn view(&self) -> Seq<char> {
        self.0@
    }
}

/// What can end the service of a client.
#[derive(Clone, Copy, Debug, PartialEq, Eq, Structural)]
pub enum ClientError {
    /// An error occured during the handling of a packet.
    Packet(DecodeError),
    /// The transport was closed.
    TransportClosed,
    /// The client sent nothing for one and a half keep-alive periods.
    KeepAliveTimeout,
    /// The client was not allowed to log in.
    AuthenticationFailed,
    /// Another connection took the session over.
    SessionTakenOver,
    /// The client identifier is in use.
    DuplicateClientId,
    /// The queue of the client is full.
    QuotaExceeded,
}

/// The reason code that tells a client of MQTT 5.0 why decoding its bytes
/// failed. Input that is merely incomplete is no failure.
pub open spec fn spec_decode_reason(e: DecodeError) -> Option<DisconnectReasonCode> {
    match e {
        DecodeError::Incomplete => None,
        DecodeError::ProtocolError(_) => Some(DisconnectReasonCode::ProtocolError),
        DecodeError::PacketTooLarge => Some(DisconnectReasonCode::PacketTooLarge),
        _ => Some(DisconnectReasonCode::MalformedPacket),
    }
}

/// The reason code that tells a client of MQTT 5.0 why its service ends. A
/// closed transport has nobody left to tell.
pub open spec fn spec_disconnect_reason(e: ClientError) -> Option<DisconnectReasonCode> {
    match e {
        ClientError::Packet(d) => spec_decode_reason(d),
        ClientError::TransportClosed => None,
        ClientError::KeepAliveTimeout => Some(DisconnectReasonCode::KeepAliveTimeout),
        ClientError::AuthenticationFailed => Some(DisconnectReasonCode::NotAuthorized),
        ClientError::SessionTakenOver => Some(DisconnectReasonCode::SessionTakenOver),
        ClientError::DuplicateClientId => Some(DisconnectReasonCode::UnspecifiedError),
        ClientError::QuotaExceeded => Some(DisconnectReasonCode::QuotaExceeded),
    }
}

impl ClientError {
    /// The reason code that tells a client of MQTT 5.0 why its service
    /// ends.
    pub fn disconnect_reason(&self) -> (r: Option<DisconnectReasonCode>)
        ensures
            r == spec_disconnect_reason(*self),
    {
        match self {
            ClientError::Packet(DecodeError::Incomplete) => None,
            ClientError::Packet(DecodeError::ProtocolError(_)) => Some(
                DisconnectReasonCode::ProtocolError,
            ),
            ClientError::Packet(DecodeError::PacketTooLarge) => Some(
                DisconnectReasonCode::PacketTooLarge,
            ),
            ClientError::Packet(_) => Some(DisconnectReasonCode::MalformedPacket),
            ClientError::TransportClosed => None,
            ClientError::KeepAliveTimeout => Some(DisconnectReasonCode::KeepAliveTimeout),
            ClientError::AuthenticationFailed => Some(DisconnectReasonCode::NotAuthorized),
            ClientError::SessionTakenOver => Some(DisconnectReasonCode::SessionTakenOver),
            ClientError::DuplicateClientId => Some(DisconnectReasonCode::UnspecifiedError),
            ClientError::QuotaExceeded => Some(DisconnectReasonCode::QuotaExceeded),
        }
    }

    /// The DISCONNECT that tells a client of MQTT 5.0 why its service
    /// ends, where there is something to tell.
    pub fn disconnect_notice(&self) -> (r: Option<MDisconnect>)
        ensures
            match spec_disconnect_reason(*self) {
                Some(reason) => r is Some && r->0@ == (DisconnectView {
                    reason_code: reason,
                    properties: Seq::empty(),
                }),
                None => r is None,
            },
    {
        match self.disconnect_reason() {
            Some(reason_code) => {
                let properties = Properties::new();
                proof {
                    assert(properties@ =~= Seq::<PropertyView>::empty());
                }
                Some(MDisconnect { reason_code, properties })
            },
            None => None,
        }
    }

    /// What a failed write to the queue of a client means for that
    /// client: a full queue exceeds its quota.
    pub fn from_write_error(e: MqttWriteError) -> (r: ClientError)
        ensures
            r == match e {
                MqttWriteError::BufferFull => ClientError::QuotaExceeded,
                MqttWriteError::Invariant => ClientError::Packet(
                    DecodeError::MalformedPacket(MalformedReason::InvalidValue),
                ),
            },
    {
        match e {
            MqttWriteError::BufferFull => ClientError::QuotaExceeded,
            MqttWriteError::Invariant => ClientError::Packet(
                DecodeError::MalformedPacket(MalformedReason::InvalidValue),
            ),
        }
    }
}

impl ClientId {
    /// The identifier that a CONNECT carries. Every MQTT string is one.
    pub fn try_from(ms: &MqttString) -> (r: Result<ClientId, ClientError>)
        ensures
            r is Ok,
            r->Ok_0@ == ms@,
    {
        Ok(ClientId(ms.as_str().to_owned()))
    }

    pub fn new(id: String) -> (r: Self)
        ensures
            r@ == id@,
    {
        ClientId(id)
    }

    pub fn as_str(&self) -> (s: &str)
        ensures
            s@ == self@,
    {
        self.0.as_str()
    }

    /// Whether two identifiers are the same text.
    pub fn equals(&self, other: &ClientId) -> (b: bool)
        ensures
            b == (self@ == other@),
    {
        self.0 == other.0
    }

    /// A copy of this identifier.
    pub fn duplicate(&self) -> (r: ClientId)
        ensures
            r@ == self@,
    {
        ClientId(self.0.clone())
    }
}

} // verus!
