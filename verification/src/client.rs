//! The connect handshake of a client: what it sends first, and what it
//! makes of the answer. The caller owns the transport.

use vstd::prelude::*;
use crate::v5::packets::connect::spec_encode_connect;
use crate::v5::packets::spec_encode_body;
use crate::v5::packets::spec_header_of;
use crate::wire::fixed_header::spec_encode_fixed_header;
use crate::wire::read::VARINT_MAX;
use crate::wire::write::spec_encode_varint;
use crate::wire::write::spec_varint_len;
use crate::v5::packets::MqttPacket;
use crate::v5::packets::MqttPacketView;
use crate::v5::packets::auth::MAuth;
use crate::v5::packets::connack::ConnackView;
use crate::v5::packets::connack::MConnack;
use crate::v5::packets::connect::ConnectView;
use crate::v5::packets::connect::MConnect;
use crate::v5::packets::connect::Will;
use crate::v5::packets::connect::WillView;
use crate::v5::packets::connect::data_view;
use crate::v5::packets::connect::text_view;
use crate::v5::packets::packet_wf;
use crate::v5::packets::spec_encode_packet;
use crate::v5::properties::Properties;
use crate::v5::properties::Property;
use crate::v5::properties::PropertyId;
use crate::v5::properties::PropertyValue;
use crate::v5::properties::PropertyView;
use crate::v5::properties::byte_of;
use crate::v5::properties::spec_first_value;
use crate::v5::properties::string_of;
use crate::v5::properties::two_byte_of;
use crate::v5::qos::MaximumQualityOfService;
use crate::v5::qos::QualityOfService;
use crate::v5::reason_code::ConnackReasonCode;
use crate::wire::read::DecodeError;
use crate::wire::read::MResult;
use crate::wire::strings::MqttBytes;
use crate::wire::strings::MqttString;
use crate::wire::write::MqttWriteError;

verus! {

/// Whether the client asks the server to drop an earlier session.
#[derive(Clone, Copy, Debug, PartialEq, Eq, Structural)]
pub enum CleanStart {
    No,
    Yes,
}

impl CleanStart {
    pub fn as_bool(&self) -> (b: bool)
        ensures
            b == (*self == CleanStart::Yes),
    {
        match self {
            CleanStart::No => false,
            CleanStart::Yes => true,
        }
    }
}

/// How often the client promises to be heard from.
#[derive(Clone, Copy, Debug, PartialEq, Eq, Structural)]
pub enum KeepAlive {
    /// The client makes no promise.
    Disabled,
    /// At least once in this many seconds.
    Seconds(u16),
}

impl KeepAlive {
    /// The keep-alive as it stands in a CONNECT, where zero switches it
    /// off.
    pub fn as_u16(&self) -> (seconds: u16)
        ensures
            seconds == match *self {
                KeepAlive::Disabled => 0u16,
                KeepAlive::Seconds(s) => s,
            },
    {
        match self {
            KeepAlive::Disabled => 0,
            KeepAlive::Seconds(s) => *s,
        }
    }
}

/// The identifier that the client proposes for itself.
#[derive(Debug, Clone, PartialEq, Eq)]
pub enum ProposedClientIdentifier {
    /// None: the server is asked to provide one.
    PotentiallyServerProvided,
    /// One that every server must accept.
    MinimalRequired(MqttString),
    /// One that a server may accept.
    PotentiallyAccepted(MqttString),
}

/// The text of the proposal; empty where the server is asked to provide
/// the identifier.
pub open spec fn proposed_text(proposed: ProposedClientIdentifier) -> Seq<char> {
    match proposed {
        ProposedClientIdentifier::PotentiallyServerProvided => Seq::empty(),
        ProposedClientIdentifier::MinimalRequired(id) => id@,
        ProposedClientIdentifier::PotentiallyAccepted(id) => id@,
    }
}

impl ProposedClientIdentifier {
    /// The identifier as it stands in a CONNECT.
    pub fn to_mqtt_string(&self) -> (r: MqttString)
        ensures
            r@ == proposed_text(*self),
    {
        match self {
            ProposedClientIdentifier::PotentiallyServerProvided => {
                let r = MqttString::empty();
                proof {
                    assert(r@ =~= Seq::<char>::empty());
                }
                r
            },
            ProposedClientIdentifier::MinimalRequired(id) => id.clone(),
            ProposedClientIdentifier::PotentiallyAccepted(id) => id.clone(),
        }
    }
}

/// The will of a client, as plain data.
pub struct MqttWillView {
    pub properties: Seq<PropertyView>,
    pub topic: Seq<char>,
    pub payload: Seq<u8>,
    pub qos: QualityOfService,
    pub retain: bool,
}

/// The message a client leaves behind for the case that it vanishes.
#[derive(Debug, Clone, PartialEq, Eq)]
pub struct MqttWill {
    properties: Properties,
    topic: MqttString,
    payload: MqttBytes,
    qos: QualityOfService,
    retain: bool,
}

impl View for MqttWill {
    type V = MqttWillView;

    closed spec fn view(&self) -> MqttWillView {
        MqttWillView {
            properties: self.properties@,
            topic: self.topic@,
            payload: self.payload@,
            qos: self.qos,
            retain: self.retain,
        }
    }
}

impl MqttWill {
    /// A will without properties.
    pub fn new(topic: MqttString, payload: MqttBytes, qos: QualityOfService, retain: bool) -> (r:
        MqttWill)
        ensures
            r@ == (MqttWillView {
                properties: Seq::empty(),
                topic: topic@,
                payload: payload@,
                qos,
                retain,
            }),
    {
        let r = MqttWill { properties: Properties::new(), topic, payload, qos, retain };
        proof {
            assert(r.properties@ =~= Seq::<PropertyView>::empty());
        }
        r
    }

    /// The same will with the given properties.
    pub fn with_properties(self, properties: Properties) -> (r: MqttWill)
        ensures
            r@ == (MqttWillView { properties: properties@, ..self@ }),
    {
        MqttWill {
            properties,
            topic: self.topic,
            payload: self.payload,
            qos: self.qos,
            retain: self.retain,
        }
    }

    pub fn get_properties_mut(&mut self) -> (r: &mut Properties)
        ensures
            r@ == old(self)@.properties,
            final(self)@ == (MqttWillView { properties: final(r)@, ..old(self)@ }),
    {
        &mut self.properties
    }

    /// The will as it stands in a CONNECT.
    pub fn as_ref(&self) -> (r: Will)
        ensures
            r@ == (WillView {
                properties: self@.properties,
                topic: self@.topic,
                payload: self@.payload,
                will_qos: self@.qos,
                will_retain: self@.retain,
            }),
    {
        let r = Will {
            properties: duplicate_properties(&self.properties),
            topic: self.topic.clone(),
            payload: self.payload.clone(),
            will_qos: self.qos,
            will_retain: self.retain,
        };
        r
    }
}

/// A copy of a property.
pub fn duplicate_property(p: &Property) -> (r: Property)
    ensures
        r@ == p@,
{
    let value = match &p.value {
        PropertyValue::Byte(v) => PropertyValue::Byte(*v),
        PropertyValue::TwoByteInteger(v) => PropertyValue::TwoByteInteger(*v),
        PropertyValue::FourByteInteger(v) => PropertyValue::FourByteInteger(*v),
        PropertyValue::VariableByteInteger(v) => PropertyValue::VariableByteInteger(*v),
        PropertyValue::Utf8String(v) => PropertyValue::Utf8String(v.clone()),
        PropertyValue::BinaryData(v) => PropertyValue::BinaryData(v.clone()),
        PropertyValue::Utf8StringPair(k, v) => PropertyValue::Utf8StringPair(k.clone(), v.clone()),
    };
    Property { id: p.id, value }
}

/// A copy of a block of properties.
pub fn duplicate_properties(properties: &Properties) -> (r: Properties)
    ensures
        r@ == properties@,
{
    let mut entries: Vec<Property> = Vec::new();
    let mut i: usize = 0;
    while i < properties.entries.len()
        invariant
            i <= properties.entries@.len(),
            entries@.len() == i,
            forall|k: int| 0 <= k < i ==> (#[trigger] entries@[k])@ == properties.entries@[k]@,
        decreases properties.entries@.len() - i,
    {
        entries.push(duplicate_property(&properties.entries[i]));
        i = i + 1;
    }
    let r = Properties { entries };
    proof {
        assert(r@ =~= properties@);
    }
    r
}

/// Why connecting failed.
#[derive(Debug, Clone, PartialEq, Eq)]
pub enum MqttClientConnectError {
    /// An error occured while encoding or sending an MQTT Packet.
    Send(MqttWriteError),
    /// An error occured while decoding or receiving an MQTT Packet.
    Receive(DecodeError),
    /// The transport unexpectedly closed.
    TransportUnexpectedlyClosed,
    /// The server sent a response with a protocol error; `reason` names
    /// the rule of the protocol that it broke.
    ServerProtocolError { reason: &'static str },
}

impl MqttClientConnectError {
    /// What the error says, as text.
    pub fn message(&self) -> (text: &'static str)
        ensures
            text@ == match self {
                MqttClientConnectError::Send(_) =>
                    "An error occured while encoding or sending an MQTT Packet"@,
                MqttClientConnectError::Receive(_) =>
                    "An error occured while decoding or receiving an MQTT Packet"@,
                MqttClientConnectError::TransportUnexpectedlyClosed =>
                    "The transport unexpectedly closed"@,
                MqttClientConnectError::ServerProtocolError { .. } =>
                    "The server sent a response with a protocol error"@,
            },
    {
        match self {
            MqttClientConnectError::Send(_) =>
                "An error occured while encoding or sending an MQTT Packet",
            MqttClientConnectError::Receive(_) =>
                "An error occured while decoding or receiving an MQTT Packet",
            MqttClientConnectError::TransportUnexpectedlyClosed =>
                "The transport unexpectedly closed",
            MqttClientConnectError::ServerProtocolError { .. } =>
                "The server sent a response with a protocol error",
        }
    }
}

/// What the server told the client about the connection.
#[derive(Clone, Copy, Debug, PartialEq, Eq, Structural)]
pub struct ConnectClientState {
    pub session_present: bool,
    pub receive_maximum: Option<u16>,
    pub maximum_qos: Option<MaximumQualityOfService>,
    pub retain_available: Option<bool>,
    pub topic_alias_maximum: Option<u16>,
}

/// A client that is connected. `conn` is the connection, which the caller
/// made.
pub struct MqttClient<C> {
    pub connect_client_state: ConnectClientState,
    pub client_identifier: MqttString,
    pub conn: C,
}

/// What the answer of the server leads to.
pub enum ConnectStep {
    /// The server accepted the client.
    Connected { state: ConnectClientState, client_identifier: MqttString },
    /// The server asks for another step of the authentication exchange.
    ContinueAuthentication(MAuth),
    /// The server turned the client away.
    Refused(ConnackReasonCode),
}

/// Everything a client needs to connect. `transport` is the transport,
/// which the caller made and takes back to carry the handshake out.
pub struct MqttClientConnector<T> {
    transport: T,
    client_identifier: ProposedClientIdentifier,
    clean_start: CleanStart,
    keep_alive: KeepAlive,
    properties: Properties,
    username: Option<MqttString>,
    password: Option<MqttBytes>,
    will: Option<MqttWill>,
}

/// What a connector holds, as plain data.
pub struct ConnectorView {
    pub client_identifier: ProposedClientIdentifier,
    pub clean_start: CleanStart,
    pub keep_alive: KeepAlive,
    pub properties: Seq<PropertyView>,
    pub username: Option<Seq<char>>,
    pub password: Option<Seq<u8>>,
    pub will: Option<MqttWillView>,
}

impl<T> View for MqttClientConnector<T> {
    type V = ConnectorView;

    closed spec fn view(&self) -> ConnectorView {
        ConnectorView {
            client_identifier: self.client_identifier,
            clean_start: self.clean_start,
            keep_alive: self.keep_alive,
            properties: self.properties@,
            username: text_view(self.username),
            password: data_view(self.password),
            will: match self.will {
                Some(w) => Some(w@),
                None => None,
            },
        }
    }
}

/// What a CONNACK leads to for a connector.
///
/// A CONNACK that does not report success turns the client away. One that
/// reports a session to a client that asked for a clean start breaks the
/// protocol. The identifier of the client is the one that the server
/// assigned where the client proposed none, and the one that the client
/// proposed where the server assigned none; any other combination breaks
/// the protocol.
pub open spec fn connack_outcome(
    connector: ConnectorView,
    connack: ConnackView,
    r: Result<ConnectStep, MqttClientConnectError>,
) -> bool {
    let assigned = spec_assigned_identifier(connack);
    let server_provided = connector.client_identifier is PotentiallyServerProvided;
    if connack.reason_code != ConnackReasonCode::Success {
        r matches Ok(ConnectStep::Refused(code)) && code == connack.reason_code
    } else if connack.session_present && connector.clean_start == CleanStart::Yes {
        r matches Err(MqttClientConnectError::ServerProtocolError { reason }) && reason@
            == "MQTT-3.2.2-2"@
    } else if (assigned is Some) != server_provided {
        r matches Err(MqttClientConnectError::ServerProtocolError { reason }) && reason@
            == "MQTT-3.2.2.3.7"@
    } else {
        &&& r matches Ok(ConnectStep::Connected { state, client_identifier })
        &&& state == spec_client_state(connack)
        &&& client_identifier@ == if server_provided {
            assigned->0
        } else {
            proposed_text(connector.client_identifier)
        }
    }
}

/// What a CONNACK says about the connection.
pub open spec fn spec_client_state(connack: ConnackView) -> ConnectClientState {
    ConnectClientState {
        session_present: connack.session_present,
        receive_maximum: two_byte_of(
            spec_first_value(connack.properties, PropertyId::ReceiveMaximum, 0),
        ),
        maximum_qos: match byte_of(spec_first_value(connack.properties, PropertyId::MaximumQoS, 0)) {
            Some(b) => MaximumQualityOfService::spec_from_byte(b),
            None => None,
        },
        retain_available: match byte_of(
            spec_first_value(connack.properties, PropertyId::RetainAvailable, 0),
        ) {
            Some(b) => Some(b != 0),
            None => None,
        },
        topic_alias_maximum: two_byte_of(
            spec_first_value(connack.properties, PropertyId::TopicAliasMaximum, 0),
        ),
    }
}

/// The identifier that the server assigned, where the CONNACK holds one.
pub open spec fn spec_assigned_identifier(connack: ConnackView) -> Option<Seq<char>> {
    string_of(spec_first_value(connack.properties, PropertyId::AssignedClientIdentifier, 0))
}

impl<T> MqttClientConnector<T> {
    /// The transport that the connector was made with.
    pub closed spec fn spec_transport(&self) -> T {
        self.transport
    }

    pub fn new(
        transport: T,
        client_identifier: ProposedClientIdentifier,
        clean_start: CleanStart,
        keep_alive: KeepAlive,
    ) -> (r: MqttClientConnector<T>)
        ensures
            r.spec_transport() == transport,
            r@ == (ConnectorView {
                client_identifier,
                clean_start,
                keep_alive,
                properties: Seq::empty(),
                username: None,
                password: None,
                will: None,
            }),
    {
        let r = MqttClientConnector {
            transport,
            client_identifier,
            clean_start,
            keep_alive,
            properties: Properties::new(),
            username: None,
            password: None,
            will: None,
        };
        proof {
            assert(r.properties@ =~= Seq::<PropertyView>::empty());
        }
        r
    }

    pub fn with_username(&mut self, username: MqttString) -> (r: &mut Self)
        ensures
            *final(self) == *final(r),
            r.spec_transport() == old(self).spec_transport(),
            r@ == (ConnectorView { username: Some(username@), ..old(self)@ }),
    {
        self.username = Some(username);
        self
    }

    pub fn with_password(&mut self, password: MqttBytes) -> (r: &mut Self)
        ensures
            *final(self) == *final(r),
            r.spec_transport() == old(self).spec_transport(),
            r@ == (ConnectorView { password: Some(password@), ..old(self)@ }),
    {
        self.password = Some(password);
        self
    }

    pub fn with_will(&mut self, will: MqttWill) -> (r: &mut Self)
        ensures
            *final(self) == *final(r),
            r.spec_transport() == old(self).spec_transport(),
            r@ == (ConnectorView { will: Some(will@), ..old(self)@ }),
    {
        self.will = Some(will);
        self
    }

    pub fn properties_mut(&mut self) -> (r: &mut Properties)
        ensures
            r@ == old(self)@.properties,
            final(self).spec_transport() == old(self).spec_transport(),
            final(self)@ == (ConnectorView { properties: final(r)@, ..old(self)@ }),
    {
        &mut self.properties
    }

    /// Parts the connector from its transport: the caller sends and
    /// receives on the transport, and asks the connector what to send and
    /// what to make of the answer.
    pub fn split(self) -> (r: (T, MqttClientConnector<()>))
        ensures
            r.0 == self.spec_transport(),
            r.1@ == self@,
    {
        (
            self.transport,
            MqttClientConnector {
                transport: (),
                client_identifier: self.client_identifier,
                clean_start: self.clean_start,
                keep_alive: self.keep_alive,
                properties: self.properties,
                username: self.username,
                password: self.password,
                will: self.will,
            },
        )
    }

    /// The transport, for the caller to send and receive on.
    pub fn transport(&self) -> (r: &T)
        ensures
            *r == self.spec_transport(),
    {
        &self.transport
    }

    /// The transport, handed back to the caller.
    pub fn into_transport(self) -> (r: T)
        ensures
            r == self.spec_transport(),
    {
        self.transport
    }

    /// The CONNECT that opens the handshake, as plain data.
    pub open spec fn spec_connect_packet(&self) -> ConnectView {
        ConnectView {
            client_identifier: proposed_text(self@.client_identifier),
            username: self@.username,
            password: self@.password,
            clean_start: self@.clean_start == CleanStart::Yes,
            will: match self@.will {
                Some(w) => Some(
                    WillView {
                        properties: w.properties,
                        topic: w.topic,
                        payload: w.payload,
                        will_qos: w.qos,
                        will_retain: w.retain,
                    },
                ),
                None => None,
            },
            properties: self@.properties,
            keep_alive: match self@.keep_alive {
                KeepAlive::Disabled => 0u16,
                KeepAlive::Seconds(s) => s,
            },
        }
    }

    /// The CONNECT that opens the handshake: it carries what the connector
    /// was given and nothing else.
    pub fn connect_packet(&self) -> (r: MConnect)
        ensures
            r@ == self.spec_connect_packet(),
    {
        MConnect {
            client_identifier: self.client_identifier.to_mqtt_string(),
            username: match &self.username {
                Some(u) => Some(u.clone()),
                None => None,
            },
            password: match &self.password {
                Some(p) => Some(p.clone()),
                None => None,
            },
            clean_start: self.clean_start.as_bool(),
            will: match &self.will {
                Some(w) => Some(w.as_ref()),
                None => None,
            },
            properties: duplicate_properties(&self.properties),
            keep_alive: self.keep_alive.as_u16(),
        }
    }

    /// The bytes of the CONNECT that opens the handshake, or why it cannot
    /// be sent: a connector that holds properties that have no place in a
    /// CONNECT, or in a will, makes no packet. The bytes are one frame: the
    /// byte 0x10, then the number of bytes that follow the length, as a
    /// variable-length integer in its shortest form, then that many bytes.
    pub fn connect_bytes(&self) -> (r: Result<Vec<u8>, MqttClientConnectError>)
        ensures
            ({
                let packet = MqttPacketView::Connect(self.spec_connect_packet());
                match r {
                    Ok(bytes) => packet_wf(packet) && bytes@ == spec_encode_packet(packet),
                    Err(e) => !packet_wf(packet) && e == MqttClientConnectError::Send(
                        MqttWriteError::Invariant,
                    ),
                }
            }),
            r matches Ok(bytes) ==> ({
                let body = spec_encode_connect(self.spec_connect_packet());
                &&& body.len() <= VARINT_MAX
                &&& bytes@ == seq![0x10u8] + spec_encode_varint(body.len() as u32) + body
                &&& bytes@.len() == 1 + spec_varint_len(body.len() as u32) + body.len()
            }),
    {
        match MqttPacket::Connect(self.connect_packet()).to_bytes() {
            Ok(bytes) => {
                proof {
                    let packet = MqttPacketView::Connect(self.spec_connect_packet());
                    let body = spec_encode_connect(self.spec_connect_packet());
                    assert(spec_encode_body(packet) == body);
                    assert(spec_encode_fixed_header(spec_header_of(packet)) =~= seq![0x10u8]
                        + spec_encode_varint(body.len() as u32));
                }
                Ok(bytes)
            },
            Err(e) => Err(MqttClientConnectError::Send(e)),
        }
    }

    /// Whether the client offered authentication data, without which the
    /// server may not answer with an AUTH.
    pub fn can_use_auth(&self) -> (b: bool)
        ensures
            b == (spec_first_value(self@.properties, PropertyId::AuthenticationData, 0) is Some),
    {
        self.properties.get(PropertyId::AuthenticationData).is_some()
    }

    /// Decides what a CONNACK leads to, as `connack_outcome` says.
    pub fn on_connack(&self, connack: &MConnack) -> (r: Result<ConnectStep, MqttClientConnectError>)
        ensures
            connack_outcome(self@, connack@, r),
    {
        match connack.reason_code {
            ConnackReasonCode::Success => {},
            other => {
                return Ok(ConnectStep::Refused(other));
            },
        }
        if connack.session_present && self.clean_start.as_bool() {
            return Err(MqttClientConnectError::ServerProtocolError { reason: "MQTT-3.2.2-2" });
        }
        let state = ConnectClientState {
            session_present: connack.session_present,
            receive_maximum: connack.properties.two_byte(PropertyId::ReceiveMaximum),
            maximum_qos: match connack.properties.byte(PropertyId::MaximumQoS) {
                Some(b) => MaximumQualityOfService::from_byte(b),
                None => None,
            },
            retain_available: match connack.properties.byte(PropertyId::RetainAvailable) {
                Some(b) => Some(b != 0),
                None => None,
            },
            topic_alias_maximum: connack.properties.two_byte(PropertyId::TopicAliasMaximum),
        };
        let assigned: Option<&MqttString> = connack.properties.string(
            PropertyId::AssignedClientIdentifier,
        );
        match (assigned, &self.client_identifier) {
            (Some(id), ProposedClientIdentifier::PotentiallyServerProvided) => Ok(
                ConnectStep::Connected { state, client_identifier: id.clone() },
            ),
            (None, ProposedClientIdentifier::MinimalRequired(id)) => Ok(
                ConnectStep::Connected { state, client_identifier: id.clone() },
            ),
            (None, ProposedClientIdentifier::PotentiallyAccepted(id)) => Ok(
                ConnectStep::Connected { state, client_identifier: id.clone() },
            ),
            _ => Err(MqttClientConnectError::ServerProtocolError { reason: "MQTT-3.2.2.3.7" }),
        }
    }

    /// Decides what the answer to the CONNECT leads to. `response` is what
    /// the transport gave: nothing where it closed, else a packet or the
    /// reason why none could be decoded.
    ///
    /// A CONNACK is decided on as `on_connack` says. An AUTH continues the
    /// authentication exchange where the client offered authentication
    /// data, and breaks the protocol where it did not. Any other packet
    /// breaks the protocol.
    pub fn on_response(&self, response: Option<MResult<MqttPacket>>) -> (r: Result<
        ConnectStep,
        MqttClientConnectError,
    >)
        ensures
            match response {
                None => r matches Err(MqttClientConnectError::TransportUnexpectedlyClosed),
                Some(Err(e)) => r matches Err(MqttClientConnectError::Receive(f)) && f == e,
                Some(Ok(MqttPacket::Connack(c))) => connack_outcome(self@, c@, r),
                Some(Ok(MqttPacket::Auth(a))) => if spec_first_value(
                    self@.properties,
                    PropertyId::AuthenticationData,
                    0,
                ) is Some {
                    r matches Ok(ConnectStep::ContinueAuthentication(b)) && b == a
                } else {
                    r matches Err(MqttClientConnectError::ServerProtocolError { reason }) && reason@
                        == "MQTT-4.12.0-6"@
                },
                Some(Ok(_)) => r matches Err(MqttClientConnectError::ServerProtocolError { reason })
                    && reason@ == "MQTT-3.1.4-5"@,
            },
    {
        match response {
            None => Err(MqttClientConnectError::TransportUnexpectedlyClosed),
            Some(Err(e)) => Err(MqttClientConnectError::Receive(e)),
            Some(Ok(MqttPacket::Connack(connack))) => self.on_connack(&connack),
            Some(Ok(MqttPacket::Auth(auth))) => {
                if self.can_use_auth() {
                    Ok(ConnectStep::ContinueAuthentication(auth))
                } else {
                    Err(MqttClientConnectError::ServerProtocolError { reason: "MQTT-4.12.0-6" })
                }
            },
            Some(Ok(_)) => Err(
                MqttClientConnectError::ServerProtocolError { reason: "MQTT-3.1.4-5" },
            ),
        }
    }
}

} // verus!
