//! The CONNECT packet.

use vstd::prelude::*;
use crate::v5::properties::Properties;
use crate::v5::properties::PropertyContext;
use crate::v5::properties::PropertyView;
use crate::v5::properties::properties_wf;
use crate::v5::properties::spec_encode_properties;
use crate::v5::properties::spec_take_properties;
use crate::v5::qos::QualityOfService;
use crate::wire::read::DecodeError;
use crate::wire::read::MResult;
use crate::wire::read::MalformedReason;
use crate::wire::read::ProtocolReason;
use crate::wire::read::Reader;
use crate::wire::read::spec_take_binary;
use crate::wire::read::spec_take_u16_be;
use crate::wire::read::spec_take_u8;
use crate::wire::roundtrip::lemma_mqtt_name;
use crate::wire::strings::MqttBytes;
use crate::wire::strings::MqttString;
use crate::wire::strings::is_mqtt_string;
use crate::wire::strings::mqtt_name;
use crate::wire::strings::spec_encode_optional_binary;
use crate::wire::strings::spec_encode_optional_string;
use crate::wire::strings::spec_encode_string;
use crate::wire::strings::spec_take_optional_binary;
use crate::wire::strings::spec_take_optional_string;
use crate::wire::strings::spec_take_string;
use crate::wire::write::MqttWriteError;
use crate::wire::write::WResult;
use crate::wire::write::WriteMqttPacket;
use crate::wire::write::bit;
use crate::wire::write::spec_encode_binary;
use crate::wire::write::spec_encode_u16;
use crate::wire::write::write_outcome;

verus! {

/// A will, as plain data.
pub struct WillView {
    pub properties: Seq<PropertyView>,
    pub topic: Seq<char>,
    pub payload: Seq<u8>,
    pub will_qos: QualityOfService,
    pub will_retain: bool,
}

/// The message that the server publishes when the client goes away without
/// a DISCONNECT.
#[derive(Debug, Clone, PartialEq, Eq)]
pub struct Will {
    pub properties: Properties,
    pub topic: MqttString,
    pub payload: MqttBytes,
    pub will_qos: QualityOfService,
    pub will_retain: bool,
}

impl View for Will {
    type V = WillView;

    open spec fn view(&self) -> WillView {
        WillView {
            properties: self.properties@,
            topic: self.topic@,
            payload: self.payload@,
            will_qos: self.will_qos,
            will_retain: self.will_retain,
        }
    }
}

/// A CONNECT, as plain data.
pub struct ConnectView {
    pub client_identifier: Seq<char>,
    pub username: Option<Seq<char>>,
    pub password: Option<Seq<u8>>,
    pub clean_start: bool,
    pub will: Option<WillView>,
    pub properties: Seq<PropertyView>,
    pub keep_alive: u16,
}

/// The first packet of a client: who it is and how it wants to be served.
#[derive(Debug, Clone, PartialEq, Eq)]
pub struct MConnect {
    pub client_identifier: MqttString,
    pub username: Option<MqttString>,
    pub password: Option<MqttBytes>,
    pub clean_start: bool,
    pub will: Option<Will>,
    pub properties: Properties,
    pub keep_alive: u16,
}

/// The view of an optional will.
pub open spec fn will_view(will: Option<Will>) -> Option<WillView> {
    match will {
        Some(w) => Some(w@),
        None => None,
    }
}

/// The view of an optional string.
pub open spec fn text_view(text: Option<MqttString>) -> Option<Seq<char>> {
    match text {
        Some(t) => Some(t@),
        None => None,
    }
}

/// The view of optional data.
pub open spec fn data_view(data: Option<MqttBytes>) -> Option<Seq<u8>> {
    match data {
        Some(d) => Some(d@),
        None => None,
    }
}

impl View for MConnect {
    type V = ConnectView;

    open spec fn view(&self) -> ConnectView {
        ConnectView {
            client_identifier: self.client_identifier@,
            username: text_view(self.username),
            password: data_view(self.password),
            clean_start: self.clean_start,
            will: will_view(self.will),
            properties: self.properties@,
            keep_alive: self.keep_alive,
        }
    }
}

/// The connect flags: user name, password, will retain, will quality of
/// service, will, clean start, and a reserved bit that stays zero.
#[verifier::opaque]
pub open spec fn spec_connect_flags(p: ConnectView) -> u8 {
    (bit(p.username is Some) * 128 + bit(p.password is Some) * 64 + (match p.will {
        Some(w) => bit(w.will_retain) * 32 + w.will_qos.spec_to_byte() * 8 + 4,
        None => 0,
    }) + bit(p.clean_start) * 2) as u8
}

/// Whether connect flags give will details without a will.
pub open spec fn will_flags_inconsistent(flags: u8) -> bool {
    (flags / 4) % 2 == 0 && ((flags / 8) % 4 != 0 || (flags / 32) % 2 == 1)
}

pub open spec fn spec_encode_will(will: Option<WillView>) -> Seq<u8> {
    match will {
        Some(w) => spec_encode_properties(w.properties) + spec_encode_string(w.topic)
            + spec_encode_binary(w.payload),
        None => Seq::empty(),
    }
}

/// What a CONNECT holds up to its client identifier.
pub open spec fn spec_encode_connect_head(p: ConnectView) -> Seq<u8> {
    spec_encode_string(mqtt_name()) + seq![5u8, spec_connect_flags(p)] + spec_encode_u16(
        p.keep_alive,
    ) + spec_encode_properties(p.properties) + spec_encode_string(p.client_identifier)
}

/// The body of a CONNECT: protocol name and level, connect flags,
/// keep-alive, properties, client identifier, and the will, user name and
/// password as far as there are any.
pub open spec fn spec_encode_connect(p: ConnectView) -> Seq<u8> {
    spec_encode_connect_head(p) + spec_encode_will(p.will) + spec_encode_optional_string(
        p.username,
    ) + spec_encode_optional_binary(p.password)
}

/// A will is well-formed when its properties are well-formed for a will,
/// its topic is an MQTT string and its payload is short enough.
pub open spec fn will_wf(will: Option<WillView>) -> bool {
    will matches Some(w) ==> properties_wf(w.properties, PropertyContext::Will) && is_mqtt_string(
        w.topic,
    ) && w.payload.len() <= 65535
}

/// A CONNECT is well-formed when its properties and its will are
/// well-formed, its texts are MQTT strings and its password is short
/// enough.
pub open spec fn connect_wf(p: ConnectView) -> bool {
    &&& properties_wf(p.properties, PropertyContext::Connect)
    &&& is_mqtt_string(p.client_identifier)
    &&& will_wf(p.will)
    &&& (p.username matches Some(u) ==> is_mqtt_string(u))
    &&& (p.password matches Some(b) ==> b.len() <= 65535)
}

/// The will properties, topic and payload, where the connect flags
/// announce a will.
pub open spec fn spec_take_will(flags: u8, s: Seq<u8>) -> Result<
    (Option<WillView>, Seq<u8>),
    DecodeError,
> {
    if (flags / 4) % 2 == 1 {
        match spec_take_properties(s, PropertyContext::Will) {
            Err(e) => Err(e),
            Ok((properties, r0)) => match spec_take_string(r0) {
                Err(e) => Err(e),
                Ok((topic, r1)) => match spec_take_binary(r1) {
                    Err(e) => Err(e),
                    Ok((payload, r2)) => match QualityOfService::spec_from_byte((flags / 8) % 4) {
                        None => Err(DecodeError::MalformedPacket(MalformedReason::InvalidValue)),
                        Some(will_qos) => Ok(
                            (
                                Some(
                                    WillView {
                                        properties,
                                        topic,
                                        payload,
                                        will_qos,
                                        will_retain: (flags / 32) % 2 == 1,
                                    },
                                ),
                                r2,
                            ),
                        ),
                    },
                },
            },
        }
    } else {
        Ok((None, s))
    }
}

/// What follows the properties in a CONNECT: the client identifier, the
/// will, the user name and the password, as far as the flags announce
/// them.
#[verifier::opaque]
pub open spec fn spec_parse_connect_payload(
    flags: u8,
    keep_alive: u16,
    properties: Seq<PropertyView>,
    s: Seq<u8>,
) -> Result<ConnectView, DecodeError> {
    match spec_take_string(s) {
        Err(e) => Err(e),
        Ok((client_identifier, r1)) => match spec_take_will(flags, r1) {
            Err(e) => Err(e),
            Ok((will, r2)) => match spec_take_optional_string(flags / 128 == 1, r2) {
                Err(e) => Err(e),
                Ok((username, r3)) => match spec_take_optional_binary((flags / 64) % 2 == 1, r3) {
                    Err(e) => Err(e),
                    Ok((password, r4)) => if r4.len() > 0 {
                        Err(DecodeError::MalformedPacket(MalformedReason::TrailingBytes))
                    } else {
                        Ok(
                            ConnectView {
                                client_identifier,
                                username,
                                password,
                                clean_start: (flags / 2) % 2 == 1,
                                will,
                                properties,
                                keep_alive,
                            },
                        )
                    },
                },
            },
        }
    }
}

/// What the body of a CONNECT decodes to.
#[verifier::opaque]
pub open spec fn spec_parse_connect(body: Seq<u8>) -> Result<ConnectView, DecodeError> {
    match spec_take_string(body) {
        Err(e) => Err(e),
        Ok((name, r1)) => match spec_take_u8(r1) {
            Err(e) => Err(e),
            Ok((level, r2)) => match spec_take_u8(r2) {
                Err(e) => Err(e),
                Ok((flags, r3)) => match spec_take_u16_be(r3) {
                    Err(e) => Err(e),
                    Ok((keep_alive, r4)) => if name != mqtt_name() || level != 5 {
                        Err(DecodeError::MalformedPacket(MalformedReason::UnsupportedProtocol))
                    } else if flags % 2 != 0 {
                        Err(DecodeError::MalformedPacket(MalformedReason::ReservedBitsSet))
                    } else if (flags / 8) % 4 == 3 {
                        Err(DecodeError::MalformedPacket(MalformedReason::InvalidValue))
                    } else if will_flags_inconsistent(flags) {
                        Err(DecodeError::ProtocolError(ProtocolReason::InconsistentConnectFlags))
                    } else {
                        match spec_take_properties(r4, PropertyContext::Connect) {
                            Err(e) => Err(e),
                            Ok((properties, r5)) => spec_parse_connect_payload(
                                flags,
                                keep_alive,
                                properties,
                                r5,
                            ),
                        }
                    },
                },
            },
        },
    }
}

fn flag(b: bool) -> (r: u8)
    ensures
        r == bit(b),
{
    if b {
        1
    } else {
        0
    }
}

fn parse_will(flags: u8, input: &mut Reader<'_>) -> (r: MResult<Option<Will>>)
    requires
        (flags / 8) % 4 != 3,
    ensures
        match spec_take_will(flags, old(input)@) {
            Ok((v, rest)) => r is Ok && will_view(r->Ok_0) == v && final(input)@ == rest,
            Err(e) => r == Err::<Option<Will>, DecodeError>(e),
        },
{
    if (flags / 4) % 2 == 1 {
        let properties = Properties::parse(input, PropertyContext::Will)?;
        let topic = MqttString::parse(input)?;
        let payload = MqttBytes::parse(input)?;
        match QualityOfService::from_byte((flags / 8) % 4) {
            None => Err(DecodeError::MalformedPacket(MalformedReason::InvalidValue)),
            Some(will_qos) => Ok(
                Some(Will { properties, topic, payload, will_qos, will_retain: (flags / 32) % 2 == 1 }),
            ),
        }
    } else {
        Ok(None)
    }
}

fn parse_payload(flags: u8, keep_alive: u16, properties: Properties, input: &mut Reader<'_>) -> (r:
    MResult<MConnect>)
    requires
        (flags / 8) % 4 != 3,
    ensures
        match spec_parse_connect_payload(flags, keep_alive, properties@, old(input)@) {
            Ok(v) => r is Ok && r->Ok_0@ == v && final(input)@.len() == 0,
            Err(e) => r == Err::<MConnect, DecodeError>(e),
        },
{
    proof {
        reveal(spec_parse_connect_payload);
    }
    let client_identifier = MqttString::parse(input)?;
    let will = parse_will(flags, input)?;
    let username = if flags / 128 == 1 {
        Some(MqttString::parse(input)?)
    } else {
        None
    };
    let password = if (flags / 64) % 2 == 1 {
        Some(MqttBytes::parse(input)?)
    } else {
        None
    };
    if !input.is_empty() {
        return Err(DecodeError::MalformedPacket(MalformedReason::TrailingBytes));
    }
    Ok(
        MConnect {
            client_identifier,
            username,
            password,
            clean_start: (flags / 2) % 2 == 1,
            will,
            properties,
            keep_alive,
        },
    )
}

impl MConnect {
    /// Decodes the body of a CONNECT. All of the input is used.
    pub fn parse(input: &mut Reader<'_>) -> (r: MResult<MConnect>)
        ensures
            match spec_parse_connect(old(input)@) {
                Ok(v) => r is Ok && r->Ok_0@ == v && final(input)@.len() == 0,
                Err(e) => r == Err::<MConnect, DecodeError>(e) && final(input)@ == old(input)@,
            },
    {
        proof {
            reveal(spec_parse_connect);
            reveal_strlit("MQTT");
            assert("MQTT"@ =~= mqtt_name());
        }
        let mut cur = *input;
        let protocol_name = MqttString::parse(&mut cur)?;
        let protocol_level: u8 = cur.take_u8()?;
        let flags: u8 = cur.take_u8()?;
        let keep_alive: u16 = cur.take_u16_be()?;
        if !protocol_name.equals_str("MQTT") || protocol_level != 5 {
            return Err(DecodeError::MalformedPacket(MalformedReason::UnsupportedProtocol));
        }
        if flags % 2 != 0 {
            return Err(DecodeError::MalformedPacket(MalformedReason::ReservedBitsSet));
        }
        if (flags / 8) % 4 == 3 {
            return Err(DecodeError::MalformedPacket(MalformedReason::InvalidValue));
        }
        if (flags / 4) % 2 == 0 && ((flags / 8) % 4 != 0 || (flags / 32) % 2 == 1) {
            return Err(DecodeError::ProtocolError(ProtocolReason::InconsistentConnectFlags));
        }
        let properties = Properties::parse(&mut cur, PropertyContext::Connect)?;
        let packet = parse_payload(flags, keep_alive, properties, &mut cur)?;
        *input = cur;
        Ok(packet)
    }

    /// The connect flags of this packet.
    pub fn connect_flags(&self) -> (r: u8)
        ensures
            r == spec_connect_flags(self@),
    {
        proof {
            reveal(spec_connect_flags);
        }
        let will: u8 = match &self.will {
            Some(w) => flag(w.will_retain) * 32 + w.will_qos.to_byte() * 8 + 4,
            None => 0,
        };
        flag(self.username.is_some()) * 128 + flag(self.password.is_some()) * 64 + will + flag(
            self.clean_start,
        ) * 2
    }

    /// Whether the packet is well-formed.
    pub fn is_valid(&self) -> (b: bool)
        ensures
            b == connect_wf(self@),
    {
        let _ = self.client_identifier.as_str();
        match &self.username {
            Some(u) => {
                let _ = u.as_str();
            },
            None => {},
        }
        match &self.password {
            Some(d) => {
                let _ = d.as_slice();
            },
            None => {},
        }
        let will_ok = match &self.will {
            Some(w) => {
                let _ = w.topic.as_str();
                let _ = w.payload.as_slice();
                w.properties.is_valid(PropertyContext::Will) && w.properties.entries_size().is_some()
            },
            None => true,
        };
        will_ok && self.properties.is_valid(PropertyContext::Connect)
            && self.properties.entries_size().is_some()
    }

    fn write_head<W: WriteMqttPacket>(&self, buffer: &mut W) -> (r: WResult<W>)
        requires
            connect_wf(self@),
        ensures
            write_outcome(
                old(buffer).state(),
                final(buffer).state(),
                spec_encode_connect_head(self@),
                r is Ok,
            ),
    {
        proof {
            reveal_strlit("MQTT");
            assert("MQTT"@ =~= mqtt_name());
            lemma_mqtt_name();
            vstd::utf8::is_ascii_chars_encode_utf8(mqtt_name());
            assert(vstd::utf8::is_ascii_chars(mqtt_name())) by {
                assert forall|i: int| 0 <= i < mqtt_name().len() implies 0 <= (
                #[trigger] mqtt_name()[i] as nat) < 128 by {}
            }
        }
        let ghost before = buffer.state().written;
        let name = "MQTT".as_bytes();
        proof {
            assert(name@ == vstd::utf8::encode_utf8(mqtt_name()));
        }
        buffer.write_binary(name)?;
        buffer.write_byte(5)?;
        buffer.write_byte(self.connect_flags())?;
        buffer.write_u16(self.keep_alive)?;
        self.properties.write(buffer)?;
        let r = self.client_identifier.write(buffer);
        proof {
            if r is Ok {
                assert(buffer.state().written =~= before + spec_encode_connect_head(self@));
            }
        }
        r
    }

    fn write_will<W: WriteMqttPacket>(&self, buffer: &mut W) -> (r: WResult<W>)
        requires
            connect_wf(self@),
        ensures
            write_outcome(
                old(buffer).state(),
                final(buffer).state(),
                spec_encode_will(self@.will),
                r is Ok,
            ),
    {
        let ghost before = buffer.state().written;
        match &self.will {
            Some(w) => {
                w.properties.write(buffer)?;
                w.topic.write(buffer)?;
                let r = w.payload.write(buffer);
                proof {
                    if r is Ok {
                        assert(buffer.state().written =~= before + spec_encode_will(self@.will));
                    }
                }
                r
            },
            None => {
                proof {
                    assert(before + Seq::<u8>::empty() =~= before);
                }
                Ok(())
            },
        }
    }

    fn write_credentials<W: WriteMqttPacket>(&self, buffer: &mut W) -> (r: WResult<W>)
        ensures
            write_outcome(
                old(buffer).state(),
                final(buffer).state(),
                spec_encode_optional_string(self@.username) + spec_encode_optional_binary(
                    self@.password,
                ),
                r is Ok,
            ),
    {
        let ghost before = buffer.state().written;
        match &self.username {
            Some(u) => {
                u.write(buffer)?;
            },
            None => {},
        }
        proof {
            assert(buffer.state().written =~= before + spec_encode_optional_string(self@.username));
        }
        match &self.password {
            Some(d) => {
                let r = d.write(buffer);
                proof {
                    if r is Ok {
                        assert(buffer.state().written =~= before + (spec_encode_optional_string(
                            self@.username,
                        ) + spec_encode_optional_binary(self@.password)));
                    }
                }
                r
            },
            None => {
                proof {
                    assert(buffer.state().written =~= before + (spec_encode_optional_string(
                        self@.username,
                    ) + spec_encode_optional_binary(self@.password)));
                }
                Ok(())
            },
        }
    }

    /// Writes the body. A packet that is not well-formed is refused before
    /// anything is written.
    pub fn write<W: WriteMqttPacket>(&self, buffer: &mut W) -> (r: WResult<W>)
        ensures
            !connect_wf(self@) ==> r is Err && *final(buffer) == *old(buffer),
            connect_wf(self@) ==> write_outcome(
                old(buffer).state(),
                final(buffer).state(),
                spec_encode_connect(self@),
                r is Ok,
            ),
    {
        if !self.is_valid() {
            return Err(W::Error::from(MqttWriteError::Invariant));
        }
        let ghost before = buffer.state().written;
        self.write_head(buffer)?;
        self.write_will(buffer)?;
        let r = self.write_credentials(buffer);
        proof {
            if r is Ok {
                assert(buffer.state().written =~= before + spec_encode_connect(self@));
            }
        }
        r
    }
}

} // verus!
