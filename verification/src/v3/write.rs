//! Encoding the control packets of MQTT 3.1.1.

use vstd::prelude::*;
use crate::v3::packet::MConnack;
use crate::v3::packet::MConnect;
use crate::v3::packet::MPacket;
use crate::v3::packet::MPublish;
use crate::v3::packet::MSuback;
use crate::v3::packet::MSubscribe;
use crate::v3::packet::MUnsubscribe;
use crate::v3::packet::PacketView;
use crate::v3::packet::connect_wf;
use crate::v3::packet::publish_wf;
use crate::v3::packet::request_parts;
use crate::v3::packet::spec_connect_flags;
use crate::v3::packet::spec_encode_acks;
use crate::v3::packet::spec_encode_connack;
use crate::v3::packet::spec_encode_connect;
use crate::v3::packet::spec_encode_connect_head;
use crate::v3::packet::spec_encode_publish;
use crate::v3::packet::spec_encode_request;
use crate::v3::packet::spec_encode_requests;
use crate::v3::packet::spec_encode_suback;
use crate::v3::packet::spec_encode_subscribe;
use crate::v3::packet::spec_encode_unsubscribe;
use crate::v3::packet::spec_encode_will;
use crate::v3::packet::spec_parse_complete;
use crate::v3::packet::spec_publish_flags;
use crate::v3::qos::MQualityOfService;
use crate::v3::subscription_acks::MSubscriptionAck;
use crate::v3::subscription_request::MSubscriptionRequest;
use crate::v3::will::MLastWill;
use crate::wire::fixed_header::FixedHeader;
use crate::wire::fixed_header::PacketType;
use crate::wire::fixed_header::spec_encode_fixed_header;
use crate::wire::read::DecodeError;
use crate::wire::read::VARINT_MAX;
use crate::wire::strings::MqttBytes;
use crate::wire::strings::MqttString;
use crate::wire::strings::filter_parts;
use crate::wire::strings::is_mqtt_string;
use crate::wire::strings::spec_encode_filters;
use crate::wire::strings::spec_encode_optional_binary;
use crate::wire::strings::spec_encode_optional_string;
use crate::wire::strings::spec_encode_string;
use crate::wire::strings::str_has_wildcard;
use crate::wire::strings::strings_view;
use crate::wire::write::CountingWriter;
use crate::wire::write::MqttWriteError;
use crate::wire::write::VecWriter;
use crate::wire::write::WResult;
use crate::wire::write::WriteMqttPacket;
use crate::wire::write::bit;
use crate::wire::write::concat_all;
use crate::wire::write::concat_first;
use crate::wire::write::lemma_concat_step;
use crate::wire::write::spec_encode_u16;
use crate::wire::write::write_outcome;

verus! {

/// The type of a packet.
pub open spec fn spec_packet_type(p: PacketView) -> PacketType {
    match p {
        PacketView::Connect(_) => PacketType::Connect,
        PacketView::Connack(_) => PacketType::Connack,
        PacketView::Publish(_) => PacketType::Publish,
        PacketView::Puback { .. } => PacketType::Puback,
        PacketView::Pubrec { .. } => PacketType::Pubrec,
        PacketView::Pubrel { .. } => PacketType::Pubrel,
        PacketView::Pubcomp { .. } => PacketType::Pubcomp,
        PacketView::Subscribe(_) => PacketType::Subscribe,
        PacketView::Suback(_) => PacketType::Suback,
        PacketView::Unsubscribe(_) => PacketType::Unsubscribe,
        PacketView::Unsuback { .. } => PacketType::Unsuback,
        PacketView::Pingreq => PacketType::Pingreq,
        PacketView::Pingresp => PacketType::Pingresp,
        PacketView::Disconnect => PacketType::Disconnect,
    }
}

/// The flag bits in the fixed header of a packet.
pub open spec fn spec_header_flags(p: PacketView) -> u8 {
    match p {
        PacketView::Publish(x) => spec_publish_flags(x),
        PacketView::Pubrel { .. } | PacketView::Subscribe(_) | PacketView::Unsubscribe(_) => 2,
        _ => 0,
    }
}

/// What follows the fixed header of a packet.
pub open spec fn spec_encode_body(p: PacketView) -> Seq<u8> {
    match p {
        PacketView::Connect(x) => spec_encode_connect(x),
        PacketView::Connack(x) => spec_encode_connack(x),
        PacketView::Publish(x) => spec_encode_publish(x),
        PacketView::Puback { id } => spec_encode_u16(id),
        PacketView::Pubrec { id } => spec_encode_u16(id),
        PacketView::Pubrel { id } => spec_encode_u16(id),
        PacketView::Pubcomp { id } => spec_encode_u16(id),
        PacketView::Subscribe(x) => spec_encode_subscribe(x),
        PacketView::Suback(x) => spec_encode_suback(x),
        PacketView::Unsubscribe(x) => spec_encode_unsubscribe(x),
        PacketView::Unsuback { id } => spec_encode_u16(id),
        PacketView::Pingreq => Seq::empty(),
        PacketView::Pingresp => Seq::empty(),
        PacketView::Disconnect => Seq::empty(),
    }
}

/// The fixed header of a packet.
pub open spec fn spec_header_of(p: PacketView) -> FixedHeader {
    FixedHeader {
        packet_type: spec_packet_type(p),
        flags: spec_header_flags(p),
        remaining_length: spec_encode_body(p).len() as u32,
    }
}

/// The bytes of a packet: its fixed header, then its body.
pub open spec fn spec_encode_packet(p: PacketView) -> Seq<u8> {
    spec_encode_fixed_header(spec_header_of(p)) + spec_encode_body(p)
}

/// What the fields of a packet must obey, whatever its size.
pub open spec fn body_wf(p: PacketView) -> bool {
    match p {
        PacketView::Connect(x) => connect_wf(x),
        PacketView::Publish(x) => publish_wf(x),
        PacketView::Subscribe(x) => x.subscriptions.len() > 0 && forall|i: int|
            0 <= i < x.subscriptions.len() ==> is_mqtt_string((#[trigger] x.subscriptions[i]).topic),
        PacketView::Unsubscribe(x) => x.unsubscriptions.len() > 0 && forall|i: int|
            0 <= i < x.unsubscriptions.len() ==> is_mqtt_string(#[trigger] x.unsubscriptions[i]),
        _ => true,
    }
}

/// A packet is well-formed when its fields obey the rules of its type and
/// its body fits the length field of the fixed header.
pub open spec fn packet_wf(p: PacketView) -> bool {
    body_wf(p) && spec_encode_body(p).len() <= VARINT_MAX
}

fn flag(b: bool) -> (r: u8)
    ensures
        r == bit(b),
{
    if b {
        1
    } else {
        0
    }
}

fn connect_flags(p: &MConnect) -> (r: u8)
    ensures
        r == spec_connect_flags(p@),
{
    proof {
        reveal(spec_connect_flags);
    }
    let will: u8 = match &p.will {
        Some(w) => flag(w.retain) * 32 + w.qos.to_byte() * 8 + 4,
        None => 0,
    };
    flag(p.username.is_some()) * 128 + flag(p.password.is_some()) * 64 + will + flag(
        p.clean_session,
    ) * 2
}

fn write_connect_head<W: WriteMqttPacket>(p: &MConnect, buffer: &mut W) -> (r: WResult<W>)
    ensures
        write_outcome(
            old(buffer).state(),
            final(buffer).state(),
            spec_encode_connect_head(p@),
            r is Ok,
        ),
{
    let ghost before = buffer.state().written;
    p.protocol_name.write(buffer)?;
    buffer.write_byte(p.protocol_level)?;
    buffer.write_byte(connect_flags(p))?;
    buffer.write_u16(p.keep_alive)?;
    let r = p.client_id.write(buffer);
    proof {
        if r is Ok {
            assert(buffer.state().written =~= before + spec_encode_connect_head(p@));
        }
    }
    r
}

fn write_will<W: WriteMqttPacket>(will: &Option<MLastWill>, buffer: &mut W) -> (r: WResult<W>)
    ensures
        write_outcome(
            old(buffer).state(),
            final(buffer).state(),
            spec_encode_will(
                match will {
                    Some(w) => Some(w@),
                    None => None,
                },
            ),
            r is Ok,
        ),
{
    let ghost before = buffer.state().written;
    match will {
        Some(w) => {
            w.topic.write(buffer)?;
            let r = w.payload.write(buffer);
            proof {
                if r is Ok {
                    assert(buffer.state().written =~= before + spec_encode_will(Some(w@)));
                }
            }
            r
        },
        None => {
            proof {
                assert(before + Seq::<u8>::empty() =~= before);
            }
            Ok(())
        },
    }
}

fn write_optional_string<W: WriteMqttPacket>(text: &Option<MqttString>, buffer: &mut W) -> (r:
    WResult<W>)
    ensures
        write_outcome(
            old(buffer).state(),
            final(buffer).state(),
            spec_encode_optional_string(
                match text {
                    Some(t) => Some(t@),
                    None => None,
                },
            ),
            r is Ok,
        ),
{
    match text {
        Some(t) => t.write(buffer),
        None => {
            proof {
                assert(buffer.state().written + Seq::<u8>::empty() =~= buffer.state().written);
            }
            Ok(())
        },
    }
}

fn write_optional_binary<W: WriteMqttPacket>(data: &Option<MqttBytes>, buffer: &mut W) -> (r:
    WResult<W>)
    ensures
        write_outcome(
            old(buffer).state(),
            final(buffer).state(),
            spec_encode_optional_binary(
                match data {
                    Some(d) => Some(d@),
                    None => None,
                },
            ),
            r is Ok,
        ),
{
    match data {
        Some(d) => d.write(buffer),
        None => {
            proof {
                assert(buffer.state().written + Seq::<u8>::empty() =~= buffer.state().written);
            }
            Ok(())
        },
    }
}

fn write_connect<W: WriteMqttPacket>(p: &MConnect, buffer: &mut W) -> (r: WResult<W>)
    ensures
        write_outcome(old(buffer).state(), final(buffer).state(), spec_encode_connect(p@), r is Ok),
{
    let ghost before = buffer.state().written;
    write_connect_head(p, buffer)?;
    write_will(&p.will, buffer)?;
    write_optional_string(&p.username, buffer)?;
    let r = write_optional_binary(&p.password, buffer);
    proof {
        if r is Ok {
            assert(buffer.state().written =~= before + spec_encode_connect(p@));
        }
    }
    r
}

fn write_connack<W: WriteMqttPacket>(p: &MConnack, buffer: &mut W) -> (r: WResult<W>)
    ensures
        write_outcome(old(buffer).state(), final(buffer).state(), spec_encode_connack(*p), r is Ok),
{
    let ghost before = buffer.state().written;
    buffer.write_byte(flag(p.session_present))?;
    let r = buffer.write_byte(p.connect_return_code.to_byte());
    proof {
        if r is Ok {
            assert(buffer.state().written =~= before + spec_encode_connack(*p));
        }
    }
    r
}

fn write_publish<W: WriteMqttPacket>(p: &MPublish, buffer: &mut W) -> (r: WResult<W>)
    ensures
        write_outcome(old(buffer).state(), final(buffer).state(), spec_encode_publish(p@), r is Ok),
{
    let ghost before = buffer.state().written;
    p.topic_name.write(buffer)?;
    match p.id {
        Some(id) => {
            buffer.write_u16(id)?;
        },
        None => {},
    }
    let r = buffer.write_slice(p.payload.as_slice());
    proof {
        if r is Ok {
            assert(buffer.state().written =~= before + spec_encode_publish(p@));
        }
    }
    r
}

fn write_requests<W: WriteMqttPacket>(list: &Vec<MSubscriptionRequest>, buffer: &mut W) -> (r:
    WResult<W>)
    ensures
        write_outcome(
            old(buffer).state(),
            final(buffer).state(),
            spec_encode_requests(Seq::new(list@.len(), |i: int| list@[i]@)),
            r is Ok,
        ),
{
    let ghost views = Seq::new(list@.len(), |i: int| list@[i]@);
    let ghost parts = request_parts(views);
    let mut i: usize = 0;
    proof {
        assert(parts.take(0) =~= Seq::<Seq<u8>>::empty());
        assert(buffer.state().written + concat_first(parts, 0) =~= buffer.state().written);
    }
    while i < list.len()
        invariant
            i <= list@.len(),
            views == Seq::new(list@.len(), |k: int| list@[k]@),
            parts == request_parts(views),
            write_outcome(old(buffer).state(), buffer.state(), concat_first(parts, i as int), true),
        decreases list@.len() - i,
    {
        let ghost start = buffer.state().written;
        proof {
            lemma_concat_step(parts, i as int);
            assert(parts[i as int] == spec_encode_request(list@[i as int]@));
        }
        list[i].topic.write(buffer)?;
        buffer.write_byte(list[i].qos.to_byte())?;
        proof {
            assert(buffer.state().written =~= start + parts[i as int]);
            assert(buffer.state().written =~= old(buffer).state().written + concat_first(
                parts,
                i + 1,
            ));
        }
        i = i + 1;
    }
    proof {
        lemma_concat_all_of(parts);
    }
    Ok(())
}

/// All the parts are the first `len` parts.
proof fn lemma_concat_all_of(parts: Seq<Seq<u8>>)
    ensures
        concat_first(parts, parts.len() as int) == concat_all(parts),
{
    assert(parts.take(parts.len() as int) =~= parts);
}

fn write_filters<W: WriteMqttPacket>(list: &Vec<MqttString>, buffer: &mut W) -> (r: WResult<W>)
    ensures
        write_outcome(
            old(buffer).state(),
            final(buffer).state(),
            spec_encode_filters(strings_view(list@)),
            r is Ok,
        ),
{
    let ghost parts = filter_parts(strings_view(list@));
    let mut i: usize = 0;
    proof {
        assert(parts.take(0) =~= Seq::<Seq<u8>>::empty());
        assert(buffer.state().written + concat_first(parts, 0) =~= buffer.state().written);
    }
    while i < list.len()
        invariant
            i <= list@.len(),
            parts == filter_parts(strings_view(list@)),
            write_outcome(old(buffer).state(), buffer.state(), concat_first(parts, i as int), true),
        decreases list@.len() - i,
    {
        let ghost start = buffer.state().written;
        proof {
            lemma_concat_step(parts, i as int);
            assert(parts[i as int] == spec_encode_string(list@[i as int]@));
        }
        list[i].write(buffer)?;
        proof {
            assert(buffer.state().written =~= old(buffer).state().written + concat_first(
                parts,
                i + 1,
            ));
        }
        i = i + 1;
    }
    proof {
        lemma_concat_all_of(parts);
    }
    Ok(())
}

fn write_acks<W: WriteMqttPacket>(list: &Vec<MSubscriptionAck>, buffer: &mut W) -> (r: WResult<W>)
    ensures
        write_outcome(old(buffer).state(), final(buffer).state(), spec_encode_acks(list@), r is Ok),
{
    let ghost all = spec_encode_acks(list@);
    let mut i: usize = 0;
    proof {
        assert(buffer.state().written + all.take(0) =~= buffer.state().written);
    }
    while i < list.len()
        invariant
            i <= list@.len(),
            all == spec_encode_acks(list@),
            write_outcome(old(buffer).state(), buffer.state(), all.take(i as int), true),
        decreases list@.len() - i,
    {
        buffer.write_byte(list[i].to_byte())?;
        proof {
            assert(all.take(i + 1) =~= all.take(i as int) + seq![list@[i as int].spec_to_byte()]);
            assert(buffer.state().written =~= old(buffer).state().written + all.take(i + 1));
        }
        i = i + 1;
    }
    proof {
        assert(all.take(list@.len() as int) =~= all);
    }
    Ok(())
}

fn write_subscribe<W: WriteMqttPacket>(p: &MSubscribe, buffer: &mut W) -> (r: WResult<W>)
    ensures
        write_outcome(
            old(buffer).state(),
            final(buffer).state(),
            spec_encode_subscribe(p@),
            r is Ok,
        ),
{
    let ghost before = buffer.state().written;
    buffer.write_u16(p.id)?;
    let r = write_requests(&p.subscriptions.requests, buffer);
    proof {
        assert(p@.subscriptions =~= Seq::new(
            p.subscriptions.requests@.len(),
            |i: int| p.subscriptions.requests@[i]@,
        ));
        if r is Ok {
            assert(buffer.state().written =~= before + spec_encode_subscribe(p@));
        }
    }
    r
}

fn write_suback<W: WriteMqttPacket>(p: &MSuback, buffer: &mut W) -> (r: WResult<W>)
    ensures
        write_outcome(old(buffer).state(), final(buffer).state(), spec_encode_suback(p@), r is Ok),
{
    let ghost before = buffer.state().written;
    buffer.write_u16(p.id)?;
    let r = write_acks(&p.subscription_acks, buffer);
    proof {
        if r is Ok {
            assert(buffer.state().written =~= before + spec_encode_suback(p@));
        }
    }
    r
}

fn write_unsubscribe<W: WriteMqttPacket>(p: &MUnsubscribe, buffer: &mut W) -> (r: WResult<W>)
    ensures
        write_outcome(
            old(buffer).state(),
            final(buffer).state(),
            spec_encode_unsubscribe(p@),
            r is Ok,
        ),
{
    let ghost before = buffer.state().written;
    buffer.write_u16(p.id)?;
    let r = write_filters(&p.unsubscriptions, buffer);
    proof {
        if r is Ok {
            assert(buffer.state().written =~= before + spec_encode_unsubscribe(p@));
        }
    }
    r
}

impl MPacket {
    /// The type of this packet.
    pub fn packet_type(&self) -> (t: PacketType)
        ensures
            t == spec_packet_type(self@),
    {
        match self {
            MPacket::Connect(_) => PacketType::Connect,
            MPacket::Connack(_) => PacketType::Connack,
            MPacket::Publish(_) => PacketType::Publish,
            MPacket::Puback { .. } => PacketType::Puback,
            MPacket::Pubrec { .. } => PacketType::Pubrec,
            MPacket::Pubrel { .. } => PacketType::Pubrel,
            MPacket::Pubcomp { .. } => PacketType::Pubcomp,
            MPacket::Subscribe(_) => PacketType::Subscribe,
            MPacket::Suback(_) => PacketType::Suback,
            MPacket::Unsubscribe(_) => PacketType::Unsubscribe,
            MPacket::Unsuback { .. } => PacketType::Unsuback,
            MPacket::Pingreq => PacketType::Pingreq,
            MPacket::Pingresp => PacketType::Pingresp,
            MPacket::Disconnect => PacketType::Disconnect,
        }
    }

    /// The flag bits in the fixed header of this packet.
    pub fn header_flags(&self) -> (flags: u8)
        ensures
            flags == spec_header_flags(self@),
            spec_packet_type(self@).spec_flags_allowed(flags),
    {
        match self {
            MPacket::Publish(p) => flag(p.dup) * 8 + p.qos.to_byte() * 2 + flag(p.retain),
            MPacket::Pubrel { .. } | MPacket::Subscribe(_) | MPacket::Unsubscribe(_) => 2,
            _ => 0,
        }
    }

    /// Whether the fields of this packet obey the rules of its type.
    pub fn body_is_valid(&self) -> (b: bool)
        ensures
            b == body_wf(self@),
    {
        match self {
            MPacket::Connect(p) => {
                proof {
                    reveal_strlit("MQTT");
                    assert("MQTT"@ =~= crate::wire::strings::mqtt_name());
                }
                let _ = p.client_id.as_str();
                match &p.will {
                    Some(w) => {
                        let _ = w.topic.as_str();
                        let _ = w.payload.as_slice();
                    },
                    None => {},
                }
                match &p.username {
                    Some(u) => {
                        let _ = u.as_str();
                    },
                    None => {},
                }
                match &p.password {
                    Some(d) => {
                        let _ = d.as_slice();
                    },
                    None => {},
                }
                p.protocol_name.equals_str("MQTT") && p.protocol_level == 4 && (p.password.is_none()
                    || p.username.is_some())
            },
            MPacket::Publish(p) => {
                let plain = !str_has_wildcard(p.topic_name.as_str());
                let identified = match p.id {
                    Some(id) => id != 0 && !matches!(p.qos, MQualityOfService::AtMostOnce),
                    None => matches!(p.qos, MQualityOfService::AtMostOnce),
                };
                plain && identified
            },
            MPacket::Subscribe(p) => {
                let list = &p.subscriptions.requests;
                let mut i: usize = 0;
                while i < list.len()
                    invariant
                        i <= list@.len(),
                        forall|k: int| 0 <= k < i ==> is_mqtt_string((#[trigger] list@[k]).topic@),
                    decreases list@.len() - i,
                {
                    let _ = list[i].topic.as_str();
                    i = i + 1;
                }
                list.len() > 0
            },
            MPacket::Unsubscribe(p) => {
                let list = &p.unsubscriptions;
                let mut i: usize = 0;
                while i < list.len()
                    invariant
                        i <= list@.len(),
                        forall|k: int| 0 <= k < i ==> is_mqtt_string((#[trigger] list@[k])@),
                    decreases list@.len() - i,
                {
                    let _ = list[i].as_str();
                    i = i + 1;
                }
                list.len() > 0
            },
            _ => true,
        }
    }

    /// Writes what follows the fixed header.
    pub fn write_body<W: WriteMqttPacket>(&self, buffer: &mut W) -> (r: WResult<W>)
        ensures
            write_outcome(
                old(buffer).state(),
                final(buffer).state(),
                spec_encode_body(self@),
                r is Ok,
            ),
    {
        match self {
            MPacket::Connect(p) => write_connect(p, buffer),
            MPacket::Connack(p) => write_connack(p, buffer),
            MPacket::Publish(p) => write_publish(p, buffer),
            MPacket::Puback { id } => buffer.write_u16(*id),
            MPacket::Pubrec { id } => buffer.write_u16(*id),
            MPacket::Pubrel { id } => buffer.write_u16(*id),
            MPacket::Pubcomp { id } => buffer.write_u16(*id),
            MPacket::Subscribe(p) => write_subscribe(p, buffer),
            MPacket::Suback(p) => write_suback(p, buffer),
            MPacket::Unsubscribe(p) => write_unsubscribe(p, buffer),
            MPacket::Unsuback { id } => buffer.write_u16(*id),
            _ => {
                proof {
                    assert(buffer.state().written + Seq::<u8>::empty() =~= buffer.state().written);
                }
                Ok(())
            },
        }
    }

    /// Number of bytes that follow the fixed header, where they fit its
    /// length field.
    pub fn body_size(&self) -> (r: Option<u32>)
        ensures
            match r {
                Some(n) => n == spec_encode_body(self@).len() && n <= VARINT_MAX,
                None => spec_encode_body(self@).len() > VARINT_MAX,
            },
    {
        let mut counter = CountingWriter::new();
        match self.write_body(&mut counter) {
            Ok(()) => {
                proof {
                    assert(counter.bytes@ =~= spec_encode_body(self@));
                }
                if counter.count <= VARINT_MAX as usize {
                    Some(counter.count as u32)
                } else {
                    None
                }
            },
            Err(_) => None,
        }
    }

    /// Writes the packet: its fixed header, then its body. A packet that
    /// is not well-formed is refused before anything is written.
    pub fn write<W: WriteMqttPacket>(&self, buffer: &mut W) -> (r: WResult<W>)
        ensures
            !packet_wf(self@) ==> r is Err && *final(buffer) == *old(buffer),
            packet_wf(self@) ==> write_outcome(
                old(buffer).state(),
                final(buffer).state(),
                spec_encode_packet(self@),
                r is Ok,
            ),
    {
        if !self.body_is_valid() {
            return Err(W::Error::from(MqttWriteError::Invariant));
        }
        let remaining_length: u32 = match self.body_size() {
            None => {
                return Err(W::Error::from(MqttWriteError::Invariant));
            },
            Some(n) => n,
        };
        let header = FixedHeader {
            packet_type: self.packet_type(),
            flags: self.header_flags(),
            remaining_length,
        };
        let ghost before = buffer.state().written;
        header.write(buffer)?;
        let r = self.write_body(buffer);
        proof {
            if r is Ok {
                assert(buffer.state().written =~= before + spec_encode_packet(self@));
            }
        }
        r
    }

    /// The bytes of the packet, or `Invariant` where it is not well-formed.
    /// Decoding the bytes gives the packet back.
    pub fn to_bytes(&self) -> (r: Result<Vec<u8>, MqttWriteError>)
        ensures
            match r {
                Ok(bytes) => packet_wf(self@) && bytes@ == spec_encode_packet(self@)
                    && spec_parse_complete(bytes@) == Ok::<_, DecodeError>(self@),
                Err(e) => !packet_wf(self@) && e == MqttWriteError::Invariant,
            },
    {
        if !self.body_is_valid() {
            return Err(MqttWriteError::Invariant);
        }
        if self.body_size().is_none() {
            return Err(MqttWriteError::Invariant);
        }
        let mut writer = VecWriter::new();
        proof {
            crate::wire::roundtrip::lemma_varint_shape(spec_header_of(self@).remaining_length);
        }
        match self.write(&mut writer) {
            Ok(()) => {
                proof {
                    assert(writer.buffer@ =~= spec_encode_packet(self@));
                    crate::v3::roundtrip::lemma_packet_decode_encode(self@, Seq::empty());
                    assert(spec_encode_packet(self@) + Seq::<u8>::empty() =~= spec_encode_packet(
                        self@,
                    ));
                }
                Ok(writer.buffer)
            },
            Err(_) => {
                proof {
                    assert(false);
                }
                Err(MqttWriteError::Invariant)
            },
        }
    }
}

} // verus!
