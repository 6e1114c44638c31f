//! Packets and the frames that carry them.
//!
//! A frame is a varint `total_length`, a varint packet id, and a payload;
//! `total_length` counts the id and the payload, not itself. What a frame
//! means depends on the phase of the connection that received it.

use crate::buffer::{as_slice, buf_bytes};
use crate::utils::{
    decode_varint, lemma_decode_varint_bounds, lemma_decode_varint_extend,
    lemma_varint_round_trip, read_varint, varint_encoding, VarintError,
};
use crate::wire::{be_value, lossy_text, read_string, read_u16, string_field, uuid_of};
use bytes::BytesMut;
use vstd::prelude::*;
use vstd::utf8::{encode_utf8, encode_utf8_decode_utf8, encode_utf8_valid_utf8};

verus! {

/// The phase of a connection, which is also what a handshake asks for.
#[derive(Clone, Copy, Debug, PartialEq, Eq, Structural)]
pub enum ClientIntent {
    /// Status queries and pings are served.
    Status,
    /// A login request is awaited.
    Login,
    /// The peer asked to be transferred; nothing more is served.
    Transfer,
    /// The connection is closed, after a protocol violation or because
    /// nothing is left to serve. No phase follows this one.
    Error,
    /// No handshake has arrived yet.
    AwaitingHandshake,
}

impl ClientIntent {
    /// The name of the phase, as the log shows it.
    pub open spec fn name(self) -> Seq<char> {
        match self {
            ClientIntent::Status => "Status"@,
            ClientIntent::Login => "Login"@,
            ClientIntent::Transfer => "Transfer"@,
            ClientIntent::Error => "Error"@,
            ClientIntent::AwaitingHandshake => "None"@,
        }
    }

    /// The name of the phase. A connection that awaits its handshake is
    /// in no phase yet, and is named so.
    pub fn as_str(&self) -> (name: &'static str)
        ensures
            name@ == self.name(),
    {
        match self {
            ClientIntent::Status => "Status",
            ClientIntent::Login => "Login",
            ClientIntent::Transfer => "Transfer",
            ClientIntent::Error => "Error",
            ClientIntent::AwaitingHandshake => "None",
        }
    }
}

/// A violation of the protocol. Each one is fatal for the connection that
/// sent the bytes, and for no other.
#[derive(Clone, Copy, Debug, PartialEq, Eq)]
pub enum ProtocolError {
    /// A varint of the frame header runs past five bytes.
    Overflow,
    /// The frame is complete but its payload is not what its phase and
    /// packet id call for.
    MalformedPacket,
    /// A handshake asks for a next state other than 1, 2 or 3.
    InvalidIntent,
}

/// A decoded protocol unit. `id` is the packet id as sent and `length` the
/// `total_length` that the frame declared.
#[derive(Clone, Debug, PartialEq, Eq)]
pub enum Packet {
    /// The first packet of a connection.
    Handshake {
        id: u32,
        protocol_version: u32,
        server_address: String,
        server_port: u16,
        intent: ClientIntent,
        length: usize,
    },
    /// A request for the status document. Its frame holds the id alone.
    Status,
    /// A ping, to be echoed.
    Ping { id: u32, data: [u8; 8], length: usize },
    /// The start of a login.
    Login { id: u32, name: String, uuid: u128, length: usize },
    /// A packet that the phase has no use for. Its bytes were consumed.
    Unhandled { id: u32, length: usize },
}

/// A packet as contracts see it: text by its characters, bytes by their
/// sequence.
pub enum PacketView {
    Handshake {
        id: u32,
        protocol_version: u32,
        server_address: Seq<char>,
        server_port: u16,
        intent: ClientIntent,
        length: usize,
    },
    Status,
    Ping { id: u32, data: Seq<u8>, length: usize },
    Login { id: u32, name: Seq<char>, uuid: u128, length: usize },
    Unhandled { id: u32, length: usize },
}

impl View for Packet {
    type V = PacketView;

    open spec fn view(&self) -> PacketView {
        match *self {
            Packet::Handshake {
                id,
                protocol_version,
                server_address,
                server_port,
                intent,
                length,
            } => PacketView::Handshake {
                id,
                protocol_version,
                server_address: server_address@,
                server_port,
                intent,
                length,
            },
            Packet::Status => PacketView::Status,
            Packet::Ping { id, data, length } => PacketView::Ping { id, data: data@, length },
            Packet::Login { id, name, uuid, length } => PacketView::Login {
                id,
                name: name@,
                uuid,
                length,
            },
            Packet::Unhandled { id, length } => PacketView::Unhandled { id, length },
        }
    }
}

/// The two varints that open a frame.
pub struct FrameHeader {
    /// The declared length of packet id and payload together.
    pub total_length: u32,
    pub packet_id: u32,
    /// Bytes taken by the length varint.
    pub length_bytes: usize,
    /// Bytes taken by the id varint.
    pub id_bytes: usize,
}

/// The phase that a handshake's `next_state` asks for.
pub open spec fn intent_of(next_state: u32) -> Option<ClientIntent> {
    if next_state == 1 {
        Some(ClientIntent::Status)
    } else if next_state == 2 {
        Some(ClientIntent::Login)
    } else if next_state == 3 {
        Some(ClientIntent::Transfer)
    } else {
        None
    }
}

/// The header at the front of `bytes`: `Ok(None)` while either varint is
/// incomplete, `Overflow` when either runs past five bytes.
pub open spec fn frame_header(bytes: Seq<u8>) -> Result<Option<FrameHeader>, ProtocolError> {
    match decode_varint(bytes) {
        Err(VarintError::IncompleteData) => Ok(None),
        Err(VarintError::Overflow) => Err(ProtocolError::Overflow),
        Ok((total_length, length_bytes)) => match decode_varint(bytes.skip(length_bytes as int)) {
            Err(VarintError::IncompleteData) => Ok(None),
            Err(VarintError::Overflow) => Err(ProtocolError::Overflow),
            Ok((packet_id, id_bytes)) => Ok(
                Some(FrameHeader { total_length, packet_id, length_bytes, id_bytes }),
            ),
        },
    }
}

/// A handshake payload: varint protocol version, string server address, two
/// bytes of port with the high byte first, varint next state, and nothing
/// after it.
pub open spec fn handshake_packet(payload: Seq<u8>, id: u32, length: usize) -> Result<
    PacketView,
    ProtocolError,
> {
    match decode_varint(payload) {
        Err(_) => Err(ProtocolError::MalformedPacket),
        Ok((protocol_version, version_bytes)) => match string_field(
            payload.skip(version_bytes as int),
        ) {
            None => Err(ProtocolError::MalformedPacket),
            Some((address, address_bytes)) => {
                let port_at = version_bytes + address_bytes;
                if payload.len() < port_at + 2 {
                    Err(ProtocolError::MalformedPacket)
                } else {
                    match decode_varint(payload.skip(port_at + 2)) {
                        Err(_) => Err(ProtocolError::MalformedPacket),
                        Ok((next_state, state_bytes)) => if port_at + 2 + state_bytes
                            != payload.len() {
                            Err(ProtocolError::MalformedPacket)
                        } else {
                            match intent_of(next_state) {
                                None => Err(ProtocolError::InvalidIntent),
                                Some(intent) => Ok(
                                    PacketView::Handshake {
                                        id,
                                        protocol_version,
                                        server_address: lossy_text(address),
                                        server_port: be_value(
                                            payload.subrange(port_at, port_at + 2),
                                        ) as u16,
                                        intent,
                                        length,
                                    },
                                ),
                            }
                        },
                    }
                }
            },
        },
    }
}

/// A login-start payload: string name, then exactly sixteen bytes of
/// identifier.
pub open spec fn login_packet(payload: Seq<u8>, id: u32, length: usize) -> Result<
    PacketView,
    ProtocolError,
> {
    match string_field(payload) {
        None => Err(ProtocolError::MalformedPacket),
        Some((name, name_bytes)) => if payload.len() != name_bytes + 16 {
            Err(ProtocolError::MalformedPacket)
        } else {
            Ok(
                PacketView::Login {
                    id,
                    name: lossy_text(name),
                    uuid: be_value(payload.skip(name_bytes as int)) as u128,
                    length,
                },
            )
        },
    }
}

/// The packet that a complete frame holds, by the phase of the connection
/// and the packet id.
pub open spec fn packet_of(
    intent: ClientIntent,
    id: u32,
    total_length: u32,
    payload: Seq<u8>,
) -> Result<PacketView, ProtocolError> {
    let length = total_length as usize;
    if intent == ClientIntent::AwaitingHandshake && id == 0 {
        handshake_packet(payload, id, length)
    } else if intent == ClientIntent::Status && id == 0 && total_length == 1 {
        Ok(PacketView::Status)
    } else if intent == ClientIntent::Status && id == 1 {
        if payload.len() == 8 {
            Ok(PacketView::Ping { id, data: payload, length })
        } else {
            Err(ProtocolError::MalformedPacket)
        }
    } else if intent == ClientIntent::Login && id == 0 {
        login_packet(payload, id, length)
    } else {
        Ok(PacketView::Unhandled { id, length })
    }
}

/// What the front of `bytes` decodes to on a connection in phase `intent`:
/// `Ok(None)` while the frame is incomplete, else the packet and the
/// number of bytes that the frame takes, or the violation found.
pub open spec fn decode_packet(bytes: Seq<u8>, intent: ClientIntent) -> Result<
    Option<(PacketView, nat)>,
    ProtocolError,
> {
    match frame_header(bytes) {
        Err(error) => Err(error),
        Ok(None) => Ok(None),
        Ok(Some(header)) => if header.id_bytes > header.total_length {
            Err(ProtocolError::MalformedPacket)
        } else if bytes.len() < header.length_bytes + header.total_length {
            Ok(None)
        } else {
            let end = header.length_bytes + header.total_length;
            match packet_of(
                intent,
                header.packet_id,
                header.total_length,
                bytes.subrange(header.length_bytes + header.id_bytes, end),
            ) {
                Err(error) => Err(error),
                Ok(packet) => Ok(Some((packet, end as nat))),
            }
        },
    }
}

/// Reads the two varints of a frame header.
fn read_header(data: &[u8]) -> (header: Result<Option<FrameHeader>, ProtocolError>)
    ensures
        header == frame_header(data@),
        header matches Ok(Some(h)) ==> 1 <= h.length_bytes <= 5 && 1 <= h.id_bytes <= 5
            && h.length_bytes + h.id_bytes <= data@.len(),
{
    match read_varint(data) {
        Err(VarintError::IncompleteData) => Ok(None),
        Err(VarintError::Overflow) => Err(ProtocolError::Overflow),
        Ok((total_length, length_bytes)) => {
            let rest = &data[length_bytes..data.len()];
            assert(rest@ =~= data@.skip(length_bytes as int));
            match read_varint(rest) {
                Err(VarintError::IncompleteData) => Ok(None),
                Err(VarintError::Overflow) => Err(ProtocolError::Overflow),
                Ok((packet_id, id_bytes)) => Ok(
                    Some(FrameHeader { total_length, packet_id, length_bytes, id_bytes }),
                ),
            }
        },
    }
}

impl Packet {
    /// Takes one packet off the front of `data`, if a whole frame is there.
    ///
    /// With `Ok(None)` the frame is not complete yet and `data` is left as
    /// it was, to be tried again when more bytes have arrived. With
    /// `Ok(Some(..))` the frame has left `data`, and what followed it stays.
    /// With `Err(..)` the bytes break the protocol; `data` is left as it was.
    pub fn parse(data: &mut BytesMut, intent: &ClientIntent) -> (parsed: Result<
        Option<Packet>,
        ProtocolError,
    >)
        ensures
            match decode_packet(buf_bytes(*old(data)), *intent) {
                Ok(Some((packet, consumed))) => parsed matches Ok(Some(p)) && p@ == packet
                    && buf_bytes(*final(data)) == buf_bytes(*old(data)).skip(consumed as int),
                Ok(None) => parsed matches Ok(None) && buf_bytes(*final(data)) == buf_bytes(
                    *old(data),
                ),
                Err(error) => parsed == Err::<Option<Packet>, ProtocolError>(error) && buf_bytes(
                    *final(data),
                ) == buf_bytes(*old(data)),
            },
    {
        let bytes = as_slice(data);
        let header = match read_header(bytes) {
            Err(error) => {
                return Err(error);
            },
            Ok(None) => {
                return Ok(None);
            },
            Ok(Some(header)) => header,
        };
        let length: usize = header.total_length as usize;
        if header.id_bytes > length {
            return Err(ProtocolError::MalformedPacket);
        }
        if bytes.len() - header.length_bytes < length {
            return Ok(None);
        }
        let end: usize = header.length_bytes + length;
        let payload = &bytes[header.length_bytes + header.id_bytes..end];
        let packet = match intent {
            ClientIntent::AwaitingHandshake if header.packet_id == 0 => Packet::parse_handshake(
                payload,
                length,
                header.packet_id,
            ),
            ClientIntent::Status if header.packet_id == 0 && header.total_length == 1 => Ok(
                Packet::Status,
            ),
            ClientIntent::Status if header.packet_id == 1 => Packet::parse_ping(
                payload,
                length,
                header.packet_id,
            ),
            ClientIntent::Login if header.packet_id == 0 => Packet::parse_login(
                payload,
                length,
                header.packet_id,
            ),
            _ => Ok(Packet::Unhandled { id: header.packet_id, length }),
        };
        match packet {
            Err(error) => Err(error),
            Ok(packet) => {
                let _frame = data.split_to(end);
                Ok(Some(packet))
            },
        }
    }

    /// Reads the header of the frame at the front of `data`: its declared
    /// length, its packet id and the number of bytes that the two took.
    /// `Ok(None)` asks for more bytes.
    pub fn parse_headers(data: &[u8]) -> (header: Result<Option<(u32, u32, usize)>, ProtocolError>)
        ensures
            match frame_header(data@) {
                Ok(Some(h)) => header == Ok::<Option<(u32, u32, usize)>, ProtocolError>(
                    Some((h.total_length, h.packet_id, (h.length_bytes + h.id_bytes) as usize)),
                ),
                Ok(None) => header == Ok::<Option<(u32, u32, usize)>, ProtocolError>(None),
                Err(error) => header == Err::<Option<(u32, u32, usize)>, ProtocolError>(error),
            },
    {
        match read_header(data) {
            Err(error) => Err(error),
            Ok(None) => Ok(None),
            Ok(Some(header)) => Ok(
                Some(
                    (header.total_length, header.packet_id, header.length_bytes + header.id_bytes),
                ),
            ),
        }
    }

    /// Decodes the payload of a handshake.
    pub fn parse_handshake(data: &[u8], length: usize, id: u32) -> (parsed: Result<
        Packet,
        ProtocolError,
    >)
        ensures
            match handshake_packet(data@, id, length) {
                Ok(packet) => parsed matches Ok(p) && p@ == packet,
                Err(error) => parsed == Err::<Packet, ProtocolError>(error),
            },
    {
        let (protocol_version, version_bytes) = match read_varint(data) {
            Ok(read) => read,
            Err(_) => {
                return Err(ProtocolError::MalformedPacket);
            },
        };
        let rest = &data[version_bytes..data.len()];
        assert(rest@ =~= data@.skip(version_bytes as int));
        let (server_address, address_bytes) = match read_string(rest) {
            Some(field) => field,
            None => {
                return Err(ProtocolError::MalformedPacket);
            },
        };
        let port_at: usize = version_bytes + address_bytes;
        if data.len() - port_at < 2 {
            return Err(ProtocolError::MalformedPacket);
        }
        let server_port = read_u16(data[port_at], data[port_at + 1]);
        assert(data@.subrange(port_at as int, port_at + 2) =~= seq![
            data@[port_at as int],
            data@[port_at + 1],
        ]);
        let rest = &data[port_at + 2..data.len()];
        assert(rest@ =~= data@.skip(port_at + 2));
        let (next_state, state_bytes) = match read_varint(rest) {
            Ok(read) => read,
            Err(_) => {
                return Err(ProtocolError::MalformedPacket);
            },
        };
        if state_bytes != data.len() - port_at - 2 {
            return Err(ProtocolError::MalformedPacket);
        }
        let intent = match next_state {
            1 => ClientIntent::Status,
            2 => ClientIntent::Login,
            3 => ClientIntent::Transfer,
            _ => {
                return Err(ProtocolError::InvalidIntent);
            },
        };
        Ok(
            Packet::Handshake {
                id,
                protocol_version,
                server_address,
                server_port,
                intent,
                length,
            },
        )
    }

    /// Decodes the payload of a ping: eight bytes, no more and no fewer.
    pub fn parse_ping(data: &[u8], length: usize, id: u32) -> (parsed: Result<
        Packet,
        ProtocolError,
    >)
        ensures
            data@.len() == 8 ==> (parsed matches Ok(p) && p@ == (PacketView::Ping {
                id,
                data: data@,
                length,
            })),
            data@.len() != 8 ==> parsed == Err::<Packet, ProtocolError>(
                ProtocolError::MalformedPacket,
            ),
    {
        if data.len() != 8 {
            return Err(ProtocolError::MalformedPacket);
        }
        let mut payload: [u8; 8] = [0u8; 8];
        let mut index: usize = 0;
        while index < 8
            invariant
                index <= 8,
                data@.len() == 8,
                forall|i: int| 0 <= i < index ==> payload@[i] == data@[i],
            decreases 8 - index,
        {
            payload[index] = data[index];
            index += 1;
        }
        assert(payload@ =~= data@);
        Ok(Packet::Ping { id, data: payload, length })
    }

    /// Decodes the payload of a login start.
    pub fn parse_login(data: &[u8], length: usize, id: u32) -> (parsed: Result<
        Packet,
        ProtocolError,
    >)
        ensures
            match login_packet(data@, id, length) {
                Ok(packet) => parsed matches Ok(p) && p@ == packet,
                Err(error) => parsed == Err::<Packet, ProtocolError>(error),
            },
    {
        let (name, name_bytes) = match read_string(data) {
            Some(field) => field,
            None => {
                return Err(ProtocolError::MalformedPacket);
            },
        };
        let rest = &data[name_bytes..data.len()];
        assert(rest@ =~= data@.skip(name_bytes as int));
        match uuid_of(rest) {
            Some(uuid) => Ok(Packet::Login { id, name, uuid, length }),
            None => Err(ProtocolError::MalformedPacket),
        }
    }
}

/// A decoded frame took at least two bytes, one for each varint of its
/// header, and none that is not there.
pub proof fn lemma_decode_packet_bounds(bytes: Seq<u8>, intent: ClientIntent)
    ensures
        decode_packet(bytes, intent) matches Ok(Some((_, consumed))) ==> 2 <= consumed
            <= bytes.len(),
{
    lemma_decode_varint_bounds(bytes);
    if let Ok((_, length_bytes)) = decode_varint(bytes) {
        lemma_decode_varint_bounds(bytes.skip(length_bytes as int));
    }
}

/// Once the front of a buffer holds a whole frame, or breaks the protocol,
/// bytes that arrive later do not change what it decodes to.
pub proof fn lemma_decode_packet_extend(bytes: Seq<u8>, more: Seq<u8>, intent: ClientIntent)
    requires
        !(decode_packet(bytes, intent) matches Ok(None)),
    ensures
        decode_packet(bytes + more, intent) == decode_packet(bytes, intent),
{
    lemma_decode_varint_bounds(bytes);
    lemma_decode_varint_extend(bytes, more);
    if let Ok((_, length_bytes)) = decode_varint(bytes) {
        let rest = bytes.skip(length_bytes as int);
        assert((bytes + more).skip(length_bytes as int) =~= rest + more);
        lemma_decode_varint_bounds(rest);
        lemma_decode_varint_extend(rest, more);
        if let Ok(Some(header)) = frame_header(bytes) {
            let end = header.length_bytes + header.total_length;
            if header.id_bytes <= header.total_length && end <= bytes.len() {
                assert((bytes + more).subrange(header.length_bytes + header.id_bytes, end)
                    =~= bytes.subrange(header.length_bytes + header.id_bytes, end));
            }
        }
    }
}

/// The payload that a peer sends in a handshake.
pub open spec fn handshake_payload(
    protocol_version: u32,
    server_address: Seq<char>,
    server_port: u16,
    next_state: u32,
) -> Seq<u8> {
    let address = encode_utf8(server_address);
    varint_encoding(protocol_version as nat) + varint_encoding(address.len()) + address + seq![
        (server_port / 256) as u8,
        (server_port % 256) as u8,
    ] + varint_encoding(next_state as nat)
}

/// The frame that carries `payload` under packet id `id`: the length of
/// what follows, the id, the payload.
pub open spec fn frame_of(id: u32, payload: Seq<u8>) -> Seq<u8> {
    let packet_id = varint_encoding(id as nat);
    varint_encoding(packet_id.len() + payload.len()) + packet_id + payload
}

/// The frame that a peer sends for a handshake.
pub open spec fn handshake_frame(
    protocol_version: u32,
    server_address: Seq<char>,
    server_port: u16,
    next_state: u32,
) -> Seq<u8> {
    frame_of(0, handshake_payload(protocol_version, server_address, server_port, next_state))
}

/// The header of a frame, whatever follows the frame in the buffer, gives
/// back the id and the length that the frame was made with.
pub proof fn lemma_frame_header_round_trip(id: u32, payload: Seq<u8>, rest: Seq<u8>)
    requires
        varint_encoding(id as nat).len() + payload.len() <= u32::MAX,
    ensures
        frame_header(frame_of(id, payload) + rest) == Ok::<Option<FrameHeader>, ProtocolError>(
            Some(
                FrameHeader {
                    total_length: (varint_encoding(id as nat).len() + payload.len()) as u32,
                    packet_id: id,
                    length_bytes: varint_encoding(
                        varint_encoding(id as nat).len() + payload.len(),
                    ).len() as usize,
                    id_bytes: varint_encoding(id as nat).len() as usize,
                },
            ),
        ),
{
    let packet_id = varint_encoding(id as nat);
    let total = (packet_id.len() + payload.len()) as u32;
    let prefix = varint_encoding(total as nat);
    let bytes = frame_of(id, payload) + rest;

    lemma_varint_round_trip(total, packet_id + payload + rest);
    assert(bytes =~= prefix + (packet_id + payload + rest));
    assert(decode_varint(bytes) == Ok::<(u32, usize), VarintError>((total, prefix.len() as usize)));

    let after_prefix = bytes.skip(prefix.len() as int);
    lemma_varint_round_trip(id, payload + rest);
    assert(after_prefix =~= packet_id + (payload + rest));
    assert(decode_varint(after_prefix) == Ok::<(u32, usize), VarintError>(
        (id, packet_id.len() as usize),
    ));
}

/// A frame, whatever follows it in the buffer, decodes to what its payload
/// means under its id in the phase of the connection, and takes the
/// frame's bytes and no more.
pub proof fn lemma_frame_round_trip(
    id: u32,
    payload: Seq<u8>,
    rest: Seq<u8>,
    intent: ClientIntent,
)
    requires
        varint_encoding(id as nat).len() + payload.len() <= u32::MAX,
    ensures
        decode_packet(frame_of(id, payload) + rest, intent) == match packet_of(
            intent,
            id,
            (varint_encoding(id as nat).len() + payload.len()) as u32,
            payload,
        ) {
            Ok(packet) => Ok::<Option<(PacketView, nat)>, ProtocolError>(
                Some((packet, frame_of(id, payload).len())),
            ),
            Err(error) => Err(error),
        },
{
    let packet_id = varint_encoding(id as nat);
    let total = (packet_id.len() + payload.len()) as u32;
    let prefix = varint_encoding(total as nat);
    let bytes = frame_of(id, payload) + rest;
    lemma_frame_header_round_trip(id, payload, rest);
    lemma_varint_round_trip(id, payload);
    lemma_varint_round_trip(total, payload);
    assert(bytes.subrange((prefix.len() + packet_id.len()) as int, prefix.len() + total)
        =~= payload);
    assert(frame_of(id, payload).len() == prefix.len() + total);
}

/// A handshake payload decodes to the fields that it was made of.
pub proof fn lemma_handshake_payload_round_trip(
    protocol_version: u32,
    server_address: Seq<char>,
    server_port: u16,
    next_state: u32,
    id: u32,
    length: usize,
)
    requires
        encode_utf8(server_address).len() <= u32::MAX,
        intent_of(next_state) is Some,
    ensures
        handshake_packet(
            handshake_payload(protocol_version, server_address, server_port, next_state),
            id,
            length,
        ) == Ok::<PacketView, ProtocolError>(
            PacketView::Handshake {
                id,
                protocol_version,
                server_address,
                server_port,
                intent: intent_of(next_state)->0,
                length,
            },
        ),
{
    let address = encode_utf8(server_address);
    let version = varint_encoding(protocol_version as nat);
    let count = varint_encoding(address.len());
    let port = seq![(server_port / 256) as u8, (server_port % 256) as u8];
    let state = varint_encoding(next_state as nat);
    let payload = handshake_payload(protocol_version, server_address, server_port, next_state);

    lemma_varint_round_trip(protocol_version, count + address + port + state);
    assert(payload =~= version + (count + address + port + state));

    let after_version = payload.skip(version.len() as int);
    lemma_varint_round_trip(address.len() as u32, address + port + state);
    assert(after_version =~= count + (address + port + state));
    assert(after_version.subrange(count.len() as int, (count.len() + address.len()) as int)
        =~= address);

    let port_at = (version.len() + count.len() + address.len()) as int;
    assert(payload.subrange(port_at, port_at + 2) =~= port);
    assert(be_value(port) == server_port) by {
        reveal_with_fuel(be_value, 3);
        assert(port.drop_last() =~= seq![(server_port / 256) as u8]);
        assert(seq![(server_port / 256) as u8].drop_last() =~= Seq::<u8>::empty());
    }

    lemma_varint_round_trip(next_state, Seq::empty());
    assert(payload.skip(port_at + 2) =~= state + Seq::<u8>::empty());

    encode_utf8_valid_utf8(server_address);
    encode_utf8_decode_utf8(server_address);
}

/// Handshake round trip: the frame of a handshake, whatever follows it in
/// the buffer, decodes before any other packet to a handshake with the
/// very fields that it was made of, and takes the frame's bytes and no
/// more.
pub proof fn lemma_handshake_round_trip(
    protocol_version: u32,
    server_address: Seq<char>,
    server_port: u16,
    next_state: u32,
    rest: Seq<u8>,
)
    requires
        handshake_payload(protocol_version, server_address, server_port, next_state).len()
            < u32::MAX,
        intent_of(next_state) is Some,
    ensures
        decode_packet(
            handshake_frame(protocol_version, server_address, server_port, next_state) + rest,
            ClientIntent::AwaitingHandshake,
        ) == Ok::<Option<(PacketView, nat)>, ProtocolError>(
            Some(
                (
                    PacketView::Handshake {
                        id: 0,
                        protocol_version,
                        server_address,
                        server_port,
                        intent: intent_of(next_state)->0,
                        length: (1 + handshake_payload(
                            protocol_version,
                            server_address,
                            server_port,
                            next_state,
                        ).len()) as usize,
                    },
                    handshake_frame(
                        protocol_version,
                        server_address,
                        server_port,
                        next_state,
                    ).len(),
                ),
            ),
        ),
{
    let payload = handshake_payload(protocol_version, server_address, server_port, next_state);
    assert(varint_encoding(0) =~= seq![0u8]);
    lemma_frame_round_trip(0, payload, rest, ClientIntent::AwaitingHandshake);
    lemma_handshake_payload_round_trip(
        protocol_version,
        server_address,
        server_port,
        next_state,
        0,
        (1 + payload.len()) as usize,
    );
}

} // verus!
