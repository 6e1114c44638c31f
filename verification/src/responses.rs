//! The connection state machine: what each packet does to the connection
//! that received it, and what is to be sent back.

use crate::buffer::{buf_bytes, put_byte};
use crate::json::{status_document, Status, StatusView};
use crate::packets::{ClientIntent, Packet, PacketView};
use crate::server::{ConnectionView, MinecraftConnection};
use crate::utils::{lemma_encoding_len, varint_encoding, varint_size, write_varint};
use bytes::BytesMut;
use vstd::prelude::*;
use vstd::utf8::encode_utf8;

verus! {

/// The version name in the status document.
pub const SERVER_VERSION: &'static str = "1.21.8";

/// The capacity announced in the status document.
pub const MAX_PLAYERS: u32 = 20;

/// The head count announced in the status document.
pub const ONLINE_PLAYERS: u32 = 0;

/// The message of the day in the status document.
pub const DESCRIPTION: &'static str = "Hello, World!";

/// The packet id of a status response.
pub const STATUS_RESPONSE_ID: u8 = 0x00;

/// The packet id of a ping response.
pub const PING_RESPONSE_ID: u8 = 0x01;

/// What the owner of the socket is to do for a connection.
#[derive(Debug, PartialEq, Eq)]
pub enum Action {
    /// Write these bytes to the peer: one whole frame.
    Send(BytesMut),
    /// Serialize this document, frame it with `status_packet` and write
    /// the frame to the peer.
    SendStatus(Status),
    /// Hand the request to whatever completes logins.
    Login { name: String, uuid: u128 },
    /// Close the socket and forget the connection.
    Close,
}

/// An action as contracts see it.
pub enum ActionView {
    Send(Seq<u8>),
    SendStatus(StatusView),
    Login { name: Seq<char>, uuid: u128 },
    Close,
}

impl View for Action {
    type V = ActionView;

    open spec fn view(&self) -> ActionView {
        match *self {
            Action::Send(bytes) => ActionView::Send(buf_bytes(bytes)),
            Action::SendStatus(status) => ActionView::SendStatus(status@),
            Action::Login { name, uuid } => ActionView::Login { name: name@, uuid },
            Action::Close => ActionView::Close,
        }
    }
}

/// The view of an action that may be absent.
pub open spec fn action_view(action: Option<Action>) -> Option<ActionView> {
    match action {
        Some(action) => Some(action@),
        None => None,
    }
}

/// The frame that answers a ping: length 9, packet id 1, and the eight
/// bytes of the request.
pub open spec fn ping_frame(data: Seq<u8>) -> Seq<u8> {
    varint_encoding(9) + seq![PING_RESPONSE_ID] + data
}

/// The frame that carries a status document: the length of all that
/// follows it, packet id 0, the length of the document, the document.
pub open spec fn status_frame(document: Seq<u8>) -> Seq<u8> {
    let document_length = varint_encoding(document.len());
    varint_encoding(1 + document_length.len() + document.len()) + seq![STATUS_RESPONSE_ID]
        + document_length + document
}

/// Whether a document can be framed: the packet length must fit in 32
/// bits, and the frame in memory.
pub open spec fn status_fits(document: Seq<u8>) -> bool {
    &&& 1 + varint_encoding(document.len()).len() + document.len() <= u32::MAX
    &&& status_frame(document).len() <= isize::MAX
}

/// The connection once it is closed: nothing pending, no phase to follow.
pub open spec fn closed(conn: ConnectionView) -> ConnectionView {
    ConnectionView {
        buffer: Seq::empty(),
        protocol_version: conn.protocol_version,
        intent: ClientIntent::Error,
    }
}

/// The state machine: the connection after `packet`, and what is to be
/// done for it.
///
/// A closed connection ignores everything. A connection in the transfer
/// phase is closed by whatever arrives. A handshake is taken only before
/// any other, and only for one of the three phases that a peer can ask
/// for. A status request and a ping are answered in the status phase, a
/// login start is handed on in the login phase, and any other packet
/// changes nothing.
pub open spec fn transition(conn: ConnectionView, packet: PacketView) -> (
    ConnectionView,
    Option<ActionView>,
) {
    match conn.intent {
        ClientIntent::Error => (conn, None),
        ClientIntent::Transfer => (closed(conn), Some(ActionView::Close)),
        ClientIntent::AwaitingHandshake => match packet {
            PacketView::Handshake { protocol_version, intent, .. } => if intent
                == ClientIntent::Status || intent == ClientIntent::Login || intent
                == ClientIntent::Transfer {
                (ConnectionView { buffer: conn.buffer, protocol_version, intent }, None)
            } else {
                (closed(conn), Some(ActionView::Close))
            },
            _ => (conn, None),
        },
        ClientIntent::Status => match packet {
            PacketView::Status => (
                conn,
                Some(
                    ActionView::SendStatus(
                        status_document(
                            SERVER_VERSION@,
                            conn.protocol_version,
                            MAX_PLAYERS,
                            ONLINE_PLAYERS,
                            DESCRIPTION@,
                        ),
                    ),
                ),
            ),
            PacketView::Ping { data, .. } => (conn, Some(ActionView::Send(ping_frame(data)))),
            _ => (conn, None),
        },
        ClientIntent::Login => match packet {
            PacketView::Login { name, uuid, .. } => (conn, Some(ActionView::Login { name, uuid })),
            _ => (conn, None),
        },
    }
}

/// Runs one decoded packet through the state machine.
pub fn handle_packet(conn: &mut MinecraftConnection, packet: &Packet) -> (action: Option<Action>)
    ensures
        (final(conn)@, action_view(action)) == transition(old(conn)@, packet@),
{
    match conn.intent {
        ClientIntent::Error => None,
        ClientIntent::Transfer => {
            conn.close();
            Some(Action::Close)
        },
        ClientIntent::AwaitingHandshake => match packet {
            Packet::Handshake { protocol_version, intent, .. } => match intent {
                ClientIntent::Status | ClientIntent::Login | ClientIntent::Transfer => {
                    conn.protocol_version = *protocol_version;
                    conn.intent = *intent;
                    None
                },
                _ => {
                    conn.close();
                    Some(Action::Close)
                },
            },
            _ => None,
        },
        ClientIntent::Status => match packet {
            Packet::Status => Some(
                Action::SendStatus(
                    Status::new(
                        SERVER_VERSION,
                        conn.protocol_version,
                        MAX_PLAYERS,
                        ONLINE_PLAYERS,
                        DESCRIPTION,
                    ),
                ),
            ),
            Packet::Ping { data, .. } => Some(Action::Send(ping_packet(data))),
            _ => None,
        },
        ClientIntent::Login => match packet {
            Packet::Login { name, uuid, .. } => Some(
                Action::Login { name: name.clone(), uuid: *uuid },
            ),
            _ => None,
        },
    }
}

/// Builds the answer to a ping: the payload goes back as it came.
pub fn ping_packet(data: &[u8; 8]) -> (packet: BytesMut)
    ensures
        buf_bytes(packet) == ping_frame(data@),
{
    let packet_size = write_varint(1 + 8);

    let mut out = BytesMut::with_capacity(16);
    out.extend_from_slice(packet_size.as_slice());
    put_byte(&mut out, PING_RESPONSE_ID);
    out.extend_from_slice(data.as_slice());
    out
}

/// Frames a serialized status document for sending. `None` when the
/// document is too long for a frame.
pub fn status_packet(document: &str) -> (packet: Option<BytesMut>)
    ensures
        match packet {
            Some(frame) => status_fits(encode_utf8(document@)) && buf_bytes(frame) == status_frame(
                encode_utf8(document@),
            ),
            None => !status_fits(encode_utf8(document@)),
        },
{
    let bytes = document.as_bytes();
    proof {
        lemma_encoding_len(bytes@.len());
    }
    if bytes.len() > 0xFFFF_FFF9 {
        return None;
    }
    let document_length: u32 = bytes.len() as u32;
    let packet_length: u32 = varint_size(document_length) + 1 + document_length;
    let packet_len = write_varint(packet_length);
    let status_len = write_varint(document_length);
    if packet_length as usize > isize::MAX as usize - packet_len.len() {
        return None;
    }
    let mut out = BytesMut::with_capacity(16);
    out.extend_from_slice(packet_len.as_slice());
    put_byte(&mut out, STATUS_RESPONSE_ID);
    out.extend_from_slice(status_len.as_slice());
    out.extend_from_slice(bytes);
    Some(out)
}

/// The status document that answers a request carries the protocol version
/// that the peer declared in its handshake, whatever that version is.
pub proof fn lemma_status_echoes_protocol(conn: ConnectionView, handshake: PacketView)
    requires
        conn.intent == ClientIntent::AwaitingHandshake,
        handshake matches PacketView::Handshake { intent, .. } && intent == ClientIntent::Status,
    ensures
        ({
            let (ready, silent) = transition(conn, handshake);
            let (after, answer) = transition(ready, PacketView::Status);
            &&& silent is None
            &&& ready.intent == ClientIntent::Status
            &&& after == ready
            &&& answer matches Some(ActionView::SendStatus(document))
            &&& document.protocol == handshake->protocol_version
        }),
{
}

/// A ping in the status phase is answered by one frame of ten bytes: the
/// length 9, the packet id 1 and the eight bytes of the request in their
/// order. The connection stays as it was.
pub proof fn lemma_ping_echo(conn: ConnectionView, id: u32, data: Seq<u8>, length: usize)
    requires
        conn.intent == ClientIntent::Status,
    ensures
        transition(conn, PacketView::Ping { id, data, length }) == (
            conn,
            Some(ActionView::Send(seq![9u8, 1u8] + data)),
        ),
{
    assert(varint_encoding(9) + seq![PING_RESPONSE_ID] =~= seq![9u8, 1u8]);
}

} // verus!
