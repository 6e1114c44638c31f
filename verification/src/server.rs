//! Connections and the table that the server keeps of them.

use crate::buffer::buf_bytes;
use crate::packets::{
    decode_packet, frame_header, lemma_decode_packet_bounds, lemma_decode_packet_extend,
    ClientIntent, FrameHeader, Packet, PacketView, ProtocolError,
};
use crate::responses::{action_view, closed, handle_packet, transition, Action, ActionView};
use bytes::BytesMut;
use std::collections::HashMap;
use vstd::prelude::*;

verus! {

/// One peer: the bytes received from it and not yet consumed, the protocol
/// version that its handshake declared (0 before that), and its phase. The
/// socket itself stays with whoever reads from it.
pub struct MinecraftConnection {
    pub buffer: BytesMut,
    pub protocol_version: u32,
    pub intent: ClientIntent,
}

/// A connection as contracts see it.
pub struct ConnectionView {
    pub buffer: Seq<u8>,
    pub protocol_version: u32,
    pub intent: ClientIntent,
}

impl View for MinecraftConnection {
    type V = ConnectionView;

    open spec fn view(&self) -> ConnectionView {
        ConnectionView {
            buffer: buf_bytes(self.buffer),
            protocol_version: self.protocol_version,
            intent: self.intent,
        }
    }
}

/// A connection on which nothing has happened yet.
pub open spec fn fresh_connection() -> ConnectionView {
    ConnectionView {
        buffer: Seq::empty(),
        protocol_version: 0,
        intent: ClientIntent::AwaitingHandshake,
    }
}

/// The connection with `data` appended to its pending bytes. A closed
/// connection takes nothing in.
pub open spec fn feed(conn: ConnectionView, data: Seq<u8>) -> ConnectionView {
    if conn.intent == ClientIntent::Error {
        conn
    } else {
        ConnectionView {
            buffer: conn.buffer + data,
            protocol_version: conn.protocol_version,
            intent: conn.intent,
        }
    }
}

/// One round of decoding and handling: `None` when the connection is
/// closed or its next frame is not complete; else the connection after the
/// frame and what is to be done. A frame that breaks the protocol closes
/// the connection.
pub open spec fn step(conn: ConnectionView) -> Option<(ConnectionView, Option<ActionView>)> {
    if conn.intent == ClientIntent::Error {
        None
    } else {
        match decode_packet(conn.buffer, conn.intent) {
            Ok(None) => None,
            Err(_) => Some((closed(conn), Some(ActionView::Close))),
            Ok(Some((packet, consumed))) => Some(
                transition(
                    ConnectionView {
                        buffer: conn.buffer.skip(consumed as int),
                        protocol_version: conn.protocol_version,
                        intent: conn.intent,
                    },
                    packet,
                ),
            ),
        }
    }
}

/// Rounds of `step` until none is left: the connection at the end, and the
/// actions in the order in which the packets arrived.
pub open spec fn drain(conn: ConnectionView) -> (ConnectionView, Seq<ActionView>)
    decreases conn.buffer.len(),
    via drain_decreases
{
    match step(conn) {
        None => (conn, Seq::empty()),
        Some((next, action)) => {
            let (last, actions) = drain(next);
            match action {
                Some(action) => (last, seq![action] + actions),
                None => (last, actions),
            }
        },
    }
}

#[via_fn]
proof fn drain_decreases(conn: ConnectionView) {
    lemma_step_shortens(conn);
}

/// Every round leaves fewer bytes pending than it found.
pub proof fn lemma_step_shortens(conn: ConnectionView)
    ensures
        step(conn) matches Some((next, _)) ==> next.buffer.len() < conn.buffer.len(),
{
    lemma_decode_packet_bounds(conn.buffer, conn.intent);
}

/// What receiving `data` does to a connection: the bytes are appended and
/// every complete frame is handled.
pub open spec fn process(conn: ConnectionView, data: Seq<u8>) -> (ConnectionView, Seq<ActionView>) {
    drain(feed(conn, data))
}

/// What receiving `data` does when memory is taken into account: a
/// connection whose pending bytes would no longer fit in one buffer if
/// `data` were added is closed; any other does as `process` says.
pub open spec fn receive(conn: ConnectionView, data: Seq<u8>) -> (ConnectionView, Seq<ActionView>) {
    if conn.intent != ClientIntent::Error && conn.buffer.len() + data.len() > isize::MAX {
        (closed(conn), seq![ActionView::Close])
    } else {
        process(conn, data)
    }
}

/// The views of a list of actions.
pub open spec fn action_views(actions: Seq<Action>) -> Seq<ActionView> {
    actions.map_values(|action: Action| action@)
}

/// Appending bytes to a connection before a packet is handled, or after,
/// comes to the same: the state machine looks at no pending byte.
pub proof fn lemma_transition_feed(conn: ConnectionView, packet: PacketView, more: Seq<u8>)
    requires
        conn.intent != ClientIntent::Error,
    ensures
        transition(feed(conn, more), packet) == (
            feed(transition(conn, packet).0, more),
            transition(conn, packet).1,
        ),
{
}

/// A round that can be made now gives the same when more bytes are
/// pending behind the frame.
pub proof fn lemma_step_feed(conn: ConnectionView, more: Seq<u8>)
    ensures
        step(conn) matches Some((next, action)) ==> step(feed(conn, more)) == Some(
            (feed(next, more), action),
        ),
{
    if step(conn) is Some {
        lemma_decode_packet_extend(conn.buffer, more, conn.intent);
        lemma_decode_packet_bounds(conn.buffer, conn.intent);
    }
    if let (Some(_), Ok(Some((packet, consumed)))) = (
        step(conn),
        decode_packet(conn.buffer, conn.intent),
    ) {
        let taken = ConnectionView {
            buffer: conn.buffer.skip(consumed as int),
            protocol_version: conn.protocol_version,
            intent: conn.intent,
        };
        assert((conn.buffer + more).skip(consumed as int) =~= conn.buffer.skip(consumed as int)
            + more);
        lemma_transition_feed(taken, packet, more);
    }
}

/// Bytes that arrive while frames are still pending are handled after
/// them, as if they had arrived once the pending frames were done.
pub proof fn lemma_drain_feed(conn: ConnectionView, more: Seq<u8>)
    ensures
        drain(feed(conn, more)) == (
            drain(feed(drain(conn).0, more)).0,
            drain(conn).1 + drain(feed(drain(conn).0, more)).1,
        ),
    decreases conn.buffer.len(),
{
    match step(conn) {
        None => {
            assert(drain(conn).1 + drain(feed(conn, more)).1 =~= drain(feed(conn, more)).1);
        },
        Some((next, action)) => {
            lemma_step_shortens(conn);
            lemma_step_feed(conn, more);
            lemma_drain_feed(next, more);
            let rest = drain(feed(drain(next).0, more)).1;
            if let Some(action) = action {
                assert(seq![action] + (drain(next).1 + rest) =~= (seq![action] + drain(next).1)
                    + rest);
            }
        },
    }
}

/// Bytes that arrive in two reads are handled as if they had arrived in
/// one: the connection ends in the same state, and the same actions are
/// asked for in the same order. So a frame that is cut anywhere by the
/// reads is decoded as if it had come whole.
pub proof fn lemma_process_split(conn: ConnectionView, first: Seq<u8>, second: Seq<u8>)
    ensures
        ({
            let (middle, early) = process(conn, first);
            let (last, late) = process(middle, second);
            process(conn, first + second) == (last, early + late)
        }),
{
    if conn.intent == ClientIntent::Error {
        assert(step(conn) is None);
        assert(Seq::<ActionView>::empty() + Seq::<ActionView>::empty() =~= Seq::<
            ActionView,
        >::empty());
    } else {
        assert(feed(conn, first + second).buffer =~= feed(feed(conn, first), second).buffer);
        lemma_drain_feed(feed(conn, first), second);
    }
}

/// A connection is closed by the last action asked for, and by no other:
/// handling ends closed exactly when the list of actions ends in `Close`,
/// and `Close` stands nowhere else in the list.
pub proof fn lemma_close_is_last(conn: ConnectionView)
    requires
        conn.intent != ClientIntent::Error,
    ensures
        drain(conn).0.intent == ClientIntent::Error <==> drain(conn).1.len() > 0 && drain(
            conn,
        ).1.last() == ActionView::Close,
        forall|i: int|
            0 <= i < drain(conn).1.len() - 1 ==> #[trigger] drain(conn).1[i] != ActionView::Close,
    decreases conn.buffer.len(),
{
    match step(conn) {
        None => {},
        Some((next, action)) => {
            lemma_step_shortens(conn);
            assert(next.intent == ClientIntent::Error <==> action == Some(ActionView::Close));
            if next.intent == ClientIntent::Error {
                assert(step(next) is None);
            } else {
                lemma_close_is_last(next);
                let later = drain(next).1;
                if let Some(first) = action {
                    let all = seq![first] + later;
                    assert(drain(conn).1 == all);
                    assert forall|i: int| 0 <= i < all.len() - 1 implies #[trigger] all[i]
                        != ActionView::Close by {
                        if i > 0 {
                            assert(all[i] == later[i - 1]);
                        }
                    }
                    if later.len() > 0 {
                        assert(all.last() == later.last());
                    }
                }
            }
        },
    }
}

/// A whole frame whose packet id is neither 0 nor 1 is taken off the
/// pending bytes and changes nothing else: the connection stays open, in
/// the phase it was in, and nothing is sent. This holds before the
/// handshake and in the status and login phases.
pub proof fn lemma_unknown_packet_ignored(conn: ConnectionView, header: FrameHeader)
    requires
        conn.intent == ClientIntent::AwaitingHandshake || conn.intent == ClientIntent::Status
            || conn.intent == ClientIntent::Login,
        frame_header(conn.buffer) == Ok::<Option<FrameHeader>, ProtocolError>(Some(header)),
        header.packet_id > 1,
        header.id_bytes <= header.total_length,
        header.length_bytes + header.total_length <= conn.buffer.len(),
    ensures
        step(conn) == Some(
            (
                ConnectionView {
                    buffer: conn.buffer.skip(header.length_bytes + header.total_length),
                    protocol_version: conn.protocol_version,
                    intent: conn.intent,
                },
                None::<ActionView>,
            ),
        ),
{
}

impl MinecraftConnection {
    /// A connection as it is when the peer has just been accepted.
    pub fn new() -> (conn: Self)
        ensures
            conn@ == fresh_connection(),
    {
        Self {
            buffer: BytesMut::with_capacity(1024),
            protocol_version: 0,
            intent: ClientIntent::AwaitingHandshake,
        }
    }

    /// Closes the connection and drops what it had pending.
    pub fn close(&mut self)
        ensures
            final(self)@ == closed(old(self)@),
    {
        self.buffer.clear();
        self.intent = ClientIntent::Error;
    }

    /// Takes the next packet off the pending bytes, if a whole frame is
    /// there. See `Packet::parse`.
    pub fn next_packet(&mut self) -> (parsed: Result<Option<Packet>, ProtocolError>)
        ensures
            final(self).protocol_version == old(self).protocol_version,
            final(self).intent == old(self).intent,
            match decode_packet(old(self)@.buffer, old(self).intent) {
                Ok(Some((packet, consumed))) => parsed matches Ok(Some(p)) && p@ == packet
                    && final(self)@.buffer == old(self)@.buffer.skip(consumed as int),
                Ok(None) => parsed matches Ok(None) && final(self)@.buffer == old(self)@.buffer,
                Err(error) => parsed == Err::<Option<Packet>, ProtocolError>(error)
                    && final(self)@.buffer == old(self)@.buffer,
            },
    {
        if self.buffer.len() == 0 {
            return Ok(None);
        }
        Packet::parse(&mut self.buffer, &self.intent)
    }
}

/// The server: where it listens, and the connections that are open, each
/// under the identifier that it was registered with. Nothing but the
/// methods below reaches a connection in the table.
pub struct MinecraftServer {
    host: String,
    port: String,
    connections: HashMap<u64, MinecraftConnection>,
}

impl MinecraftServer {
    /// The host name or address to bind.
    pub closed spec fn host_view(&self) -> Seq<char> {
        self.host@
    }

    /// The port to bind.
    pub closed spec fn port_view(&self) -> Seq<char> {
        self.port@
    }

    /// The open connections, by identifier.
    pub closed spec fn connections(&self) -> Map<u64, ConnectionView> {
        self.connections@.map_values(|conn: MinecraftConnection| conn@)
    }

    /// A server for `host` and `port` with no connection open.
    pub fn new(host: &str, port: &str) -> (server: Self)
        ensures
            server.host_view() == host@,
            server.port_view() == port@,
            server.connections() == Map::<u64, ConnectionView>::empty(),
    {
        let server = Self {
            host: host.to_owned(),
            port: port.to_owned(),
            connections: HashMap::new(),
        };
        assert(server.connections() =~= Map::<u64, ConnectionView>::empty());
        server
    }

    /// The host name or address to bind.
    pub fn host(&self) -> (host: &String)
        ensures
            host@ == self.host_view(),
    {
        &self.host
    }

    /// The port to bind.
    pub fn port(&self) -> (port: &String)
        ensures
            port@ == self.port_view(),
    {
        &self.port
    }

    /// Registers a newly accepted peer under `id`. An identifier that is in
    /// use is refused, and the connection that holds it is left alone.
    pub fn accept(&mut self, id: u64) -> (accepted: bool)
        ensures
            final(self).host_view() == old(self).host_view(),
            final(self).port_view() == old(self).port_view(),
            accepted == !old(self).connections().contains_key(id),
            accepted ==> final(self).connections() == old(self).connections().insert(
                id,
                fresh_connection(),
            ),
            !accepted ==> final(self).connections() == old(self).connections(),
    {
        if self.connections.contains_key(&id) {
            return false;
        }
        let conn = MinecraftConnection::new();
        self.connections.insert(id, conn);
        assert(final(self).connections() =~= old(self).connections().insert(id, conn@));
        true
    }

    /// Forgets the connection registered under `id`, after the peer has
    /// gone or its socket has failed. Says whether there was one.
    pub fn disconnect(&mut self, id: u64) -> (removed: bool)
        ensures
            final(self).host_view() == old(self).host_view(),
            final(self).port_view() == old(self).port_view(),
            removed == old(self).connections().contains_key(id),
            final(self).connections() == old(self).connections().remove(id),
    {
        let removed = self.connections.remove(&id);
        assert(final(self).connections() =~= old(self).connections().remove(id));
        removed.is_some()
    }

    /// Takes in the bytes that were read from one peer and handles every
    /// frame that they complete, in order. The actions are returned in
    /// the order in which they are to be carried out. A connection that
    /// was closed before takes nothing in and asks for nothing; one whose
    /// pending bytes would outgrow the buffer is closed.
    pub fn handle_client_data(conn: &mut MinecraftConnection, data: &[u8]) -> (actions: Vec<
        Action,
    >)
        ensures
            (final(conn)@, action_views(actions@)) == receive(old(conn)@, data@),
    {
        let mut actions: Vec<Action> = Vec::new();
        let mut done: bool = false;
        assert(action_views(actions@) =~= Seq::<ActionView>::empty());
        match conn.intent {
            ClientIntent::Error => {
                done = true;
            },
            _ => {
                let fits = match conn.buffer.len().checked_add(data.len()) {
                    Some(total) => total <= isize::MAX as usize,
                    None => false,
                };
                if !fits {
                    conn.close();
                    actions.push(Action::Close);
                    assert(action_views(actions@) =~= seq![ActionView::Close]);
                    return actions;
                }
                conn.buffer.extend_from_slice(data);
            },
        }
        while !done
            invariant
                process(old(conn)@, data@) == (
                    drain(conn@).0,
                    action_views(actions@) + drain(conn@).1,
                ),
                done ==> step(conn@) is None,
                !done ==> conn.intent != ClientIntent::Error,
            decreases conn@.buffer.len() + (if done { 0nat } else { 1nat }),
        {
            let ghost before = conn@;
            let ghost listed = action_views(actions@);
            proof {
                lemma_step_shortens(before);
            }
            match conn.next_packet() {
                Ok(None) => {
                    done = true;
                },
                Err(_) => {
                    conn.close();
                    actions.push(Action::Close);
                    done = true;
                    proof {
                        assert(step(before) == Some((conn@, Some(ActionView::Close))));
                        assert(action_views(actions@) =~= listed + seq![ActionView::Close]);
                        assert(listed + (seq![ActionView::Close] + drain(conn@).1) =~= listed
                            + seq![ActionView::Close] + drain(conn@).1);
                    }
                },
                Ok(Some(packet)) => {
                    let ghost taken = conn@;
                    let action = handle_packet(conn, &packet);
                    proof {
                        assert(step(before) == Some(transition(taken, packet@)));
                        assert(step(before) == Some((conn@, action_view(action))));
                    }
                    match action {
                        Some(action) => {
                            let ghost view = action@;
                            actions.push(action);
                            proof {
                                assert(action_views(actions@) =~= listed + seq![view]);
                                assert(listed + (seq![view] + drain(conn@).1) =~= listed + seq![
                                    view,
                                ] + drain(conn@).1);
                            }
                        },
                        None => {},
                    }
                    match conn.intent {
                        ClientIntent::Error => {
                            done = true;
                        },
                        _ => {},
                    }
                },
            }
        }
        assert(action_views(actions@) + Seq::<ActionView>::empty() =~= action_views(actions@));
        actions
    }

    /// Hands the bytes read from the peer registered under `id` to its
    /// connection, and to no other. `None` when nothing is registered
    /// under `id`. A connection that ends up closed leaves the table.
    pub fn dispatch(&mut self, id: u64, data: &[u8]) -> (actions: Option<Vec<Action>>)
        ensures
            final(self).host_view() == old(self).host_view(),
            final(self).port_view() == old(self).port_view(),
            forall|other: u64|
                other != id ==> (final(self).connections().contains_key(other) == old(self).connections().contains_key(other) && final(self).connections()[other] == old(self).connections()[other]),
            !old(self).connections().contains_key(id) ==> actions is None && final(self).connections() == old(self).connections(),
            old(self).connections().contains_key(id) ==> ({
                let (after, asked) = receive(old(self).connections()[id], data@);
                &&& actions matches Some(list) && action_views(list@) == asked
                &&& final(self).connections() == if after.intent == ClientIntent::Error {
                    old(self).connections().remove(id)
                } else {
                    old(self).connections().insert(id, after)
                }
            }),
    {
        match self.connections.remove(&id) {
            None => {
                assert(final(self).connections() =~= old(self).connections());
                None
            },
            Some(conn) => {
                let mut conn = conn;
                let actions = Self::handle_client_data(&mut conn, data);
                match conn.intent {
                    ClientIntent::Error => {
                        assert(final(self).connections() =~= old(self).connections().remove(id));
                    },
                    _ => {
                        self.connections.insert(id, conn);
                        assert(final(self).connections() =~= old(self).connections().insert(
                            id,
                            conn@,
                        ));
                    },
                }
                Some(actions)
            },
        }
    }
}

} // verus!
