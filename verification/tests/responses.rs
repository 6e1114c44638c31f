use bytes::BytesMut;
use minecraft_server::json::{Status, FAVICON, SAMPLE_ID, SAMPLE_NAME};
use minecraft_server::packets::{ClientIntent, Packet};
use minecraft_server::responses::{handle_packet, ping_packet, status_packet, Action};
use minecraft_server::server::MinecraftConnection;

fn connection_in(intent: ClientIntent, protocol_version: u32) -> MinecraftConnection {
    let mut conn = MinecraftConnection::new();
    conn.intent = intent;
    conn.protocol_version = protocol_version;
    conn
}

fn handshake(protocol_version: u32, intent: ClientIntent) -> Packet {
    Packet::Handshake {
        id: 0,
        protocol_version,
        server_address: String::from("localhost"),
        server_port: 25565,
        intent,
        length: 16,
    }
}

#[test]
fn status_document_fields() {
    let status = Status::new("1.21.8", 763, 20, 0, "Hello, World!");
    assert_eq!(status.version.name, "1.21.8");
    assert_eq!(status.version.protocol, 763);
    assert_eq!(status.players.max, 20);
    assert_eq!(status.players.online, 0);
    assert_eq!(status.players.sample.len(), 1);
    assert_eq!(status.players.sample[0].name, "I'm coded in Rust!");
    assert_eq!(status.players.sample[0].id, "0541ed27-7595-4e6a-9101-6c07f879b7b5");
    assert_eq!(status.description.text, "Hello, World!");
    assert_eq!(status.favicon, FAVICON);
    assert!(status.enforces_secure_chat);
    assert_eq!(SAMPLE_NAME, "I'm coded in Rust!");
    assert_eq!(SAMPLE_ID, "0541ed27-7595-4e6a-9101-6c07f879b7b5");
}

#[test]
fn status_document_takes_what_it_is_given() {
    let status = Status::new("", u32::MAX, 7, 9, "");
    assert_eq!(status.version.name, "");
    assert_eq!(status.version.protocol, u32::MAX);
    assert_eq!(status.players.max, 7);
    assert_eq!(status.players.online, 9);
    assert_eq!(status.description.text, "");
}

#[test]
fn favicon_text() {
    assert_eq!(FAVICON.len(), 1414);
    assert!(FAVICON.starts_with("data:image/png;base64,\n\t    iVBORw0KGgoAAAANSUhEUgAAAEAAAABACAYAAACqaXHe"));
    assert!(FAVICON.ends_with("/\n\t    nG9J9gAAAABJRU5ErkJggg=="));
    assert_eq!(FAVICON.matches("\n\t    ").count(), 16);
    let sum: u32 = FAVICON.bytes().map(u32::from).sum();
    assert_eq!(sum % 65536, 46987);
}

#[test]
fn handshake_sets_phase_and_version() {
    let phases = [ClientIntent::Status, ClientIntent::Login, ClientIntent::Transfer];
    for phase in phases {
        let mut conn = MinecraftConnection::new();
        assert_eq!(conn.intent, ClientIntent::AwaitingHandshake);
        assert_eq!(conn.protocol_version, 0);
        assert_eq!(handle_packet(&mut conn, &handshake(771, phase)), None);
        assert_eq!(conn.intent, phase);
        assert_eq!(conn.protocol_version, 771);
    }
}

#[test]
fn handshake_for_no_phase_closes() {
    for phase in [ClientIntent::Error, ClientIntent::AwaitingHandshake] {
        let mut conn = MinecraftConnection::new();
        conn.buffer.extend_from_slice(&[1, 2, 3]);
        assert_eq!(handle_packet(&mut conn, &handshake(771, phase)), Some(Action::Close));
        assert_eq!(conn.intent, ClientIntent::Error);
        assert_eq!(conn.protocol_version, 0);
        assert!(conn.buffer.is_empty());
    }
}

#[test]
fn second_handshake_is_ignored() {
    let mut conn = connection_in(ClientIntent::Status, 763);
    assert_eq!(handle_packet(&mut conn, &handshake(5, ClientIntent::Login)), None);
    assert_eq!(conn.intent, ClientIntent::Status);
    assert_eq!(conn.protocol_version, 763);
}

#[test]
fn status_response_echoes_protocol_version() {
    let mut conn = MinecraftConnection::new();
    assert_eq!(handle_packet(&mut conn, &handshake(763, ClientIntent::Status)), None);
    match handle_packet(&mut conn, &Packet::Status) {
        Some(Action::SendStatus(status)) => {
            assert_eq!(status.version.protocol, 763);
            assert_eq!(status, Status::new("1.21.8", 763, 20, 0, "Hello, World!"));
        }
        other => panic!("unexpected {:?}", other),
    }
    assert_eq!(conn.intent, ClientIntent::Status);
    assert_eq!(conn.protocol_version, 763);
}

#[test]
fn status_response_echoes_unsupported_versions_too() {
    for version in [0u32, 1, 47, 771, 0x7fff_ffff, u32::MAX] {
        let mut conn = connection_in(ClientIntent::Status, version);
        match handle_packet(&mut conn, &Packet::Status) {
            Some(Action::SendStatus(status)) => assert_eq!(status.version.protocol, version),
            other => panic!("unexpected {:?}", other),
        }
    }
}

#[test]
fn ping_echo() {
    let mut conn = connection_in(ClientIntent::Status, 763);
    let ping = Packet::Ping { id: 1, data: [1, 2, 3, 4, 5, 6, 7, 8], length: 9 };
    match handle_packet(&mut conn, &ping) {
        Some(Action::Send(bytes)) => {
            assert_eq!(&bytes[..], &[9, 0x01, 1, 2, 3, 4, 5, 6, 7, 8]);
        }
        other => panic!("unexpected {:?}", other),
    }
    assert_eq!(conn.intent, ClientIntent::Status);
}

#[test]
fn ping_packet_bytes() {
    assert_eq!(&ping_packet(&[0; 8])[..], &[9, 1, 0, 0, 0, 0, 0, 0, 0, 0]);
    assert_eq!(
        &ping_packet(&[0xff, 0xfe, 0xfd, 0xfc, 0xfb, 0xfa, 0xf9, 0xf8])[..],
        &[9, 1, 0xff, 0xfe, 0xfd, 0xfc, 0xfb, 0xfa, 0xf9, 0xf8]
    );
}

#[test]
fn ping_keeps_the_connection_open_for_more() {
    let mut conn = connection_in(ClientIntent::Status, 763);
    let ping = Packet::Ping { id: 1, data: [8, 7, 6, 5, 4, 3, 2, 1], length: 9 };
    assert!(matches!(handle_packet(&mut conn, &ping), Some(Action::Send(_))));
    assert!(matches!(handle_packet(&mut conn, &Packet::Status), Some(Action::SendStatus(_))));
    assert!(matches!(handle_packet(&mut conn, &ping), Some(Action::Send(_))));
    assert_eq!(conn.intent, ClientIntent::Status);
}

#[test]
fn login_start_is_handed_on() {
    let mut conn = connection_in(ClientIntent::Login, 771);
    let login = Packet::Login { id: 0, name: String::from("Steve"), uuid: 42, length: 23 };
    assert_eq!(
        handle_packet(&mut conn, &login),
        Some(Action::Login { name: String::from("Steve"), uuid: 42 })
    );
    assert_eq!(conn.intent, ClientIntent::Login);
    assert_eq!(conn.protocol_version, 771);
}

#[test]
fn unknown_packet_changes_nothing() {
    let phases = [ClientIntent::AwaitingHandshake, ClientIntent::Status, ClientIntent::Login];
    for phase in phases {
        let mut conn = connection_in(phase, 763);
        conn.buffer.extend_from_slice(&[5, 6]);
        assert_eq!(handle_packet(&mut conn, &Packet::Unhandled { id: 0x7f, length: 4 }), None);
        assert_eq!(conn.intent, phase);
        assert_eq!(conn.protocol_version, 763);
        assert_eq!(&conn.buffer[..], &[5, 6]);
    }
}

#[test]
fn packets_of_another_phase_change_nothing() {
    let ping = Packet::Ping { id: 1, data: [0; 8], length: 9 };
    let login = Packet::Login { id: 0, name: String::from("x"), uuid: 1, length: 19 };
    let mut conn = connection_in(ClientIntent::AwaitingHandshake, 0);
    assert_eq!(handle_packet(&mut conn, &Packet::Status), None);
    assert_eq!(handle_packet(&mut conn, &ping), None);
    assert_eq!(handle_packet(&mut conn, &login), None);
    assert_eq!(conn.intent, ClientIntent::AwaitingHandshake);
    let mut conn = connection_in(ClientIntent::Status, 763);
    assert_eq!(handle_packet(&mut conn, &login), None);
    assert_eq!(conn.intent, ClientIntent::Status);
    let mut conn = connection_in(ClientIntent::Login, 763);
    assert_eq!(handle_packet(&mut conn, &Packet::Status), None);
    assert_eq!(handle_packet(&mut conn, &ping), None);
    assert_eq!(conn.intent, ClientIntent::Login);
}

#[test]
fn transfer_phase_closes_on_any_packet() {
    let packets = [
        Packet::Unhandled { id: 0x7f, length: 1 },
        Packet::Status,
        handshake(763, ClientIntent::Status),
    ];
    for packet in packets {
        let mut conn = connection_in(ClientIntent::Transfer, 763);
        assert_eq!(handle_packet(&mut conn, &packet), Some(Action::Close));
        assert_eq!(conn.intent, ClientIntent::Error);
    }
}

#[test]
fn closed_connection_ignores_everything() {
    let mut conn = connection_in(ClientIntent::Error, 763);
    assert_eq!(handle_packet(&mut conn, &Packet::Status), None);
    assert_eq!(handle_packet(&mut conn, &handshake(5, ClientIntent::Status)), None);
    assert_eq!(conn.intent, ClientIntent::Error);
    assert_eq!(conn.protocol_version, 763);
}

#[test]
fn close_drops_pending_bytes() {
    let mut conn = connection_in(ClientIntent::Status, 763);
    conn.buffer.extend_from_slice(&[1, 2, 3]);
    conn.close();
    assert_eq!(conn.intent, ClientIntent::Error);
    assert_eq!(conn.protocol_version, 763);
    assert!(conn.buffer.is_empty());
}

#[test]
fn status_packet_of_a_short_document() {
    let packet: Option<BytesMut> = status_packet("{}");
    assert_eq!(&packet.unwrap()[..], &[4, 0x00, 2, b'{', b'}']);
}

#[test]
fn status_packet_of_an_empty_document() {
    assert_eq!(&status_packet("").unwrap()[..], &[2, 0x00, 0]);
}

#[test]
fn status_packet_with_two_byte_lengths() {
    let document = "x".repeat(200);
    let packet = status_packet(&document).unwrap();
    assert_eq!(packet.len(), 2 + 1 + 2 + 200);
    assert_eq!(&packet[..5], &[0xcb, 0x01, 0x00, 0xc8, 0x01]);
    assert_eq!(&packet[5..], document.as_bytes());
}

#[test]
fn status_packet_length_counts_bytes() {
    let document = "\u{e9}t\u{e9}";
    assert_eq!(document.len(), 5);
    let packet = status_packet(document).unwrap();
    assert_eq!(&packet[..], &[7, 0x00, 5, 0xc3, 0xa9, b't', 0xc3, 0xa9]);
}

#[test]
fn status_packet_at_the_one_byte_limit() {
    let packet = status_packet(&"y".repeat(125)).unwrap();
    assert_eq!(&packet[..3], &[127, 0x00, 125]);
    let packet = status_packet(&"y".repeat(126)).unwrap();
    assert_eq!(&packet[..4], &[0x80, 0x01, 0x00, 126]);
    let packet = status_packet(&"y".repeat(127)).unwrap();
    assert_eq!(&packet[..4], &[0x81, 0x01, 0x00, 127]);
    let packet = status_packet(&"y".repeat(128)).unwrap();
    assert_eq!(&packet[..5], &[0x83, 0x01, 0x00, 0x80, 0x01]);
}
