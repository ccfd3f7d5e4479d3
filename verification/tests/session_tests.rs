use blockserver::codec::{push_u16_be, push_u64_be, write_string_to_vec, write_varint_to_vec, Cursor,
    read_string_from_cursor, read_varint_from_cursor, FormatError};
use blockserver::player::Roster;
use blockserver::protocol::{ConnectionState, ProtocolError, Session};

fn handshake_frame(protocol: i32, address: &str, port: u16, next_state: i32) -> Vec<u8> {
    let mut frame = write_varint_to_vec(0x00);
    frame.extend(write_varint_to_vec(protocol));
    frame.extend(write_string_to_vec(address));
    push_u16_be(&mut frame, port);
    frame.extend(write_varint_to_vec(next_state));
    frame
}

fn login_frame(username: &str) -> Vec<u8> {
    let mut frame = write_varint_to_vec(0x00);
    frame.extend(write_string_to_vec(username));
    frame
}

fn position_frame(x: f64, y: f64, z: f64) -> Vec<u8> {
    let mut frame = write_varint_to_vec(0x12);
    push_u64_be(&mut frame, x.to_bits());
    push_u64_be(&mut frame, y.to_bits());
    push_u64_be(&mut frame, z.to_bits());
    frame
}

/// Split one outbound packet into (packet id, rest-of-payload cursor).
fn open_packet(bytes: Vec<u8>) -> (i32, Cursor) {
    let total = bytes.len();
    let mut cur = Cursor::new(bytes);
    let declared = read_varint_from_cursor(&mut cur).expect("length prefix") as usize;
    let id = read_varint_from_cursor(&mut cur).expect("packet id");
    assert!(declared <= total);
    (id, cur)
}

fn contains_subslice(haystack: &[u8], needle: &[u8]) -> bool {
    haystack.windows(needle.len()).any(|w| w == needle)
}

#[test]
fn full_happy_path() {
    let mut roster = Roster::new();
    let mut session = Session::new();
    let uuid: u128 = 0x0123_4567_89AB_CDEF_0123_4567_89AB_CDEF;

    let out = session
        .on_frame(&mut roster, uuid, handshake_frame(767, "localhost", 25565, 2))
        .expect("handshake");
    assert!(out.is_empty());
    assert_eq!(session.state, ConnectionState::LoggingIn);
    assert_eq!(roster.len(), 0);

    let out = session
        .on_frame(&mut roster, uuid, login_frame("sd"))
        .expect("login");
    assert_eq!(out.len(), 2);
    assert_eq!(session.state, ConnectionState::Playing);

    // first packet: login success with the fresh identity and the username
    let (id, mut cur) = open_packet(out[0].clone());
    assert_eq!(id, 0x02);
    let uuid_text = read_string_from_cursor(&mut cur).expect("uuid text");
    assert_eq!(uuid_text, uuid::Uuid::from_u128(uuid).to_string());
    let name = read_string_from_cursor(&mut cur).expect("username");
    assert_eq!(name, "sd");

    // second packet: join/world metadata naming the overworld
    let (id, _) = open_packet(out[1].clone());
    assert_eq!(id, 0x26);
    let overworld = write_string_to_vec("minecraft:overworld");
    assert!(contains_subslice(&out[1], &overworld));

    // roster: exactly one player, "sd", at spawn (0, 64, 0)
    assert_eq!(roster.len(), 1);
    let p = roster.get(0);
    assert_eq!(p.username, "sd");
    assert_eq!(p.uuid, uuid);
    assert_eq!(f64::from_bits(p.position.x_bits), 0.0);
    assert_eq!(f64::from_bits(p.position.y_bits), 64.0);
    assert_eq!(f64::from_bits(p.position.z_bits), 0.0);
}

#[test]
fn status_path_short_circuits() {
    let mut roster = Roster::new();
    let mut session = Session::new();
    let out = session
        .on_frame(&mut roster, 1, handshake_frame(767, "localhost", 25565, 1))
        .expect("handshake");
    assert!(out.is_empty());
    assert_eq!(session.state, ConnectionState::StatusDone);
    assert_eq!(roster.len(), 0);

    // a finished connection accepts no more frames
    let r = session.on_frame(&mut roster, 1, login_frame("sd"));
    assert_eq!(r, Err(ProtocolError::WrongState));
    assert_eq!(roster.len(), 0);
}

#[test]
fn malformed_handshake_tears_down() {
    let mut roster = Roster::new();
    let mut session = Session::new();
    // declared string length 0x7F with no bytes behind it
    let frame = vec![0x00, 0x05, 0x7F];
    let r = session.on_frame(&mut roster, 1, frame);
    assert_eq!(r, Err(ProtocolError::Format(FormatError::UnexpectedEnd)));
    assert_eq!(session.state, ConnectionState::Disconnected);
    assert_eq!(roster.len(), 0);
}

#[test]
fn handshake_with_wrong_packet_id_is_fatal() {
    let mut roster = Roster::new();
    let mut session = Session::new();
    let mut frame = write_varint_to_vec(0x07);
    frame.extend(write_varint_to_vec(767));
    let r = session.on_frame(&mut roster, 1, frame);
    assert_eq!(r, Err(ProtocolError::UnexpectedPacket(0x07)));
    assert_eq!(session.state, ConnectionState::Disconnected);
}

#[test]
fn login_with_wrong_packet_id_is_fatal() {
    let mut roster = Roster::new();
    let mut session = Session::new();
    session
        .on_frame(&mut roster, 1, handshake_frame(767, "h", 1, 2))
        .expect("handshake");
    let mut frame = write_varint_to_vec(0x01);
    frame.extend(write_string_to_vec("sd"));
    let r = session.on_frame(&mut roster, 1, frame);
    assert_eq!(r, Err(ProtocolError::UnexpectedPacket(0x01)));
    assert_eq!(session.state, ConnectionState::Disconnected);
    assert_eq!(roster.len(), 0);
}

#[test]
fn handshake_next_state_out_of_range_is_fatal() {
    for bad in [0, 3, 7, -1] {
        let mut roster = Roster::new();
        let mut session = Session::new();
        let r = session.on_frame(&mut roster, 1, handshake_frame(767, "localhost", 25565, bad));
        assert_eq!(r, Err(ProtocolError::InvalidNextState(bad)));
        assert_eq!(session.state, ConnectionState::Disconnected);
        assert_eq!(roster.len(), 0);
    }
}

#[test]
fn duplicate_identity_login_is_rejected() {
    let mut roster = Roster::new();
    let mut first = Session::new();
    first
        .on_frame(&mut roster, 9, handshake_frame(767, "localhost", 25565, 2))
        .expect("handshake");
    first.on_frame(&mut roster, 9, login_frame("sd")).expect("login");
    assert_eq!(roster.len(), 1);

    // a second connection granted the identity already on the roster
    let mut second = Session::new();
    second
        .on_frame(&mut roster, 9, handshake_frame(767, "localhost", 25565, 2))
        .expect("handshake");
    let r = second.on_frame(&mut roster, 9, login_frame("other"));
    assert_eq!(r, Err(ProtocolError::IdentityInUse));
    assert_eq!(second.state, ConnectionState::Disconnected);
    assert_eq!(roster.len(), 1);
    assert!(!roster.contains_username(&"other".to_string()));
    // the first player is untouched
    assert_eq!(roster.get(0).username, "sd");
}

#[test]
fn disconnect_cleanup_removes_player() {
    let mut roster = Roster::new();
    let mut session = Session::new();
    session
        .on_frame(&mut roster, 5, handshake_frame(767, "localhost", 25565, 2))
        .expect("handshake");
    session
        .on_frame(&mut roster, 5, login_frame("sd"))
        .expect("login");
    assert!(roster.contains_username(&"sd".to_string()));

    // the socket closes abruptly; the handler tears the connection down
    session.disconnect(&mut roster);
    assert_eq!(session.state, ConnectionState::Disconnected);
    assert!(!roster.contains_username(&"sd".to_string()));
    assert_eq!(roster.len(), 0);
}

#[test]
fn position_update_moves_the_player() {
    let mut roster = Roster::new();
    let mut session = Session::new();
    session
        .on_frame(&mut roster, 5, handshake_frame(767, "localhost", 25565, 2))
        .expect("handshake");
    session
        .on_frame(&mut roster, 5, login_frame("sd"))
        .expect("login");

    let out = session
        .on_frame(&mut roster, 5, position_frame(1.5, 70.25, -3.0))
        .expect("position packet");
    assert!(out.is_empty());
    assert_eq!(session.state, ConnectionState::Playing);
    let p = roster.find_by_identity(5).expect("present");
    assert_eq!(f64::from_bits(p.position.x_bits), 1.5);
    assert_eq!(f64::from_bits(p.position.y_bits), 70.25);
    assert_eq!(f64::from_bits(p.position.z_bits), -3.0);
}

#[test]
fn position_and_rotation_update_moves_the_player() {
    let mut roster = Roster::new();
    let mut session = Session::new();
    session
        .on_frame(&mut roster, 6, handshake_frame(767, "localhost", 25565, 2))
        .expect("handshake");
    session
        .on_frame(&mut roster, 6, login_frame("rot"))
        .expect("login");

    let mut frame = write_varint_to_vec(0x13);
    push_u64_be(&mut frame, 9.0f64.to_bits());
    push_u64_be(&mut frame, 65.0f64.to_bits());
    push_u64_be(&mut frame, 9.5f64.to_bits());
    frame.extend_from_slice(&90.0f32.to_bits().to_be_bytes());
    frame.extend_from_slice(&45.0f32.to_bits().to_be_bytes());
    session.on_frame(&mut roster, 6, frame).expect("packet");
    let p = roster.find_by_identity(6).expect("present");
    assert_eq!(f64::from_bits(p.position.x_bits), 9.0);
    assert_eq!(f64::from_bits(p.position.y_bits), 65.0);
    assert_eq!(f64::from_bits(p.position.z_bits), 9.5);
}

#[test]
fn unknown_play_packet_is_ignored() {
    let mut roster = Roster::new();
    let mut session = Session::new();
    session
        .on_frame(&mut roster, 5, handshake_frame(767, "localhost", 25565, 2))
        .expect("handshake");
    session
        .on_frame(&mut roster, 5, login_frame("sd"))
        .expect("login");

    let mut frame = write_varint_to_vec(0x55);
    frame.extend_from_slice(&[1, 2, 3]);
    let out = session.on_frame(&mut roster, 5, frame).expect("ignored");
    assert!(out.is_empty());
    assert_eq!(session.state, ConnectionState::Playing);
    let p = roster.find_by_identity(5).expect("present");
    assert_eq!(f64::from_bits(p.position.y_bits), 64.0);
}

#[test]
fn undersized_position_packet_is_fatal_and_cleans_up() {
    let mut roster = Roster::new();
    let mut session = Session::new();
    session
        .on_frame(&mut roster, 5, handshake_frame(767, "localhost", 25565, 2))
        .expect("handshake");
    session
        .on_frame(&mut roster, 5, login_frame("sd"))
        .expect("login");

    let mut frame = write_varint_to_vec(0x12);
    frame.extend_from_slice(&[0u8; 10]);
    let r = session.on_frame(&mut roster, 5, frame);
    assert_eq!(r, Err(ProtocolError::Format(FormatError::UnexpectedEnd)));
    assert_eq!(session.state, ConnectionState::Disconnected);
    assert!(!roster.contains_username(&"sd".to_string()));
}

#[test]
fn fresh_uuid_login_registers_a_player() {
    let mut roster = Roster::new();
    let mut session = Session::new();
    session
        .on_frame_fresh(&mut roster, handshake_frame(767, "localhost", 25565, 2))
        .expect("handshake");
    let out = session
        .on_frame_fresh(&mut roster, login_frame("sd"))
        .expect("login");
    assert_eq!(out.len(), 2);
    assert_eq!(roster.len(), 1);
    assert_eq!(roster.get(0).username, "sd");
}
