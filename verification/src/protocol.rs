//! The protocol itself: field grammars for the inbound packets (handshake,
//! login start, position updates), builders for the outbound packets (login
//! success, join/world metadata), and the per-connection state machine that
//! drives a connection through handshake, login and play.

use vstd::prelude::*;
use vstd::utf8::{encode_utf8, is_ascii_chars, is_ascii_chars_encode_utf8};
use crate::codec::{Cursor, FormatError, be_bytes, be_nat, lemma_be_bytes_len,
    lemma_varint_roundtrip, string_encoding, string_parse, varint_encode, varint_encoding,
    varint_size, varint_terminated, varint_value, u32_of_i32, read_varint_from_cursor,
    read_string_from_cursor, write_varint_to_vec, write_string_to_vec, push_i32_be, push_i64_be,
    lemma_be_roundtrip, pow256};
use crate::player::{GameMode, Player, Position, Roster, has_uuid, lemma_find_uuid_index,
    lemma_unique_ids_push, lemma_with_position_unique, lemma_without_username_unique,
    spawn_position, unique_ids, with_position, without_username, FULL_HEALTH_BITS};

verus! {

/// An error fatal to one connection, by kind. Transport errors never reach
/// this library: the caller treats a failed read or write as a disconnect.
#[derive(Clone, Copy, Debug, PartialEq, Eq, Structural)]
pub enum ProtocolError {
    /// Malformed bytes (codec failure).
    Format(FormatError),
    /// A packet whose id is not the one the current state demands.
    UnexpectedPacket(i32),
    /// A handshake asking to move to a state that is neither status (1)
    /// nor login (2): an invalid transition, fatal to the connection.
    InvalidNextState(i32),
    /// A login granted an identity the roster already holds; admitting it
    /// would break the one-entry-per-identity invariant.
    IdentityInUse,
    /// A frame handed to a connection that is already finished.
    WrongState,
}

/// Parse a variable-length integer field at offset `off` of `b`: the value
/// and the offset after it.
pub open spec fn spec_varint(b: Seq<u8>, off: int) -> Result<(i32, int), FormatError> {
    let rem = b.skip(off);
    if varint_terminated(rem, 5) {
        Ok((varint_value(rem), off + varint_size(rem)))
    } else if rem.len() >= 5 {
        Err(FormatError::VarIntTooLong)
    } else {
        Err(FormatError::UnexpectedEnd)
    }
}

/// Parse a length-prefixed UTF-8 string field at offset `off` of `b`.
pub open spec fn spec_string(b: Seq<u8>, off: int) -> Result<(Seq<char>, int), FormatError> {
    match string_parse(b.skip(off)) {
        Ok(t) => Ok((t.0, off + t.1)),
        Err(e) => Err(e),
    }
}

/// Parse a big-endian unsigned 16-bit field at offset `off` of `b`.
pub open spec fn spec_u16(b: Seq<u8>, off: int) -> Result<(u16, int), FormatError> {
    if b.len() - off >= 2 {
        Ok(((be_nat(b.skip(off).take(2)) as u16), off + 2))
    } else {
        Err(FormatError::UnexpectedEnd)
    }
}

/// The handshake packet: id 0, then protocol version, server address,
/// server port and the requested next state. Trailing bytes are ignored.
pub open spec fn parse_handshake(b: Seq<u8>) -> Result<(i32, Seq<char>, u16, i32), ProtocolError> {
    match spec_varint(b, 0) {
        Err(e) => Err(ProtocolError::Format(e)),
        Ok((id, o1)) => {
            if id != 0 {
                Err(ProtocolError::UnexpectedPacket(id))
            } else {
                match spec_varint(b, o1) {
                    Err(e) => Err(ProtocolError::Format(e)),
                    Ok((version, o2)) => {
                        match spec_string(b, o2) {
                            Err(e) => Err(ProtocolError::Format(e)),
                            Ok((address, o3)) => {
                                match spec_u16(b, o3) {
                                    Err(e) => Err(ProtocolError::Format(e)),
                                    Ok((port, o4)) => {
                                        match spec_varint(b, o4) {
                                            Err(e) => Err(ProtocolError::Format(e)),
                                            Ok((next_state, _)) => Ok(
                                                (version, address, port, next_state),
                                            ),
                                        }
                                    },
                                }
                            },
                        }
                    },
                }
            }
        },
    }
}

/// The fields of a decoded handshake packet.
pub struct HandshakeData {
    pub protocol_version: i32,
    pub server_address: String,
    pub server_port: u16,
    pub next_state: i32,
}

/// Decode a handshake frame (the packet body, without the length prefix).
pub fn handle_handshake(frame: Vec<u8>) -> (r: Result<HandshakeData, ProtocolError>)
    ensures
        (match (r, parse_handshake(frame@)) {
            (Ok(h), Ok(t)) => h.protocol_version == t.0 && h.server_address@ == t.1
                && h.server_port == t.2 && h.next_state == t.3,
            (Err(e), Err(e2)) => e == e2,
            _ => false,
        }),
{
    let ghost b = frame@;
    let mut cur = Cursor::new(frame);
    proof {
        assert(cur.remaining() =~= b.skip(0));
    }
    let id = match read_varint_from_cursor(&mut cur) {
        Ok(v) => v,
        Err(e) => {
            return Err(ProtocolError::Format(e));
        },
    };
    if id != 0 {
        return Err(ProtocolError::UnexpectedPacket(id));
    }
    let ghost o1 = varint_size(b.skip(0));
    proof {
        assert(cur.remaining() =~= b.skip(o1));
    }
    let version = match read_varint_from_cursor(&mut cur) {
        Ok(v) => v,
        Err(e) => {
            return Err(ProtocolError::Format(e));
        },
    };
    let ghost o2 = o1 + varint_size(b.skip(o1));
    proof {
        assert(cur.remaining() =~= b.skip(o2));
    }
    let address = match read_string_from_cursor(&mut cur) {
        Ok(s) => s,
        Err(e) => {
            return Err(ProtocolError::Format(e));
        },
    };
    let ghost o3 = o2 + (match string_parse(b.skip(o2)) {
        Ok(t) => t.1,
        Err(_) => 0,
    });
    proof {
        assert(cur.remaining() =~= b.skip(o3));
    }
    let port = match cur.read_u16_be() {
        Ok(v) => v,
        Err(e) => {
            return Err(ProtocolError::Format(e));
        },
    };
    let ghost o4 = o3 + 2;
    proof {
        assert(cur.remaining() =~= b.skip(o4));
        assert(b.skip(o3).take(2) =~= b.skip(o4 - 2).take(2));
    }
    let next_state = match read_varint_from_cursor(&mut cur) {
        Ok(v) => v,
        Err(e) => {
            return Err(ProtocolError::Format(e));
        },
    };
    Ok(HandshakeData { protocol_version: version, server_address: address, server_port: port, next_state })
}

/// The login-start packet: id 0, then the username.
pub open spec fn parse_login(b: Seq<u8>) -> Result<Seq<char>, ProtocolError> {
    match spec_varint(b, 0) {
        Err(e) => Err(ProtocolError::Format(e)),
        Ok((id, o1)) => {
            if id != 0 {
                Err(ProtocolError::UnexpectedPacket(id))
            } else {
                match spec_string(b, o1) {
                    Err(e) => Err(ProtocolError::Format(e)),
                    Ok((name, _)) => Ok(name),
                }
            }
        },
    }
}

/// Decode a login-start frame into the username.
pub fn handle_login(frame: Vec<u8>) -> (r: Result<String, ProtocolError>)
    ensures
        (match (r, parse_login(frame@)) {
            (Ok(s), Ok(name)) => s@ == name,
            (Err(e), Err(e2)) => e == e2,
            _ => false,
        }),
{
    let ghost b = frame@;
    let mut cur = Cursor::new(frame);
    proof {
        assert(cur.remaining() =~= b.skip(0));
    }
    let id = match read_varint_from_cursor(&mut cur) {
        Ok(v) => v,
        Err(e) => {
            return Err(ProtocolError::Format(e));
        },
    };
    if id != 0 {
        return Err(ProtocolError::UnexpectedPacket(id));
    }
    let ghost o1 = varint_size(b.skip(0));
    proof {
        assert(cur.remaining() =~= b.skip(o1));
    }
    match read_string_from_cursor(&mut cur) {
        Ok(s) => Ok(s),
        Err(e) => Err(ProtocolError::Format(e)),
    }
}

/// Wire id of the position-update packet in play state. The literal ids
/// vary across protocol versions; they are configuration, not structure.
pub const POSITION_PACKET_ID: i32 = 0x12;

/// Wire id of the position-and-rotation update packet in play state.
pub const POSITION_ROTATION_PACKET_ID: i32 = 0x13;

/// What a play-state frame asks for: a move of the sending player, or
/// nothing (an id this server does not recognize is discarded, not fatal).
#[derive(Clone, Copy, Debug, PartialEq, Eq, Structural)]
pub enum PlayAction {
    Moved(Position),
    Ignored(i32),
}

/// The three big-endian 64-bit float bit patterns at offset `off`.
pub open spec fn spec_position_fields(b: Seq<u8>, off: int) -> Position {
    Position {
        x_bits: be_nat(b.skip(off).take(8)) as u64,
        y_bits: be_nat(b.skip(off + 8).take(8)) as u64,
        z_bits: be_nat(b.skip(off + 16).take(8)) as u64,
    }
}

/// A play-state frame: a packet id, then that packet's fields. A recognized
/// id with too short a payload is a format error (strict policy: a malformed
/// packet is surfaced, not silently dropped); an unrecognized id is ignored.
pub open spec fn parse_play(b: Seq<u8>) -> Result<PlayAction, ProtocolError> {
    match spec_varint(b, 0) {
        Err(e) => Err(ProtocolError::Format(e)),
        Ok((id, o1)) => {
            if id == POSITION_PACKET_ID {
                if b.len() - o1 >= 24 {
                    Ok(PlayAction::Moved(spec_position_fields(b, o1)))
                } else {
                    Err(ProtocolError::Format(FormatError::UnexpectedEnd))
                }
            } else if id == POSITION_ROTATION_PACKET_ID {
                if b.len() - o1 >= 32 {
                    Ok(PlayAction::Moved(spec_position_fields(b, o1)))
                } else {
                    Err(ProtocolError::Format(FormatError::UnexpectedEnd))
                }
            } else {
                Ok(PlayAction::Ignored(id))
            }
        },
    }
}

/// The wire form of a position-update frame carrying `p`.
pub open spec fn position_frame_bytes(p: Position) -> Seq<u8> {
    varint_encoding(POSITION_PACKET_ID) + be_bytes(p.x_bits as nat, 8) + be_bytes(
        p.y_bits as nat,
        8,
    ) + be_bytes(p.z_bits as nat, 8)
}

/// Round trip for movement: a position-update frame built from any position
/// parses back to a move to exactly that position.
pub proof fn lemma_position_frame_roundtrip(p: Position)
    ensures
        parse_play(position_frame_bytes(p)) == Ok::<PlayAction, ProtocolError>(
            PlayAction::Moved(p),
        ),
{
    let b = position_frame_bytes(p);
    let bx = be_bytes(p.x_bits as nat, 8);
    let by = be_bytes(p.y_bits as nat, 8);
    let bz = be_bytes(p.z_bits as nat, 8);
    let body = bx + by + bz;
    assert(pow256(8) == 0x1_0000_0000_0000_0000) by {
        reveal_with_fuel(pow256, 9);
    }
    lemma_be_roundtrip(p.x_bits as nat, 8);
    lemma_be_roundtrip(p.y_bits as nat, 8);
    lemma_be_roundtrip(p.z_bits as nat, 8);
    lemma_varint_roundtrip(POSITION_PACKET_ID, body);
    assert(b =~= varint_encoding(POSITION_PACKET_ID) + body);
    assert(b.skip(0) =~= b);
    let o1 = varint_size(b);
    assert(o1 == varint_encoding(POSITION_PACKET_ID).len());
    assert(b.skip(o1) =~= body);
    assert(body.take(8) =~= bx);
    assert(b.skip(o1 + 8) =~= by + bz);
    assert((by + bz).take(8) =~= by);
    assert(b.skip(o1 + 16) =~= bz);
    assert(bz.take(8) =~= bz);
    assert(spec_position_fields(b, o1) == p);
}

/// Read x, y and z (24 bytes of big-endian 64-bit float bit patterns)
/// from the cursor.
fn read_position(cur: &mut Cursor) -> (r: Position)
    requires
        old(cur).wf(),
        old(cur).remaining().len() >= 24,
    ensures
        cur_advanced_24(*old(cur), *final(cur)),
        r == spec_position_fields(old(cur).bytes(), old(cur).pos()),
{
    let ghost b = old(cur).bytes();
    let ghost off = old(cur).pos();
    proof {
        assert(cur.remaining() =~= b.skip(off));
    }
    let x = match cur.read_u64_be() {
        Ok(v) => v,
        Err(_) => {
            proof {
                assert(false);
            }
            0
        },
    };
    proof {
        assert(cur.remaining() =~= b.skip(off + 8));
    }
    let y = match cur.read_u64_be() {
        Ok(v) => v,
        Err(_) => {
            proof {
                assert(false);
            }
            0
        },
    };
    proof {
        assert(cur.remaining() =~= b.skip(off + 16));
    }
    let z = match cur.read_u64_be() {
        Ok(v) => v,
        Err(_) => {
            proof {
                assert(false);
            }
            0
        },
    };
    proof {
        assert(b.skip(off).take(8) =~= old(cur).remaining().take(8));
    }
    Position { x_bits: x, y_bits: y, z_bits: z }
}

/// The cursor moved forward 24 bytes over the same buffer.
pub open spec fn cur_advanced_24(before: Cursor, after: Cursor) -> bool {
    after.wf() && after.bytes() == before.bytes() && after.pos() == before.pos() + 24
}

/// A position update: needs at least 24 bytes of payload; moves the player
/// with identity `me`. Too short a payload is a format error and leaves the
/// roster untouched.
pub fn handle_player_position(players: &mut Roster, me: u128, cur: &mut Cursor) -> (r: Result<
    Position,
    ProtocolError,
>)
    requires
        old(cur).wf(),
    ensures
        final(cur).wf(),
        final(cur).bytes() == old(cur).bytes(),
        (match r {
            Ok(p) => old(cur).remaining().len() >= 24 && p == spec_position_fields(
                old(cur).bytes(),
                old(cur).pos(),
            ) && final(players)@ == with_position(old(players)@, me, p),
            Err(e) => e == ProtocolError::Format(FormatError::UnexpectedEnd) && old(
                cur,
            ).remaining().len() < 24 && final(players)@ == old(players)@,
        }),
{
    if cur.remaining_len() < 24 {
        return Err(ProtocolError::Format(FormatError::UnexpectedEnd));
    }
    let p = read_position(cur);
    players.update_position(me, p);
    Ok(p)
}

/// A position-and-rotation update: needs at least 32 bytes of payload; the
/// position is applied, yaw and pitch are accepted but not persisted.
pub fn handle_player_position_and_rotation(players: &mut Roster, me: u128, cur: &mut Cursor) -> (r:
    Result<Position, ProtocolError>)
    requires
        old(cur).wf(),
    ensures
        final(cur).wf(),
        final(cur).bytes() == old(cur).bytes(),
        (match r {
            Ok(p) => old(cur).remaining().len() >= 32 && p == spec_position_fields(
                old(cur).bytes(),
                old(cur).pos(),
            ) && final(players)@ == with_position(old(players)@, me, p),
            Err(e) => e == ProtocolError::Format(FormatError::UnexpectedEnd) && old(
                cur,
            ).remaining().len() < 32 && final(players)@ == old(players)@,
        }),
{
    if cur.remaining_len() < 32 {
        return Err(ProtocolError::Format(FormatError::UnexpectedEnd));
    }
    let p = read_position(cur);
    let yaw = cur.read_u32_be();
    let pitch = cur.read_u32_be();
    proof {
        assert(yaw is Ok && pitch is Ok);
    }
    players.update_position(me, p);
    Ok(p)
}

/// Route one play-state frame by packet id: position updates move the
/// sending player; an unrecognized id is discarded without effect.
pub fn handle_packet(players: &mut Roster, me: u128, frame: Vec<u8>) -> (r: Result<
    PlayAction,
    ProtocolError,
>)
    ensures
        (match (r, parse_play(frame@)) {
            (Ok(a), Ok(a2)) => a == a2 && (match a {
                PlayAction::Moved(p) => final(players)@ == with_position(old(players)@, me, p),
                PlayAction::Ignored(_) => final(players)@ == old(players)@,
            }),
            (Err(e), Err(e2)) => e == e2 && final(players)@ == old(players)@,
            _ => false,
        }),
{
    let ghost b = frame@;
    let mut cur = Cursor::new(frame);
    proof {
        assert(cur.remaining() =~= b.skip(0));
    }
    let id = match read_varint_from_cursor(&mut cur) {
        Ok(v) => v,
        Err(e) => {
            return Err(ProtocolError::Format(e));
        },
    };
    let ghost o1 = varint_size(b.skip(0));
    proof {
        assert(cur.remaining() =~= b.skip(o1));
    }
    if id == POSITION_PACKET_ID {
        match handle_player_position(players, me, &mut cur) {
            Ok(p) => Ok(PlayAction::Moved(p)),
            Err(e) => Err(e),
        }
    } else if id == POSITION_ROTATION_PACKET_ID {
        match handle_player_position_and_rotation(players, me, &mut cur) {
            Ok(p) => Ok(PlayAction::Moved(p)),
            Err(e) => Err(e),
        }
    } else {
        Ok(PlayAction::Ignored(id))
    }
}

/// The hyphenated text form of a 128-bit identity.
pub uninterp spec fn uuid_text_of(n: u128) -> Seq<char>;

/// Relies on uuid::Uuid::from_u128 and its Display form (to_string): the
/// hyphenated lowercase-hex text, 36 ASCII characters, a function of the
/// 128-bit value alone.
#[verifier::external_body]
fn uuid_hyphenated(n: u128) -> (r: String)
    ensures
        r@ == uuid_text_of(n),
        r@.len() == 36,
        is_ascii_chars(r@),
{
    uuid::Uuid::from_u128(n).to_string()
}

/// Relies on uuid::Uuid::new_v4: a random identity. Nothing is promised of
/// the value; callers must work for every outcome.
#[verifier::external_body]
fn fresh_uuid() -> (r: u128) {
    uuid::Uuid::new_v4().as_u128()
}

/// A whole outbound packet: the payload behind its length prefix.
pub open spec fn frame_bytes(payload: Seq<u8>) -> Seq<u8> {
    varint_encode(payload.len() as u32) + payload
}

/// Prepend the length prefix. Fails only on a payload whose byte length
/// does not fit the signed 32-bit prefix.
pub fn frame_packet(payload: Vec<u8>) -> (r: Result<Vec<u8>, FormatError>)
    ensures
        (match r {
            Ok(v) => payload@.len() <= 0x7fff_ffff && v@ == frame_bytes(payload@),
            Err(e) => e == FormatError::TooLarge && payload@.len() > 0x7fff_ffff,
        }),
{
    let n = payload.len();
    if n > 0x7fff_ffff {
        return Err(FormatError::TooLarge);
    }
    let mut out = write_varint_to_vec(n as i32);
    proof {
        assert(u32_of_i32(n as i32) == payload@.len() as u32);
    }
    let mut p = payload;
    out.append(&mut p);
    Ok(out)
}

/// Framing round trip: a framed packet's length prefix decodes to the
/// payload's byte length, and exactly the payload follows it — whatever
/// bytes come after.
pub proof fn lemma_frame_roundtrip(payload: Seq<u8>, rest: Seq<u8>)
    requires
        payload.len() <= 0x7fff_ffff,
    ensures
        varint_terminated(frame_bytes(payload) + rest, 5),
        varint_value(frame_bytes(payload) + rest) == payload.len(),
        ({
            let b = frame_bytes(payload) + rest;
            b.subrange(varint_size(b), varint_size(b) + payload.len() as int) == payload
        }),
{
    let nv: i32 = payload.len() as i32;
    assert(u32_of_i32(nv) == payload.len() as u32);
    lemma_varint_roundtrip(nv, payload + rest);
    let b = frame_bytes(payload) + rest;
    assert(b =~= varint_encoding(nv) + (payload + rest));
    let sz = varint_size(b);
    assert(sz == varint_encoding(nv).len());
    assert(b.subrange(sz, sz + payload.len() as int) =~= payload);
}

/// Wire id of the login-success packet.
pub const LOGIN_SUCCESS_PACKET_ID: i32 = 0x02;

/// Wire id of the join/world-metadata packet.
pub const JOIN_GAME_PACKET_ID: i32 = 0x26;

/// The login-success payload: packet id, the identity as text, the username.
pub open spec fn login_success_payload(uuid_text: Seq<char>, name: Seq<char>) -> Seq<u8> {
    varint_encoding(LOGIN_SUCCESS_PACKET_ID) + string_encoding(uuid_text) + string_encoding(name)
}

/// Whether a login-success packet for this player fits its length prefix.
pub open spec fn login_success_fits(p: Player) -> bool {
    login_success_payload(uuid_text_of(p.uuid), p.username@).len() <= 0x7fff_ffff
}

/// The username's UTF-8 form is certainly small enough for the
/// login-success packet to fit its frame: everything beside it — the
/// packet id, the 36-character identity text with its length prefix, the
/// username's own length prefix — totals at most 43 bytes.
pub open spec fn username_fits(name: Seq<char>) -> bool {
    encode_utf8(name).len() + 43 <= 0x7fff_ffff
}

/// The username's UTF-8 form certainly overflows the frame: the fixed
/// parts beside it total at least 39 bytes.
pub open spec fn username_too_long(name: Seq<char>) -> bool {
    encode_utf8(name).len() + 39 > 0x7fff_ffff
}

/// Build the login-success packet (id, identity text, username), framed.
/// Fails only on a username whose UTF-8 form is too long to frame — and
/// never on one that `username_fits` admits.
pub fn build_login_success(player: &Player) -> (r: Result<Vec<u8>, FormatError>)
    ensures
        (match r {
            Ok(v) => login_success_fits(*player) && !username_too_long(player.username@) && v@
                == frame_bytes(
                login_success_payload(uuid_text_of(player.uuid), player.username@),
            ),
            Err(e) => e == FormatError::TooLarge && !login_success_fits(*player)
                && !username_fits(player.username@),
        }),
{
    let text = uuid_hyphenated(player.uuid);
    proof {
        is_ascii_chars_encode_utf8(text@);
    }
    let mut payload = write_varint_to_vec(LOGIN_SUCCESS_PACKET_ID);
    let mut uuid_part = write_string_to_vec(text.as_str());
    payload.append(&mut uuid_part);
    let name = player.username.as_str();
    let name_bytes = name.as_bytes();
    if name_bytes.len() > 0x7fff_ffff {
        proof {
            assert(string_encoding(player.username@).len() > 0x7fff_ffff);
        }
        return Err(FormatError::TooLarge);
    }
    let mut name_part = write_string_to_vec(name);
    payload.append(&mut name_part);
    proof {
        // the payload is the username's UTF-8 bytes plus 39 to 43 fixed
        // bytes: id (1), identity text with prefix (37), username prefix
        // (1 to 5)
        let n = encode_utf8(player.username@).len() as int;
        assert(u32_of_i32(LOGIN_SUCCESS_PACKET_ID) == 2);
        assert(varint_encoding(LOGIN_SUCCESS_PACKET_ID).len() == 1);
        assert(encode_utf8(text@).len() == 36);
        assert(string_encoding(text@).len() == 37);
        assert(u32_of_i32(n as i32) == encode_utf8(player.username@).len() as u32);
        lemma_varint_roundtrip(n as i32, Seq::empty());
        assert(1 <= varint_encode(encode_utf8(player.username@).len() as u32).len() <= 5);
        assert(39 + n <= payload@.len() <= 43 + n);
    }
    match frame_packet(payload) {
        Ok(v) => Ok(v),
        Err(e) => Err(e),
    }
}

/// The join/world-metadata payload, field for field: packet id, entity id 1,
/// not hardcore, the player's game mode, no previous game mode, one world
/// named "minecraft:overworld" (also the dimension and world name), an empty
/// dimension-codec tag, hashed seed 0, max players, view and simulation
/// distance 10, and the four flags (reduced debug info off, respawn screen
/// on, not a debug world, not flat).
pub open spec fn join_game_payload(mode: GameMode) -> Seq<u8> {
    varint_encoding(JOIN_GAME_PACKET_ID) + be_bytes(1, 4) + seq![0u8] + seq![mode.wire_byte()]
        + seq![255u8] + varint_encoding(1) + string_encoding("minecraft:overworld"@) + seq![0u8]
        + string_encoding("minecraft:overworld"@) + string_encoding("minecraft:overworld"@)
        + be_bytes(0, 8) + varint_encoding(10) + varint_encoding(10) + varint_encoding(10)
        + seq![0u8] + seq![1u8] + seq![0u8] + seq![0u8]
}

/// Build the join/world-metadata packet, framed.
pub fn build_join_game(player: &Player) -> (r: Vec<u8>)
    ensures
        r@ == frame_bytes(join_game_payload(player.game_mode)),
{
    proof {
        reveal_strlit("minecraft:overworld");
        assert(is_ascii_chars("minecraft:overworld"@));
        is_ascii_chars_encode_utf8("minecraft:overworld"@);
        lemma_varint_roundtrip(JOIN_GAME_PACKET_ID, Seq::empty());
        lemma_varint_roundtrip(1, Seq::empty());
        lemma_varint_roundtrip(10, Seq::empty());
        lemma_varint_roundtrip(19, Seq::empty());
        lemma_be_bytes_len(1, 4);
        lemma_be_bytes_len(0, 8);
    }
    let mut payload = write_varint_to_vec(JOIN_GAME_PACKET_ID);
    push_i32_be(&mut payload, 1);
    payload.push(0);
    payload.push(player.game_mode.to_wire_byte());
    payload.push(255);
    let mut t1 = write_varint_to_vec(1);
    payload.append(&mut t1);
    let mut t2 = write_string_to_vec("minecraft:overworld");
    payload.append(&mut t2);
    payload.push(0);
    let mut t3 = write_string_to_vec("minecraft:overworld");
    payload.append(&mut t3);
    let mut t4 = write_string_to_vec("minecraft:overworld");
    payload.append(&mut t4);
    push_i64_be(&mut payload, 0);
    let mut t5 = write_varint_to_vec(10);
    payload.append(&mut t5);
    let mut t6 = write_varint_to_vec(10);
    payload.append(&mut t6);
    let mut t7 = write_varint_to_vec(10);
    payload.append(&mut t7);
    payload.push(0);
    payload.push(1);
    payload.push(0);
    payload.push(0);
    proof {
        assert(payload@ =~= join_game_payload(player.game_mode));
    }
    match frame_packet(payload) {
        Ok(v) => v,
        Err(_) => {
            proof {
                assert(false);
            }
            Vec::new()
        },
    }
}

/// Where a connection stands in its lifecycle.
#[derive(Clone, Copy, Debug, PartialEq, Eq, Structural)]
pub enum ConnectionState {
    Handshaking,
    StatusDone,
    LoggingIn,
    Playing,
    Disconnected,
}

/// One connection's protocol state. The session decides; the caller does
/// the socket reads and writes, hands each decoded frame in, and sends the
/// frames handed back.
pub struct Session {
    pub state: ConnectionState,
    /// The identity granted at login.
    pub uuid: Option<u128>,
    /// The username accepted at login.
    pub username: Option<String>,
}

impl Session {
    /// A playing session knows who it is playing as.
    pub open spec fn wf(&self) -> bool {
        self.state == ConnectionState::Playing ==> self.uuid is Some && self.username is Some
    }

    pub fn new() -> (r: Session)
        ensures
            r.state == ConnectionState::Handshaking,
            r.uuid is None,
            r.username is None,
            r.wf(),
    {
        Session { state: ConnectionState::Handshaking, uuid: None, username: None }
    }
}

/// A teardown step: the error comes back, the session is disconnected,
/// and neither its login data nor the roster changes.
pub open spec fn torn_down(
    pre: Session,
    post: Session,
    roster_pre: Seq<Player>,
    roster_post: Seq<Player>,
    e: ProtocolError,
    r: Result<Vec<Vec<u8>>, ProtocolError>,
) -> bool {
    &&& r == Result::<Vec<Vec<u8>>, ProtocolError>::Err(e)
    &&& post.state == ConnectionState::Disconnected
    &&& post.uuid == pre.uuid
    &&& post.username == pre.username
    &&& roster_post == roster_pre
}

/// A granted login: the two outbound frames in order, the new player on the
/// roster, and the session playing as that player.
pub open spec fn login_granted(
    pre: Session,
    post: Session,
    roster_pre: Seq<Player>,
    roster_post: Seq<Player>,
    new_uuid: u128,
    name: Seq<char>,
    r: Result<Vec<Vec<u8>>, ProtocolError>,
) -> bool {
    &&& r matches Ok(out) && out@.len() == 2 && out@[0]@ == frame_bytes(
        login_success_payload(uuid_text_of(new_uuid), name),
    ) && out@[1]@ == frame_bytes(join_game_payload(GameMode::Survival))
    &&& roster_post == roster_pre.push(roster_post.last())
    &&& roster_post.len() == roster_pre.len() + 1
    &&& roster_post.last().uuid == new_uuid
    &&& roster_post.last().username@ == name
    &&& roster_post.last().position == spawn_position()
    &&& roster_post.last().health_bits == FULL_HEALTH_BITS
    &&& roster_post.last().game_mode == GameMode::Survival
    &&& !roster_post.last().is_operator
    &&& post.state == ConnectionState::Playing
    &&& post.uuid == Some(new_uuid)
    &&& post.username matches Some(u) && u@ == name
}

/// The step relation of the connection state machine: how one inbound frame
/// takes a session, and the shared roster, from `pre` to `post`, and which
/// outbound frames (`r`) it produces. A handshake may only ask for status
/// (1) or login (2); any other requested state is an invalid transition and
/// tears the connection down.
pub open spec fn step_post(
    pre: Session,
    post: Session,
    roster_pre: Seq<Player>,
    roster_post: Seq<Player>,
    new_uuid: u128,
    frame: Seq<u8>,
    r: Result<Vec<Vec<u8>>, ProtocolError>,
) -> bool {
    &&& (pre.state == ConnectionState::Handshaking ==> (match parse_handshake(frame) {
        Ok(t) => {
            if t.3 == 1 || t.3 == 2 {
                &&& r matches Ok(out) && out@.len() == 0
                &&& post.state == (if t.3 == 1 {
                    ConnectionState::StatusDone
                } else {
                    ConnectionState::LoggingIn
                })
                &&& post.uuid == pre.uuid
                &&& post.username == pre.username
                &&& roster_post == roster_pre
            } else {
                torn_down(
                    pre,
                    post,
                    roster_pre,
                    roster_post,
                    ProtocolError::InvalidNextState(t.3),
                    r,
                )
            }
        },
        Err(e) => torn_down(pre, post, roster_pre, roster_post, e, r),
    }))
    &&& (pre.state == ConnectionState::LoggingIn ==> (match parse_login(frame) {
        Ok(name) => {
            &&& (has_uuid(roster_pre, new_uuid) ==> torn_down(
                pre,
                post,
                roster_pre,
                roster_post,
                ProtocolError::IdentityInUse,
                r,
            ))
            &&& (!has_uuid(roster_pre, new_uuid) && username_fits(name) ==> login_granted(
                pre,
                post,
                roster_pre,
                roster_post,
                new_uuid,
                name,
                r,
            ))
            &&& (!has_uuid(roster_pre, new_uuid) && username_too_long(name) ==> torn_down(
                pre,
                post,
                roster_pre,
                roster_post,
                ProtocolError::Format(FormatError::TooLarge),
                r,
            ))
            &&& (login_granted(pre, post, roster_pre, roster_post, new_uuid, name, r)
                || torn_down(
                pre,
                post,
                roster_pre,
                roster_post,
                ProtocolError::IdentityInUse,
                r,
            ) || torn_down(
                pre,
                post,
                roster_pre,
                roster_post,
                ProtocolError::Format(FormatError::TooLarge),
                r,
            ))
        },
        Err(e) => torn_down(pre, post, roster_pre, roster_post, e, r),
    }))
    &&& (pre.state == ConnectionState::Playing ==> (match parse_play(frame) {
        Ok(a) => {
            &&& r matches Ok(out) && out@.len() == 0
            &&& post == pre
            &&& (match a {
                PlayAction::Moved(p) => roster_post == with_position(
                    roster_pre,
                    pre.uuid.unwrap(),
                    p,
                ),
                PlayAction::Ignored(_) => roster_post == roster_pre,
            })
        },
        Err(e) => {
            &&& r == Result::<Vec<Vec<u8>>, ProtocolError>::Err(e)
            &&& post.state == ConnectionState::Disconnected
            &&& post.uuid == pre.uuid
            &&& post.username == pre.username
            &&& roster_post == without_username(roster_pre, pre.username.unwrap()@)
        },
    }))
    &&& ((pre.state == ConnectionState::StatusDone || pre.state == ConnectionState::Disconnected)
        ==> {
        &&& r == Result::<Vec<Vec<u8>>, ProtocolError>::Err(ProtocolError::WrongState)
        &&& post == pre
        &&& roster_post == roster_pre
    })
}

impl Session {
    /// Feed one inbound frame (packet body, without its length prefix).
    /// `new_uuid` is the identity a login in this frame would be granted;
    /// it is ignored in every other state. Returns the outbound frames to
    /// write, in order, or the error that tears the connection down.
    pub fn on_frame(&mut self, roster: &mut Roster, new_uuid: u128, frame: Vec<u8>) -> (r: Result<
        Vec<Vec<u8>>,
        ProtocolError,
    >)
        requires
            old(self).wf(),
        ensures
            final(self).wf(),
            step_post(
                *old(self),
                *final(self),
                old(roster)@,
                final(roster)@,
                new_uuid,
                frame@,
                r,
            ),
            unique_ids(old(roster)@) ==> unique_ids(final(roster)@),
    {
        match self.state {
            ConnectionState::Handshaking => {
                match handle_handshake(frame) {
                    Ok(h) => {
                        if h.next_state == 1 {
                            self.state = ConnectionState::StatusDone;
                            Ok(Vec::new())
                        } else if h.next_state == 2 {
                            self.state = ConnectionState::LoggingIn;
                            Ok(Vec::new())
                        } else {
                            self.state = ConnectionState::Disconnected;
                            Err(ProtocolError::InvalidNextState(h.next_state))
                        }
                    },
                    Err(e) => {
                        self.state = ConnectionState::Disconnected;
                        Err(e)
                    },
                }
            },
            ConnectionState::LoggingIn => {
                match handle_login(frame) {
                    Ok(name) => {
                        let taken = roster.find_by_identity(new_uuid).is_some();
                        proof {
                            lemma_find_uuid_index(roster@, new_uuid);
                        }
                        if taken {
                            self.state = ConnectionState::Disconnected;
                            Err(ProtocolError::IdentityInUse)
                        } else {
                            let player = Player::new(new_uuid, name);
                            let ghost gp = player;
                            match build_login_success(&player) {
                                Ok(login_frame) => {
                                    let join_frame = build_join_game(&player);
                                    let mut outs: Vec<Vec<u8>> = Vec::new();
                                    outs.push(login_frame);
                                    outs.push(join_frame);
                                    self.uuid = Some(new_uuid);
                                    self.username = Some(player.username.clone());
                                    roster.insert(player);
                                    proof {
                                        if unique_ids(old(roster)@) {
                                            lemma_unique_ids_push(old(roster)@, gp);
                                        }
                                    }
                                    self.state = ConnectionState::Playing;
                                    Ok(outs)
                                },
                                Err(e) => {
                                    self.state = ConnectionState::Disconnected;
                                    Err(ProtocolError::Format(e))
                                },
                            }
                        }
                    },
                    Err(e) => {
                        self.state = ConnectionState::Disconnected;
                        Err(e)
                    },
                }
            },
            ConnectionState::Playing => {
                let me: u128 = match &self.uuid {
                    Some(u) => *u,
                    None => {
                        proof {
                            assert(false);
                        }
                        0
                    },
                };
                match handle_packet(roster, me, frame) {
                    Ok(a) => {
                        proof {
                            if unique_ids(old(roster)@) {
                                match a {
                                    PlayAction::Moved(p) => lemma_with_position_unique(
                                        old(roster)@,
                                        me,
                                        p,
                                    ),
                                    PlayAction::Ignored(_) => {},
                                }
                            }
                        }
                        Ok(Vec::new())
                    },
                    Err(e) => {
                        match &self.username {
                            Some(n) => {
                                roster.remove_by_username(n);
                                proof {
                                    if unique_ids(old(roster)@) {
                                        lemma_without_username_unique(old(roster)@, n@);
                                    }
                                }
                            },
                            None => {
                                proof {
                                    assert(false);
                                }
                            },
                        }
                        self.state = ConnectionState::Disconnected;
                        Err(e)
                    },
                }
            },
            ConnectionState::StatusDone => Err(ProtocolError::WrongState),
            ConnectionState::Disconnected => Err(ProtocolError::WrongState),
        }
    }

    /// As `on_frame`, drawing the identity a login would be granted from the
    /// random generator: some identity makes the step relation true.
    pub fn on_frame_fresh(&mut self, roster: &mut Roster, frame: Vec<u8>) -> (r: Result<
        Vec<Vec<u8>>,
        ProtocolError,
    >)
        requires
            old(self).wf(),
        ensures
            final(self).wf(),
            exists|id: u128|
                step_post(
                    *old(self),
                    *final(self),
                    old(roster)@,
                    final(roster)@,
                    id,
                    frame@,
                    r,
                ),
            unique_ids(old(roster)@) ==> unique_ids(final(roster)@),
    {
        let id = fresh_uuid();
        let r = self.on_frame(roster, id, frame);
        proof {
            assert(step_post(
                *old(self),
                *final(self),
                old(roster)@,
                final(roster)@,
                id,
                frame@,
                r,
            ));
        }
        r
    }

    /// Tear the connection down: a playing session's player leaves the
    /// roster; any other state changes nothing but the session.
    pub fn disconnect(&mut self, roster: &mut Roster)
        requires
            old(self).wf(),
        ensures
            final(self).state == ConnectionState::Disconnected,
            final(self).uuid == old(self).uuid,
            final(self).username == old(self).username,
            final(self).wf(),
            (if old(self).state == ConnectionState::Playing {
                final(roster)@ == without_username(old(roster)@, old(self).username.unwrap()@)
            } else {
                final(roster)@ == old(roster)@
            }),
            unique_ids(old(roster)@) ==> unique_ids(final(roster)@),
    {
        match self.state {
            ConnectionState::Playing => {
                match &self.username {
                    Some(n) => {
                        roster.remove_by_username(n);
                        proof {
                            if unique_ids(old(roster)@) {
                                lemma_without_username_unique(old(roster)@, n@);
                            }
                        }
                    },
                    None => {
                        proof {
                            assert(false);
                        }
                    },
                }
            },
            _ => {},
        }
        self.state = ConnectionState::Disconnected;
    }
}

} // verus!
