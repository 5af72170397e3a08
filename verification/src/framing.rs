//! Framing of the four message families: one tag byte, then the fields.
//!
//! Each family has its own tag space because each travels on its own
//! channel and direction; the receiver always knows which family to
//! expect.  A datagram decodes successfully exactly when it is the
//! encoding of one message of the expected family; anything else is a
//! `DecodeError` and the datagram is dropped.

use crate::codec::dec_grid;
use crate::codec::dec_pos2;
use crate::codec::dec_pos3;
use crate::codec::dec_string;
use crate::codec::enc_grid;
use crate::codec::enc_pos2;
use crate::codec::enc_pos3;
use crate::codec::enc_string;
use crate::codec::grid_encodable;
use crate::codec::lemma_chars_len;
use crate::codec::lemma_grid_canon;
use crate::codec::lemma_grid_round;
use crate::codec::lemma_i32_canon;
use crate::codec::lemma_pos2_canon;
use crate::codec::lemma_pos3_canon;
use crate::codec::lemma_read_i32_cat;
use crate::codec::lemma_read_pos2_cat;
use crate::codec::lemma_read_pos3_cat;
use crate::codec::lemma_read_u16_cat;
use crate::codec::lemma_read_u64_cat;
use crate::codec::lemma_string_canon;
use crate::codec::lemma_string_round;
use crate::codec::spec_grid;
use crate::codec::spec_grid_at;
use crate::codec::spec_pos2_at;
use crate::codec::spec_pos2_le;
use crate::codec::spec_pos3_at;
use crate::codec::spec_pos3_le;
use crate::codec::spec_string;
use crate::codec::spec_string_at;
use crate::codec::str_encodable;
use crate::geometry::Position2;
use crate::geometry::Position3;
use crate::messages::ClientMessageReliable;
use crate::messages::ClientMessageUnreliable;
use crate::messages::ClientReliableV;
use crate::messages::ClientUnreliableV;
use crate::messages::DecodeError;
use crate::messages::ServerMessageReliable;
use crate::messages::ServerMessageUnreliable;
use crate::messages::ServerReliableV;
use crate::messages::ServerUnreliableV;
use crate::wire::dec_i32;
use crate::wire::dec_u16;
use crate::wire::dec_u64;
use crate::wire::enc_i32;
use crate::wire::enc_u16;
use crate::wire::enc_u64;
use crate::wire::lemma_u16_canon;
use crate::wire::lemma_u64_canon;
use crate::wire::spec_i32_at;
use crate::wire::spec_i32_le;
use crate::wire::spec_u16_at;
use crate::wire::spec_u16_le;
use crate::wire::spec_u64_at;
use crate::wire::spec_u64_le;
use vstd::prelude::*;

verus! {

pub const TAG_CU_PLAYER_POSITION: u8 = 0;

pub const TAG_CU_WALL_POS: u8 = 1;

pub const TAG_CR_DEBUG_MESSAGE: u8 = 0;

pub const TAG_CR_PING: u8 = 1;

pub const TAG_SU_PLAYER_POSITION: u8 = 0;

pub const TAG_SU_MAP_PAYLOAD: u8 = 1;

pub const TAG_SU_WALL_POS: u8 = 2;

pub const TAG_SR_PLAYER_CONNECTED: u8 = 0;

pub const TAG_SR_PLAYER_DISCONNECTED: u8 = 1;

pub const TAG_SR_DEBUG_MESSAGE: u8 = 2;

pub const TAG_SR_NUMBER_OF_MAPS: u8 = 3;

pub const TAG_SR_PONG: u8 = 4;

// --- client, unreliable channel ---

pub open spec fn spec_encode_client_unreliable(m: ClientUnreliableV) -> Seq<u8> {
    match m {
        ClientUnreliableV::PlayerPosition { pos, level } => {
            seq![TAG_CU_PLAYER_POSITION] + spec_pos3_le(pos) + seq![level]
        },
        ClientUnreliableV::WallPos { level, wall_id, pos } => {
            seq![TAG_CU_WALL_POS, level] + spec_i32_le(wall_id) + spec_pos2_le(pos)
        },
    }
}

pub open spec fn spec_decode_client_unreliable(b: Seq<u8>) -> Option<ClientUnreliableV> {
    if b.len() < 1 {
        None
    } else if b[0] == TAG_CU_PLAYER_POSITION {
        if b.len() == 14 {
            Some(
                ClientUnreliableV::PlayerPosition { pos: spec_pos3_at(b, 1), level: b[13] },
            )
        } else {
            None
        }
    } else if b[0] == TAG_CU_WALL_POS {
        if b.len() == 14 {
            Some(
                ClientUnreliableV::WallPos {
                    level: b[1],
                    wall_id: spec_i32_at(b, 2),
                    pos: spec_pos2_at(b, 6),
                },
            )
        } else {
            None
        }
    } else {
        None
    }
}

/// Decoding an encoded client-unreliable message yields it back.
pub proof fn lemma_client_unreliable_round(m: ClientUnreliableV)
    ensures
        spec_decode_client_unreliable(spec_encode_client_unreliable(m)) == Some(m),
{
    match m {
        ClientUnreliableV::PlayerPosition { pos, level } => {
            let b = spec_encode_client_unreliable(m);
            lemma_read_pos3_cat(seq![TAG_CU_PLAYER_POSITION], pos, seq![level]);
            assert(b[13] == level);
        },
        ClientUnreliableV::WallPos { level, wall_id, pos } => {
            let b = spec_encode_client_unreliable(m);
            assert(b =~= seq![TAG_CU_WALL_POS, level] + spec_i32_le(wall_id) + spec_pos2_le(pos));
            lemma_read_i32_cat(seq![TAG_CU_WALL_POS, level], wall_id, spec_pos2_le(pos));
            assert(b =~= (seq![TAG_CU_WALL_POS, level] + spec_i32_le(wall_id)) + spec_pos2_le(pos)
                + Seq::<u8>::empty());
            lemma_read_pos2_cat(
                seq![TAG_CU_WALL_POS, level] + spec_i32_le(wall_id),
                pos,
                Seq::<u8>::empty(),
            );
            assert(b[1] == level);
        },
    }
}

/// A decodable byte string is the encoding of what it decodes to.
pub proof fn lemma_client_unreliable_canon(b: Seq<u8>, m: ClientUnreliableV)
    requires
        spec_decode_client_unreliable(b) == Some(m),
    ensures
        spec_encode_client_unreliable(m) == b,
{
    if b[0] == TAG_CU_PLAYER_POSITION {
        lemma_pos3_canon(b, 1);
        assert(spec_encode_client_unreliable(m) =~= b);
    } else {
        lemma_i32_canon(b, 2);
        lemma_pos2_canon(b, 6);
        assert(spec_encode_client_unreliable(m) =~= b);
    }
}

impl ClientMessageUnreliable {
    /// Serializes the message; the result is exactly its wire encoding.
    pub fn encode(&self) -> (r: Vec<u8>)
        ensures
            r@ == spec_encode_client_unreliable(self@),
    {
        let mut out: Vec<u8> = Vec::new();
        match self {
            ClientMessageUnreliable::PlayerPosition { pos, level } => {
                out.push(TAG_CU_PLAYER_POSITION);
                enc_pos3(&mut out, pos);
                out.push(*level);
            },
            ClientMessageUnreliable::WallPos { level, wall_id, pos } => {
                out.push(TAG_CU_WALL_POS);
                out.push(*level);
                enc_i32(&mut out, *wall_id);
                enc_pos2(&mut out, pos);
            },
        }
        proof {
            assert(out@ =~= spec_encode_client_unreliable(self@));
        }
        out
    }

    /// Parses a datagram; fails exactly on byte strings that no message
    /// of this family encodes to.
    pub fn decode(b: &Vec<u8>) -> (r: Result<Self, DecodeError>)
        ensures
            match r {
                Ok(m) => spec_decode_client_unreliable(b@) == Some(m@),
                Err(_) => spec_decode_client_unreliable(b@) is None,
            },
    {
        if b.len() < 1 {
            return Err(DecodeError);
        }
        let tag = b[0];
        if tag == TAG_CU_PLAYER_POSITION {
            if b.len() != 14 {
                return Err(DecodeError);
            }
            match dec_pos3(b, 1) {
                Some((pos, _)) => Ok(ClientMessageUnreliable::PlayerPosition { pos, level: b[13] }),
                None => Err(DecodeError),
            }
        } else if tag == TAG_CU_WALL_POS {
            if b.len() != 14 {
                return Err(DecodeError);
            }
            match dec_i32(b, 2) {
                Some((wall_id, _)) => match dec_pos2(b, 6) {
                    Some((pos, _)) => Ok(
                        ClientMessageUnreliable::WallPos { level: b[1], wall_id, pos },
                    ),
                    None => Err(DecodeError),
                },
                None => Err(DecodeError),
            }
        } else {
            Err(DecodeError)
        }
    }
}


// --- client, reliable channel ---

/// A client-reliable message fits the wire when its text does.
pub open spec fn client_reliable_encodable(m: ClientReliableV) -> bool {
    match m {
        ClientReliableV::DebugMessage(s) => str_encodable(s),
        ClientReliableV::Ping => true,
    }
}

pub open spec fn spec_encode_client_reliable(m: ClientReliableV) -> Seq<u8> {
    match m {
        ClientReliableV::DebugMessage(s) => seq![TAG_CR_DEBUG_MESSAGE] + spec_string(s),
        ClientReliableV::Ping => seq![TAG_CR_PING],
    }
}

pub open spec fn spec_decode_client_reliable(b: Seq<u8>) -> Option<ClientReliableV> {
    if b.len() < 1 {
        None
    } else if b[0] == TAG_CR_DEBUG_MESSAGE {
        match spec_string_at(b, 1) {
            Some((s, j)) => if b.len() == j {
                Some(ClientReliableV::DebugMessage(s))
            } else {
                None
            },
            None => None,
        }
    } else if b[0] == TAG_CR_PING {
        if b.len() == 1 {
            Some(ClientReliableV::Ping)
        } else {
            None
        }
    } else {
        None
    }
}

/// Decoding an encoded client-reliable message yields it back.
pub proof fn lemma_client_reliable_round(m: ClientReliableV)
    requires
        client_reliable_encodable(m),
    ensures
        spec_decode_client_reliable(spec_encode_client_reliable(m)) == Some(m),
{
    match m {
        ClientReliableV::DebugMessage(s) => {
            let b = spec_encode_client_reliable(m);
            assert(b =~= seq![TAG_CR_DEBUG_MESSAGE] + spec_string(s) + Seq::<u8>::empty());
            lemma_string_round(s, seq![TAG_CR_DEBUG_MESSAGE], Seq::<u8>::empty());
            lemma_chars_len(s);
        },
        ClientReliableV::Ping => {},
    }
}

/// A decodable byte string is the encoding of what it decodes to.
pub proof fn lemma_client_reliable_canon(b: Seq<u8>, m: ClientReliableV)
    requires
        spec_decode_client_reliable(b) == Some(m),
    ensures
        spec_encode_client_reliable(m) == b,
        client_reliable_encodable(m),
{
    if b[0] == TAG_CR_DEBUG_MESSAGE {
        match spec_string_at(b, 1) {
            Some((s, j)) => {
                lemma_string_canon(b, 1, s, j);
                assert(spec_encode_client_reliable(m) =~= b);
            },
            None => {
                assert(false);
            },
        }
    } else {
        assert(spec_encode_client_reliable(m) =~= b);
    }
}

impl ClientMessageReliable {
    /// Serializes the message; the result is exactly its wire encoding.
    pub fn encode(&self) -> (r: Vec<u8>)
        ensures
            r@ == spec_encode_client_reliable(self@),
    {
        let mut out: Vec<u8> = Vec::new();
        match self {
            ClientMessageReliable::DebugMessage(s) => {
                out.push(TAG_CR_DEBUG_MESSAGE);
                enc_string(&mut out, s);
            },
            ClientMessageReliable::Ping => {
                out.push(TAG_CR_PING);
            },
        }
        proof {
            assert(out@ =~= spec_encode_client_reliable(self@));
        }
        out
    }

    /// Parses a datagram; fails exactly on byte strings that no message
    /// of this family encodes to.
    pub fn decode(b: &Vec<u8>) -> (r: Result<Self, DecodeError>)
        ensures
            match r {
                Ok(m) => spec_decode_client_reliable(b@) == Some(m@),
                Err(_) => spec_decode_client_reliable(b@) is None,
            },
    {
        if b.len() < 1 {
            return Err(DecodeError);
        }
        let tag = b[0];
        if tag == TAG_CR_DEBUG_MESSAGE {
            match dec_string(b, 1) {
                Some((s, p)) => {
                    if p == b.len() {
                        Ok(ClientMessageReliable::DebugMessage(s))
                    } else {
                        Err(DecodeError)
                    }
                },
                None => Err(DecodeError),
            }
        } else if tag == TAG_CR_PING {
            if b.len() == 1 {
                Ok(ClientMessageReliable::Ping)
            } else {
                Err(DecodeError)
            }
        } else {
            Err(DecodeError)
        }
    }
}

// --- server, unreliable channel ---

/// A server-unreliable message fits the wire when its grid does.
pub open spec fn server_unreliable_encodable(m: ServerUnreliableV) -> bool {
    match m {
        ServerUnreliableV::MapPayload { map, number: _ } => grid_encodable(map),
        _ => true,
    }
}

pub open spec fn spec_encode_server_unreliable(m: ServerUnreliableV) -> Seq<u8> {
    match m {
        ServerUnreliableV::PlayerPosition { id, position, level } => {
            seq![TAG_SU_PLAYER_POSITION] + spec_u64_le(id) + spec_pos3_le(position) + seq![level]
        },
        ServerUnreliableV::MapPayload { map, number } => {
            seq![TAG_SU_MAP_PAYLOAD] + spec_grid(map) + seq![number]
        },
        ServerUnreliableV::WallPos { client_id, wall_id, pos, level } => {
            seq![TAG_SU_WALL_POS] + spec_u64_le(client_id) + spec_i32_le(wall_id) + spec_pos2_le(
                pos,
            ) + seq![level]
        },
    }
}

pub open spec fn spec_decode_server_unreliable(b: Seq<u8>) -> Option<ServerUnreliableV> {
    if b.len() < 1 {
        None
    } else if b[0] == TAG_SU_PLAYER_POSITION {
        if b.len() == 22 {
            Some(
                ServerUnreliableV::PlayerPosition {
                    id: spec_u64_at(b, 1),
                    position: spec_pos3_at(b, 9),
                    level: b[21],
                },
            )
        } else {
            None
        }
    } else if b[0] == TAG_SU_MAP_PAYLOAD {
        match spec_grid_at(b, 1) {
            Some((g, j)) => if b.len() == j + 1 {
                Some(ServerUnreliableV::MapPayload { map: g, number: b[j] })
            } else {
                None
            },
            None => None,
        }
    } else if b[0] == TAG_SU_WALL_POS {
        if b.len() == 22 {
            Some(
                ServerUnreliableV::WallPos {
                    client_id: spec_u64_at(b, 1),
                    wall_id: spec_i32_at(b, 9),
                    pos: spec_pos2_at(b, 13),
                    level: b[21],
                },
            )
        } else {
            None
        }
    } else {
        None
    }
}

#[verifier::rlimit(60)]
proof fn lemma_su_player_position_round(id: u64, position: Position3, level: u8)
    ensures
        spec_decode_server_unreliable(
            spec_encode_server_unreliable(
                ServerUnreliableV::PlayerPosition { id, position, level },
            ),
        ) == Some(ServerUnreliableV::PlayerPosition { id, position, level }),
{
    let m = ServerUnreliableV::PlayerPosition { id, position, level };
    let b = spec_encode_server_unreliable(m);
    assert(b =~= seq![TAG_SU_PLAYER_POSITION] + spec_u64_le(id) + (spec_pos3_le(position)
        + seq![level]));
    lemma_read_u64_cat(seq![TAG_SU_PLAYER_POSITION], id, spec_pos3_le(position) + seq![level]);
    assert(b =~= (seq![TAG_SU_PLAYER_POSITION] + spec_u64_le(id)) + spec_pos3_le(position)
        + seq![level]);
    lemma_read_pos3_cat(seq![TAG_SU_PLAYER_POSITION] + spec_u64_le(id), position, seq![level]);
    assert(b[21] == level);
}

proof fn lemma_su_map_payload_round(map: Seq<Seq<u8>>, number: u8)
    requires
        grid_encodable(map),
    ensures
        spec_decode_server_unreliable(
            spec_encode_server_unreliable(ServerUnreliableV::MapPayload { map, number }),
        ) == Some(ServerUnreliableV::MapPayload { map, number }),
{
    let m = ServerUnreliableV::MapPayload { map, number };
    let b = spec_encode_server_unreliable(m);
    assert(b =~= seq![TAG_SU_MAP_PAYLOAD] + spec_grid(map) + seq![number]);
    lemma_grid_round(map, seq![TAG_SU_MAP_PAYLOAD], seq![number]);
    let j = 1 + spec_grid(map).len() as int;
    assert(b[j] == number);
}

#[verifier::rlimit(60)]
proof fn lemma_su_wall_pos_round(client_id: u64, wall_id: i32, pos: Position2, level: u8)
    ensures
        spec_decode_server_unreliable(
            spec_encode_server_unreliable(
                ServerUnreliableV::WallPos { client_id, wall_id, pos, level },
            ),
        ) == Some(ServerUnreliableV::WallPos { client_id, wall_id, pos, level }),
{
    let m = ServerUnreliableV::WallPos { client_id, wall_id, pos, level };
    let b = spec_encode_server_unreliable(m);
    assert(b =~= seq![TAG_SU_WALL_POS] + spec_u64_le(client_id) + (spec_i32_le(wall_id)
        + spec_pos2_le(pos) + seq![level]));
    lemma_read_u64_cat(
        seq![TAG_SU_WALL_POS],
        client_id,
        spec_i32_le(wall_id) + spec_pos2_le(pos) + seq![level],
    );
    assert(b =~= (seq![TAG_SU_WALL_POS] + spec_u64_le(client_id)) + spec_i32_le(wall_id) + (
    spec_pos2_le(pos) + seq![level]));
    lemma_read_i32_cat(
        seq![TAG_SU_WALL_POS] + spec_u64_le(client_id),
        wall_id,
        spec_pos2_le(pos) + seq![level],
    );
    assert(b =~= (seq![TAG_SU_WALL_POS] + spec_u64_le(client_id) + spec_i32_le(wall_id))
        + spec_pos2_le(pos) + seq![level]);
    lemma_read_pos2_cat(
        seq![TAG_SU_WALL_POS] + spec_u64_le(client_id) + spec_i32_le(wall_id),
        pos,
        seq![level],
    );
    assert(b[21] == level);
}

/// Decoding an encoded server-unreliable message yields it back.
pub proof fn lemma_server_unreliable_round(m: ServerUnreliableV)
    requires
        server_unreliable_encodable(m),
    ensures
        spec_decode_server_unreliable(spec_encode_server_unreliable(m)) == Some(m),
{
    match m {
        ServerUnreliableV::PlayerPosition { id, position, level } => {
            lemma_su_player_position_round(id, position, level);
        },
        ServerUnreliableV::MapPayload { map, number } => {
            lemma_su_map_payload_round(map, number);
        },
        ServerUnreliableV::WallPos { client_id, wall_id, pos, level } => {
            lemma_su_wall_pos_round(client_id, wall_id, pos, level);
        },
    }
}

/// A decodable byte string is the encoding of what it decodes to.
pub proof fn lemma_server_unreliable_canon(b: Seq<u8>, m: ServerUnreliableV)
    requires
        spec_decode_server_unreliable(b) == Some(m),
    ensures
        spec_encode_server_unreliable(m) == b,
        server_unreliable_encodable(m),
{
    if b[0] == TAG_SU_PLAYER_POSITION {
        lemma_u64_canon(b, 1);
        lemma_pos3_canon(b, 9);
        assert(spec_encode_server_unreliable(m) =~= b);
    } else if b[0] == TAG_SU_MAP_PAYLOAD {
        match spec_grid_at(b, 1) {
            Some((g, j)) => {
                lemma_grid_canon(b, 1, g, j);
                assert(spec_encode_server_unreliable(m) =~= b);
            },
            None => {
                assert(false);
            },
        }
    } else {
        lemma_u64_canon(b, 1);
        lemma_i32_canon(b, 9);
        lemma_pos2_canon(b, 13);
        assert(spec_encode_server_unreliable(m) =~= b);
    }
}

impl ServerMessageUnreliable {
    /// Serializes the message; the result is exactly its wire encoding.
    pub fn encode(&self) -> (r: Vec<u8>)
        ensures
            r@ == spec_encode_server_unreliable(self@),
    {
        let mut out: Vec<u8> = Vec::new();
        match self {
            ServerMessageUnreliable::PlayerPosition { id, position, level } => {
                out.push(TAG_SU_PLAYER_POSITION);
                enc_u64(&mut out, *id);
                enc_pos3(&mut out, position);
                out.push(*level);
            },
            ServerMessageUnreliable::MapPayload { map, number } => {
                out.push(TAG_SU_MAP_PAYLOAD);
                enc_grid(&mut out, map);
                out.push(*number);
            },
            ServerMessageUnreliable::WallPos { client_id, wall_id, pos, level } => {
                out.push(TAG_SU_WALL_POS);
                enc_u64(&mut out, *client_id);
                enc_i32(&mut out, *wall_id);
                enc_pos2(&mut out, pos);
                out.push(*level);
            },
        }
        proof {
            assert(out@ =~= spec_encode_server_unreliable(self@));
        }
        out
    }

    /// Parses a datagram; fails exactly on byte strings that no message
    /// of this family encodes to.
    pub fn decode(b: &Vec<u8>) -> (r: Result<Self, DecodeError>)
        ensures
            match r {
                Ok(m) => spec_decode_server_unreliable(b@) == Some(m@),
                Err(_) => spec_decode_server_unreliable(b@) is None,
            },
    {
        if b.len() < 1 {
            return Err(DecodeError);
        }
        let tag = b[0];
        if tag == TAG_SU_PLAYER_POSITION {
            if b.len() != 22 {
                return Err(DecodeError);
            }
            match dec_u64(b, 1) {
                Some((id, _)) => match dec_pos3(b, 9) {
                    Some((position, _)) => Ok(
                        ServerMessageUnreliable::PlayerPosition { id, position, level: b[21] },
                    ),
                    None => Err(DecodeError),
                },
                None => Err(DecodeError),
            }
        } else if tag == TAG_SU_MAP_PAYLOAD {
            match dec_grid(b, 1) {
                Some((map, j)) => {
                    if b.len() - j == 1 {
                        Ok(ServerMessageUnreliable::MapPayload { map, number: b[j] })
                    } else {
                        Err(DecodeError)
                    }
                },
                None => Err(DecodeError),
            }
        } else if tag == TAG_SU_WALL_POS {
            if b.len() != 22 {
                return Err(DecodeError);
            }
            match dec_u64(b, 1) {
                Some((client_id, _)) => match dec_i32(b, 9) {
                    Some((wall_id, _)) => match dec_pos2(b, 13) {
                        Some((pos, _)) => Ok(
                            ServerMessageUnreliable::WallPos {
                                client_id,
                                wall_id,
                                pos,
                                level: b[21],
                            },
                        ),
                        None => Err(DecodeError),
                    },
                    None => Err(DecodeError),
                },
                None => Err(DecodeError),
            }
        } else {
            Err(DecodeError)
        }
    }
}

// --- server, reliable channel ---

/// A server-reliable message fits the wire when its text does.
pub open spec fn server_reliable_encodable(m: ServerReliableV) -> bool {
    match m {
        ServerReliableV::DebugMessage(s) => str_encodable(s),
        _ => true,
    }
}

pub open spec fn spec_encode_server_reliable(m: ServerReliableV) -> Seq<u8> {
    match m {
        ServerReliableV::PlayerConnected { id } => {
            seq![TAG_SR_PLAYER_CONNECTED] + spec_u64_le(id)
        },
        ServerReliableV::PlayerDisconnected { id } => {
            seq![TAG_SR_PLAYER_DISCONNECTED] + spec_u64_le(id)
        },
        ServerReliableV::DebugMessage(s) => seq![TAG_SR_DEBUG_MESSAGE] + spec_string(s),
        ServerReliableV::NumberOfMaps(n) => seq![TAG_SR_NUMBER_OF_MAPS] + spec_u16_le(n),
        ServerReliableV::Pong => seq![TAG_SR_PONG],
    }
}

pub open spec fn spec_decode_server_reliable(b: Seq<u8>) -> Option<ServerReliableV> {
    if b.len() < 1 {
        None
    } else if b[0] == TAG_SR_PLAYER_CONNECTED {
        if b.len() == 9 {
            Some(ServerReliableV::PlayerConnected { id: spec_u64_at(b, 1) })
        } else {
            None
        }
    } else if b[0] == TAG_SR_PLAYER_DISCONNECTED {
        if b.len() == 9 {
            Some(ServerReliableV::PlayerDisconnected { id: spec_u64_at(b, 1) })
        } else {
            None
        }
    } else if b[0] == TAG_SR_DEBUG_MESSAGE {
        match spec_string_at(b, 1) {
            Some((s, j)) => if b.len() == j {
                Some(ServerReliableV::DebugMessage(s))
            } else {
                None
            },
            None => None,
        }
    } else if b[0] == TAG_SR_NUMBER_OF_MAPS {
        if b.len() == 3 {
            Some(ServerReliableV::NumberOfMaps(spec_u16_at(b, 1)))
        } else {
            None
        }
    } else if b[0] == TAG_SR_PONG {
        if b.len() == 1 {
            Some(ServerReliableV::Pong)
        } else {
            None
        }
    } else {
        None
    }
}

/// Decoding an encoded server-reliable message yields it back.
pub proof fn lemma_server_reliable_round(m: ServerReliableV)
    requires
        server_reliable_encodable(m),
    ensures
        spec_decode_server_reliable(spec_encode_server_reliable(m)) == Some(m),
{
    match m {
        ServerReliableV::PlayerConnected { id } => {
            let b = spec_encode_server_reliable(m);
            assert(b =~= seq![TAG_SR_PLAYER_CONNECTED] + spec_u64_le(id) + Seq::<u8>::empty());
            lemma_read_u64_cat(seq![TAG_SR_PLAYER_CONNECTED], id, Seq::<u8>::empty());
        },
        ServerReliableV::PlayerDisconnected { id } => {
            let b = spec_encode_server_reliable(m);
            assert(b =~= seq![TAG_SR_PLAYER_DISCONNECTED] + spec_u64_le(id) + Seq::<u8>::empty());
            lemma_read_u64_cat(seq![TAG_SR_PLAYER_DISCONNECTED], id, Seq::<u8>::empty());
        },
        ServerReliableV::DebugMessage(s) => {
            let b = spec_encode_server_reliable(m);
            assert(b =~= seq![TAG_SR_DEBUG_MESSAGE] + spec_string(s) + Seq::<u8>::empty());
            lemma_string_round(s, seq![TAG_SR_DEBUG_MESSAGE], Seq::<u8>::empty());
            lemma_chars_len(s);
        },
        ServerReliableV::NumberOfMaps(n) => {
            let b = spec_encode_server_reliable(m);
            assert(b =~= seq![TAG_SR_NUMBER_OF_MAPS] + spec_u16_le(n) + Seq::<u8>::empty());
            lemma_read_u16_cat(seq![TAG_SR_NUMBER_OF_MAPS], n, Seq::<u8>::empty());
        },
        ServerReliableV::Pong => {},
    }
}

/// A decodable byte string is the encoding of what it decodes to.
pub proof fn lemma_server_reliable_canon(b: Seq<u8>, m: ServerReliableV)
    requires
        spec_decode_server_reliable(b) == Some(m),
    ensures
        spec_encode_server_reliable(m) == b,
        server_reliable_encodable(m),
{
    if b[0] == TAG_SR_PLAYER_CONNECTED || b[0] == TAG_SR_PLAYER_DISCONNECTED {
        lemma_u64_canon(b, 1);
        assert(spec_encode_server_reliable(m) =~= b);
    } else if b[0] == TAG_SR_DEBUG_MESSAGE {
        match spec_string_at(b, 1) {
            Some((s, j)) => {
                lemma_string_canon(b, 1, s, j);
                assert(spec_encode_server_reliable(m) =~= b);
            },
            None => {
                assert(false);
            },
        }
    } else if b[0] == TAG_SR_NUMBER_OF_MAPS {
        lemma_u16_canon(b, 1);
        assert(spec_encode_server_reliable(m) =~= b);
    } else {
        assert(spec_encode_server_reliable(m) =~= b);
    }
}

impl ServerMessageReliable {
    /// Serializes the message; the result is exactly its wire encoding.
    pub fn encode(&self) -> (r: Vec<u8>)
        ensures
            r@ == spec_encode_server_reliable(self@),
    {
        let mut out: Vec<u8> = Vec::new();
        match self {
            ServerMessageReliable::PlayerConnected { id } => {
                out.push(TAG_SR_PLAYER_CONNECTED);
                enc_u64(&mut out, *id);
            },
            ServerMessageReliable::PlayerDisconnected { id } => {
                out.push(TAG_SR_PLAYER_DISCONNECTED);
                enc_u64(&mut out, *id);
            },
            ServerMessageReliable::DebugMessage(s) => {
                out.push(TAG_SR_DEBUG_MESSAGE);
                enc_string(&mut out, s);
            },
            ServerMessageReliable::NumberOfMaps(n) => {
                out.push(TAG_SR_NUMBER_OF_MAPS);
                enc_u16(&mut out, *n);
            },
            ServerMessageReliable::Pong => {
                out.push(TAG_SR_PONG);
            },
        }
        proof {
            assert(out@ =~= spec_encode_server_reliable(self@));
        }
        out
    }

    /// Parses a datagram; fails exactly on byte strings that no message
    /// of this family encodes to.
    pub fn decode(b: &Vec<u8>) -> (r: Result<Self, DecodeError>)
        ensures
            match r {
                Ok(m) => spec_decode_server_reliable(b@) == Some(m@),
                Err(_) => spec_decode_server_reliable(b@) is None,
            },
    {
        if b.len() < 1 {
            return Err(DecodeError);
        }
        let tag = b[0];
        if tag == TAG_SR_PLAYER_CONNECTED {
            if b.len() != 9 {
                return Err(DecodeError);
            }
            match dec_u64(b, 1) {
                Some((id, _)) => Ok(ServerMessageReliable::PlayerConnected { id }),
                None => Err(DecodeError),
            }
        } else if tag == TAG_SR_PLAYER_DISCONNECTED {
            if b.len() != 9 {
                return Err(DecodeError);
            }
            match dec_u64(b, 1) {
                Some((id, _)) => Ok(ServerMessageReliable::PlayerDisconnected { id }),
                None => Err(DecodeError),
            }
        } else if tag == TAG_SR_DEBUG_MESSAGE {
            match dec_string(b, 1) {
                Some((s, p)) => {
                    if p == b.len() {
                        Ok(ServerMessageReliable::DebugMessage(s))
                    } else {
                        Err(DecodeError)
                    }
                },
                None => Err(DecodeError),
            }
        } else if tag == TAG_SR_NUMBER_OF_MAPS {
            if b.len() != 3 {
                return Err(DecodeError);
            }
            match dec_u16(b, 1) {
                Some((n, _)) => Ok(ServerMessageReliable::NumberOfMaps(n)),
                None => Err(DecodeError),
            }
        } else if tag == TAG_SR_PONG {
            if b.len() == 1 {
                Ok(ServerMessageReliable::Pong)
            } else {
                Err(DecodeError)
            }
        } else {
            Err(DecodeError)
        }
    }
}

} // verus!
