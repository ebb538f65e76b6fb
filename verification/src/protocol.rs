//! The messages that the e-reader (client) and the desktop (server) exchange,
//! and their byte layout on the wire: a variant index as a 4-byte little-endian
//! integer, then the variant's fields, integers little-endian at their own
//! width, a byte vector as an 8-byte little-endian length and then its bytes.
//! A reader accepts any bytes that follow a complete message.

use crate::le::{
    le_bytes, le_value, lemma_le_bytes_len, lemma_le_bytes_of_value, lemma_le_value_bound,
    lemma_le_value_of_bytes, lemma_pow256_values, law_le_bytes_digit, pow256, push_le, read_le,
};
use vstd::prelude::*;

verus! {

/// What the client sends to the server.
#[derive(Clone, Copy, Debug, PartialEq, Eq, Structural)]
pub enum FromClientMessage {
    /// Asks for a `Pong`.
    Ping,
    /// A touch at the given x / y position.
    Click(u16, u16),
}

/// What the server sends to the client.
#[derive(Debug)]
pub enum FromServerMessage {
    /// Answers a `Ping`.
    Pong,
    /// An encoded picture of the mirrored screen.
    Screen(Vec<u8>),
}

/// The mathematical value of a `FromServerMessage`.
pub ghost enum ServerMessageModel {
    Pong,
    Screen(Seq<u8>),
}

impl View for FromServerMessage {
    type V = ServerMessageModel;

    open spec fn view(&self) -> ServerMessageModel {
        match self {
            FromServerMessage::Pong => ServerMessageModel::Pong,
            FromServerMessage::Screen(data) => ServerMessageModel::Screen(data@),
        }
    }
}

/// Why bytes are not a message.
#[derive(Clone, Copy, Debug, PartialEq, Eq, Structural)]
pub enum DecodeError {
    /// The bytes end before the message does.
    Truncated,
    /// The variant index names no variant.
    UnknownVariant(u32),
}

/// The bytes of a `FromClientMessage`.
pub open spec fn client_message_bytes(m: FromClientMessage) -> Seq<u8> {
    match m {
        FromClientMessage::Ping => le_bytes(0, 4),
        FromClientMessage::Click(x, y) => le_bytes(1, 4) + le_bytes(x as nat, 2) + le_bytes(
            y as nat,
            2,
        ),
    }
}

/// The bytes of a `FromServerMessage`.
pub open spec fn server_message_bytes(m: ServerMessageModel) -> Seq<u8> {
    match m {
        ServerMessageModel::Pong => le_bytes(0, 4),
        ServerMessageModel::Screen(data) => le_bytes(1, 4) + le_bytes(data.len(), 8) + data,
    }
}

/// The variant index at the start of `b`.
pub open spec fn tag_of(b: Seq<u8>) -> nat {
    le_value(b.subrange(0, 4))
}

/// What a reader makes of the bytes `b` as a `FromClientMessage`.
pub open spec fn parse_client_message(b: Seq<u8>) -> Result<FromClientMessage, DecodeError> {
    if b.len() < 4 {
        Err(DecodeError::Truncated)
    } else if tag_of(b) == 0 {
        Ok(FromClientMessage::Ping)
    } else if tag_of(b) == 1 {
        if b.len() < 8 {
            Err(DecodeError::Truncated)
        } else {
            Ok(
                FromClientMessage::Click(
                    le_value(b.subrange(4, 6)) as u16,
                    le_value(b.subrange(6, 8)) as u16,
                ),
            )
        }
    } else {
        Err(DecodeError::UnknownVariant(tag_of(b) as u32))
    }
}

/// What a reader makes of the bytes `b` as a `FromServerMessage`.
pub open spec fn parse_server_message(b: Seq<u8>) -> Result<ServerMessageModel, DecodeError> {
    if b.len() < 4 {
        Err(DecodeError::Truncated)
    } else if tag_of(b) == 0 {
        Ok(ServerMessageModel::Pong)
    } else if tag_of(b) == 1 {
        if b.len() < 12 {
            Err(DecodeError::Truncated)
        } else {
            let n = le_value(b.subrange(4, 12));
            if b.len() < 12 + n {
                Err(DecodeError::Truncated)
            } else {
                Ok(ServerMessageModel::Screen(b.subrange(12, 12 + n as int)))
            }
        }
    } else {
        Err(DecodeError::UnknownVariant(tag_of(b) as u32))
    }
}

/// The bytes of a client message.
pub fn encode_client_message(m: &FromClientMessage) -> (bytes: Vec<u8>)
    ensures
        bytes@ == client_message_bytes(*m),
{
    let mut out: Vec<u8> = Vec::new();
    match m {
        FromClientMessage::Ping => {
            push_le(&mut out, 0, 4);
        },
        FromClientMessage::Click(x, y) => {
            push_le(&mut out, 1, 4);
            push_le(&mut out, *x as u64, 2);
            push_le(&mut out, *y as u64, 2);
        },
    }
    assert(out@ =~= client_message_bytes(*m));
    out
}

/// The bytes of a server message.
pub fn encode_server_message(m: &FromServerMessage) -> (bytes: Vec<u8>)
    ensures
        bytes@ == server_message_bytes(m@),
{
    let mut out: Vec<u8> = Vec::new();
    match m {
        FromServerMessage::Pong => {
            push_le(&mut out, 0, 4);
        },
        FromServerMessage::Screen(data) => {
            push_le(&mut out, 1, 4);
            push_le(&mut out, data.len() as u64, 8);
            let ghost head = out@;
            out.extend_from_slice(data.as_slice());
            assert(out@ =~= head + data@);
        },
    }
    assert(out@ =~= server_message_bytes(m@));
    out
}

/// Reads the variant index at the start of `bytes`.
fn read_tag(bytes: &[u8]) -> (tag: u32)
    requires
        bytes@.len() >= 4,
    ensures
        tag as nat == tag_of(bytes@),
{
    let v = read_le(bytes, 0, 4);
    proof {
        lemma_le_value_bound(bytes@.subrange(0, 4));
        lemma_pow256_values();
    }
    v as u32
}

/// Reads a client message from the start of `bytes`.
pub fn decode_client_message(bytes: &[u8]) -> (r: Result<FromClientMessage, DecodeError>)
    ensures
        r == parse_client_message(bytes@),
{
    if bytes.len() < 4 {
        return Err(DecodeError::Truncated);
    }
    let tag = read_tag(bytes);
    if tag == 0 {
        Ok(FromClientMessage::Ping)
    } else if tag == 1 {
        if bytes.len() < 8 {
            Err(DecodeError::Truncated)
        } else {
            let x = read_le(bytes, 4, 2);
            let y = read_le(bytes, 6, 2);
            proof {
                lemma_le_value_bound(bytes@.subrange(4, 6));
                lemma_le_value_bound(bytes@.subrange(6, 8));
                lemma_pow256_values();
            }
            Ok(FromClientMessage::Click(x as u16, y as u16))
        }
    } else {
        Err(DecodeError::UnknownVariant(tag))
    }
}

/// Reads a server message from the start of `bytes`.
pub fn decode_server_message(bytes: &[u8]) -> (r: Result<FromServerMessage, DecodeError>)
    ensures
        match (r, parse_server_message(bytes@)) {
            (Ok(m), Ok(model)) => m@ == model,
            (Err(e), Err(f)) => e == f,
            _ => false,
        },
{
    if bytes.len() < 4 {
        return Err(DecodeError::Truncated);
    }
    let tag = read_tag(bytes);
    if tag == 0 {
        Ok(FromServerMessage::Pong)
    } else if tag == 1 {
        if bytes.len() < 12 {
            Err(DecodeError::Truncated)
        } else {
            let n = read_le(bytes, 4, 8);
            let room = (bytes.len() - 12) as u64;
            if n > room {
                Err(DecodeError::Truncated)
            } else {
                let end = 12 + n as usize;
                let mut data: Vec<u8> = Vec::new();
                data.extend_from_slice(&bytes[12..end]);
                assert(data@ =~= bytes@.subrange(12, 12 + n));
                Ok(FromServerMessage::Screen(data))
            }
        }
    } else {
        Err(DecodeError::UnknownVariant(tag))
    }
}

/// A `Ping` and a `Pong` are the variant index 0 in four bytes.
pub proof fn law_empty_message_bytes()
    ensures
        client_message_bytes(FromClientMessage::Ping) == seq![0u8, 0u8, 0u8, 0u8],
        server_message_bytes(ServerMessageModel::Pong) == seq![0u8, 0u8, 0u8, 0u8],
{
    reveal_with_fuel(le_bytes, 5);
    assert(le_bytes(0, 4) =~= seq![0u8, 0u8, 0u8, 0u8]);
}

/// A touch at `x`, `y` is the variant index 1 in four bytes, then `x` and
/// then `y`, each low byte first.
pub proof fn law_click_bytes(x: u16, y: u16)
    ensures
        client_message_bytes(FromClientMessage::Click(x, y)) == seq![
            1u8,
            0u8,
            0u8,
            0u8,
            (x % 256) as u8,
            (x / 256) as u8,
            (y % 256) as u8,
            (y / 256) as u8,
        ],
{
    reveal_with_fuel(le_bytes, 5);
    assert(le_bytes(1, 4) =~= seq![1u8, 0u8, 0u8, 0u8]);
    assert(le_bytes(x as nat, 2) =~= seq![(x % 256) as u8, (x / 256) as u8]);
    assert(le_bytes(y as nat, 2) =~= seq![(y % 256) as u8, (y / 256) as u8]);
    assert(client_message_bytes(FromClientMessage::Click(x, y)) =~= seq![
        1u8,
        0u8,
        0u8,
        0u8,
        (x % 256) as u8,
        (x / 256) as u8,
        (y % 256) as u8,
        (y / 256) as u8,
    ]);
}

/// A picture is the variant index 1 in four bytes, its length in eight bytes,
/// low byte first, and then its bytes.
pub proof fn law_screen_bytes(data: Seq<u8>)
    ensures
        ({
            let b = server_message_bytes(ServerMessageModel::Screen(data));
            &&& b.len() == 12 + data.len()
            &&& b.subrange(0, 4) == seq![1u8, 0u8, 0u8, 0u8]
            &&& forall|j: int|
                4 <= j < 12 ==> #[trigger] b[j] == ((data.len() / pow256((j - 4) as nat)) % 256) as u8
            &&& b.subrange(12, b.len() as int) == data
        }),
{
    reveal_with_fuel(le_bytes, 5);
    let b = server_message_bytes(ServerMessageModel::Screen(data));
    assert(le_bytes(1, 4) =~= seq![1u8, 0u8, 0u8, 0u8]);
    lemma_le_bytes_len(data.len(), 8);
    assert(b.subrange(0, 4) =~= seq![1u8, 0u8, 0u8, 0u8]);
    assert(b.subrange(12, b.len() as int) =~= data);
    assert forall|j: int| 4 <= j < 12 implies #[trigger] b[j] == ((data.len() / pow256(
        (j - 4) as nat,
    )) % 256) as u8 by {
        law_le_bytes_digit(data.len(), 8, (j - 4) as nat);
    }
}

/// The number that the four bytes at `start` denote, low byte first.
pub open spec fn u32_at(b: Seq<u8>, start: int) -> int {
    b[start] + 256 * b[start + 1] + 65536 * b[start + 2] + 16777216 * b[start + 3]
}

proof fn lemma_le_value_four(b: Seq<u8>, start: int)
    requires
        0 <= start,
        start + 4 <= b.len(),
    ensures
        le_value(b.subrange(start, start + 4)) == u32_at(b, start),
{
    let t = b.subrange(start, start + 4);
    reveal_with_fuel(le_value, 5);
    assert(t.drop_first() =~= b.subrange(start + 1, start + 4));
    assert(t.drop_first().drop_first() =~= b.subrange(start + 2, start + 4));
    assert(t.drop_first().drop_first().drop_first() =~= b.subrange(start + 3, start + 4));
    assert(t.drop_first().drop_first().drop_first().drop_first() =~= Seq::<u8>::empty());
}

/// How a reader fails on bytes that are no client message: `Truncated`
/// exactly when fewer than four bytes come, or a touch's index `1, 0, 0, 0`
/// comes with fewer than eight bytes in all; `UnknownVariant(t)` exactly when
/// the first four bytes are neither `0, 0, 0, 0` nor `1, 0, 0, 0`, `t` being
/// the number they denote, low byte first.
pub proof fn law_client_message_errors(b: Seq<u8>)
    ensures
        parse_client_message(b) == Err::<FromClientMessage, DecodeError>(DecodeError::Truncated)
            <==> (b.len() < 4 || (b.subrange(0, 4) == seq![1u8, 0u8, 0u8, 0u8] && b.len() < 8)),
        (parse_client_message(b) matches Err(DecodeError::UnknownVariant(_))) <==> (b.len() >= 4
            && b.subrange(0, 4) != seq![0u8, 0u8, 0u8, 0u8] && b.subrange(0, 4) != seq![
            1u8,
            0u8,
            0u8,
            0u8,
        ]),
        parse_client_message(b) matches Err(DecodeError::UnknownVariant(t)) ==> t as int == u32_at(
            b,
            0,
        ),
{
    if b.len() >= 4 {
        lemma_le_value_four(b, 0);
        let t = b.subrange(0, 4);
        if t =~= seq![0u8, 0u8, 0u8, 0u8] {
        } else if t =~= seq![1u8, 0u8, 0u8, 0u8] {
        } else {
            assert(u32_at(b, 0) != 0 && u32_at(b, 0) != 1) by {
                assert(t[0] == b[0] && t[1] == b[1] && t[2] == b[2] && t[3] == b[3]);
            }
        }
        lemma_le_value_bound(t);
        lemma_pow256_values();
    }
}

/// How a reader fails on bytes that are no server message: `Truncated`
/// exactly when fewer than four bytes come, or a picture's index
/// `1, 0, 0, 0` comes without the eight length bytes or without as many
/// picture bytes as they count; `UnknownVariant(t)` exactly when the first
/// four bytes are neither `0, 0, 0, 0` nor `1, 0, 0, 0`, `t` being the number
/// they denote, low byte first.
pub proof fn law_server_message_errors(b: Seq<u8>)
    ensures
        parse_server_message(b) == Err::<ServerMessageModel, DecodeError>(DecodeError::Truncated)
            <==> (b.len() < 4 || (b.subrange(0, 4) == seq![1u8, 0u8, 0u8, 0u8] && (b.len() < 12
            || b.len() < 12 + u32_at(b, 4) + 4294967296 * u32_at(b, 8)))),
        (parse_server_message(b) matches Err(DecodeError::UnknownVariant(_))) <==> (b.len() >= 4
            && b.subrange(0, 4) != seq![0u8, 0u8, 0u8, 0u8] && b.subrange(0, 4) != seq![
            1u8,
            0u8,
            0u8,
            0u8,
        ]),
        parse_server_message(b) matches Err(DecodeError::UnknownVariant(t)) ==> t as int == u32_at(
            b,
            0,
        ),
{
    if b.len() >= 4 {
        lemma_le_value_four(b, 0);
        let t = b.subrange(0, 4);
        if t =~= seq![0u8, 0u8, 0u8, 0u8] {
        } else if t =~= seq![1u8, 0u8, 0u8, 0u8] {
            if b.len() >= 12 {
                lemma_length_field(b);
            }
        } else {
            assert(u32_at(b, 0) != 0 && u32_at(b, 0) != 1) by {
                assert(t[0] == b[0] && t[1] == b[1] && t[2] == b[2] && t[3] == b[3]);
            }
        }
        lemma_le_value_bound(t);
        lemma_pow256_values();
    }
}

proof fn lemma_length_field(b: Seq<u8>)
    requires
        b.len() >= 12,
    ensures
        le_value(b.subrange(4, 12)) == u32_at(b, 4) + 4294967296 * u32_at(b, 8),
{
    let t = b.subrange(4, 12);
    reveal_with_fuel(le_value, 9);
    assert(t.drop_first() =~= b.subrange(5, 12));
    assert(t.drop_first().drop_first() =~= b.subrange(6, 12));
    assert(t.drop_first().drop_first().drop_first() =~= b.subrange(7, 12));
    assert(t.drop_first().drop_first().drop_first().drop_first() =~= b.subrange(8, 12));
    assert(b.subrange(8, 12).drop_first() =~= b.subrange(9, 12));
    assert(b.subrange(9, 12).drop_first() =~= b.subrange(10, 12));
    assert(b.subrange(10, 12).drop_first() =~= b.subrange(11, 12));
    assert(b.subrange(11, 12).drop_first() =~= Seq::<u8>::empty());
}

/// A message is read back from its bytes, whatever bytes follow them.
pub proof fn law_client_message_roundtrip(m: FromClientMessage, rest: Seq<u8>)
    ensures
        parse_client_message(client_message_bytes(m) + rest) == Ok::<FromClientMessage, DecodeError>(m),
{
    lemma_pow256_values();
    let b = client_message_bytes(m) + rest;
    lemma_le_bytes_len(0, 4);
    lemma_le_bytes_len(1, 4);
    match m {
        FromClientMessage::Ping => {
            assert(b.subrange(0, 4) =~= le_bytes(0, 4));
            lemma_le_value_of_bytes(0, 4);
        },
        FromClientMessage::Click(x, y) => {
            lemma_le_bytes_len(x as nat, 2);
            lemma_le_bytes_len(y as nat, 2);
            assert(b.subrange(0, 4) =~= le_bytes(1, 4));
            assert(b.subrange(4, 6) =~= le_bytes(x as nat, 2));
            assert(b.subrange(6, 8) =~= le_bytes(y as nat, 2));
            lemma_le_value_of_bytes(1, 4);
            lemma_le_value_of_bytes(x as nat, 2);
            lemma_le_value_of_bytes(y as nat, 2);
        },
    }
}

/// Bytes read as a message begin with that message's bytes.
pub proof fn law_client_message_canonical(b: Seq<u8>)
    ensures
        parse_client_message(b) matches Ok(m) ==> client_message_bytes(m).is_prefix_of(b),
{
    lemma_pow256_values();
    if let Ok(m) = parse_client_message(b) {
        lemma_le_bytes_of_value(b.subrange(0, 4));
        match m {
            FromClientMessage::Ping => {
                assert(client_message_bytes(m) =~= b.subrange(0, 4));
            },
            FromClientMessage::Click(x, y) => {
                lemma_le_bytes_of_value(b.subrange(4, 6));
                lemma_le_bytes_of_value(b.subrange(6, 8));
                lemma_le_value_bound(b.subrange(4, 6));
                lemma_le_value_bound(b.subrange(6, 8));
                assert(client_message_bytes(m) =~= b.subrange(0, 4) + b.subrange(4, 6)
                    + b.subrange(6, 8));
                assert(client_message_bytes(m) =~= b.subrange(0, 8));
            },
        }
    }
}

/// A message is read back from its bytes, whatever bytes follow them
/// (for a picture shorter than 2^64 bytes, which every vector is).
pub proof fn law_server_message_roundtrip(m: ServerMessageModel, rest: Seq<u8>)
    requires
        m matches ServerMessageModel::Screen(data) ==> data.len() < pow256(8),
    ensures
        parse_server_message(server_message_bytes(m) + rest) == Ok::<ServerMessageModel, DecodeError>(m),
{
    lemma_pow256_values();
    let b = server_message_bytes(m) + rest;
    lemma_le_bytes_len(0, 4);
    lemma_le_bytes_len(1, 4);
    match m {
        ServerMessageModel::Pong => {
            assert(b.subrange(0, 4) =~= le_bytes(0, 4));
            lemma_le_value_of_bytes(0, 4);
        },
        ServerMessageModel::Screen(data) => {
            lemma_le_bytes_len(data.len(), 8);
            assert(b.subrange(0, 4) =~= le_bytes(1, 4));
            assert(b.subrange(4, 12) =~= le_bytes(data.len(), 8));
            lemma_le_value_of_bytes(1, 4);
            lemma_le_value_of_bytes(data.len(), 8);
            assert(b.subrange(12, 12 + data.len() as int) =~= data);
        },
    }
}

/// Bytes read as a message begin with that message's bytes.
pub proof fn law_server_message_canonical(b: Seq<u8>)
    ensures
        parse_server_message(b) matches Ok(m) ==> server_message_bytes(m).is_prefix_of(b),
{
    lemma_pow256_values();
    if let Ok(m) = parse_server_message(b) {
        lemma_le_bytes_of_value(b.subrange(0, 4));
        match m {
            ServerMessageModel::Pong => {
                assert(server_message_bytes(m) =~= b.subrange(0, 4));
            },
            ServerMessageModel::Screen(data) => {
                let n = le_value(b.subrange(4, 12));
                lemma_le_bytes_of_value(b.subrange(4, 12));
                assert(data.len() == n);
                assert(server_message_bytes(m) =~= b.subrange(0, 12 + n as int));
            },
        }
    }
}

} // verus!
