//! The decisions that each side takes on the events of its network link.
//! The caller performs the returned action and hands in the next event.

use crate::protocol::{
    decode_client_message, decode_server_message, encode_client_message, encode_server_message,
    parse_client_message, parse_server_message, client_message_bytes, server_message_bytes,
    law_client_message_roundtrip, law_server_message_roundtrip, DecodeError, FromClientMessage,
    FromServerMessage, ServerMessageModel,
};
use crate::le::lemma_pow256_values;
use vstd::prelude::*;

verus! {

/// What the desktop's listener reports.
pub enum ServerEvent {
    /// An outgoing connection was set up (the desktop makes none).
    Connected,
    /// An e-reader connected.
    Accepted,
    /// Bytes arrived from the e-reader.
    Message(Vec<u8>),
    /// The e-reader went away.
    Disconnected,
}

/// What the desktop does about an event.
#[derive(Debug)]
pub enum ServerAction {
    /// Nothing.
    Ignore,
    /// Tells the capture loop that an e-reader is there to send pictures to.
    ReportClient,
    /// Sends these bytes back to the e-reader.
    Reply(Vec<u8>),
    /// The e-reader was touched at this position.
    ClickReceived(u16, u16),
    /// The bytes were no message; the listener stops.
    Reject(DecodeError),
}

/// What the e-reader's link reports.
pub enum ClientEvent {
    /// The connection to the desktop was set up (`true`) or failed (`false`).
    Connected(bool),
    /// A connection was accepted (the e-reader listens for none).
    Accepted,
    /// Bytes arrived from the desktop.
    Message(Vec<u8>),
    /// The desktop went away.
    Disconnected,
    /// A message the e-reader queued for itself is due.
    Signal(FromClientMessage),
}

/// What the e-reader does about an event.
#[derive(Debug)]
pub enum ClientAction {
    /// Queues a `Ping` for itself, to be sent when it comes due.
    QueuePing,
    /// Stops the picture writer and the link, to retry after a pause.
    Reconnect,
    /// The desktop answered a ping.
    PongReceived,
    /// Hands this picture to the picture writer.
    ForwardScreen(Vec<u8>),
    /// Sends these bytes to the desktop.
    Send(Vec<u8>),
    /// Nothing.
    Ignore,
    /// An event that cannot happen on this side; the link stops.
    Unexpected,
    /// The bytes were no message; the link stops.
    Reject(DecodeError),
}

/// Whether `action` is the desktop's decision on `event`: an accepted
/// connection is reported to the capture loop, a `Ping` is answered with the
/// bytes of a `Pong`, a touch is passed on, bytes that are no message are
/// refused, and the rest is ignored.
pub open spec fn server_decides(event: ServerEvent, action: ServerAction) -> bool {
    match event {
        ServerEvent::Connected => action is Ignore,
        ServerEvent::Disconnected => action is Ignore,
        ServerEvent::Accepted => action is ReportClient,
        ServerEvent::Message(bytes) => match parse_client_message(bytes@) {
            Ok(FromClientMessage::Ping) => action matches ServerAction::Reply(reply)
                && reply@ == server_message_bytes(ServerMessageModel::Pong),
            Ok(FromClientMessage::Click(x, y)) => action matches ServerAction::ClickReceived(
                ax,
                ay,
            ) && ax == x && ay == y,
            Err(e) => action matches ServerAction::Reject(f) && f == e,
        },
}
}

/// Whether `action` is the e-reader's decision on `event`: a set-up link
/// queues a `Ping`, a failed or lost link is retried, a due `Ping` is sent as
/// its bytes, a `Pong` is noted, a picture goes to the picture writer, bytes
/// that are no message are refused, and the rest is ignored or unexpected.
pub open spec fn client_decides(event: ClientEvent, action: ClientAction) -> bool {
    match event {
        ClientEvent::Connected(true) => action is QueuePing,
        ClientEvent::Connected(false) => action is Reconnect,
        ClientEvent::Disconnected => action is Reconnect,
        ClientEvent::Accepted => action is Unexpected,
        ClientEvent::Signal(FromClientMessage::Ping) => action matches ClientAction::Send(
            bytes,
        ) && bytes@ == client_message_bytes(FromClientMessage::Ping),
        ClientEvent::Signal(FromClientMessage::Click(_, _)) => action is Ignore,
        ClientEvent::Message(bytes) => match parse_server_message(bytes@) {
            Ok(ServerMessageModel::Pong) => action is PongReceived,
            Ok(ServerMessageModel::Screen(picture)) => action matches ClientAction::ForwardScreen(
                p,
            ) && p@ == picture,
            Err(e) => action matches ClientAction::Reject(f) && f == e,
        },
}
}

/// The desktop's decision on `event`.
pub fn handle_server_event(event: ServerEvent) -> (action: ServerAction)
    ensures
        server_decides(event, action),
{
    match event {
        ServerEvent::Connected => ServerAction::Ignore,
        ServerEvent::Disconnected => ServerAction::Ignore,
        ServerEvent::Accepted => ServerAction::ReportClient,
        ServerEvent::Message(bytes) => match decode_client_message(bytes.as_slice()) {
            Ok(FromClientMessage::Ping) => {
                ServerAction::Reply(encode_server_message(&FromServerMessage::Pong))
            },
            Ok(FromClientMessage::Click(x, y)) => ServerAction::ClickReceived(x, y),
            Err(e) => ServerAction::Reject(e),
        },
    }
}

/// The e-reader's decision on `event`.
pub fn handle_client_event(event: ClientEvent) -> (action: ClientAction)
    ensures
        client_decides(event, action),
{
    match event {
        ClientEvent::Connected(established) => {
            if established {
                ClientAction::QueuePing
            } else {
                ClientAction::Reconnect
            }
        },
        ClientEvent::Disconnected => ClientAction::Reconnect,
        ClientEvent::Accepted => ClientAction::Unexpected,
        ClientEvent::Signal(FromClientMessage::Ping) => {
            ClientAction::Send(encode_client_message(&FromClientMessage::Ping))
        },
        ClientEvent::Signal(FromClientMessage::Click(_, _)) => ClientAction::Ignore,
        ClientEvent::Message(bytes) => match decode_server_message(bytes.as_slice()) {
            Ok(FromServerMessage::Pong) => ClientAction::PongReceived,
            Ok(FromServerMessage::Screen(picture)) => ClientAction::ForwardScreen(picture),
            Err(e) => ClientAction::Reject(e),
        },
    }
}

/// A `Ping` that the e-reader sends is answered by the desktop, and the
/// e-reader reads the answer as a `Pong`.
pub proof fn law_ping_is_answered(request: Vec<u8>, answer: ServerAction, outcome: ClientAction)
    requires
        request@ == client_message_bytes(FromClientMessage::Ping),
        server_decides(ServerEvent::Message(request), answer),
        answer matches ServerAction::Reply(reply) ==> client_decides(
            ClientEvent::Message(reply),
            outcome,
        ),
    ensures
        answer is Reply,
        outcome is PongReceived,
{
    law_client_message_roundtrip(FromClientMessage::Ping, Seq::empty());
    assert(request@ =~= client_message_bytes(FromClientMessage::Ping) + Seq::<u8>::empty());
    law_server_message_roundtrip(ServerMessageModel::Pong, Seq::empty());
    if let ServerAction::Reply(reply) = answer {
        assert(reply@ =~= server_message_bytes(ServerMessageModel::Pong) + Seq::<u8>::empty());
    }
}

/// A picture that the desktop sends reaches the e-reader's picture writer
/// unchanged.
pub proof fn law_screen_is_delivered(picture: Vec<u8>, sent: Vec<u8>, outcome: ClientAction)
    requires
        sent@ == server_message_bytes(ServerMessageModel::Screen(picture@)),
        client_decides(ClientEvent::Message(sent), outcome),
    ensures
        outcome matches ClientAction::ForwardScreen(p) && p@ == picture@,
{
    lemma_pow256_values();
    assert(picture@.len() == picture.len());
    law_server_message_roundtrip(ServerMessageModel::Screen(picture@), Seq::empty());
    assert(sent@ =~= server_message_bytes(ServerMessageModel::Screen(picture@)) + Seq::<u8>::empty());
}

/// A touch that the e-reader sends reaches the desktop at the same position,
/// x as x and y as y.
pub proof fn law_click_is_passed_on(request: Vec<u8>, x: u16, y: u16, action: ServerAction)
    requires
        request@ == client_message_bytes(FromClientMessage::Click(x, y)),
        server_decides(ServerEvent::Message(request), action),
    ensures
        action matches ServerAction::ClickReceived(ax, ay) && ax == x && ay == y,
{
    law_client_message_roundtrip(FromClientMessage::Click(x, y), Seq::empty());
    assert(request@ =~= client_message_bytes(FromClientMessage::Click(x, y)) + Seq::<u8>::empty());
}

} // verus!
