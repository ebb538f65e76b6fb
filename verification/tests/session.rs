use mirkobo::protocol::{encode_client_message, encode_server_message, DecodeError, FromClientMessage, FromServerMessage};
use mirkobo::session::{handle_client_event, handle_server_event, ClientAction, ClientEvent, ServerAction, ServerEvent};

#[test]
fn server_answers_ping_with_pong() {
    let request = encode_client_message(&FromClientMessage::Ping);
    match handle_server_event(ServerEvent::Message(request)) {
        ServerAction::Reply(r) => assert_eq!(r, vec![0, 0, 0, 0]),
        other => panic!("unexpected {:?}", other),
    }
}

#[test]
fn server_passes_clicks_on() {
    let request = encode_client_message(&FromClientMessage::Click(10, 20));
    assert!(matches!(handle_server_event(ServerEvent::Message(request)), ServerAction::ClickReceived(10, 20)));
}

#[test]
fn server_refuses_malformed_bytes() {
    assert!(matches!(
        handle_server_event(ServerEvent::Message(vec![9, 0, 0, 0])),
        ServerAction::Reject(DecodeError::UnknownVariant(9))
    ));
    assert!(matches!(
        handle_server_event(ServerEvent::Message(vec![1, 0])),
        ServerAction::Reject(DecodeError::Truncated)
    ));
}

#[test]
fn server_link_events() {
    assert!(matches!(handle_server_event(ServerEvent::Accepted), ServerAction::ReportClient));
    assert!(matches!(handle_server_event(ServerEvent::Connected), ServerAction::Ignore));
    assert!(matches!(handle_server_event(ServerEvent::Disconnected), ServerAction::Ignore));
}

#[test]
fn client_link_events() {
    assert!(matches!(handle_client_event(ClientEvent::Connected(true)), ClientAction::QueuePing));
    assert!(matches!(handle_client_event(ClientEvent::Connected(false)), ClientAction::Reconnect));
    assert!(matches!(handle_client_event(ClientEvent::Disconnected), ClientAction::Reconnect));
    assert!(matches!(handle_client_event(ClientEvent::Accepted), ClientAction::Unexpected));
    assert!(matches!(
        handle_client_event(ClientEvent::Signal(FromClientMessage::Click(1, 2))),
        ClientAction::Ignore
    ));
}

#[test]
fn client_sends_due_ping() {
    match handle_client_event(ClientEvent::Signal(FromClientMessage::Ping)) {
        ClientAction::Send(b) => assert_eq!(b, vec![0, 0, 0, 0]),
        other => panic!("unexpected {:?}", other),
    }
}

#[test]
fn ping_pong_round_trip() {
    let request = match handle_client_event(ClientEvent::Signal(FromClientMessage::Ping)) {
        ClientAction::Send(b) => b,
        other => panic!("unexpected {:?}", other),
    };
    let reply = match handle_server_event(ServerEvent::Message(request)) {
        ServerAction::Reply(r) => r,
        other => panic!("unexpected {:?}", other),
    };
    assert!(matches!(handle_client_event(ClientEvent::Message(reply)), ClientAction::PongReceived));
}

#[test]
fn screen_reaches_picture_writer() {
    let picture = vec![137u8, 80, 78, 71, 13, 10, 26, 10];
    let sent = encode_server_message(&FromServerMessage::Screen(picture.clone()));
    match handle_client_event(ClientEvent::Message(sent)) {
        ClientAction::ForwardScreen(p) => assert_eq!(p, picture),
        other => panic!("unexpected {:?}", other),
    }
}

#[test]
fn client_refuses_malformed_bytes() {
    assert!(matches!(
        handle_client_event(ClientEvent::Message(vec![1, 0, 0, 0, 1, 0, 0, 0, 0, 0, 0, 0])),
        ClientAction::Reject(DecodeError::Truncated)
    ));
    assert!(matches!(
        handle_client_event(ClientEvent::Message(vec![3, 0, 0, 0])),
        ClientAction::Reject(DecodeError::UnknownVariant(3))
    ));
}
