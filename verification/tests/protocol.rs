use mirkobo::protocol::{
    decode_client_message, decode_server_message, encode_client_message, encode_server_message,
    DecodeError, FromClientMessage, FromServerMessage,
};

#[test]
fn ping_bytes_match_bincode() {
    let bytes = encode_client_message(&FromClientMessage::Ping);
    assert_eq!(bytes, vec![0, 0, 0, 0]);
    assert_eq!(bytes, bincode::serialize(&0u32).unwrap());
}

#[test]
fn click_bytes_match_bincode() {
    let bytes = encode_client_message(&FromClientMessage::Click(300, 7));
    assert_eq!(bytes, vec![1, 0, 0, 0, 44, 1, 7, 0]);
    assert_eq!(bytes, bincode::serialize(&(1u32, 300u16, 7u16)).unwrap());
}

#[test]
fn pong_bytes_match_bincode() {
    let bytes = encode_server_message(&FromServerMessage::Pong);
    assert_eq!(bytes, bincode::serialize(&0u32).unwrap());
}

#[test]
fn screen_bytes_match_bincode() {
    let picture = vec![9u8, 8, 7, 0, 255];
    let bytes = encode_server_message(&FromServerMessage::Screen(picture.clone()));
    assert_eq!(bytes, vec![1, 0, 0, 0, 5, 0, 0, 0, 0, 0, 0, 0, 9, 8, 7, 0, 255]);
    assert_eq!(bytes, bincode::serialize(&(1u32, picture)).unwrap());
}

#[test]
fn client_message_read_back_with_trailing_bytes() {
    for m in [FromClientMessage::Ping, FromClientMessage::Click(0, 0), FromClientMessage::Click(65535, 1234)] {
        let mut bytes = encode_client_message(&m);
        bytes.extend_from_slice(&[42, 43]);
        assert_eq!(decode_client_message(&bytes), Ok(m));
    }
}

#[test]
fn click_read_like_bincode() {
    let bytes = [1u8, 0, 0, 0, 0x34, 0x12, 0xff, 0xff, 9];
    let theirs: (u32, u16, u16) = bincode::deserialize(&bytes).unwrap();
    assert_eq!(theirs, (1, 0x1234, 0xffff));
    assert_eq!(decode_client_message(&bytes), Ok(FromClientMessage::Click(0x1234, 0xffff)));
}

#[test]
fn client_message_errors() {
    assert_eq!(decode_client_message(&[]), Err(DecodeError::Truncated));
    assert_eq!(decode_client_message(&[0, 0, 0]), Err(DecodeError::Truncated));
    assert_eq!(decode_client_message(&[2, 0, 0, 0]), Err(DecodeError::UnknownVariant(2)));
    assert_eq!(
        decode_client_message(&[0, 1, 0, 0, 1, 1, 1, 1]),
        Err(DecodeError::UnknownVariant(256))
    );
    assert_eq!(decode_client_message(&[1, 0, 0, 0, 5, 0, 7]), Err(DecodeError::Truncated));
    assert!(bincode::deserialize::<(u32, u16, u16)>(&[1, 0, 0, 0, 5, 0, 7]).is_err());
}

#[test]
fn server_message_read_back() {
    match decode_server_message(&[0, 0, 0, 0, 1]) {
        Ok(FromServerMessage::Pong) => {}
        other => panic!("unexpected {:?}", other),
    }
    let picture: Vec<u8> = (0..=255).collect();
    let mut bytes = encode_server_message(&FromServerMessage::Screen(picture.clone()));
    bytes.push(77);
    match decode_server_message(&bytes) {
        Ok(FromServerMessage::Screen(p)) => assert_eq!(p, picture),
        other => panic!("unexpected {:?}", other),
    }
    match decode_server_message(&[1, 0, 0, 0, 0, 0, 0, 0, 0, 0, 0, 0]) {
        Ok(FromServerMessage::Screen(p)) => assert!(p.is_empty()),
        other => panic!("unexpected {:?}", other),
    }
}

#[test]
fn server_message_errors() {
    let err = |b: &[u8]| match decode_server_message(b) {
        Err(e) => e,
        Ok(m) => panic!("read {:?}", m),
    };
    assert_eq!(err(&[1, 0]), DecodeError::Truncated);
    assert_eq!(err(&[7, 0, 0, 0]), DecodeError::UnknownVariant(7));
    assert_eq!(err(&[1, 0, 0, 0, 3, 0, 0]), DecodeError::Truncated);
    assert_eq!(err(&[1, 0, 0, 0, 3, 0, 0, 0, 0, 0, 0, 0, 1, 2]), DecodeError::Truncated);
    assert_eq!(err(&[1, 0, 0, 0, 255, 255, 255, 255, 255, 255, 255, 255, 1]), DecodeError::Truncated);
    assert!(bincode::deserialize::<(u32, Vec<u8>)>(&[1, 0, 0, 0, 3, 0, 0, 0, 0, 0, 0, 0, 1, 2]).is_err());
}
