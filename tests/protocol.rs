use tcp_chat::live_set::retain_delivered;
use tcp_chat::client::{displayed_text, input_action, registration, InputAction};
use tcp_chat::codec::{decode_frame, FrameError, FrameReader};
use tcp_chat::message::{type_from_bytes, Message, MessageType};
use tcp_chat::registry::Registry;

fn frame(prefix: u64, payload: &[u8]) -> Vec<u8> {
    let mut v = prefix.to_be_bytes().to_vec();
    v.extend_from_slice(payload);
    v
}

fn raw_frame(payload: &[u8]) -> Vec<u8> {
    frame(payload.len() as u64, payload)
}

#[test]
fn new_computes_content_size() {
    let m = Message::new(MessageType::REG_NAME, String::from("Alice"));
    assert_eq!(m.content_size, 28);
    let m = Message::new(MessageType::CHAT_MESSAGE, String::from("hi"));
    assert_eq!(m.content_size, 29);
}

#[test]
fn content_size_counts_utf8_bytes() {
    let m = Message::new(MessageType::CHAT_MESSAGE, String::from("héllo"));
    assert_eq!(m.content_size, 27 + 6);
}

#[test]
fn update_size_after_body_change() {
    let mut m = Message::new(MessageType::CHAT_MESSAGE, String::from("hi"));
    m.content_body = String::from("hello there");
    m.update_size();
    assert_eq!(m.content_size, 27 + 11);
    m.mtype = MessageType::REG_NAME;
    m.update_size();
    assert_eq!(m.content_size, 23 + 11);
}

#[test]
fn encoding_is_exact() {
    let m = Message::new(MessageType::CHAT_MESSAGE, String::from("hi"));
    let mut expected = vec![0u8, 0, 0, 0, 0, 0, 0, 29];
    expected.extend_from_slice(b"Message-Type: CHAT_MESSAGE\nhi");
    assert_eq!(m.into_bytes(), expected);
}

#[test]
fn encoding_recomputes_a_stale_length() {
    let mut m = Message::new(MessageType::REG_NAME, String::from("Bob"));
    m.content_size = 3;
    let mut expected = vec![0u8, 0, 0, 0, 0, 0, 0, 26];
    expected.extend_from_slice(b"Message-Type: REG_NAME\nBob");
    assert_eq!(m.into_bytes(), expected);
}

#[test]
fn round_trip_both_types() {
    for (t, body) in [
        (MessageType::REG_NAME, "Alice"),
        (MessageType::CHAT_MESSAGE, "hello, world: ünïcode"),
    ] {
        let m = Message::new(t, String::from(body));
        let bytes = m.into_bytes();
        let (d, used) = decode_frame(&bytes).unwrap();
        assert_eq!(d.mtype, t);
        assert_eq!(d.content_body, body);
        assert_eq!(d.content_size, m.content_size);
        assert_eq!(used, bytes.len());
        let mut again = d.clone();
        again.update_size();
        assert_eq!(again.content_size, m.content_size);
    }
}

#[test]
fn decode_leaves_following_bytes() {
    let mut bytes = Message::new(MessageType::CHAT_MESSAGE, String::from("one")).into_bytes();
    let first_len = bytes.len();
    bytes.extend(Message::new(MessageType::CHAT_MESSAGE, String::from("two")).into_bytes());
    let (d, used) = decode_frame(&bytes).unwrap();
    assert_eq!(d.content_body, "one");
    assert_eq!(used, first_len);
    let (d2, _) = decode_frame(&bytes[used..]).unwrap();
    assert_eq!(d2.content_body, "two");
}

#[test]
fn byte_by_byte_feeding() {
    let m = Message::new(MessageType::REG_NAME, String::from("Alice"));
    let bytes = m.into_bytes();
    let mut reader = FrameReader::new();
    for (i, b) in bytes.iter().enumerate() {
        reader.feed(&[*b]);
        let r = reader.poll();
        if i + 1 < bytes.len() {
            assert!(matches!(r, Err(FrameError::Transient)));
            assert_eq!(reader.buffered(), i + 1);
        } else {
            let d = r.unwrap();
            assert_eq!(d.mtype, MessageType::REG_NAME);
            assert_eq!(d.content_body, "Alice");
            assert_eq!(d.content_size, 28);
        }
    }
    assert_eq!(reader.buffered(), 0);
}

#[test]
fn short_buffer_is_transient() {
    assert_eq!(decode_frame(&[]).unwrap_err(), FrameError::Transient);
    assert_eq!(decode_frame(&[0, 0, 0]).unwrap_err(), FrameError::Transient);
    let bytes = raw_frame(b"Message-Type: CHAT_MESSAGE\nhi");
    assert_eq!(decode_frame(&bytes[..bytes.len() - 1]).unwrap_err(), FrameError::Transient);
}

#[test]
fn huge_declared_length_is_transient() {
    let bytes = frame(u64::MAX, b"Message-Type: CHAT_MESSAGE\nhi");
    assert_eq!(decode_frame(&bytes).unwrap_err(), FrameError::Transient);
}

#[test]
fn missing_header_tag_is_invalid() {
    let bytes = raw_frame(b"Content-Type: CHAT_MESSAGE\nhi");
    assert_eq!(decode_frame(&bytes).unwrap_err(), FrameError::InvalidFrame);
}

#[test]
fn unknown_type_is_invalid() {
    let bytes = raw_frame(b"Message-Type: SHOUT\nhi");
    assert_eq!(decode_frame(&bytes).unwrap_err(), FrameError::InvalidFrame);
}

#[test]
fn single_line_is_invalid() {
    let bytes = raw_frame(b"Message-Type: CHAT_MESSAGE\n");
    assert_eq!(decode_frame(&bytes).unwrap_err(), FrameError::InvalidFrame);
    let bytes = raw_frame(b"Message-Type: CHAT_MESSAGE");
    assert_eq!(decode_frame(&bytes).unwrap_err(), FrameError::InvalidFrame);
    let bytes = raw_frame(b"");
    assert_eq!(decode_frame(&bytes).unwrap_err(), FrameError::InvalidFrame);
}

#[test]
fn empty_body_does_not_survive() {
    let m = Message::new(MessageType::CHAT_MESSAGE, String::new());
    assert_eq!(decode_frame(&m.into_bytes()).unwrap_err(), FrameError::InvalidFrame);
}

#[test]
fn invalid_utf8_body_is_invalid() {
    let bytes = raw_frame(b"Message-Type: CHAT_MESSAGE\n\xff\xfe");
    assert_eq!(decode_frame(&bytes).unwrap_err(), FrameError::InvalidFrame);
}

#[test]
fn invalid_frame_consumes_exactly_its_bytes() {
    let mut bytes = raw_frame(b"Message-Type: SHOUT\nhi");
    let bad_len = bytes.len();
    bytes.extend(Message::new(MessageType::CHAT_MESSAGE, String::from("ok")).into_bytes());
    let mut reader = FrameReader::new();
    reader.feed(&bytes);
    assert_eq!(reader.poll().unwrap_err(), FrameError::InvalidFrame);
    assert_eq!(reader.buffered(), bytes.len() - bad_len);
    let d = reader.poll().unwrap();
    assert_eq!(d.content_body, "ok");
    assert_eq!(reader.buffered(), 0);
}

#[test]
fn body_lines_join_without_separator() {
    let bytes = raw_frame(b"Message-Type: CHAT_MESSAGE\na\nb\r\nc\rd\n");
    let (d, used) = decode_frame(&bytes).unwrap();
    assert_eq!(d.content_body, "abc\rd");
    assert_eq!(used, bytes.len());
    assert_eq!(d.content_size, bytes.len() - 8);
}

#[test]
fn header_type_is_trimmed_and_cut_at_colon() {
    let bytes = raw_frame(b"Message-Type:\t REG_NAME \r\nAlice");
    let (d, _) = decode_frame(&bytes).unwrap();
    assert_eq!(d.mtype, MessageType::REG_NAME);
    assert_eq!(d.content_body, "Alice");
    let bytes = raw_frame(b"Message-Type: CHAT_MESSAGE: extra\nhi");
    let (d, _) = decode_frame(&bytes).unwrap();
    assert_eq!(d.mtype, MessageType::CHAT_MESSAGE);
}

#[test]
fn type_names() {
    assert_eq!(MessageType::REG_NAME.as_str(), "REG_NAME");
    assert_eq!(MessageType::CHAT_MESSAGE.as_str(), "CHAT_MESSAGE");
    assert_eq!(MessageType::from_str("REG_NAME"), Some(MessageType::REG_NAME));
    assert_eq!(MessageType::from_str("CHAT_MESSAGE"), Some(MessageType::CHAT_MESSAGE));
    assert_eq!(MessageType::from_str("chat_message"), None);
    assert_eq!(type_from_bytes(b"REG_NAM"), None);
}

#[test]
fn chat_from_unregistered_sender() {
    let mut reg = Registry::new();
    reg.connect(1);
    let m = Message::new(MessageType::CHAT_MESSAGE, String::from("hey"));
    assert!(reg.replies_fit(1, &m));
    let out = reg.handle_message(1, m);
    assert_eq!(out.len(), 1);
    assert_eq!(out[0].mtype, MessageType::CHAT_MESSAGE);
    assert_eq!(out[0].content_body, "[Unknown]: hey");
    assert_eq!(out[0].content_size, 27 + 14);
    let m = Message::new(MessageType::CHAT_MESSAGE, String::from("x"));
    let out = reg.handle_message(9, m);
    assert_eq!(out[0].content_body, "[Unknown]: x");
}

#[test]
fn reg_name_broadcast_order() {
    let mut reg = Registry::new();
    reg.connect(7);
    let out = reg.handle_message(7, Message::new(MessageType::REG_NAME, String::from("Alice")));
    assert_eq!(out.len(), 2);
    assert_eq!(out[0].mtype, MessageType::REG_NAME);
    assert_eq!(out[0].content_body, "Alice");
    assert_eq!(out[1].mtype, MessageType::CHAT_MESSAGE);
    assert_eq!(out[1].content_body, "[Server]: Hello Alice!");
    assert_eq!(reg.name_of(7), "Alice");
}

#[test]
fn chat_after_registration() {
    let mut reg = Registry::new();
    reg.connect(7);
    reg.connect(8);
    reg.handle_message(7, Message::new(MessageType::REG_NAME, String::from("Alice")));
    let out = reg.handle_message(7, Message::new(MessageType::CHAT_MESSAGE, String::from("hi")));
    assert_eq!(out.len(), 1);
    assert_eq!(out[0].mtype, MessageType::CHAT_MESSAGE);
    assert_eq!(out[0].content_body, "[Alice]: hi");
    let bytes = out[0].into_bytes();
    let (d, _) = decode_frame(&bytes).unwrap();
    assert_eq!(d.content_body, "[Alice]: hi");
    assert_eq!(reg.name_of(8), "Unknown");
}

#[test]
fn reconnect_resets_name() {
    let mut reg = Registry::new();
    reg.connect(2);
    reg.handle_message(2, Message::new(MessageType::REG_NAME, String::from("Zed")));
    reg.connect(2);
    assert_eq!(reg.name_of(2), "Unknown");
}

#[test]
fn dead_peer_is_pruned() {
    let live = vec!["first", "second", "third"];
    let live = retain_delivered(live, &[true, false, true]);
    assert_eq!(live, vec!["first", "third"]);
    let live = retain_delivered(live, &[true, true]);
    assert_eq!(live, vec!["first", "third"]);
    assert!(!live.contains(&"second"));
}

#[test]
fn prune_edge_cases() {
    let none: Vec<u64> = retain_delivered(Vec::new(), &[]);
    assert!(none.is_empty());
    assert_eq!(retain_delivered(vec![1u64, 2, 3], &[false, false, false]), Vec::<u64>::new());
    assert_eq!(retain_delivered(vec![1u64, 2, 3], &[true, true, true]), vec![1, 2, 3]);
}

#[test]
fn quit_line_sends_nothing() {
    assert!(matches!(input_action(String::from(":quit")), InputAction::Quit));
    match input_action(String::from("hello")) {
        InputAction::Send(m) => {
            assert_eq!(m.mtype, MessageType::CHAT_MESSAGE);
            assert_eq!(m.content_body, "hello");
            assert_eq!(m.content_size, 27 + 5);
        }
        InputAction::Quit => panic!("a chat line must be sent"),
    }
    assert!(matches!(input_action(String::from(":quit!")), InputAction::Send(_)));
}

#[test]
fn registration_and_display() {
    let r = registration(String::from("Alice"));
    assert_eq!(r.mtype, MessageType::REG_NAME);
    assert_eq!(r.content_size, 28);
    assert_eq!(displayed_text(&r), None);
    let c = Message::new(MessageType::CHAT_MESSAGE, String::from("[Bob]: yo"));
    assert_eq!(displayed_text(&c).map(|s| s.as_str()), Some("[Bob]: yo"));
}

#[test]
fn payload_split_inside_a_character_is_invalid() {
    let bytes = raw_frame(b"Message-Type: CHAT_MESSAGE\n\xc3\n\xa9");
    assert_eq!(decode_frame(&bytes).unwrap_err(), FrameError::InvalidFrame);
}

#[test]
fn invalid_utf8_in_header_is_invalid() {
    let bytes = raw_frame(b"Message-Type: REG_NAME:\xff\nAlice");
    assert_eq!(decode_frame(&bytes).unwrap_err(), FrameError::InvalidFrame);
}

#[test]
fn unicode_whitespace_around_type_is_trimmed() {
    let bytes = raw_frame("Message-Type:\u{A0}REG_NAME\u{3000}\nAlice".as_bytes());
    let (d, _) = decode_frame(&bytes).unwrap();
    assert_eq!(d.mtype, MessageType::REG_NAME);
    assert_eq!(d.content_body, "Alice");
    let bytes = raw_frame("Message-Type: \u{2003}CHAT_MESSAGE\u{85}\nhi".as_bytes());
    let (d, _) = decode_frame(&bytes).unwrap();
    assert_eq!(d.mtype, MessageType::CHAT_MESSAGE);
    let bytes = raw_frame("Message-Type: \u{200B}CHAT_MESSAGE\nhi".as_bytes());
    assert_eq!(decode_frame(&bytes).unwrap_err(), FrameError::InvalidFrame);
}

#[test]
fn multibyte_body_with_line_breaks() {
    let bytes = raw_frame("Message-Type: CHAT_MESSAGE\né\r\nü".as_bytes());
    let (d, _) = decode_frame(&bytes).unwrap();
    assert_eq!(d.content_body, "éü");
}
