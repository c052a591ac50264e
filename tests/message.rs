use tcp_chat::message::Message;
use tcp_chat::response::ErrorResponse;

#[test]
fn joined_renders_system_notice() {
    assert_eq!(Message::user_joined("alice").render(), "[System]: alice has joined the chat");
}

#[test]
fn left_renders_system_notice() {
    assert_eq!(Message::user_left("bob").render(), "[System]: bob has left the chat");
}

#[test]
fn chat_renders_sender_and_content() {
    assert_eq!(Message::new_chat("alice", "hi").render(), "[User (alice)]: hi");
}

#[test]
fn chat_keeps_empty_content() {
    assert_eq!(Message::new_chat("carol", "").render(), "[User (carol)]: ");
}

#[test]
fn chat_keeps_content_verbatim() {
    let m = Message::new_chat("dave", "  [System]: spoof ");
    assert_eq!(m.render(), "[User (dave)]:   [System]: spoof ");
    match m {
        Message::Chat { sender, content } => {
            assert_eq!(sender, "dave");
            assert_eq!(content, "  [System]: spoof ");
        }
        _ => panic!("not a chat message"),
    }
}

#[test]
fn joined_holds_notice_text() {
    match Message::user_joined("eve") {
        Message::UserJoined(text) => assert_eq!(text, "eve has joined the chat"),
        _ => panic!("not a join notice"),
    }
}

#[test]
fn error_response_keeps_message() {
    let r = ErrorResponse::new("url already exists: x".to_string());
    assert_eq!(r.message, "url already exists: x");
}
