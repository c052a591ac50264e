use vstd::prelude::*;
use vstd::string::*;

verus! {

/// What a chat message is, as plain text: the payload of a system notice, or
/// the sender and the line of a chat message.
pub enum MessageView {
    Joined(Seq<char>),
    Left(Seq<char>),
    Chat { sender: Seq<char>, content: Seq<char> },
}

/// One chat event. A value of this type is never changed after it is built.
#[derive(Debug)]
pub enum Message {
    UserJoined(String),
    UserLeft(String),
    Chat { sender: String, content: String },
}

/// The notice text of a join: `{username} has joined the chat`.
pub open spec fn joined_notice(username: Seq<char>) -> Seq<char> {
    username + " has joined the chat"@
}

/// The notice text of a leave: `{username} has left the chat`.
pub open spec fn left_notice(username: Seq<char>) -> Seq<char> {
    username + " has left the chat"@
}

/// The line that a recipient is sent for a message.
pub open spec fn rendered(m: MessageView) -> Seq<char> {
    match m {
        MessageView::Joined(text) => "[System]: "@ + text,
        MessageView::Left(text) => "[System]: "@ + text,
        MessageView::Chat { sender, content } => "[User ("@ + sender + ")]: "@ + content,
    }
}

impl View for Message {
    type V = MessageView;

    open spec fn view(&self) -> MessageView {
        match self {
            Message::UserJoined(text) => MessageView::Joined(text@),
            Message::UserLeft(text) => MessageView::Left(text@),
            Message::Chat { sender, content } => MessageView::Chat {
                sender: sender@,
                content: content@,
            },
        }
    }
}

impl Message {
    /// The notice that `username` has joined.
    pub fn user_joined(username: &str) -> (r: Message)
        ensures
            r@ == MessageView::Joined(joined_notice(username@)),
    {
        let mut text = String::from_str(username);
        text.append(" has joined the chat");
        Message::UserJoined(text)
    }

    /// The notice that `username` has left.
    pub fn user_left(username: &str) -> (r: Message)
        ensures
            r@ == MessageView::Left(left_notice(username@)),
    {
        let mut text = String::from_str(username);
        text.append(" has left the chat");
        Message::UserLeft(text)
    }

    /// A chat line from `sender`, kept verbatim (an empty line included).
    pub fn new_chat(sender: &str, content: &str) -> (r: Message)
        ensures
            r@ == (MessageView::Chat { sender: sender@, content: content@ }),
    {
        Message::Chat { sender: String::from_str(sender), content: String::from_str(content) }
    }

    /// The text that a recipient is sent for this message.
    pub fn render(&self) -> (r: String)
        ensures
            r@ == rendered(self@),
    {
        match self {
            Message::UserJoined(text) => {
                let mut out = String::from_str("[System]: ");
                out.append(text.as_str());
                out
            },
            Message::UserLeft(text) => {
                let mut out = String::from_str("[System]: ");
                out.append(text.as_str());
                out
            },
            Message::Chat { sender, content } => {
                let mut out = String::from_str("[User (");
                out.append(sender.as_str());
                out.append(")]: ");
                out.append(content.as_str());
                out
            },
        }
    }
}

} // verus!
