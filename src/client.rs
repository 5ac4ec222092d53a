//! What the client does with each line the user types.
use vstd::prelude::*;
use crate::message::{encodable, Message, MessageType};

verus! {

/// The input line that ends the client's session.
pub open spec fn quit_command() -> Seq<char> {
    seq![':', 'q', 'u', 'i', 't']
}

/// What to do with one line of user input.
#[derive(Debug)]
pub enum InputAction {
    /// Stop sending; nothing is transmitted for this line.
    Quit,
    /// Send this message to the server.
    Send(Message),
}

/// The action for one trimmed line of input: `:quit` ends the session, and
/// any other line is sent as a chat message with that line as its body.
pub fn input_action(content: String) -> (r: InputAction)
    requires
        encodable(MessageType::CHAT_MESSAGE, content@),
    ensures
        content@ == quit_command() <==> r is Quit,
        r matches InputAction::Send(m) ==> m.mtype == MessageType::CHAT_MESSAGE
            && m.content_body@ == content@ && m.wf(),
{
    let mut quit = String::new();
    quit.append(":quit");
    proof {
        reveal_strlit(":quit");
    }
    assert(quit@ =~= quit_command());
    if content == quit {
        InputAction::Quit
    } else {
        InputAction::Send(Message::new(MessageType::CHAT_MESSAGE, content))
    }
}

/// The message that registers `name` with the server.
pub fn registration(name: String) -> (r: Message)
    requires
        encodable(MessageType::REG_NAME, name@),
    ensures
        r.mtype == MessageType::REG_NAME,
        r.content_body@ == name@,
        r.wf(),
{
    Message::new(MessageType::REG_NAME, name)
}

/// The text to show for a message received from the server: the body of a
/// chat message; nothing for any other kind.
pub fn displayed_text(m: &Message) -> (r: Option<&String>)
    ensures
        r == (match m.mtype {
            MessageType::CHAT_MESSAGE => Some(&m.content_body),
            MessageType::REG_NAME => None,
        }),
{
    match m.mtype {
        MessageType::CHAT_MESSAGE => Some(&m.content_body),
        MessageType::REG_NAME => None,
    }
}

} // verus!
