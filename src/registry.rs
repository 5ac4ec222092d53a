//! The server's dispatcher state: display names by connection, and the
//! messages to broadcast in answer to each message received.
use std::collections::HashMap;
use vstd::prelude::*;
use crate::message::{encodable, Message, MessageType};

verus! {

broadcast use vstd::std_specs::hash::group_hash_axioms;

/// The name shown for a connection that has not registered one.
pub open spec fn unknown_name() -> Seq<char> {
    seq!['U', 'n', 'k', 'n', 'o', 'w', 'n']
}

/// The name shown for connection `id` under the registry `names`.
pub open spec fn display_name(names: Map<u64, Seq<char>>, id: u64) -> Seq<char> {
    if names.contains_key(id) {
        names[id]
    } else {
        unknown_name()
    }
}

/// A chat line as rebroadcast: `[<name>]: <body>`.
pub open spec fn chat_line(name: Seq<char>, body: Seq<char>) -> Seq<char> {
    seq!['['] + name + seq![']', ':', ' '] + body
}

/// The server's greeting to a newly named client: `[Server]: Hello <name>!`.
pub open spec fn hello_line(name: Seq<char>) -> Seq<char> {
    seq!['[', 'S', 'e', 'r', 'v', 'e', 'r', ']', ':', ' ', 'H', 'e', 'l', 'l', 'o', ' '] + name
        + seq!['!']
}

/// Whether every message sent in answer to `m` from `id` can be framed.
pub open spec fn replies_fit(names: Map<u64, Seq<char>>, id: u64, m: Message) -> bool {
    match m.mtype {
        MessageType::CHAT_MESSAGE => encodable(
            MessageType::CHAT_MESSAGE,
            chat_line(display_name(names, id), m.content_body@),
        ),
        MessageType::REG_NAME => encodable(MessageType::REG_NAME, m.content_body@) && encodable(
            MessageType::CHAT_MESSAGE,
            hello_line(m.content_body@),
        ),
    }
}

/// What to broadcast, in delivery order, in answer to `m` from `id`: for a
/// chat message, one chat message `[<name>]: <body>`; for a registration, the
/// registration itself, then the greeting.
pub open spec fn replies_ok(names: Map<u64, Seq<char>>, id: u64, m: Message, r: Seq<Message>) -> bool {
    match m.mtype {
        MessageType::CHAT_MESSAGE => {
            &&& r.len() == 1
            &&& r[0].mtype == MessageType::CHAT_MESSAGE
            &&& r[0].content_body@ == chat_line(display_name(names, id), m.content_body@)
            &&& r[0].wf()
        },
        MessageType::REG_NAME => {
            &&& r.len() == 2
            &&& r[0] == m
            &&& r[1].mtype == MessageType::CHAT_MESSAGE
            &&& r[1].content_body@ == hello_line(m.content_body@)
            &&& r[1].wf()
        },
    }
}

/// The registry's names after `m` from `id` is handled: a registration sets
/// the sender's name to the message body; a chat message changes nothing.
pub open spec fn names_after(names: Map<u64, Seq<char>>, id: u64, m: Message) -> Map<u64, Seq<char>> {
    match m.mtype {
        MessageType::REG_NAME => names.insert(id, m.content_body@),
        MessageType::CHAT_MESSAGE => names,
    }
}

/// A chat message from a connection that has not registered a name (it has
/// no entry, or still the default one given on connection) is rebroadcast as
/// `[Unknown]: <body>`.
pub proof fn lemma_unregistered_sender(names: Map<u64, Seq<char>>, id: u64, m: Message, r: Seq<Message>)
    requires
        !names.contains_key(id) || names[id] == unknown_name(),
        m.mtype == MessageType::CHAT_MESSAGE,
        replies_ok(names, id, m, r),
    ensures
        r.len() == 1,
        r[0].mtype == MessageType::CHAT_MESSAGE,
        r[0].content_body@ == chat_line(unknown_name(), m.content_body@),
{
}

/// Display names by connection identity. Entries are added when a connection
/// is accepted, replaced on registration, and never removed.
pub struct Registry {
    names: HashMap<u64, String>,
}

impl View for Registry {
    type V = Map<u64, Seq<char>>;

    closed spec fn view(&self) -> Map<u64, Seq<char>> {
        self.names@.map_values(|s: String| s@)
    }
}

/// `"Unknown"`.
fn unknown() -> (r: String)
    ensures
        r@ == unknown_name(),
{
    let mut r = String::new();
    r.append("Unknown");
    proof {
        reveal_strlit("Unknown");
    }
    assert(r@ =~= unknown_name());
    r
}

/// `[<name>]: <body>`.
fn make_chat_line(name: &String, body: &String) -> (r: String)
    ensures
        r@ == chat_line(name@, body@),
{
    let mut r = String::new();
    r.append("[");
    r.append(name.as_str());
    r.append("]: ");
    r.append(body.as_str());
    proof {
        reveal_strlit("[");
        reveal_strlit("]: ");
    }
    assert(r@ =~= chat_line(name@, body@));
    r
}

/// `[Server]: Hello <name>!`.
fn make_hello_line(name: &String) -> (r: String)
    ensures
        r@ == hello_line(name@),
{
    let mut r = String::new();
    r.append("[Server]: Hello ");
    r.append(name.as_str());
    r.append("!");
    proof {
        reveal_strlit("[Server]: Hello ");
        reveal_strlit("!");
    }
    assert(r@ =~= hello_line(name@));
    r
}

/// Whether a message of type `t` with body `body` can be framed.
fn fits(t: MessageType, body: &String) -> (r: bool)
    ensures
        r == encodable(t, body@),
{
    let header = match t {
        MessageType::REG_NAME => 23usize,
        MessageType::CHAT_MESSAGE => 27usize,
    };
    assert(crate::message::header_line(t).len() == header);
    body.as_str().as_bytes().len() <= usize::MAX - 8 - header
}

impl Registry {
    /// An empty registry.
    pub fn new() -> (r: Registry)
        ensures
            r@ == Map::<u64, Seq<char>>::empty(),
    {
        let r = Registry { names: HashMap::new() };
        assert(r@ =~= Map::<u64, Seq<char>>::empty());
        r
    }

    /// Records a newly accepted connection under the default name.
    pub fn connect(&mut self, id: u64)
        ensures
            final(self)@ == old(self)@.insert(id, unknown_name()),
    {
        let name = unknown();
        self.names.insert(id, name);
        assert(self@ =~= old(self)@.insert(id, unknown_name()));
    }

    /// The name shown for connection `id`.
    pub fn name_of(&self, id: u64) -> (r: String)
        ensures
            r@ == display_name(self@, id),
    {
        match self.names.get(&id) {
            Some(name) => name.clone(),
            None => unknown(),
        }
    }

    /// Whether every message sent in answer to `m` from `id` can be framed.
    pub fn replies_fit(&self, id: u64, m: &Message) -> (r: bool)
        ensures
            r == replies_fit(self@, id, *m),
    {
        match m.mtype {
            MessageType::CHAT_MESSAGE => {
                let name = self.name_of(id);
                fits(MessageType::CHAT_MESSAGE, &make_chat_line(&name, &m.content_body))
            },
            MessageType::REG_NAME => fits(MessageType::REG_NAME, &m.content_body) && fits(
                MessageType::CHAT_MESSAGE,
                &make_hello_line(&m.content_body),
            ),
        }
    }

    /// Applies a message received from connection `id` and returns what to
    /// broadcast, in delivery order.
    pub fn handle_message(&mut self, id: u64, m: Message) -> (r: Vec<Message>)
        requires
            replies_fit(old(self)@, id, m),
        ensures
            final(self)@ == names_after(old(self)@, id, m),
            replies_ok(old(self)@, id, m, r@),
    {
        let mut out: Vec<Message> = Vec::new();
        match m.mtype {
            MessageType::CHAT_MESSAGE => {
                let name = self.name_of(id);
                let line = make_chat_line(&name, &m.content_body);
                out.push(Message::new(MessageType::CHAT_MESSAGE, line));
            },
            MessageType::REG_NAME => {
                let name = m.content_body.clone();
                let hello = make_hello_line(&name);
                self.names.insert(id, name);
                assert(self@ =~= old(self)@.insert(id, m.content_body@));
                out.push(m);
                out.push(Message::new(MessageType::CHAT_MESSAGE, hello));
            },
        }
        out
    }
}

} // verus!
