//! Chat messages and their wire encoding.
use vstd::prelude::*;
use vstd::string::StringSliceAdditionalSpecFns;

verus! {

/// The two kinds of message the protocol knows.
#[allow(non_camel_case_types)]
#[derive(Debug, Clone, Copy, PartialEq, Eq, Structural)]
pub enum MessageType {
    REG_NAME,
    CHAT_MESSAGE,
}

/// The ASCII name of a message type as it appears on the wire.
pub open spec fn wire_name(t: MessageType) -> Seq<u8> {
    match t {
        MessageType::REG_NAME => seq![82u8, 69, 71, 95, 78, 65, 77, 69],
        MessageType::CHAT_MESSAGE => seq![67u8, 72, 65, 84, 95, 77, 69, 83, 83, 65, 71, 69],
    }
}

/// The message type whose wire name is exactly `b`, if any.
pub open spec fn type_of_wire_name(b: Seq<u8>) -> Option<MessageType> {
    if b == wire_name(MessageType::REG_NAME) {
        Some(MessageType::REG_NAME)
    } else if b == wire_name(MessageType::CHAT_MESSAGE) {
        Some(MessageType::CHAT_MESSAGE)
    } else {
        None
    }
}

impl MessageType {
    /// The wire name of this type.
    pub fn as_str(&self) -> (r: &'static str)
        ensures
            r.spec_bytes() == wire_name(*self),
    {
        broadcast use vstd::string::group_string_axioms;
        match self {
            MessageType::REG_NAME => {
                proof { reveal_strlit("REG_NAME"); }
                assert(vstd::string::is_ascii("REG_NAME"));
                let r = "REG_NAME";
                assert(r.spec_bytes() =~= wire_name(*self));
                r
            },
            MessageType::CHAT_MESSAGE => {
                proof { reveal_strlit("CHAT_MESSAGE"); }
                assert(vstd::string::is_ascii("CHAT_MESSAGE"));
                let r = "CHAT_MESSAGE";
                assert(r.spec_bytes() =~= wire_name(*self));
                r
            },
        }
    }
}


/// The tag that opens the header line of every frame.
pub open spec fn header_tag() -> Seq<u8> {
    seq![77u8, 101, 115, 115, 97, 103, 101, 45, 84, 121, 112, 101, 58]
}

/// The header line for a message type: the tag, a space, the type's name, a newline.
pub open spec fn header_line(t: MessageType) -> Seq<u8> {
    header_tag() + seq![32u8] + wire_name(t) + seq![10u8]
}

/// The bytes a body occupies on the wire.
pub open spec fn body_bytes(body: Seq<char>) -> Seq<u8> {
    vstd::utf8::encode_utf8(body)
}

/// The declared length of a message: header line plus body bytes.
pub open spec fn payload_len(t: MessageType, body: Seq<char>) -> nat {
    header_line(t).len() + body_bytes(body).len()
}

/// Width in bytes of the big-endian length prefix.
pub const PREFIX_LEN: usize = 8;

/// `k` bytes holding `n` in big-endian order (the low `k` bytes of `n`).
pub open spec fn be_bytes(n: nat, k: nat) -> Seq<u8>
    decreases k,
{
    if k == 0 {
        Seq::empty()
    } else {
        be_bytes(n / 256, (k - 1) as nat).push((n % 256) as u8)
    }
}

/// The number that a big-endian byte string denotes.
pub open spec fn be_value(b: Seq<u8>) -> nat
    decreases b.len(),
{
    if b.len() == 0 {
        0
    } else {
        be_value(b.drop_last()) * 256 + b.last() as nat
    }
}

/// The complete frame of a message: length prefix, header line, body.
pub open spec fn frame_of(t: MessageType, body: Seq<char>) -> Seq<u8> {
    be_bytes(payload_len(t, body), PREFIX_LEN as nat) + header_line(t) + body_bytes(body)
}

/// A message can be framed when its whole frame fits in memory.
pub open spec fn encodable(t: MessageType, body: Seq<char>) -> bool {
    PREFIX_LEN + payload_len(t, body) <= usize::MAX
}

/// Reading back the big-endian bytes of a number that fits in them gives the number.
pub proof fn lemma_be_round_trip(n: nat, k: nat)
    requires
        n < pow256(k),
    ensures
        be_value(be_bytes(n, k)) == n,
        be_bytes(n, k).len() == k,
    decreases k,
{
    if k > 0 {
        assert(n / 256 < pow256((k - 1) as nat)) by (nonlinear_arith)
            requires n < 256 * pow256((k - 1) as nat);
        lemma_be_round_trip(n / 256, (k - 1) as nat);
        let b = be_bytes(n, k);
        assert(b.drop_last() =~= be_bytes(n / 256, (k - 1) as nat));
        assert(n == (n / 256) * 256 + n % 256) by (nonlinear_arith);
    } else {
        assert(n == 0);
    }
}

/// `256` to the power `k`.
pub open spec fn pow256(k: nat) -> nat
    decreases k,
{
    if k == 0 { 1 } else { 256 * pow256((k - 1) as nat) }
}

/// Appends the bytes of `b` to `out`.
pub(crate) fn append_bytes(out: &mut Vec<u8>, b: &[u8])
    ensures
        final(out)@ == old(out)@ + b@,
{
    let mut i: usize = 0;
    while i < b.len()
        invariant
            i <= b@.len(),
            out@ == old(out)@ + b@.subrange(0, i as int),
        decreases b@.len() - i,
    {
        out.push(b[i]);
        i = i + 1;
        assert(b@.subrange(0, i as int) =~= b@.subrange(0, i - 1) .push(b@[i - 1]));
    }
    assert(b@.subrange(0, i as int) =~= b@);
}

/// The bytes of the header line for `t`.
fn gen_message_type_str(t: &MessageType) -> (r: Vec<u8>)
    ensures
        r@ == header_line(*t),
{
    let mut r: Vec<u8> = vec![77u8, 101, 115, 115, 97, 103, 101, 45, 84, 121, 112, 101, 58, 32];
    append_bytes(&mut r, t.as_str().as_bytes());
    r.push(10u8);
    assert(r@ =~= header_line(*t));
    r
}

/// `n` as `PREFIX_LEN` big-endian bytes.
fn length_prefix(n: u64) -> (r: Vec<u8>)
    ensures
        r@ == be_bytes(n as nat, PREFIX_LEN as nat),
{
    let mut r: Vec<u8> = Vec::new();
    let mut m: u64 = n;
    let mut k: usize = 0;
    while k < PREFIX_LEN
        invariant
            k <= PREFIX_LEN,
            r@.len() == k,
            be_bytes(n as nat, PREFIX_LEN as nat) == be_bytes(m as nat, (PREFIX_LEN - k) as nat) + r@,
        decreases PREFIX_LEN - k,
    {
        let ghost old_r = r@;
        r.insert(0, (m % 256) as u8);
        assert(r@ =~= seq![(m % 256) as u8] + old_r);
        assert(be_bytes(m as nat, (PREFIX_LEN - k) as nat) =~= be_bytes((m / 256) as nat, (PREFIX_LEN - k - 1) as nat) + seq![(m % 256) as u8]);
        m = m / 256;
        k = k + 1;
    }
    r
}


impl MessageType {
    /// The message type whose wire name is `s`, if any.
    pub fn from_str(s: &str) -> (r: Option<MessageType>)
        ensures
            r == type_of_wire_name(s.spec_bytes()),
    {
        type_from_bytes(s.as_bytes())
    }
}

/// Whether two byte strings are equal.
pub(crate) fn bytes_equal(a: &[u8], b: &[u8]) -> (r: bool)
    ensures
        r == (a@ == b@),
{
    if a.len() != b.len() {
        return false;
    }
    let mut i: usize = 0;
    while i < a.len()
        invariant
            a@.len() == b@.len(),
            i <= a@.len(),
            forall|j: int| 0 <= j < i ==> a@[j] == b@[j],
        decreases a@.len() - i,
    {
        if a[i] != b[i] {
            return false;
        }
        i = i + 1;
    }
    assert(a@ =~= b@);
    true
}

/// The message type whose wire name is the byte string `b`, if any.
pub fn type_from_bytes(b: &[u8]) -> (r: Option<MessageType>)
    ensures
        r == type_of_wire_name(b@),
{
    if bytes_equal(b, MessageType::REG_NAME.as_str().as_bytes()) {
        Some(MessageType::REG_NAME)
    } else if bytes_equal(b, MessageType::CHAT_MESSAGE.as_str().as_bytes()) {
        Some(MessageType::CHAT_MESSAGE)
    } else {
        None
    }
}

/// One chat protocol message: its declared length, its type and its body.
///
/// `content_size` is the byte count of the header line plus the body; a
/// message built by `new` or refreshed by `update_size` satisfies `wf`.
#[derive(Debug, Clone)]
pub struct Message {
    pub content_size: usize,
    pub mtype: MessageType,
    pub content_body: String,
}

impl Message {
    /// The declared length agrees with the type and body.
    pub open spec fn wf(&self) -> bool {
        self.content_size == payload_len(self.mtype, self.content_body@)
    }

    /// The bytes this message occupies on the wire.
    pub open spec fn frame(&self) -> Seq<u8> {
        frame_of(self.mtype, self.content_body@)
    }

    /// The declared length for a message of type `mtype` with body `content_body`.
    fn calc_size(mtype: &MessageType, content_body: &String) -> (r: usize)
        requires
            encodable(*mtype, content_body@),
        ensures
            r == payload_len(*mtype, content_body@),
    {
        let header = gen_message_type_str(mtype);
        header.len() + content_body.as_str().len()
    }

    /// A message of type `mtype` carrying `content_body`, with its length computed.
    pub fn new(mtype: MessageType, content_body: String) -> (r: Message)
        requires
            encodable(mtype, content_body@),
        ensures
            r.mtype == mtype,
            r.content_body@ == content_body@,
            r.wf(),
    {
        let content_size = Self::calc_size(&mtype, &content_body);
        Message { content_size, mtype, content_body }
    }

    /// Recomputes the declared length from the type and body.
    pub fn update_size(&mut self)
        requires
            encodable(old(self).mtype, old(self).content_body@),
        ensures
            final(self).mtype == old(self).mtype,
            final(self).content_body == old(self).content_body,
            final(self).wf(),
    {
        self.content_size = Self::calc_size(&self.mtype, &self.content_body);
    }

    /// The frame of this message: an eight-byte big-endian length (recomputed
    /// from the type and body), the header line, then the body's bytes.
    pub fn into_bytes(&self) -> (r: Vec<u8>)
        requires
            encodable(self.mtype, self.content_body@),
        ensures
            r@ == self.frame(),
    {
        let size = Self::calc_size(&self.mtype, &self.content_body);
        let mut r = length_prefix(size as u64);
        let header = gen_message_type_str(&self.mtype);
        append_bytes(&mut r, header.as_slice());
        append_bytes(&mut r, self.content_body.as_str().as_bytes());
        r
    }
}


/// A body of at least one character takes at least one byte.
pub proof fn lemma_body_bytes_nonempty(body: Seq<char>)
    requires
        body.len() > 0,
    ensures
        body_bytes(body).len() > 0,
{
    assert(vstd::utf8::encode_scalar(body[0] as u32).len() > 0);
}

proof fn lemma_scalar_no_newline(v: u32)
    requires
        v != 10,
    ensures
        forall|i: int|
            0 <= i < vstd::utf8::encode_scalar(v).len() ==> vstd::utf8::encode_scalar(v)[i] != 10,
{
    assert(v <= 0x7F && v != 10 ==> (v & 0x7F) as u8 != 10) by (bit_vector);
    assert(forall|y: u8| #[trigger] (0x80u8 | y) != 10) by (bit_vector);
    assert(forall|y: u8| #[trigger] (0xC0u8 | y) != 10) by (bit_vector);
    assert(forall|y: u8| #[trigger] (0xE0u8 | y) != 10) by (bit_vector);
    assert(forall|y: u8| #[trigger] (0xF0u8 | y) != 10) by (bit_vector);
}

/// A body without newline characters has no newline byte on the wire.
pub proof fn lemma_body_bytes_no_newline(body: Seq<char>)
    requires
        !body.contains('\n'),
    ensures
        !body_bytes(body).contains(10u8),
    decreases body.len(),
{
    if body.len() > 0 {
        assert(body[0] != '\n');
        assert(body[0] as u32 != 10) by {
            vstd::utf8::char_u32_cast(body[0], body[0] as u32);
            if body[0] as u32 == 10 {
                assert((10u32 as char) == '\n');
            }
        }
        lemma_scalar_no_newline(body[0] as u32);
        assert(!body.drop_first().contains('\n')) by {
            if body.drop_first().contains('\n') {
                let j = choose|j: int| 0 <= j < body.drop_first().len() && body.drop_first()[j] == '\n';
                assert(body[j + 1] == '\n');
            }
        }
        lemma_body_bytes_no_newline(body.drop_first());
        let head = vstd::utf8::encode_scalar(body[0] as u32);
        let tail = body_bytes(body.drop_first());
        assert(body_bytes(body) == head + tail);
        assert forall|i: int| 0 <= i < body_bytes(body).len() implies body_bytes(body)[i] != 10 by {
            if i >= head.len() {
                assert(body_bytes(body)[i] == tail[i - head.len()]);
                assert(!tail.contains(10u8));
            }
        }
    }
}

} // verus!
