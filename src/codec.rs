//! Decoding frames from a byte stream.
use vstd::prelude::*;
use vstd::string::StringSliceAdditionalSpecFns;
use crate::message::{
    be_bytes, be_value, body_bytes, encodable, frame_of, header_line, lemma_be_round_trip,
    lemma_body_bytes_no_newline, lemma_body_bytes_nonempty, payload_len, wire_name, bytes_equal, header_tag, pow256, type_from_bytes, type_of_wire_name, Message,
    MessageType, PREFIX_LEN, append_bytes,
};

verus! {

/// Why a buffer did not yield a message.
#[derive(Debug, Clone, Copy, PartialEq, Eq, Structural)]
pub enum FrameError {
    /// Not enough bytes yet for a whole frame: retry once more have arrived.
    Transient,
    /// A whole frame arrived but its payload is malformed.
    InvalidFrame,
}

/// The length of the longest prefix of `s` that holds no byte `b`.
pub open spec fn span_without(s: Seq<u8>, b: u8) -> nat
    decreases s.len(),
{
    if s.len() == 0 || s[0] == b {
        0
    } else {
        1 + span_without(s.drop_first(), b)
    }
}

/// An ASCII whitespace character, as `char::is_whitespace` counts them.
pub open spec fn is_space(b: u8) -> bool {
    b == 32 || (9 <= b && b <= 13)
}

/// The three-byte UTF-8 encodings of whitespace characters: U+1680,
/// U+2000 to U+200A, U+2028, U+2029, U+202F, U+205F and U+3000.
pub open spec fn is_wide_space(a: u8, b: u8, c: u8) -> bool {
    ||| (a == 0xE1 && b == 0x9A && c == 0x80)
    ||| (a == 0xE2 && b == 0x80 && ((0x80 <= c && c <= 0x8A) || c == 0xA8 || c == 0xA9
        || c == 0xAF))
    ||| (a == 0xE2 && b == 0x81 && c == 0x9F)
    ||| (a == 0xE3 && b == 0x80 && c == 0x80)
}

/// The two-byte UTF-8 encodings of whitespace characters: U+0085 and U+00A0.
pub open spec fn is_narrow_space(a: u8, b: u8) -> bool {
    a == 0xC2 && (b == 0x85 || b == 0xA0)
}

/// The byte length of the whitespace character (by Unicode's White_Space
/// property, which `char::is_whitespace` follows) that `s` opens with, or 0.
pub open spec fn space_len_at(s: Seq<u8>) -> nat {
    if s.len() >= 1 && is_space(s[0]) {
        1
    } else if s.len() >= 2 && is_narrow_space(s[0], s[1]) {
        2
    } else if s.len() >= 3 && is_wide_space(s[0], s[1], s[2]) {
        3
    } else {
        0
    }
}

/// The byte length of the whitespace character that `s` ends with, or 0.
pub open spec fn space_len_end(s: Seq<u8>) -> nat {
    let n = s.len() as int;
    if n >= 1 && is_space(s[n - 1]) {
        1
    } else if n >= 2 && is_narrow_space(s[n - 2], s[n - 1]) {
        2
    } else if n >= 3 && is_wide_space(s[n - 3], s[n - 2], s[n - 1]) {
        3
    } else {
        0
    }
}

/// `s` without its leading whitespace.
pub open spec fn trim_front(s: Seq<u8>) -> Seq<u8>
    decreases s.len(),
{
    if space_len_at(s) > 0 {
        trim_front(s.skip(space_len_at(s) as int))
    } else {
        s
    }
}

/// `s` without its trailing whitespace.
pub open spec fn trim_back(s: Seq<u8>) -> Seq<u8>
    decreases s.len(),
{
    if space_len_end(s) > 0 {
        trim_back(s.take(s.len() - space_len_end(s)))
    } else {
        s
    }
}

/// `s` without its leading and trailing whitespace.
pub open spec fn trim(s: Seq<u8>) -> Seq<u8> {
    trim_back(trim_front(s))
}

/// A line without the carriage return that ends it, if any.
pub open spec fn strip_cr(line: Seq<u8>) -> Seq<u8> {
    if line.len() > 0 && line.last() == 13 {
        line.drop_last()
    } else {
        line
    }
}

/// Whether byte `i` of `s` survives when `s` is cut into lines and the lines
/// are joined back with no separator: newlines go, and so does a carriage
/// return right before a newline.
pub open spec fn kept_in_join(s: Seq<u8>, i: int) -> bool {
    !(s[i] == 10 || (s[i] == 13 && i + 1 < s.len() && s[i + 1] == 10))
}

/// The first `n` bytes of `s` with line breaks removed.
pub open spec fn join_prefix(s: Seq<u8>, n: nat) -> Seq<u8>
    decreases n,
{
    if n == 0 {
        Seq::empty()
    } else if kept_in_join(s, n - 1) {
        join_prefix(s, (n - 1) as nat).push(s[n - 1])
    } else {
        join_prefix(s, (n - 1) as nat)
    }
}

/// The lines of `s` joined with no separator.
pub open spec fn join_lines(s: Seq<u8>) -> Seq<u8> {
    join_prefix(s, s.len())
}

/// The type a header line names: it opens with the tag, and the text after the
/// tag up to the next colon, trimmed, is a type's name.
pub open spec fn header_type(line: Seq<u8>) -> Option<MessageType> {
    if line.len() >= header_tag().len() && line.take(header_tag().len() as int) == header_tag() {
        let after = line.skip(header_tag().len() as int);
        type_of_wire_name(trim(after.take(span_without(after, 58) as int)))
    } else {
        None
    }
}

/// The type and body bytes of a payload, when it is well formed: it holds at
/// least two lines, and its first line is a header line naming a known type.
pub open spec fn parse_payload(p: Seq<u8>) -> Option<(MessageType, Seq<u8>)> {
    let nl = span_without(p, 10);
    if nl + 1 >= p.len() {
        None
    } else {
        match header_type(strip_cr(p.take(nl as int))) {
            Some(t) => Some((t, join_lines(p.skip(nl + 1 as int)))),
            None => None,
        }
    }
}

/// The payload length that the prefix of `s` declares.
pub open spec fn declared_len(s: Seq<u8>) -> nat {
    be_value(s.take(PREFIX_LEN as int))
}

/// Where the first frame of `s` ends.
pub open spec fn frame_end(s: Seq<u8>) -> nat {
    PREFIX_LEN as nat + declared_len(s)
}

/// Whether `s` holds its whole first frame.
pub open spec fn frame_complete(s: Seq<u8>) -> bool {
    s.len() >= PREFIX_LEN && s.len() >= frame_end(s)
}

/// The payload of the first frame of `s`.
pub open spec fn payload_of(s: Seq<u8>) -> Seq<u8> {
    s.subrange(PREFIX_LEN as int, frame_end(s) as int)
}

/// What decoding the start of `s` yields: the type and body bytes of the first
/// frame, or why there is none. A payload must be UTF-8 text.
pub open spec fn decode_spec(s: Seq<u8>) -> Result<(MessageType, Seq<u8>), FrameError> {
    if !frame_complete(s) {
        Err(FrameError::Transient)
    } else if !vstd::utf8::valid_utf8(payload_of(s)) {
        Err(FrameError::InvalidFrame)
    } else {
        match parse_payload(payload_of(s)) {
            Some((t, body)) => Ok((t, body)),
            None => Err(FrameError::InvalidFrame),
        }
    }
}


/// The number of leading bytes of `s` that are not `b`.
fn span_to(s: &[u8], b: u8) -> (r: usize)
    ensures
        r == span_without(s@, b),
        r <= s@.len(),
{
    let mut i: usize = 0;
    assert(s@.skip(0) =~= s@);
    while i < s.len() && s[i] != b
        invariant
            i <= s@.len(),
            span_without(s@, b) == i + span_without(s@.skip(i as int), b),
        decreases s@.len() - i,
    {
        assert(s@.skip(i as int).drop_first() =~= s@.skip(i + 1));
        i = i + 1;
    }
    i
}

/// The byte length of the whitespace character at `s[a..]`, or 0.
fn space_at(s: &[u8], a: usize) -> (r: usize)
    requires
        a <= s@.len(),
    ensures
        r == space_len_at(s@.skip(a as int)),
        r <= s@.len() - a,
{
    let n = s.len() - a;
    if n >= 1 && (s[a] == 32 || (9 <= s[a] && s[a] <= 13)) {
        1
    } else if n >= 2 && s[a] == 0xC2 && (s[a + 1] == 0x85 || s[a + 1] == 0xA0) {
        2
    } else if n >= 3 && is_wide_space_exec(s[a], s[a + 1], s[a + 2]) {
        3
    } else {
        0
    }
}

/// The byte length of the whitespace character that `s[a..e]` ends with, or 0.
fn space_before(s: &[u8], a: usize, e: usize) -> (r: usize)
    requires
        a <= e <= s@.len(),
    ensures
        r == space_len_end(s@.subrange(a as int, e as int)),
        r <= e - a,
{
    let n = e - a;
    if n >= 1 && (s[e - 1] == 32 || (9 <= s[e - 1] && s[e - 1] <= 13)) {
        1
    } else if n >= 2 && s[e - 2] == 0xC2 && (s[e - 1] == 0x85 || s[e - 1] == 0xA0) {
        2
    } else if n >= 3 && is_wide_space_exec(s[e - 3], s[e - 2], s[e - 1]) {
        3
    } else {
        0
    }
}

fn is_wide_space_exec(a: u8, b: u8, c: u8) -> (r: bool)
    ensures
        r == is_wide_space(a, b, c),
{
    (a == 0xE1 && b == 0x9A && c == 0x80) || (a == 0xE2 && b == 0x80 && ((0x80 <= c && c <= 0x8A)
        || c == 0xA8 || c == 0xA9 || c == 0xAF)) || (a == 0xE2 && b == 0x81 && c == 0x9F) || (a
        == 0xE3 && b == 0x80 && c == 0x80)
}

/// The bounds of `s` once leading and trailing whitespace are cut off.
fn trim_bounds(s: &[u8]) -> (r: (usize, usize))
    ensures
        r.0 <= r.1 <= s@.len(),
        s@.subrange(r.0 as int, r.1 as int) == trim(s@),
{
    let mut a: usize = 0;
    let len = s.len();
    assert(s@.skip(0) =~= s@);
    let mut k = space_at(s, a);
    while k > 0
        invariant
            len == s@.len(),
            a <= s@.len(),
            k == space_len_at(s@.skip(a as int)),
            k <= s@.len() - a,
            trim_front(s@) == trim_front(s@.skip(a as int)),
        decreases s@.len() - a,
    {
        assert(s@.skip(a as int).skip(k as int) =~= s@.skip(a + k));
        a = a + k;
        k = space_at(s, a);
    }
    assert(trim_front(s@) == s@.subrange(a as int, s@.len() as int));
    let mut e: usize = s.len();
    assert(s@.subrange(a as int, e as int) =~= s@.skip(a as int));
    let mut k = space_before(s, a, e);
    while k > 0
        invariant
            a <= e <= s@.len(),
            k == space_len_end(s@.subrange(a as int, e as int)),
            k <= e - a,
            trim(s@) == trim_back(s@.subrange(a as int, e as int)),
        decreases e,
    {
        let ghost t = s@.subrange(a as int, e as int);
        assert(t.take(t.len() - k) =~= s@.subrange(a as int, e - k));
        e = e - k;
        k = space_before(s, a, e);
    }
    (a, e)
}

proof fn lemma_be_value_bound(b: Seq<u8>)
    ensures
        be_value(b) < pow256(b.len()),
    decreases b.len(),
{
    if b.len() > 0 {
        lemma_be_value_bound(b.drop_last());
        let v = be_value(b.drop_last());
        let p = pow256(b.drop_last().len());
        assert(v * 256 + b.last() < 256 * p) by (nonlinear_arith)
            requires v < p, b.last() < 256;
    }
}

/// The payload length declared by the prefix of `s`.
fn read_declared_len(s: &[u8]) -> (r: u64)
    requires
        s@.len() >= PREFIX_LEN,
    ensures
        r == declared_len(s@),
{
    let mut v: u64 = 0;
    let mut i: usize = 0;
    while i < PREFIX_LEN
        invariant
            i <= PREFIX_LEN <= s@.len(),
            v == be_value(s@.take(i as int)),
        decreases PREFIX_LEN - i,
    {
        proof {
            lemma_be_value_bound(s@.take(i + 1));
            assert(s@.take(i + 1).drop_last() =~= s@.take(i as int));
            lemma_pow256_mono((i + 1) as nat, 8);
            reveal_with_fuel(pow256, 9);
            assert(pow256(8) == 0x1_0000_0000_0000_0000);
            assert(be_value(s@.take(i + 1)) == v * 256 + s@[i as int]);
        }
        v = v * 256 + s[i] as u64;
        i = i + 1;
    }
    v
}

proof fn lemma_pow256_mono(i: nat, j: nat)
    requires
        i <= j,
    ensures
        pow256(i) <= pow256(j),
    decreases j,
{
    if i < j {
        lemma_pow256_mono(i, (j - 1) as nat);
    }
}

/// `s` with its line breaks removed, as when its lines are joined with no separator.
fn join_lines_of(s: &[u8]) -> (r: Vec<u8>)
    ensures
        r@ == join_lines(s@),
{
    let mut r: Vec<u8> = Vec::new();
    let mut i: usize = 0;
    while i < s.len()
        invariant
            i <= s@.len(),
            r@ == join_prefix(s@, i as nat),
        decreases s@.len() - i,
    {
        let c = s[i];
        if !(c == 10 || (c == 13 && i + 1 < s.len() && s[i + 1] == 10)) {
            r.push(c);
        }
        i = i + 1;
    }
    r
}

/// Relies on String::from_utf8: it accepts exactly the well-formed UTF-8
/// byte strings, and the text it returns is what those bytes encode.
#[verifier::external_body]
fn text_from_utf8(b: Vec<u8>) -> (r: Option<String>)
    ensures
        r is Some <==> vstd::utf8::valid_utf8(b@),
        r matches Some(t) ==> t@ == vstd::utf8::decode_utf8(b@),
{
    String::from_utf8(b).ok()
}


/// The type that a header line names, if it is one.
fn header_type_of(line: &[u8]) -> (r: Option<MessageType>)
    ensures
        r == header_type(line@),
{
    let tag: Vec<u8> = vec![77u8, 101, 115, 115, 97, 103, 101, 45, 84, 121, 112, 101, 58];
    assert(tag@ =~= header_tag());
    if line.len() < tag.len() || !bytes_equal(&line[0..tag.len()], tag.as_slice()) {
        assert(line@.len() >= header_tag().len() ==> line@.take(13) =~= line@.subrange(0, 13));
        return None;
    }
    assert(line@.take(13) =~= line@.subrange(0, 13));
    let after = &line[tag.len()..line.len()];
    assert(after@ =~= line@.skip(13));
    let k = span_to(after, 58u8);
    let token = &after[0..k];
    assert(token@ =~= after@.take(k as int));
    let (a, e) = trim_bounds(token);
    type_from_bytes(&token[a..e])
}

/// Decodes the first frame at the start of `buf`.
///
/// On success returns the message and the number of bytes its frame took:
/// the eight-byte prefix plus the declared payload length. The message's
/// `content_size` is the declared length, its body the payload's lines after
/// the first, joined with no separator. `Transient` means that `buf` does not
/// yet hold the whole frame; `InvalidFrame` that the payload is malformed.
pub fn decode_frame(buf: &[u8]) -> (r: Result<(Message, usize), FrameError>)
    ensures
        r matches Err(e) ==> decode_spec(buf@) == Err::<(MessageType, Seq<u8>), FrameError>(e),
        r matches Ok((m, n)) ==> decode_spec(buf@) matches Ok((t, body)) && m.mtype == t
            && m.content_body@ == vstd::utf8::decode_utf8(body) && m.content_size
            == declared_len(buf@) && n == frame_end(buf@),
{
    if buf.len() < PREFIX_LEN {
        return Err(FrameError::Transient);
    }
    let declared = read_declared_len(buf);
    if ((buf.len() - PREFIX_LEN) as u64) < declared {
        return Err(FrameError::Transient);
    }
    let size = declared as usize;
    let end = PREFIX_LEN + size;
    let payload = &buf[PREFIX_LEN..end];
    assert(payload@ == payload_of(buf@));
    let mut copy: Vec<u8> = Vec::new();
    append_bytes(&mut copy, payload);
    if text_from_utf8(copy).is_none() {
        return Err(FrameError::InvalidFrame);
    }
    let nl = span_to(payload, 10u8);
    if nl + 1 >= payload.len() {
        return Err(FrameError::InvalidFrame);
    }
    let first = &payload[0..nl];
    let line = if nl > 0 && first[nl - 1] == 13 {
        &first[0..nl - 1]
    } else {
        first
    };
    assert(line@ =~= strip_cr(payload@.take(nl as int)));
    let mtype = match header_type_of(line) {
        Some(t) => t,
        None => {
            return Err(FrameError::InvalidFrame);
        },
    };
    let rest = &payload[nl + 1..payload.len()];
    assert(rest@ =~= payload@.skip(nl + 1));
    let body = join_lines_of(rest);
    proof {
        assert(payload@.subrange(0, payload@.len() as int) =~= payload@);
        lemma_span_stops_at(payload@, 10u8);
        lemma_valid_suffix_after_ascii(payload@, 0, nl as int);
        assert(payload@.subrange(nl + 1, payload@.len() as int) =~= rest@);
        assert(rest@.subrange(0, 0) =~= Seq::<u8>::empty());
        assert(join_prefix(rest@, 0) == Seq::<u8>::empty());
        assert(vstd::utf8::valid_utf8(Seq::<u8>::empty()));
        assert(rest@.subrange(0, rest@.len() as int) =~= rest@);
        lemma_join_valid(rest@, 0);
    }
    match text_from_utf8(body) {
        Some(text) => Ok((Message { content_size: size, mtype, content_body: text }, end)),
        None => Err(FrameError::InvalidFrame),
    }
}


proof fn lemma_span(s: Seq<u8>, b: u8, i: int)
    requires
        0 <= i <= s.len(),
        forall|j: int| 0 <= j < i ==> s[j] != b,
        i < s.len() ==> s[i] == b,
    ensures
        span_without(s, b) == i,
    decreases i,
{
    if i > 0 {
        lemma_span(s.drop_first(), b, i - 1);
    }
}

proof fn lemma_span_stops_at(s: Seq<u8>, b: u8)
    ensures
        span_without(s, b) <= s.len(),
        span_without(s, b) < s.len() ==> s[span_without(s, b) as int] == b,
    decreases s.len(),
{
    if s.len() > 0 && s[0] != b {
        lemma_span_stops_at(s.drop_first(), b);
    }
}

proof fn lemma_join_without_breaks(s: Seq<u8>, n: nat)
    requires
        n <= s.len(),
        !s.contains(10u8),
    ensures
        join_prefix(s, n) == s.take(n as int),
    decreases n,
{
    if n > 0 {
        lemma_join_without_breaks(s, (n - 1) as nat);
        if s[n - 1] == 13 && n < s.len() {
            assert(s[n as int] != 10);
        }
        assert(s[n - 1] != 10);
        assert(s.take(n as int) =~= s.take(n - 1).push(s[n - 1]));
    }
}

/// The header line of a frame names the frame's type.
proof fn lemma_header_type(t: MessageType)
    ensures
        header_type(header_line(t).drop_last()) == Some(t),
{
    let line = header_line(t).drop_last();
    let after = line.skip(13);
    let name = wire_name(t);
    assert(line.take(13) =~= header_tag());
    assert(after =~= seq![32u8] + name);
    lemma_span(after, 58u8, after.len() as int);
    assert(after.take(after.len() as int) =~= after);
    assert(after.drop_first() =~= name);
    assert(trim_front(name) == name);
    assert(trim_front(after) == name);
    assert(trim_back(name) == name);
}

/// Decoding undoes encoding: a frame built from a type and a body whose bytes
/// are not empty and hold no newline, followed by any further bytes, decodes to
/// that type and body; its declared length is the recomputed one, and exactly
/// the frame's bytes are consumed.
pub proof fn lemma_round_trip(t: MessageType, body: Seq<char>, more: Seq<u8>)
    requires
        encodable(t, body),
        body.len() > 0,
        !body.contains('\n'),
    ensures
        decode_spec(frame_of(t, body) + more) == Ok::<(MessageType, Seq<u8>), FrameError>(
            (t, body_bytes(body)),
        ),
        vstd::utf8::decode_utf8(body_bytes(body)) == body,
        declared_len(frame_of(t, body) + more) == payload_len(t, body),
        frame_end(frame_of(t, body) + more) == frame_of(t, body).len(),
{
    let s = frame_of(t, body) + more;
    let n = payload_len(t, body);
    let prefix = be_bytes(n, PREFIX_LEN as nat);
    let h = header_line(t);
    let b = body_bytes(body);
    assert(pow256(8) == 0x1_0000_0000_0000_0000) by {
        reveal_with_fuel(pow256, 9);
    }
    lemma_be_round_trip(n, PREFIX_LEN as nat);
    assert(s.take(8) =~= prefix);
    assert(frame_of(t, body).len() == 8 + n);
    let p = payload_of(s);
    assert(p =~= h + b);
    lemma_body_bytes_nonempty(body);
    lemma_body_bytes_no_newline(body);
    lemma_span(p, 10u8, h.len() - 1);
    assert(p.take(h.len() - 1) =~= h.drop_last());
    assert(strip_cr(h.drop_last()) == h.drop_last());
    lemma_header_type(t);
    assert(vstd::utf8::valid_utf8(h)) by {
        assert(forall|i: int| 0 <= i < h.len() ==> #[trigger] h[i] <= 0x7f);
        assert(h.subrange(0, 0) =~= Seq::<u8>::empty());
        vstd::utf8::partial_valid_utf8_extend_ascii_block(h, 0, h.len() as int);
        assert(h.subrange(0, h.len() as int) =~= h);
    }
    vstd::utf8::encode_utf8_valid_utf8(body);
    vstd::utf8::valid_utf8_concat(h, b);
    assert(p.skip(h.len() as int) =~= b);
    lemma_join_without_breaks(b, b.len());
    assert(b.take(b.len() as int) =~= b);
    vstd::utf8::encode_utf8_valid_utf8(body);
    vstd::utf8::encode_utf8_decode_utf8(body);
}


/// Decoding a stream cut short: a prefix of `s` that ends before the first
/// frame does decodes as `Transient`, and one that holds the whole first frame
/// decodes exactly as `s` does. Feeding a decoder the stream in pieces of any
/// size thus reports `Transient` until the frame is complete, then the same
/// result as feeding it all at once.
pub proof fn lemma_prefix_decode(s: Seq<u8>, k: nat)
    requires
        k <= s.len(),
    ensures
        frame_complete(s.take(k as int)) <==> (k >= PREFIX_LEN && k >= frame_end(s)),
        decode_spec(s.take(k as int)) == (if k >= PREFIX_LEN && k >= frame_end(s) {
            decode_spec(s)
        } else {
            Err::<(MessageType, Seq<u8>), FrameError>(FrameError::Transient)
        }),
{
    let t = s.take(k as int);
    if k >= PREFIX_LEN {
        assert(t.take(8) =~= s.take(8));
        if k >= frame_end(s) {
            assert(payload_of(t) =~= payload_of(s));
        }
    }
}

/// The payload `p` holds fewer than two lines.
pub open spec fn fewer_than_two_lines(p: Seq<u8>) -> bool {
    span_without(p, 10) + 1 >= p.len()
}

/// The first line of a payload, without a carriage return before its newline.
pub open spec fn first_line(p: Seq<u8>) -> Seq<u8> {
    strip_cr(p.take(span_without(p, 10) as int))
}

/// A complete frame is rejected as `InvalidFrame` when its payload holds fewer
/// than two lines, when its first line does not open with the header tag, or
/// when the type named after the tag is not a known one.
pub proof fn lemma_invalid_frame(s: Seq<u8>)
    requires
        frame_complete(s),
        ({
            let line = first_line(payload_of(s));
            ||| fewer_than_two_lines(payload_of(s))
            ||| line.len() < header_tag().len()
            ||| line.take(header_tag().len() as int) != header_tag()
            ||| type_of_wire_name(
                trim(
                    line.skip(header_tag().len() as int).take(
                        span_without(line.skip(header_tag().len() as int), 58) as int,
                    ),
                ),
            ) is None
        }),
    ensures
        decode_spec(s) == Err::<(MessageType, Seq<u8>), FrameError>(FrameError::InvalidFrame),
{
}

/// Bytes received from a connection and not yet decoded.
pub struct FrameReader {
    buf: Vec<u8>,
}

impl View for FrameReader {
    type V = Seq<u8>;

    closed spec fn view(&self) -> Seq<u8> {
        self.buf@
    }
}

impl FrameReader {
    /// A reader holding no bytes.
    pub fn new() -> (r: FrameReader)
        ensures
            r@ == Seq::<u8>::empty(),
    {
        FrameReader { buf: Vec::new() }
    }

    /// Adds bytes that arrived, after those held.
    pub fn feed(&mut self, chunk: &[u8])
        ensures
            final(self)@ == old(self)@ + chunk@,
    {
        append_bytes(&mut self.buf, chunk);
    }

    /// The number of bytes held.
    pub fn buffered(&self) -> (r: usize)
        ensures
            r == self@.len(),
    {
        self.buf.len()
    }

    /// Decodes the first frame held. A whole frame, valid or not, is consumed
    /// with exactly its own bytes; an incomplete one is kept for later.
    pub fn poll(&mut self) -> (r: Result<Message, FrameError>)
        ensures
            match decode_spec(old(self)@) {
                Err(FrameError::Transient) => r == Err::<Message, FrameError>(FrameError::Transient)
                    && final(self)@ == old(self)@,
                Err(FrameError::InvalidFrame) => r == Err::<Message, FrameError>(
                    FrameError::InvalidFrame,
                ) && final(self)@ == old(self)@.skip(frame_end(old(self)@) as int),
                Ok((t, body)) => r matches Ok(m) && m.mtype == t && m.content_body@
                    == vstd::utf8::decode_utf8(body) && m.content_size == declared_len(old(self)@)
                    && final(self)@ == old(self)@.skip(frame_end(old(self)@) as int),
            },
    {
        let outcome = decode_frame(self.buf.as_slice());
        let end: usize;
        let r = match outcome {
            Ok((m, n)) => {
                end = n;
                Ok(m)
            },
            Err(FrameError::InvalidFrame) => {
                let declared = read_declared_len(self.buf.as_slice());
                let total = self.buf.len();
                assert(frame_complete(self.buf@));
                assert(declared as int + PREFIX_LEN <= total);
                let size = declared as usize;
                end = PREFIX_LEN + size;
                Err(FrameError::InvalidFrame)
            },
            Err(FrameError::Transient) => {
                return Err(FrameError::Transient);
            },
        };
        let mut rest: Vec<u8> = Vec::new();
        append_bytes(&mut rest, &self.buf.as_slice()[end..self.buf.len()]);
        assert(rest@ =~= old(self)@.skip(end as int));
        self.buf = rest;
        r
    }
}


/// In valid UTF-8, what follows an ASCII byte is valid UTF-8 too.
proof fn lemma_valid_suffix_after_ascii(s: Seq<u8>, n: int, j: int)
    requires
        0 <= n <= j < s.len(),
        vstd::utf8::valid_utf8(s.subrange(n, s.len() as int)),
        s[j] < 0x80,
    ensures
        vstd::utf8::valid_utf8(s.subrange(j + 1, s.len() as int)),
    decreases j - n,
{
    let t = s.subrange(n, s.len() as int);
    let k = vstd::utf8::length_of_first_scalar(t);
    assert(t[0] == s[n]);
    assert(vstd::utf8::pop_first_scalar(t) =~= s.subrange(n + k, s.len() as int));
    if n < j {
        if k > 1 {
            assert(t[1] == s[n + 1]);
            if k > 2 {
                assert(t[2] == s[n + 2]);
            }
            if k > 3 {
                assert(t[3] == s[n + 3]);
            }
            assert(n + k <= j) by {
                if j < n + k {
                    assert(t[j - n] == s[j]);
                }
            }
        }
        lemma_valid_suffix_after_ascii(s, n + k, j);
    }
}

/// Joining the first `b` bytes of `s` adds a block of non-ASCII bytes whole.
proof fn lemma_join_block(s: Seq<u8>, a: int, b: int)
    requires
        0 <= a <= b <= s.len(),
        forall|i: int| a <= i < b ==> s[i] >= 0x80,
    ensures
        join_prefix(s, b as nat) == join_prefix(s, a as nat) + s.subrange(a, b),
    decreases b - a,
{
    if a < b {
        lemma_join_block(s, a, b - 1);
        assert(s.subrange(a, b) =~= s.subrange(a, b - 1).push(s[b - 1]));
    } else {
        assert(s.subrange(a, b) =~= Seq::<u8>::empty());
    }
}

/// Removing line breaks from valid UTF-8 leaves valid UTF-8: the bytes removed
/// are ASCII, and each is a character of its own.
proof fn lemma_join_valid(s: Seq<u8>, n: int)
    requires
        0 <= n <= s.len(),
        vstd::utf8::valid_utf8(s.subrange(n, s.len() as int)),
        vstd::utf8::valid_utf8(join_prefix(s, n as nat)),
    ensures
        vstd::utf8::valid_utf8(join_lines(s)),
    decreases s.len() - n,
{
    if n < s.len() {
        let t = s.subrange(n, s.len() as int);
        let k = vstd::utf8::length_of_first_scalar(t);
        assert(t[0] == s[n]);
        assert(vstd::utf8::pop_first_scalar(t) =~= s.subrange(n + k, s.len() as int));
        let block = s.subrange(n, n + k);
        if k == 1 {
            let one = seq![s[n]];
            assert(vstd::utf8::valid_utf8(one)) by {
                reveal_with_fuel(vstd::utf8::valid_utf8, 2);
                assert(vstd::utf8::pop_first_scalar(one) =~= Seq::<u8>::empty());
            }
            if kept_in_join(s, n) {
                assert(join_prefix(s, (n + 1) as nat) == join_prefix(s, n as nat) + one);
                vstd::utf8::valid_utf8_concat(join_prefix(s, n as nat), one);
            }
        } else {
            assert(t[1] == s[n + 1]);
            if k > 2 {
                assert(t[2] == s[n + 2]);
            }
            if k > 3 {
                assert(t[3] == s[n + 3]);
            }
            lemma_join_block(s, n, n + k);
            assert(vstd::utf8::valid_utf8(block)) by {
                reveal_with_fuel(vstd::utf8::valid_utf8, 2);
                assert(block[0] == t[0]);
                assert(block[1] == t[1]);
                if k > 2 {
                    assert(block[2] == t[2]);
                }
                if k > 3 {
                    assert(block[3] == t[3]);
                }
                assert(vstd::utf8::pop_first_scalar(block) =~= Seq::<u8>::empty());
            }
            vstd::utf8::valid_utf8_concat(join_prefix(s, n as nat), block);
        }
        lemma_join_valid(s, n + k);
    } else {
        assert(n == s.len());
    }
}

} // verus!
