//! The wire protocol: one binary-encoded request per connection, one
//! binary-encoded response back.
//!
//! The encoding is a self-describing variant format with length-prefixed
//! strings, like the record codec but without fixed padding: a string is
//! its UTF-8 byte length as a little-endian `u64` followed by its bytes;
//! a variant is a tag byte followed by its fields.  A decoder accepts a
//! buffer only if it is consumed exactly.

use vstd::prelude::*;

use crate::error::Error;
use crate::reader::bytes_to_string;

verus! {

/// The mathematical form of a [`CommandRequest`].
pub enum RequestView {
    Get { key: Seq<char> },
    Put { key: Seq<char>, value: Option<Seq<char>> },
}

/// A client's request: get a key, or set it — to a value, or to nothing,
/// which removes it.
#[derive(Debug)]
pub enum CommandRequest {
    Get { key: String },
    Put { key: String, value: Option<String> },
}

impl View for CommandRequest {
    type V = RequestView;

    open spec fn view(&self) -> RequestView {
        match self {
            CommandRequest::Get { key } => RequestView::Get { key: key@ },
            CommandRequest::Put { key, value } => RequestView::Put {
                key: key@,
                value: match value {
                    Some(v) => Some(v@),
                    None => None,
                },
            },
        }
    }
}

/// The mathematical form of a [`CommandResponse`].
pub enum ResponseView {
    Message(Seq<char>),
    KeyNotFound,
}

/// The server's response: a message (the value, an empty string, or an
/// error description), or the distinguished key-not-found sentinel.
#[derive(Debug)]
pub enum CommandResponse {
    Message(String),
    KeyNotFound,
}

impl View for CommandResponse {
    type V = ResponseView;

    open spec fn view(&self) -> ResponseView {
        match self {
            CommandResponse::Message(s) => ResponseView::Message(s@),
            CommandResponse::KeyNotFound => ResponseView::KeyNotFound,
        }
    }
}

impl CommandResponse {
    /// The line a client prints for this response.
    pub fn message(&self) -> (r: String)
        ensures
            self@ matches ResponseView::Message(s) ==> r@ == s,
            self@ is KeyNotFound ==> r@ == "Key not found"@,
    {
        match self {
            CommandResponse::Message(s) => s.clone(),
            CommandResponse::KeyNotFound => String::from_str("Key not found"),
        }
    }
}

/// A length-prefixed string: its UTF-8 byte length, then its bytes.
pub open spec fn spec_encode_string(s: Seq<char>) -> Seq<u8> {
    vstd::bytes::spec_u64_to_le_bytes(vstd::utf8::encode_utf8(s).len() as u64)
        + vstd::utf8::encode_utf8(s)
}

/// The serialized form of a request.
pub open spec fn spec_encode_request(r: RequestView) -> Seq<u8> {
    match r {
        RequestView::Get { key } => seq![0u8] + spec_encode_string(key),
        RequestView::Put { key, value } => match value {
            Some(v) => seq![1u8] + spec_encode_string(key) + seq![1u8] + spec_encode_string(v),
            None => seq![1u8] + spec_encode_string(key) + seq![0u8],
        },
    }
}

/// The serialized form of a response.
pub open spec fn spec_encode_response(r: ResponseView) -> Seq<u8> {
    match r {
        ResponseView::Message(s) => seq![0u8] + spec_encode_string(s),
        ResponseView::KeyNotFound => seq![1u8],
    }
}

/// Reads the length-prefixed string at `off`; the string and the offset
/// just past it, or nothing when the buffer is too short, the bytes are
/// not UTF-8, or the length does not fit the machine.
pub open spec fn spec_decode_string(b: Seq<u8>, off: int) -> Option<(Seq<char>, int)> {
    if off + 8 <= b.len() {
        let len = vstd::bytes::spec_u64_from_le_bytes(b.subrange(off, off + 8)) as int;
        if off + 8 + len <= b.len() && vstd::utf8::valid_utf8(
            b.subrange(off + 8, off + 8 + len),
        ) {
            Some((vstd::utf8::decode_utf8(b.subrange(off + 8, off + 8 + len)), off + 8 + len))
        } else {
            None
        }
    } else {
        None
    }
}

/// Decodes a whole buffer as a request; `None` unless it is consumed
/// exactly.
pub open spec fn spec_decode_request(b: Seq<u8>) -> Option<RequestView> {
    if b.len() < 1 {
        None
    } else if b[0] == 0u8 {
        match spec_decode_string(b, 1) {
            Some((key, end)) => if end == b.len() {
                Some(RequestView::Get { key })
            } else {
                None
            },
            None => None,
        }
    } else if b[0] == 1u8 {
        match spec_decode_string(b, 1) {
            Some((key, mid)) => if mid < b.len() && b[mid] == 0u8 && mid + 1 == b.len() {
                Some(RequestView::Put { key, value: None })
            } else if mid < b.len() && b[mid] == 1u8 {
                match spec_decode_string(b, mid + 1) {
                    Some((value, end)) => if end == b.len() {
                        Some(RequestView::Put { key, value: Some(value) })
                    } else {
                        None
                    },
                    None => None,
                }
            } else {
                None
            },
            None => None,
        }
    } else {
        None
    }
}

/// Decodes a whole buffer as a response; `None` unless it is consumed
/// exactly.
pub open spec fn spec_decode_response(b: Seq<u8>) -> Option<ResponseView> {
    if b.len() < 1 {
        None
    } else if b[0] == 0u8 {
        match spec_decode_string(b, 1) {
            Some((s, end)) => if end == b.len() {
                Some(ResponseView::Message(s))
            } else {
                None
            },
            None => None,
        }
    } else if b[0] == 1u8 {
        if b.len() == 1 {
            Some(ResponseView::KeyNotFound)
        } else {
            None
        }
    } else {
        None
    }
}

/// Appends the length-prefixed form of `s` to `out`.
fn encode_string_into(out: &mut Vec<u8>, s: &String)
    ensures
        final(out)@ == old(out)@ + spec_encode_string(s@),
{
    proof {
        vstd::bytes::lemma_auto_spec_u64_to_from_le_bytes();
    }
    let bytes = s.as_str().as_bytes();
    let mut prefix = vstd::bytes::u64_to_le_bytes(bytes.len() as u64);
    out.append(&mut prefix);
    let mut i: usize = 0;
    let ghost mid = out@;
    while i < bytes.len()
        invariant
            i <= bytes@.len(),
            out@ == mid + bytes@.take(i as int),
        decreases bytes@.len() - i,
    {
        out.push(bytes[i]);
        assert(out@ =~= mid + bytes@.take(i + 1));
        i = i + 1;
    }
    assert(out@ =~= old(out)@ + spec_encode_string(s@));
}

/// Encodes a request for the wire.
pub fn encode_request(r: &CommandRequest) -> (out: Vec<u8>)
    ensures
        out@ == spec_encode_request(r@),
{
    let mut out: Vec<u8> = Vec::new();
    match r {
        CommandRequest::Get { key } => {
            out.push(0);
            encode_string_into(&mut out, key);
        },
        CommandRequest::Put { key, value } => {
            out.push(1);
            encode_string_into(&mut out, key);
            match value {
                Some(v) => {
                    out.push(1);
                    encode_string_into(&mut out, v);
                },
                None => {
                    out.push(0);
                },
            }
        },
    }
    assert(out@ =~= spec_encode_request(r@));
    out
}

/// Encodes a response for the wire.
pub fn encode_response(r: &CommandResponse) -> (out: Vec<u8>)
    ensures
        out@ == spec_encode_response(r@),
{
    let mut out: Vec<u8> = Vec::new();
    match r {
        CommandResponse::Message(s) => {
            out.push(0);
            encode_string_into(&mut out, s);
        },
        CommandResponse::KeyNotFound => {
            out.push(1);
        },
    }
    assert(out@ =~= spec_encode_response(r@));
    out
}

/// Reads the length-prefixed string at `off`.
fn decode_string_at(b: &Vec<u8>, off: usize) -> (r: Result<(String, usize), Error>)
    requires
        off <= b@.len(),
    ensures
        match spec_decode_string(b@, off as int) {
            Some((s, end)) => r matches Ok((rs, rend)) && rs@ == s && rend == end,
            None => r is Err,
        },
{
    proof {
        vstd::bytes::lemma_auto_spec_u64_to_from_le_bytes();
    }
    if b.len() - off < 8 {
        return Err(Error::Decode);
    }
    let len64 = vstd::bytes::u64_from_le_bytes(
        vstd::slice::slice_subrange(b.as_slice(), off, off + 8),
    );
    if len64 > (b.len() - off - 8) as u64 {
        return Err(Error::Decode);
    }
    let len = len64 as usize;
    let bytes = vstd::slice::slice_to_vec(
        vstd::slice::slice_subrange(b.as_slice(), off + 8, off + 8 + len),
    );
    match bytes_to_string(bytes) {
        Some(s) => {
            proof {
                vstd::utf8::encode_utf8_decode_utf8(s@);
            }
            Ok((s, off + 8 + len))
        },
        None => Err(Error::Decode),
    }
}

/// Decodes a request from a whole buffer.
pub fn decode_request(b: &Vec<u8>) -> (r: Result<CommandRequest, Error>)
    ensures
        match spec_decode_request(b@) {
            Some(rv) => r matches Ok(req) && req@ == rv,
            None => r is Err,
        },
{
    if b.len() < 1 {
        return Err(Error::Decode);
    }
    let tag = b[0];
    if tag == 0 {
        let (key, end) = match decode_string_at(b, 1) {
            Ok(p) => p,
            Err(e) => {
                return Err(e);
            },
        };
        if end != b.len() {
            return Err(Error::Decode);
        }
        Ok(CommandRequest::Get { key })
    } else if tag == 1 {
        let (key, mid) = match decode_string_at(b, 1) {
            Ok(p) => p,
            Err(e) => {
                return Err(e);
            },
        };
        if mid >= b.len() {
            return Err(Error::Decode);
        }
        let opt = b[mid];
        if opt == 0 {
            if mid + 1 != b.len() {
                return Err(Error::Decode);
            }
            Ok(CommandRequest::Put { key, value: None })
        } else if opt == 1 {
            let (value, end) = match decode_string_at(b, mid + 1) {
                Ok(p) => p,
                Err(e) => {
                    return Err(e);
                },
            };
            if end != b.len() {
                return Err(Error::Decode);
            }
            Ok(CommandRequest::Put { key, value: Some(value) })
        } else {
            Err(Error::Decode)
        }
    } else {
        Err(Error::Decode)
    }
}

/// Decodes a response from a whole buffer.
pub fn decode_response(b: &Vec<u8>) -> (r: Result<CommandResponse, Error>)
    ensures
        match spec_decode_response(b@) {
            Some(rv) => r matches Ok(resp) && resp@ == rv,
            None => r is Err,
        },
{
    if b.len() < 1 {
        return Err(Error::Decode);
    }
    let tag = b[0];
    if tag == 0 {
        let (s, end) = match decode_string_at(b, 1) {
            Ok(p) => p,
            Err(e) => {
                return Err(e);
            },
        };
        if end != b.len() {
            return Err(Error::Decode);
        }
        Ok(CommandResponse::Message(s))
    } else if tag == 1 {
        if b.len() != 1 {
            return Err(Error::Decode);
        }
        Ok(CommandResponse::KeyNotFound)
    } else {
        Err(Error::Decode)
    }
}

/// A string's serialized form reads back as the string itself, wherever
/// it stands in a buffer.
proof fn lemma_string_round_trip(before: Seq<u8>, s: Seq<char>, after: Seq<u8>)
    requires
        vstd::utf8::encode_utf8(s).len() <= u64::MAX,
    ensures
        ({
            let b = before + spec_encode_string(s) + after;
            spec_decode_string(b, before.len() as int) == Some(
                (s, before.len() + spec_encode_string(s).len() as int),
            )
        }),
{
    vstd::bytes::lemma_auto_spec_u64_to_from_le_bytes();
    vstd::utf8::encode_utf8_valid_utf8(s);
    vstd::utf8::encode_utf8_decode_utf8(s);
    let b = before + spec_encode_string(s) + after;
    let off = before.len() as int;
    let enc = vstd::utf8::encode_utf8(s);
    assert(b.subrange(off, off + 8) =~= vstd::bytes::spec_u64_to_le_bytes(enc.len() as u64));
    assert(b.subrange(off + 8, off + 8 + enc.len()) =~= enc);
}

/// A request's serialized form decodes back to the request itself.
pub proof fn lemma_request_round_trip(r: RequestView)
    requires
        (r matches RequestView::Get { key } ==> vstd::utf8::encode_utf8(key).len() <= u64::MAX),
        (r matches RequestView::Put { key, value } ==> vstd::utf8::encode_utf8(key).len()
            <= u64::MAX && (value matches Some(v) ==> vstd::utf8::encode_utf8(v).len()
            <= u64::MAX)),
    ensures
        spec_decode_request(spec_encode_request(r)) == Some(r),
{
    let b = spec_encode_request(r);
    match r {
        RequestView::Get { key } => {
            assert(b =~= seq![0u8] + spec_encode_string(key) + Seq::<u8>::empty());
            lemma_string_round_trip(seq![0u8], key, Seq::empty());
        },
        RequestView::Put { key, value } => {
            match value {
                Some(v) => {
                    assert(b =~= seq![1u8] + spec_encode_string(key) + (seq![1u8]
                        + spec_encode_string(v)));
                    lemma_string_round_trip(seq![1u8], key, seq![1u8] + spec_encode_string(v));
                    let mid = 1 + spec_encode_string(key).len() as int;
                    assert(b[mid] == 1u8);
                    assert(b =~= (seq![1u8] + spec_encode_string(key) + seq![1u8])
                        + spec_encode_string(v) + Seq::<u8>::empty());
                    lemma_string_round_trip(
                        seq![1u8] + spec_encode_string(key) + seq![1u8],
                        v,
                        Seq::empty(),
                    );
                },
                None => {
                    assert(b =~= seq![1u8] + spec_encode_string(key) + seq![0u8]);
                    lemma_string_round_trip(seq![1u8], key, seq![0u8]);
                    let mid = 1 + spec_encode_string(key).len() as int;
                    assert(b[mid] == 0u8);
                },
            }
        },
    }
}

/// A response's serialized form decodes back to the response itself.
pub proof fn lemma_response_round_trip(r: ResponseView)
    requires
        (r matches ResponseView::Message(s) ==> vstd::utf8::encode_utf8(s).len() <= u64::MAX),
    ensures
        spec_decode_response(spec_encode_response(r)) == Some(r),
{
    match r {
        ResponseView::Message(s) => {
            assert(spec_encode_response(r) =~= seq![0u8] + spec_encode_string(s)
                + Seq::<u8>::empty());
            lemma_string_round_trip(seq![0u8], s, Seq::empty());
        },
        ResponseView::KeyNotFound => {},
    }
}

} // verus!
