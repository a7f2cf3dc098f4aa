//! What a network transport decides: how messages are framed on the wire,
//! which connections are kept, and where a peer is dialled.
//!
//! Each RPC is framed as a one-byte type tag followed by a 4-byte big-endian
//! length and an encoded body. A response is two length-prefixed frames: the
//! error, empty for none, and the body. The data of a snapshot follows its
//! request as raw bytes.

use crate::bytemap::ByteMap;
use crate::configuration::{ServerAddress, ServerID};
use crate::error::{says, RaftError, Result};
use crate::inmem_transport::{decode_peer, encode_peer, utf8_lossy};
use crate::text::{decimal, push_decimal};
use crate::time::Duration;
use crate::transport::RPCCommand;
use vstd::prelude::*;
use vstd::utf8::encode_utf8;

verus! {

// RPC type tags.
pub const RPC_APPEND_ENTRIES: u8 = 0;

pub const RPC_REQUEST_VOTE: u8 = 1;

pub const RPC_INSTALL_SNAPSHOT: u8 = 2;

pub const RPC_TIMEOUT_NOW: u8 = 3;

pub const RPC_REQUEST_PRE_VOTE: u8 = 4;

/// Default timeout scale: 256 KB.
pub const DEFAULT_TIMEOUT_SCALE: usize = 256 * 1024;

/// Default pipelining depth.
pub const DEFAULT_MAX_RPCS_IN_FLIGHT: usize = 2;

/// Minimum pipelining depth for the pipeline code path.
pub const MIN_IN_FLIGHT_FOR_PIPELINING: usize = 2;

/// Capacity of the consumer channel that the raft main loop reads from.
pub const CONSUMER_CAPACITY: usize = 1024;

/// Capacity of the in-progress and done channels of each pipeline.
pub const PIPELINE_CAPACITY: usize = 64;

/// The most bytes of a snapshot that are read at once.
pub const SNAPSHOT_CHUNK: usize = 65536;

/// The type of a request, as its tag says it.
#[derive(Debug, Clone, Copy, PartialEq, Eq, Structural)]
pub enum RpcKind {
    AppendEntries,
    RequestVote,
    InstallSnapshot,
    TimeoutNow,
    RequestPreVote,
}

/// The type that a tag stands for.
pub open spec fn kind_of_tag(tag: u8) -> Option<RpcKind> {
    if tag == RPC_APPEND_ENTRIES {
        Some(RpcKind::AppendEntries)
    } else if tag == RPC_REQUEST_VOTE {
        Some(RpcKind::RequestVote)
    } else if tag == RPC_INSTALL_SNAPSHOT {
        Some(RpcKind::InstallSnapshot)
    } else if tag == RPC_TIMEOUT_NOW {
        Some(RpcKind::TimeoutNow)
    } else if tag == RPC_REQUEST_PRE_VOTE {
        Some(RpcKind::RequestPreVote)
    } else {
        None
    }
}

/// The type of a request.
pub open spec fn kind_of(command: RPCCommand) -> RpcKind {
    match command {
        RPCCommand::AppendEntries(_) => RpcKind::AppendEntries,
        RPCCommand::RequestVote(_) => RpcKind::RequestVote,
        RPCCommand::RequestPreVote(_) => RpcKind::RequestPreVote,
        RPCCommand::InstallSnapshot(_) => RpcKind::InstallSnapshot,
        RPCCommand::TimeoutNow(_) => RpcKind::TimeoutNow,
    }
}

/// The complaint about a tag that stands for no request.
pub open spec fn unknown_rpc(tag: u8) -> Seq<char> {
    "unknown rpc type "@ + decimal(tag as nat)
}

impl RpcKind {
    /// The tag of a request of this type.
    pub fn tag(&self) -> (r: u8)
        ensures
            kind_of_tag(r) == Some(*self),
    {
        match self {
            RpcKind::AppendEntries => RPC_APPEND_ENTRIES,
            RpcKind::RequestVote => RPC_REQUEST_VOTE,
            RpcKind::InstallSnapshot => RPC_INSTALL_SNAPSHOT,
            RpcKind::TimeoutNow => RPC_TIMEOUT_NOW,
            RpcKind::RequestPreVote => RPC_REQUEST_PRE_VOTE,
        }
    }

    /// The type that a tag stands for.
    pub fn from_tag(tag: u8) -> (r: Result<RpcKind>)
        ensures
            match kind_of_tag(tag) {
                Some(kind) => r matches Ok(k) && k == kind,
                None => r matches Err(RaftError::Other(text)) && text@ == unknown_rpc(tag),
            },
    {
        if tag == RPC_APPEND_ENTRIES {
            Ok(RpcKind::AppendEntries)
        } else if tag == RPC_REQUEST_VOTE {
            Ok(RpcKind::RequestVote)
        } else if tag == RPC_INSTALL_SNAPSHOT {
            Ok(RpcKind::InstallSnapshot)
        } else if tag == RPC_TIMEOUT_NOW {
            Ok(RpcKind::TimeoutNow)
        } else if tag == RPC_REQUEST_PRE_VOTE {
            Ok(RpcKind::RequestPreVote)
        } else {
            let mut text = "unknown rpc type ".to_owned();
            push_decimal(&mut text, tag as u128);
            Err(RaftError::Other(text))
        }
    }

    /// The type of a request.
    pub fn of(command: &RPCCommand) -> (r: RpcKind)
        ensures
            r == kind_of(*command),
    {
        match command {
            RPCCommand::AppendEntries(_) => RpcKind::AppendEntries,
            RPCCommand::RequestVote(_) => RpcKind::RequestVote,
            RPCCommand::RequestPreVote(_) => RpcKind::RequestPreVote,
            RPCCommand::InstallSnapshot(_) => RpcKind::InstallSnapshot,
            RPCCommand::TimeoutNow(_) => RpcKind::TimeoutNow,
        }
    }

    /// Whether a request of this type may travel on a pooled connection. A
    /// snapshot always uses a fresh, exclusive one, which is closed on
    /// completion.
    pub fn may_be_pooled(&self) -> (r: bool)
        ensures
            r == (*self != RpcKind::InstallSnapshot),
    {
        match self {
            RpcKind::InstallSnapshot => false,
            _ => true,
        }
    }
}

/// The four bytes of a length, the most significant first.
pub open spec fn length_prefix(len: u32) -> Seq<u8> {
    seq![(len >> 24) as u8, (len >> 16) as u8, (len >> 8) as u8, len as u8]
}

/// The length that four bytes say.
pub open spec fn prefixed_length(a: u8, b: u8, c: u8, d: u8) -> u32 {
    ((a as u32) << 24) | ((b as u32) << 16) | ((c as u32) << 8) | (d as u32)
}

/// A length comes back from its four bytes.
proof fn lemma_length_comes_back(len: u32)
    ensures
        prefixed_length(
            (len >> 24) as u8,
            (len >> 16) as u8,
            (len >> 8) as u8,
            len as u8,
        ) == len,
{
    assert(prefixed_length(
        (len >> 24) as u8,
        (len >> 16) as u8,
        (len >> 8) as u8,
        len as u8,
    ) == len) by (bit_vector);
}

/// A body behind its length. A length that four bytes cannot hold is cut off
/// to its low four.
pub open spec fn framed(body: Seq<u8>) -> Seq<u8> {
    length_prefix((body.len() % 0x1_0000_0000) as u32) + body
}

/// The body of the frame at the beginning of some bytes, if it is complete.
pub open spec fn unframed(bytes: Seq<u8>) -> Option<Seq<u8>> {
    if bytes.len() < 4 {
        None
    } else {
        let len = prefixed_length(bytes[0], bytes[1], bytes[2], bytes[3]) as int;
        if bytes.len() < 4 + len {
            None
        } else {
            Some(bytes.subrange(4, 4 + len))
        }
    }
}

/// Whatever body was framed, if four bytes hold its length, is taken out of
/// the frame again, whatever follows.
pub proof fn law_frame_round_trip(body: Seq<u8>, rest: Seq<u8>)
    requires
        body.len() < 0x1_0000_0000,
    ensures
        unframed(framed(body) + rest) == Some(body),
{
    let len = (body.len() % 0x1_0000_0000) as u32;
    let bytes = framed(body) + rest;
    lemma_length_comes_back(len);
    assert(bytes[0] == (len >> 24) as u8);
    assert(bytes[1] == (len >> 16) as u8);
    assert(bytes[2] == (len >> 8) as u8);
    assert(bytes[3] == len as u8);
    assert(bytes.subrange(4, 4 + body.len() as int) =~= body);
}

/// A frame of which only a part has arrived is not taken for a complete one.
pub proof fn law_partial_frame_waits(body: Seq<u8>, n: int)
    requires
        body.len() < 0x1_0000_0000,
        0 <= n < framed(body).len(),
    ensures
        unframed(framed(body).take(n)) is None,
{
    let len = (body.len() % 0x1_0000_0000) as u32;
    let bytes = framed(body).take(n);
    if n >= 4 {
        lemma_length_comes_back(len);
        assert(bytes[0] == (len >> 24) as u8);
        assert(bytes[1] == (len >> 16) as u8);
        assert(bytes[2] == (len >> 8) as u8);
        assert(bytes[3] == len as u8);
    }
}

/// Puts a body behind its length.
pub fn frame(body: &[u8]) -> (r: Vec<u8>)
    ensures
        r@ == framed(body@),
{
    let total: usize = body.len();
    let wide: u64 = total as u64;
    let len: u32 = (wide % 0x1_0000_0000) as u32;
    let mut out: Vec<u8> = Vec::new();
    out.push((len >> 24) as u8);
    out.push((len >> 16) as u8);
    out.push((len >> 8) as u8);
    out.push(len as u8);
    assert(out@ =~= length_prefix(len));
    out.extend_from_slice(body);
    assert(out@ =~= framed(body@));
    out
}

/// The body of the frame that begins at `from`, if it is complete, and the
/// position behind it.
pub fn take_frame(bytes: &[u8], from: usize) -> (r: Option<(Vec<u8>, usize)>)
    requires
        from <= bytes@.len(),
    ensures
        match unframed(bytes@.skip(from as int)) {
            Some(body) => r matches Some(taken) && taken.0@ == body && taken.1 == from + 4
                + body.len() && taken.1 <= bytes@.len(),
            None => r is None,
        },
{
    let ghost tail = bytes@.skip(from as int);
    if bytes.len() - from < 4 {
        return None;
    }
    let len: u32 = ((bytes[from] as u32) << 24) | ((bytes[from + 1] as u32) << 16) | ((bytes[from
        + 2] as u32) << 8) | (bytes[from + 3] as u32);
    assert(len == prefixed_length(tail[0], tail[1], tail[2], tail[3]));
    let left: usize = bytes.len() - from - 4;
    if (left as u64) < (len as u64) {
        return None;
    }
    let end: usize = from + 4 + len as usize;
    let body = vstd::slice::slice_to_vec(vstd::slice::slice_subrange(bytes, from + 4, end));
    assert(body@ =~= tail.subrange(4, 4 + len as int));
    Some((body, end))
}

/// A request on the wire: its tag, and the frame of its encoded body.
pub open spec fn request_bytes(tag: u8, body: Seq<u8>) -> Seq<u8> {
    seq![tag] + framed(body)
}

/// A request on the wire.
pub fn frame_request(kind: RpcKind, body: &[u8]) -> (r: Vec<u8>)
    ensures
        exists|tag: u8|
            kind_of_tag(tag) == Some(kind) && r@ == #[trigger] request_bytes(tag, body@),
{
    let tag: u8 = kind.tag();
    let mut out: Vec<u8> = Vec::new();
    out.push(tag);
    let mut framed_body = frame(body);
    out.append(&mut framed_body);
    assert(out@ =~= request_bytes(tag, body@));
    out
}

/// What the bytes of a connection begin with.
#[derive(Debug)]
pub enum RequestStep {
    /// The request is not complete yet.
    Wait,
    /// A request with its encoded body; `used` bytes are taken up.
    Request { kind: RpcKind, body: Vec<u8>, used: usize },
}

/// Takes the request off the bytes that a connection brought. The tag alone
/// decides whether the connection can go on.
pub fn take_request(bytes: &[u8]) -> (r: Result<RequestStep>)
    ensures
        bytes@.len() == 0 ==> (r matches Ok(step) && step is Wait),
        bytes@.len() > 0 ==> match kind_of_tag(bytes@[0]) {
            None => r matches Err(RaftError::Other(text)) && text@ == unknown_rpc(bytes@[0]),
            Some(kind) => match unframed(bytes@.skip(1)) {
                None => r matches Ok(step) && step is Wait,
                Some(body) => r matches Ok(RequestStep::Request { kind: k, body: b, used })
                    && k == kind && b@ == body && used == 5 + body.len(),
            },
        },
{
    if bytes.len() == 0 {
        return Ok(RequestStep::Wait);
    }
    let kind = match RpcKind::from_tag(bytes[0]) {
        Ok(kind) => kind,
        Err(e) => {
            return Err(e);
        },
    };
    match take_frame(bytes, 1) {
        Some((body, used)) => Ok(RequestStep::Request { kind, body, used }),
        None => Ok(RequestStep::Wait),
    }
}

/// Every request that is written is read back with its type and body, and no
/// byte of what follows it is taken up.
pub proof fn law_request_round_trip(tag: u8, body: Seq<u8>, rest: Seq<u8>)
    requires
        kind_of_tag(tag) is Some,
        body.len() < 0x1_0000_0000,
    ensures
        (request_bytes(tag, body) + rest)[0] == tag,
        unframed((request_bytes(tag, body) + rest).skip(1)) == Some(body),
        (request_bytes(tag, body) + rest).skip(5 + body.len() as int) == rest,
{
    lemma_frame_length(body);
    lemma_behind_the_tag(tag, framed(body), rest);
    law_frame_round_trip(body, rest);
}

proof fn lemma_behind_the_tag(tag: u8, frame: Seq<u8>, rest: Seq<u8>)
    ensures
        (seq![tag] + frame + rest)[0] == tag,
        (seq![tag] + frame + rest).skip(1) == frame + rest,
        (seq![tag] + frame + rest).skip(1 + frame.len() as int) == rest,
{
    let bytes = seq![tag] + frame + rest;
    assert(bytes.skip(1) =~= frame + rest);
    assert(bytes.skip(1 + frame.len() as int) =~= rest);
}

/// An error of the encoder, carried through unread.
#[verifier::external_type_specification]
#[verifier::external_body]
pub struct ExEncodeError(rmp_serde::encode::Error);

/// An error of the decoder, carried through unread.
#[verifier::external_type_specification]
#[verifier::external_body]
pub struct ExDecodeError(rmp_serde::decode::Error);

/// The encoding of a text: a marker with the length, in as few bytes as hold
/// it, and the text in UTF-8. A length that four bytes cannot hold is cut off
/// to its low four.
pub open spec fn msgpack_text(text: Seq<char>) -> Seq<u8> {
    let bytes = encode_utf8(text);
    let len = bytes.len() % 0x1_0000_0000;
    let marker = if len < 32 {
        seq![(0xa0 + len) as u8]
    } else if len < 0x100 {
        seq![0xd9u8, len as u8]
    } else if len < 0x1_0000 {
        seq![0xdau8, (len / 0x100) as u8, (len % 0x100) as u8]
    } else {
        seq![0xdbu8] + length_prefix(len as u32)
    };
    marker + bytes
}

/// What `rmp_serde::from_slice` makes of bytes as a text.
pub uninterp spec fn msgpack_decoded(bytes: Seq<u8>) -> Option<Seq<char>>;

/// `rmp_serde::to_vec_named` of a text: the marker with the length and the
/// text in UTF-8. It fails where no memory is left; nothing is claimed of when
/// that is.
#[verifier::external_body]
fn msgpack_encode(text: &String) -> (r: std::result::Result<Vec<u8>, rmp_serde::encode::Error>)
    ensures
        r matches Ok(bytes) ==> bytes@ == msgpack_text(text@),
{
    rmp_serde::to_vec_named(text)
}

/// `rmp_serde::from_slice` at a text: whatever text was encoded comes back;
/// what other bytes are taken for is left to the name.
#[verifier::external_body]
fn msgpack_decode(bytes: &[u8]) -> (r: std::result::Result<String, rmp_serde::decode::Error>)
    ensures
        r is Ok == msgpack_decoded(bytes@) is Some,
        r is Ok ==> msgpack_decoded(bytes@) == Some(r->Ok_0@),
        (forall|text: Seq<char>|
            encode_utf8(text).len() < 0x1_0000_0000 && bytes@ == #[trigger] msgpack_text(text)
                ==> r is Ok && r->Ok_0@ == text),
{
    rmp_serde::from_slice(bytes)
}

/// `ToString::to_string` of `rmp_serde::encode::Error`. Nothing is claimed of
/// the text.
#[verifier::external_body]
fn encode_error_text(e: &rmp_serde::encode::Error) -> (r: String) {
    e.to_string()
}

/// `ToString::to_string` of `rmp_serde::decode::Error`. Nothing is claimed of
/// the text.
#[verifier::external_body]
fn decode_error_text(e: &rmp_serde::decode::Error) -> (r: String) {
    e.to_string()
}

/// A response on the wire: the frames of the encoded error and of the encoded
/// body.
pub open spec fn response_bytes(error: Seq<u8>, body: Seq<u8>) -> Seq<u8> {
    framed(error) + framed(body)
}

/// A response on the wire, from the encoded error and the encoded body.
pub fn frame_response(error: &[u8], body: &[u8]) -> (r: Vec<u8>)
    ensures
        r@ == response_bytes(error@, body@),
{
    let mut out = frame(error);
    let mut second = frame(body);
    out.append(&mut second);
    out
}

/// A response on the wire: the encoded body behind an empty error, or the
/// text of an error without a body.
pub fn write_response(answer: &Result<Vec<u8>>) -> (r: Result<Vec<u8>>)
    ensures
        r matches Ok(bytes) ==> match answer {
            Ok(body) => bytes@ == response_bytes(msgpack_text(Seq::empty()), body@),
            Err(e) => exists|text: Seq<char>|
                says(*e, text) && bytes@ == response_bytes(
                    #[trigger] msgpack_text(text),
                    Seq::empty(),
                ),
        },
        r matches Err(e) ==> e is Encode,
{
    let text = match answer {
        Ok(_) => String::new(),
        Err(e) => e.message(),
    };
    let error = match msgpack_encode(&text) {
        Ok(bytes) => bytes,
        Err(e) => {
            return Err(RaftError::Encode(encode_error_text(&e)));
        },
    };
    let none: Vec<u8> = Vec::new();
    let body = match answer {
        Ok(body) => body,
        Err(_) => &none,
    };
    proof {
        assert(encode_utf8(Seq::<char>::empty()) =~= Seq::<u8>::empty());
        assert(text@.len() == 0 ==> text@ =~= Seq::<char>::empty());
        assert(none@ =~= Seq::<u8>::empty());
        let encoded = msgpack_text(text@);
    }
    Ok(frame_response(error.as_slice(), body.as_slice()))
}

/// Takes the frames of a response off the bytes that a connection brought:
/// the encoded error, the encoded body, and how many bytes they take up. None
/// while the response is not complete.
pub fn take_response(bytes: &[u8]) -> (r: Option<(Vec<u8>, Vec<u8>, usize)>)
    ensures
        match unframed(bytes@) {
            None => r is None,
            Some(error) => match unframed(bytes@.skip(4 + error.len() as int)) {
                None => r is None,
                Some(body) => r matches Some(taken) && taken.0@ == error && taken.1@ == body
                    && taken.2 == 8 + error.len() + body.len(),
            },
        },
{
    assert(bytes@.skip(0) =~= bytes@);
    match take_frame(bytes, 0) {
        Some((error, at)) => match take_frame(bytes, at) {
            Some((body, used)) => Some((error, body, used)),
            None => None,
        },
        None => None,
    }
}

/// The frames of a response are read back as they were written.
pub proof fn law_response_round_trip(error: Seq<u8>, body: Seq<u8>, rest: Seq<u8>)
    requires
        error.len() < 0x1_0000_0000,
        body.len() < 0x1_0000_0000,
    ensures
        unframed(response_bytes(error, body) + rest) == Some(error),
        unframed((response_bytes(error, body) + rest).skip(4 + error.len() as int)) == Some(body),
{
    lemma_frame_length(error);
    lemma_behind_the_first(framed(error), framed(body), rest);
    law_frame_round_trip(error, framed(body) + rest);
    law_frame_round_trip(body, rest);
}

/// A frame is its body and four bytes of length.
pub proof fn lemma_frame_length(body: Seq<u8>)
    ensures
        framed(body).len() == 4 + body.len(),
{
}

proof fn lemma_behind_the_first(first: Seq<u8>, second: Seq<u8>, rest: Seq<u8>)
    ensures
        first + second + rest == first + (second + rest),
        (first + second + rest).skip(first.len() as int) == second + rest,
{
    assert(first + second + rest =~= first + (second + rest));
    assert((first + second + rest).skip(first.len() as int) =~= second + rest);
}

/// Whether a response is read so: a body that does not decode comes first,
/// then the error that the peer reported, then the complaint about a body that
/// is missing. `decoded` is what the body decodes to, where there is one.
pub open spec fn read_as<T>(
    reported: Seq<char>,
    has_body: bool,
    decoded: Result<T>,
    missing: Seq<char>,
    r: Result<T>,
) -> bool {
    if has_body && decoded is Err {
        r == decoded
    } else if reported.len() > 0 {
        r matches Err(RaftError::Other(text)) && text@ == reported
    } else if !has_body {
        r matches Err(RaftError::Other(text)) && text@ == missing
    } else {
        r == decoded
    }
}

/// What a response says whose error is known.
pub fn response_body<T>(error: String, has_body: bool, decoded: Result<T>, missing: &str) -> (r:
    Result<T>)
    ensures
        read_as(error@, has_body, decoded, missing@, r),
{
    let body = if has_body {
        match decoded {
            Ok(value) => Some(value),
            Err(e) => {
                return Err(e);
            },
        }
    } else {
        None
    };
    if !error.as_str().is_empty() {
        return Err(RaftError::Other(error));
    }
    match body {
        Some(value) => Ok(value),
        None => Err(RaftError::Other(missing.to_owned())),
    }
}

/// Reads a response: the body, or the error that the peer reported. `decoded`
/// is what the body decodes to; that of an empty one is not looked at.
pub fn read_response<T>(error: &[u8], body: &[u8], decoded: Result<T>, missing: &str) -> (r: Result<
    T,
>)
    ensures
        match msgpack_decoded(error@) {
            None => r matches Err(e) && e is Decode,
            Some(reported) => read_as(reported, body@.len() > 0, decoded, missing@, r),
        },
        forall|text: Seq<char>|
            encode_utf8(text).len() < 0x1_0000_0000 && error@ == #[trigger] msgpack_text(text)
                ==> read_as(text, body@.len() > 0, decoded, missing@, r),
{
    match msgpack_decode(error) {
        Ok(reported) => response_body(reported, body.len() > 0, decoded, missing),
        Err(e) => Err(RaftError::Decode(decode_error_text(&e))),
    }
}

/// `std::io::Error::new` for a stream that ended too soon. Nothing is claimed
/// of the error.
#[verifier::external_body]
fn unexpected_eof(text: &str) -> (r: std::io::Error) {
    std::io::Error::new(std::io::ErrorKind::UnexpectedEof, text)
}

/// Reads the snapshot data portion of an InstallSnapshot request into a
/// buffer, so that the FSM can read it without waiting.
#[derive(Debug)]
pub struct SnapshotStream {
    data: Vec<u8>,
    size: u64,
}

impl SnapshotStream {
    #[verifier::type_invariant]
    spec fn well_formed(self) -> bool {
        self.data@.len() <= self.size
    }

    /// What has been read.
    pub closed spec fn read(&self) -> Seq<u8> {
        self.data@
    }

    /// How much there is to read.
    pub closed spec fn total(&self) -> u64 {
        self.size
    }

    /// A stream of the given size, of which nothing has been read.
    pub fn new(size: u64) -> (r: Self)
        ensures
            r.read() == Seq::<u8>::empty(),
            r.total() == size,
    {
        SnapshotStream { data: Vec::new(), size }
    }

    /// How many bytes to read next, at most; zero once all have been read.
    pub fn wanted(&self) -> (r: usize)
        ensures
            r == if self.total() - self.read().len() <= SNAPSHOT_CHUNK {
                self.total() - self.read().len()
            } else {
                SNAPSHOT_CHUNK as int
            },
    {
        proof {
            use_type_invariant(self);
        }
        let left: u64 = self.size - self.data.len() as u64;
        if left <= SNAPSHOT_CHUNK as u64 {
            left as usize
        } else {
            SNAPSHOT_CHUNK
        }
    }

    /// Takes up bytes that were read; none means that the stream has ended.
    pub fn received(&mut self, bytes: &[u8]) -> (r: Result<()>)
        requires
            old(self).read().len() + bytes@.len() <= old(self).total(),
        ensures
            final(self).total() == old(self).total(),
            bytes@.len() == 0 ==> (r matches Err(e) && e is Io) && final(self).read() == old(
                self,
            ).read(),
            bytes@.len() > 0 ==> r is Ok && final(self).read() == old(self).read() + bytes@,
    {
        if bytes.len() == 0 {
            return Err(RaftError::Io(unexpected_eof("snapshot stream closed early")));
        }
        let mut data: Vec<u8> = Vec::new();
        std::mem::swap(&mut data, &mut self.data);
        data.extend_from_slice(bytes);
        self.data = data;
        Ok(())
    }

    /// The bytes that were read.
    pub fn into_bytes(self) -> (r: Vec<u8>)
        ensures
            r@ == self.read(),
    {
        self.data
    }
}

/// Optional override: returns the dial address for a given server ID.
pub trait ServerAddressProvider {
    /// The address at which the server is dialled.
    fn server_addr(&self, id: &ServerID) -> Result<ServerAddress>;
}

/// The address at which a peer is dialled, given what the provider answered,
/// if there is one: its answer, or the target where it failed.
pub open spec fn dialled(answer: Option<Result<ServerAddress>>, target: Seq<char>) -> Seq<char> {
    match answer {
        Some(Ok(addr)) => addr@,
        _ => target,
    }
}

/// The address at which a peer is dialled.
pub fn dial_address(answer: Option<Result<ServerAddress>>, target: &str) -> (r: ServerAddress)
    ensures
        r@ == dialled(answer, target@),
{
    match answer {
        Some(Ok(addr)) => addr,
        _ => target.to_owned(),
    }
}

/// Configuration of a network transport. `S` is the stream layer, `P` the
/// address provider.
pub struct NetworkTransportConfig<S, P> {
    pub stream: S,
    pub max_pool: usize,
    pub max_rpcs_in_flight: usize,
    pub timeout: Duration,
    pub server_address_provider: Option<P>,
}

impl<S, P> NetworkTransportConfig<S, P> {
    /// A configuration with the default pipelining depth and no address
    /// provider.
    pub fn new(stream: S, max_pool: usize, timeout: Duration) -> (r: Self)
        ensures
            r == (NetworkTransportConfig {
                stream,
                max_pool,
                max_rpcs_in_flight: DEFAULT_MAX_RPCS_IN_FLIGHT,
                timeout,
                server_address_provider: None::<P>,
            }),
    {
        NetworkTransportConfig {
            stream,
            max_pool,
            max_rpcs_in_flight: DEFAULT_MAX_RPCS_IN_FLIGHT,
            timeout,
            server_address_provider: None,
        }
    }
}

/// What a network transport keeps: its connections to peers, and how it was
/// configured. `C` is a connection, `P` the address provider.
pub struct NetworkTransport<C, P> {
    max_pool: usize,
    max_in_flight: usize,
    timeout: Duration,
    conn_pool: ByteMap<Vec<C>>,
    server_address_provider: Option<P>,
    shutdown: bool,
}

/// The connections of a pool, by the encoding of the address they lead to.
pub open spec fn pool_views<C>(pool: Map<Seq<u8>, Vec<C>>) -> Map<Seq<u8>, Seq<C>> {
    pool.map_values(|conns: Vec<C>| conns@)
}

/// The connections to one address.
pub open spec fn pooled<C>(pool: Map<Seq<u8>, Seq<C>>, target: Seq<char>) -> Seq<C> {
    if pool.contains_key(encode_utf8(target)) {
        pool[encode_utf8(target)]
    } else {
        Seq::empty()
    }
}

/// The connections of several addresses, one address after the other.
pub open spec fn pooled_along<C>(pool: Map<Seq<u8>, Seq<C>>, keys: Seq<Seq<u8>>) -> Seq<C>
    decreases keys.len(),
{
    if keys.len() == 0 {
        Seq::empty()
    } else {
        pooled_along(pool, keys.drop_last()) + pool[keys.last()]
    }
}

/// Whether a list names every address of a pool, each once.
pub open spec fn names_all<C>(pool: Map<Seq<u8>, Seq<C>>, keys: Seq<Seq<u8>>) -> bool {
    keys.no_duplicates() && forall|k: Seq<u8>| #[trigger] keys.contains(k) <==> pool.contains_key(k)
}

impl<C, P> NetworkTransport<C, P> {
    /// The connections that are kept, by the encoding of the address they
    /// lead to.
    pub closed spec fn pool(&self) -> Map<Seq<u8>, Seq<C>> {
        pool_views(self.conn_pool@)
    }

    /// How many connections to one address are kept.
    pub closed spec fn pool_limit(&self) -> usize {
        self.max_pool
    }

    /// How many requests may be under way in a pipeline.
    pub closed spec fn depth(&self) -> usize {
        self.max_in_flight
    }

    /// How long to wait for a connection.
    pub closed spec fn patience(&self) -> nat {
        self.timeout@
    }

    /// The address provider.
    pub closed spec fn provider(&self) -> Option<P> {
        self.server_address_provider
    }

    /// Whether the transport has been closed.
    pub closed spec fn closed(&self) -> bool {
        self.shutdown
    }

    /// Whether nothing but the connections differs from another transport.
    pub open spec fn same_settings(&self, other: &Self) -> bool {
        &&& self.pool_limit() == other.pool_limit()
        &&& self.depth() == other.depth()
        &&& self.patience() == other.patience()
        &&& self.provider() == other.provider()
    }

    /// A transport without connections. No pipelining depth means the default
    /// one.
    pub fn new<S>(config: NetworkTransportConfig<S, P>) -> (r: (S, Self))
        ensures
            r.0 == config.stream,
            r.1.pool() == Map::<Seq<u8>, Seq<C>>::empty(),
            r.1.pool_limit() == config.max_pool,
            r.1.depth() == if config.max_rpcs_in_flight == 0 {
                DEFAULT_MAX_RPCS_IN_FLIGHT
            } else {
                config.max_rpcs_in_flight
            },
            r.1.patience() == config.timeout@,
            r.1.provider() == config.server_address_provider,
            !r.1.closed(),
    {
        let max_in_flight: usize = if config.max_rpcs_in_flight == 0 {
            DEFAULT_MAX_RPCS_IN_FLIGHT
        } else {
            config.max_rpcs_in_flight
        };
        let trans = NetworkTransport {
            max_pool: config.max_pool,
            max_in_flight,
            timeout: config.timeout,
            conn_pool: ByteMap::new(),
            server_address_provider: config.server_address_provider,
            shutdown: false,
        };
        assert(trans.pool() =~= Map::<Seq<u8>, Seq<C>>::empty());
        (config.stream, trans)
    }

    /// How long to wait for a connection.
    pub fn timeout(&self) -> (r: Duration)
        ensures
            r@ == self.patience(),
    {
        self.timeout
    }

    /// Whether the transport has been closed.
    pub fn is_shutdown(&self) -> (r: bool)
        ensures
            r == self.closed(),
    {
        self.shutdown
    }

    /// Whether requests may be pipelined.
    pub fn check_pipelining(&self) -> (r: Result<()>)
        ensures
            r is Ok <==> self.depth() >= MIN_IN_FLIGHT_FOR_PIPELINING,
            r matches Err(e) ==> e is PipelineReplicationNotSupported,
    {
        if self.max_in_flight < MIN_IN_FLIGHT_FOR_PIPELINING {
            return Err(RaftError::PipelineReplicationNotSupported);
        }
        Ok(())
    }

    /// Takes a connection to the target out of the pool, the one that has
    /// been there longest.
    pub fn get_pooled(&mut self, target: &str) -> (r: Option<C>)
        ensures
            final(self).same_settings(old(self)),
            final(self).closed() == old(self).closed(),
            pooled(old(self).pool(), target@).len() == 0 ==> r is None && forall|t: Seq<char>| #[trigger]
                pooled(final(self).pool(), t) == pooled(old(self).pool(), t),
            pooled(old(self).pool(), target@).len() > 0 ==> {
                &&& r == Some(pooled(old(self).pool(), target@)[0])
                &&& pooled(final(self).pool(), target@) == pooled(
                    old(self).pool(),
                    target@,
                ).drop_first()
                &&& forall|t: Seq<char>|
                    encode_utf8(t) != encode_utf8(target@) ==> #[trigger] pooled(
                        final(self).pool(),
                        t,
                    ) == pooled(old(self).pool(), t)
            },
    {
        match self.conn_pool.remove(target.as_bytes()) {
            Some(conns) => {
                let mut conns = conns;
                let first = if conns.len() > 0 {
                    Some(conns.remove(0))
                } else {
                    None
                };
                self.conn_pool.insert(target.as_bytes(), conns);
                first
            },
            None => None,
        }
    }

    /// Puts a connection back into the pool. Gives it back, to be dropped,
    /// where the pool is full or the transport is closed.
    pub fn return_to_pool(&mut self, conn: C, target: &str) -> (r: Option<C>)
        ensures
            final(self).same_settings(old(self)),
            final(self).closed() == old(self).closed(),
            pooled(old(self).pool(), target@).len() < old(self).pool_limit() && !old(self).closed()
                ==> r is None && pooled(final(self).pool(), target@) == pooled(
                old(self).pool(),
                target@,
            ).push(conn),
            !(pooled(old(self).pool(), target@).len() < old(self).pool_limit() && !old(
                self,
            ).closed()) ==> r == Some(conn) && pooled(final(self).pool(), target@) == pooled(
                old(self).pool(),
                target@,
            ),
            forall|t: Seq<char>|
                encode_utf8(t) != encode_utf8(target@) ==> #[trigger] pooled(
                    final(self).pool(),
                    t,
                ) == pooled(old(self).pool(), t),
    {
        let mut conns = match self.conn_pool.remove(target.as_bytes()) {
            Some(conns) => conns,
            None => Vec::new(),
        };
        let left = if conns.len() < self.max_pool && !self.shutdown {
            conns.push(conn);
            None
        } else {
            Some(conn)
        };
        self.conn_pool.insert(target.as_bytes(), conns);
        left
    }

    /// Takes all connections out of the pool, to be closed.
    pub fn close_streams(&mut self) -> (r: Vec<C>)
        ensures
            final(self).pool() == Map::<Seq<u8>, Seq<C>>::empty(),
            final(self).same_settings(old(self)),
            final(self).closed() == old(self).closed(),
            exists|keys: Seq<Seq<u8>>| #[trigger]
                names_all(old(self).pool(), keys) && r@ == pooled_along(old(self).pool(), keys),
    {
        let mut pairs = self.conn_pool.drain();
        assert(self.pool() =~= Map::<Seq<u8>, Seq<C>>::empty());
        let ghost before = old(self).pool();
        let ghost all = pairs@;
        let ghost keys = all.map_values(|p: (Vec<u8>, Vec<C>)| p.0@);
        proof {
            assert forall|k: Seq<u8>| #[trigger] keys.contains(k) <==> before.contains_key(k) by {
                if keys.contains(k) {
                    let i = choose|i: int| 0 <= i < keys.len() && keys[i] == k;
                    assert(all[i].0@ == k);
                }
                if before.contains_key(k) {
                    assert(old(self).conn_pool@.contains_key(k));
                    let i = choose|i: int| 0 <= i < all.len() && (#[trigger] all[i]).0@ == k;
                    assert(keys[i] == k);
                }
            }
            assert(keys.no_duplicates()) by {
                assert forall|i: int, j: int|
                    0 <= i < keys.len() && 0 <= j < keys.len() && i != j implies keys[i]
                    != keys[j] by {
                    if i < j {
                        assert(all[i].0@ != all[j].0@);
                    } else {
                        assert(all[j].0@ != all[i].0@);
                    }
                }
            }
        }
        let mut out: Vec<C> = Vec::new();
        let ghost mut done: int = 0;
        assert(keys.take(0) =~= Seq::empty());
        while pairs.len() > 0
            invariant
                0 <= done <= all.len(),
                pairs@ == all.skip(done),
                keys == all.map_values(|p: (Vec<u8>, Vec<C>)| p.0@),
                before == old(self).pool(),
                forall|i: int|
                    0 <= i < all.len() ==> before.contains_key((#[trigger] all[i]).0@)
                        && before[all[i].0@] == all[i].1@,
                out@ == pooled_along(before, keys.take(done)),
            decreases pairs@.len(),
        {
            let pair = pairs.remove(0);
            let mut conns = pair.1;
            proof {
                assert(pair == all[done]);
                assert(all.skip(done).remove(0) =~= all.skip(done + 1));
                assert(keys.take(done + 1).drop_last() =~= keys.take(done));
                assert(keys.take(done + 1).last() == all[done].0@);
                done = done + 1;
            }
            out.append(&mut conns);
        }
        assert(keys.take(done) =~= keys);
        assert(names_all(before, keys));
        out
    }

    /// Closes the transport: no connection is kept from now on. Takes all
    /// connections out of the pool, to be closed.
    pub fn close(&mut self) -> (r: Vec<C>)
        ensures
            final(self).closed(),
            final(self).pool() == Map::<Seq<u8>, Seq<C>>::empty(),
            final(self).same_settings(old(self)),
            exists|keys: Seq<Seq<u8>>| #[trigger]
                names_all(old(self).pool(), keys) && r@ == pooled_along(old(self).pool(), keys),
    {
        let closing = self.close_streams();
        self.shutdown = true;
        closing
    }
}

impl<C, P: ServerAddressProvider> NetworkTransport<C, P> {
    /// The address at which a peer is dialled: what the provider says, or the
    /// target where there is no provider or it fails.
    pub fn resolve_address(&self, id: &ServerID, target: &str) -> (r: ServerAddress)
        ensures
            self.provider() is None ==> r@ == target@,
            self.provider() matches Some(p) ==> exists|answer: Result<ServerAddress>| #[trigger]
                call_ensures(P::server_addr, (&p, id), answer) && r@ == dialled(
                    Some(answer),
                    target@,
                ),
    {
        let answer = match &self.server_address_provider {
            Some(p) => Some(p.server_addr(id)),
            None => None,
        };
        dial_address(answer, target)
    }

    /// Encodes the address of a peer, as it is dialled.
    pub fn encode_peer(&self, id: &ServerID, addr: &str) -> (r: Vec<u8>)
        ensures
            self.provider() is None ==> r@ == encode_utf8(addr@),
            self.provider() matches Some(p) ==> exists|answer: Result<ServerAddress>| #[trigger]
                call_ensures(P::server_addr, (&p, id), answer) && r@ == encode_utf8(
                    dialled(Some(answer), addr@),
                ),
    {
        let resolved = self.resolve_address(id, addr);
        encode_peer(&resolved)
    }

    /// Decodes the address of a peer: whatever address was encoded comes
    /// back.
    pub fn decode_peer(&self, buf: &[u8]) -> (r: ServerAddress)
        ensures
            r@ == utf8_lossy(buf@),
            forall|addr: Seq<char>| buf@ == #[trigger] encode_utf8(addr) ==> r@ == addr,
    {
        decode_peer(buf)
    }
}

/// The local address as it is reported, also where the stream layer does not
/// know it.
pub fn local_addr_text(bound: Result<ServerAddress>) -> (r: ServerAddress)
    ensures
        match bound {
            Ok(addr) => r@ == addr@,
            Err(_) => r@ == "<unbound>"@,
        },
{
    match bound {
        Ok(addr) => addr,
        Err(_) => "<unbound>".to_owned(),
    }
}

} // verus!
