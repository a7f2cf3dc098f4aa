//! Routing between the nodes of one process, to allow raft to be tested
//! without going over a network.

use crate::bytemap::ByteMap;
use crate::configuration::ServerAddress;
use crate::error::{RaftError, Result};
use crate::text::{hex_byte, joined, push_hex_byte, same_text};
use crate::time::{Duration, MAX_DURATION_NANOS};
use crate::transport::{RPCCommand, RPCResponse};
use rand::Rng;
use vstd::prelude::*;
use vstd::utf8::{decode_utf8, encode_utf8, encode_utf8_decode_utf8, encode_utf8_valid_utf8, valid_utf8};

verus! {

/// Default timeout for in-memory RPCs, in milliseconds.
pub const DEFAULT_TIMEOUT_MILLIS: u64 = 500;

/// Capacity of the consumer and pipeline channels.
pub const CHANNEL_CAPACITY: usize = 16;

/// How many times longer than others a snapshot or a leadership transfer may
/// take.
pub const LONG_RPC_FACTOR: u32 = 10;

/// `rand::Rng::fill` of the thread's generator on sixteen bytes. Nothing is
/// claimed of which bytes they are.
#[verifier::external_body]
fn random_bytes() -> (r: [u8; 16]) {
    let mut buf = [0u8; 16];
    rand::thread_rng().fill(&mut buf);
    buf
}

/// Bytes in hexadecimal digits, one after the other.
pub open spec fn hex_bytes(bytes: Seq<u8>) -> Seq<char>
    decreases bytes.len(),
{
    if bytes.len() == 0 {
        Seq::empty()
    } else {
        hex_bytes(bytes.drop_last()) + hex_byte(bytes.last())
    }
}

/// Sixteen bytes in the form of a UUID.
pub open spec fn uuid(bytes: Seq<u8>) -> Seq<char> {
    hex_bytes(bytes.subrange(0, 4)) + "-"@ + hex_bytes(bytes.subrange(4, 6)) + "-"@ + hex_bytes(
        bytes.subrange(6, 8),
    ) + "-"@ + hex_bytes(bytes.subrange(8, 10)) + "-"@ + hex_bytes(bytes.subrange(10, 16))
}

/// Appends some of the bytes in hexadecimal digits.
fn push_hex(out: &mut String, bytes: &[u8; 16], from: usize, to: usize)
    requires
        from <= to <= 16,
    ensures
        final(out)@ == old(out)@ + hex_bytes(bytes@.subrange(from as int, to as int)),
{
    let mut i: usize = from;
    assert(bytes@.subrange(from as int, from as int) =~= Seq::empty());
    assert(old(out)@ + hex_bytes(Seq::empty()) =~= old(out)@);
    while i < to
        invariant
            from <= i <= to <= 16,
            out@ == old(out)@ + hex_bytes(bytes@.subrange(from as int, i as int)),
        decreases to - i,
    {
        push_hex_byte(out, bytes[i]);
        proof {
            let more = bytes@.subrange(from as int, i + 1);
            assert(more.drop_last() =~= bytes@.subrange(from as int, i as int));
            assert(out@ =~= old(out)@ + hex_bytes(more));
        }
        i += 1;
    }
}

/// Sixteen bytes in the form of a UUID.
pub fn uuid_text(bytes: &[u8; 16]) -> (r: String)
    ensures
        r@ == uuid(bytes@),
{
    let mut out = String::new();
    push_hex(&mut out, bytes, 0, 4);
    out.append("-");
    push_hex(&mut out, bytes, 4, 6);
    out.append("-");
    push_hex(&mut out, bytes, 6, 8);
    out.append("-");
    push_hex(&mut out, bytes, 8, 10);
    out.append("-");
    push_hex(&mut out, bytes, 10, 16);
    assert(out@ =~= uuid(bytes@));
    out
}

/// Returns a new in-memory address with a randomly generated UUID.
pub fn new_inmem_addr() -> (r: ServerAddress)
    ensures
        exists|bytes: Seq<u8>| bytes.len() == 16 && r@ == #[trigger] uuid(bytes),
{
    let bytes = random_bytes();
    uuid_text(&bytes)
}

/// What `String::from_utf8_lossy` makes of bytes.
pub uninterp spec fn utf8_lossy(bytes: Seq<u8>) -> Seq<char>;

/// `String::from_utf8_lossy`: the text that the bytes encode, if they are
/// valid UTF-8; what other bytes become is left to the name.
#[verifier::external_body]
fn lossy_text(buf: &[u8]) -> (r: String)
    ensures
        r@ == utf8_lossy(buf@),
        valid_utf8(buf@) ==> r@ == decode_utf8(buf@),
{
    String::from_utf8_lossy(buf).into_owned()
}

/// Encodes the address of a peer.
pub fn encode_peer(addr: &ServerAddress) -> (r: Vec<u8>)
    ensures
        r@ == encode_utf8(addr@),
{
    vstd::slice::slice_to_vec(addr.as_str().as_bytes())
}

/// Decodes the address of a peer: whatever address was encoded comes back.
pub fn decode_peer(buf: &[u8]) -> (r: ServerAddress)
    ensures
        r@ == utf8_lossy(buf@),
        forall|addr: Seq<char>| buf@ == #[trigger] encode_utf8(addr) ==> r@ == addr,
{
    let r = lossy_text(buf);
    assert forall|addr: Seq<char>| buf@ == #[trigger] encode_utf8(addr) implies r@ == addr by {
        encode_utf8_valid_utf8(addr);
        encode_utf8_decode_utf8(addr);
    }
    r
}

/// The pipelines of a transport: to which peer each leads, and by which
/// number it is found again.
pub open spec fn pipeline_views(pipelines: Seq<(ServerAddress, u64)>) -> Seq<(Seq<char>, u64)> {
    pipelines.map_values(|p: (ServerAddress, u64)| (p.0@, p.1))
}

/// The pipelines that lead to a peer.
pub open spec fn pipelines_to(
    pipelines: Seq<(Seq<char>, u64)>,
    peer: Seq<char>,
) -> Seq<u64>
    decreases pipelines.len(),
{
    if pipelines.len() == 0 {
        Seq::empty()
    } else {
        let front = pipelines_to(pipelines.drop_last(), peer);
        if pipelines.last().0 == peer {
            front.push(pipelines.last().1)
        } else {
            front
        }
    }
}

/// The pipelines that lead elsewhere.
pub open spec fn pipelines_elsewhere(
    pipelines: Seq<(Seq<char>, u64)>,
    peer: Seq<char>,
) -> Seq<(Seq<char>, u64)>
    decreases pipelines.len(),
{
    if pipelines.len() == 0 {
        Seq::empty()
    } else {
        let front = pipelines_elsewhere(pipelines.drop_last(), peer);
        if pipelines.last().0 == peer {
            front
        } else {
            front.push(pipelines.last())
        }
    }
}

/// Disconnecting from a peer leaves no pipeline to it, and every other
/// pipeline.
pub proof fn law_disconnect_leaves_no_pipeline(
    pipelines: Seq<(Seq<char>, u64)>,
    peer: Seq<char>,
)
    ensures
        pipelines_to(pipelines_elsewhere(pipelines, peer), peer).len() == 0,
        pipelines_to(pipelines, peer).len() + pipelines_elsewhere(pipelines, peer).len()
            == pipelines.len(),
        forall|other: Seq<char>|
            other != peer ==> #[trigger] pipelines_to(pipelines_elsewhere(pipelines, peer), other)
                == pipelines_to(pipelines, other),
    decreases pipelines.len(),
{
    if pipelines.len() > 0 {
        law_disconnect_leaves_no_pipeline(pipelines.drop_last(), peer);
        let front = pipelines_elsewhere(pipelines.drop_last(), peer);
        let all = pipelines_elsewhere(pipelines, peer);
        if pipelines.last().0 != peer {
            assert(all.drop_last() =~= front);
        }
        assert forall|other: Seq<char>| other != peer implies #[trigger] pipelines_to(all, other)
            == pipelines_to(pipelines, other) by {
            assert(pipelines_to(front, other) == pipelines_to(pipelines.drop_last(), other));
        }
    }
}

/// Routes between in-memory transports: where each peer is reached, and the
/// pipelines that were opened. `T` is what a peer is reached through.
pub struct InmemTransport<T> {
    local_addr: ServerAddress,
    peers: ByteMap<T>,
    pipelines: Vec<(ServerAddress, u64)>,
    timeout: Duration,
}

/// Initializes a new in-memory transport with the default timeout,
/// generating a random local address if none is given.
pub fn new_inmem_transport<T>(addr: ServerAddress) -> (r: (ServerAddress, InmemTransport<T>))
    ensures
        addr@.len() > 0 ==> r.0@ == addr@,
        addr@.len() == 0 ==> exists|bytes: Seq<u8>|
            bytes.len() == 16 && r.0@ == #[trigger] uuid(bytes),
        r.1.addr() == r.0@,
        r.1.routes() == Map::<Seq<u8>, T>::empty(),
        r.1.open_pipelines().len() == 0,
        r.1.patience() == DEFAULT_TIMEOUT_MILLIS * 1_000_000,
{
    new_inmem_transport_with_timeout(addr, Duration::from_millis(DEFAULT_TIMEOUT_MILLIS))
}

/// Initializes a new in-memory transport. The timeout decides how long to
/// wait for a connected peer to process the RPCs sent to it.
pub fn new_inmem_transport_with_timeout<T>(
    addr: ServerAddress,
    timeout: Duration,
) -> (r: (ServerAddress, InmemTransport<T>))
    ensures
        addr@.len() > 0 ==> r.0@ == addr@,
        addr@.len() == 0 ==> exists|bytes: Seq<u8>|
            bytes.len() == 16 && r.0@ == #[trigger] uuid(bytes),
        r.1.addr() == r.0@,
        r.1.routes() == Map::<Seq<u8>, T>::empty(),
        r.1.open_pipelines().len() == 0,
        r.1.patience() == timeout@,
{
    let addr = if addr.as_str().is_empty() {
        new_inmem_addr()
    } else {
        addr
    };
    let copy = addr.clone();
    (
        copy,
        InmemTransport { local_addr: addr, peers: ByteMap::new(), pipelines: Vec::new(), timeout },
    )
}

/// The complaint about a peer that is not connected.
pub open spec fn no_route(target: Seq<char>) -> Seq<char> {
    "failed to connect to peer: "@ + target
}

/// Whether a request may take longer than others.
pub open spec fn takes_long(command: RPCCommand) -> bool {
    command is InstallSnapshot || command is TimeoutNow
}

impl<T> InmemTransport<T> {
    /// The address of this node.
    pub closed spec fn addr(&self) -> Seq<char> {
        self.local_addr@
    }

    /// Where each peer is reached, by the encoding of its address.
    pub closed spec fn routes(&self) -> Map<Seq<u8>, T> {
        self.peers@
    }

    /// The pipelines that were opened.
    pub closed spec fn open_pipelines(&self) -> Seq<(Seq<char>, u64)> {
        pipeline_views(self.pipelines@)
    }

    /// How long to wait for a peer.
    pub closed spec fn patience(&self) -> nat {
        self.timeout@
    }

    /// Returns our local address to distinguish from our peers.
    pub fn local_addr(&self) -> (r: ServerAddress)
        ensures
            r@ == self.addr(),
    {
        self.local_addr.clone()
    }

    /// How long to wait for the answer to a request.
    pub fn timeout_for(&self, command: &RPCCommand) -> (r: Duration)
        requires
            LONG_RPC_FACTOR * self.patience() <= MAX_DURATION_NANOS,
        ensures
            r@ == if takes_long(*command) {
                LONG_RPC_FACTOR * self.patience()
            } else {
                self.patience() as int
            },
    {
        match command {
            RPCCommand::InstallSnapshot(_) => self.timeout.times(LONG_RPC_FACTOR),
            RPCCommand::TimeoutNow(_) => self.timeout.times(LONG_RPC_FACTOR),
            _ => self.timeout,
        }
    }

    /// Where a peer is reached.
    pub fn route(&self, target: &str) -> (r: Result<&T>)
        ensures
            self.routes().contains_key(encode_utf8(target@)) ==> (r matches Ok(peer) && *peer
                == self.routes()[encode_utf8(target@)]),
            !self.routes().contains_key(encode_utf8(target@)) ==> (r matches Err(
                RaftError::Other(text),
            ) && text@ == no_route(target@)),
    {
        match self.peers.get(target.as_bytes()) {
            Some(peer) => Ok(peer),
            None => Err(RaftError::Other(joined("failed to connect to peer: ", target))),
        }
    }

    /// Connects this transport to another transport for a given peer name,
    /// allowing local routing.
    pub fn connect(&mut self, peer: &str, trans: T)
        ensures
            final(self).routes() == old(self).routes().insert(encode_utf8(peer@), trans),
            final(self).open_pipelines() == old(self).open_pipelines(),
            final(self).addr() == old(self).addr(),
            final(self).patience() == old(self).patience(),
    {
        self.peers.insert(peer.as_bytes(), trans);
    }

    /// Notes down a pipeline that is opened to a peer, if the peer is
    /// connected.
    pub fn open_pipeline(&mut self, target: &str, ticket: u64) -> (r: Result<()>)
        ensures
            final(self).routes() == old(self).routes(),
            final(self).addr() == old(self).addr(),
            final(self).patience() == old(self).patience(),
            old(self).routes().contains_key(encode_utf8(target@)) ==> {
                &&& r is Ok
                &&& final(self).open_pipelines() == old(self).open_pipelines().push(
                    (target@, ticket),
                )
            },
            !old(self).routes().contains_key(encode_utf8(target@)) ==> {
                &&& r matches Err(RaftError::Other(text)) && text@ == no_route(target@)
                &&& final(self).open_pipelines() == old(self).open_pipelines()
            },
    {
        match self.route(target) {
            Ok(_) => {},
            Err(e) => {
                return Err(e);
            },
        }
        self.pipelines.push((target.to_owned(), ticket));
        assert(self.open_pipelines() =~= old(self).open_pipelines().push((target@, ticket)));
        Ok(())
    }

    /// Removes the ability to route to a given peer. Returns the pipelines
    /// to it, which are to be closed.
    pub fn disconnect(&mut self, peer: &str) -> (r: Vec<u64>)
        ensures
            final(self).routes() == old(self).routes().remove(encode_utf8(peer@)),
            r@ == pipelines_to(old(self).open_pipelines(), peer@),
            final(self).open_pipelines() == pipelines_elsewhere(old(self).open_pipelines(), peer@),
            final(self).addr() == old(self).addr(),
            final(self).patience() == old(self).patience(),
    {
        let _removed = self.peers.remove(peer.as_bytes());
        let mut all: Vec<(ServerAddress, u64)> = Vec::new();
        std::mem::swap(&mut all, &mut self.pipelines);
        let ghost views = pipeline_views(all@);
        let mut kept: Vec<(ServerAddress, u64)> = Vec::new();
        let mut closed: Vec<u64> = Vec::new();
        let mut i: usize = 0;
        assert(views.take(0) =~= Seq::empty());
        assert(pipeline_views(kept@) =~= Seq::empty());
        while i < all.len()
            invariant
                i <= all@.len(),
                views == pipeline_views(all@),
                closed@ == pipelines_to(views.take(i as int), peer@),
                pipeline_views(kept@) == pipelines_elsewhere(views.take(i as int), peer@),
            decreases all@.len() - i,
        {
            assert(views.take(i + 1).drop_last() =~= views.take(i as int));
            assert(views.take(i + 1).last() == views[i as int]);
            if same_text(all[i].0.as_str(), peer) {
                closed.push(all[i].1);
            } else {
                let ghost before = kept@;
                kept.push((all[i].0.clone(), all[i].1));
                assert(pipeline_views(kept@) =~= pipeline_views(before).push(views[i as int]));
            }
            i += 1;
        }
        assert(views.take(i as int) =~= views);
        self.pipelines = kept;
        closed
    }

    /// Removes all routes to peers, possibly to reconnect them later. Returns
    /// the pipelines, which are to be closed.
    pub fn disconnect_all(&mut self) -> (r: Vec<u64>)
        ensures
            final(self).routes() == Map::<Seq<u8>, T>::empty(),
            final(self).open_pipelines().len() == 0,
            r@.len() == old(self).open_pipelines().len(),
            forall|i: int|
                0 <= i < r@.len() ==> #[trigger] r@[i] == old(self).open_pipelines()[i].1,
            final(self).addr() == old(self).addr(),
            final(self).patience() == old(self).patience(),
    {
        self.peers = ByteMap::new();
        let mut all: Vec<(ServerAddress, u64)> = Vec::new();
        std::mem::swap(&mut all, &mut self.pipelines);
        let mut closed: Vec<u64> = Vec::new();
        let mut i: usize = 0;
        while i < all.len()
            invariant
                i <= all@.len(),
                closed@.len() == i,
                forall|k: int| 0 <= k < i ==> #[trigger] closed@[k] == all@[k].1,
            decreases all@.len() - i,
        {
            closed.push(all[i].1);
            i += 1;
        }
        closed
    }
}

/// What became of handing a request to a peer.
#[derive(Debug, Clone, Copy, PartialEq, Eq, Structural)]
pub enum SendOutcome {
    Sent,
    /// The peer no longer takes requests.
    Closed,
    TimedOut,
}

/// What came back for a request.
#[derive(Debug)]
pub enum ReplyOutcome {
    Answered(Result<RPCResponse>),
    /// The peer dropped the request unanswered.
    Dropped,
    TimedOut,
}

/// Whether a request was handed over.
pub fn request_sent(outcome: SendOutcome) -> (r: Result<()>)
    ensures
        match outcome {
            SendOutcome::Sent => r is Ok,
            SendOutcome::Closed => r matches Err(e) && e is TransportShutdown,
            SendOutcome::TimedOut => r matches Err(RaftError::Other(text)) && text@
                == "send timed out"@,
        },
{
    match outcome {
        SendOutcome::Sent => Ok(()),
        SendOutcome::Closed => Err(RaftError::TransportShutdown),
        SendOutcome::TimedOut => Err(RaftError::Other("send timed out".to_owned())),
    }
}

/// The answer to a request.
pub fn request_answer(outcome: ReplyOutcome) -> (r: Result<RPCResponse>)
    ensures
        match outcome {
            ReplyOutcome::Answered(answer) => r == answer,
            ReplyOutcome::Dropped => r matches Err(e) && e is TransportShutdown,
            ReplyOutcome::TimedOut => r matches Err(RaftError::Other(text)) && text@
                == "command timed out"@,
        },
{
    match outcome {
        ReplyOutcome::Answered(answer) => answer,
        ReplyOutcome::Dropped => Err(RaftError::TransportShutdown),
        ReplyOutcome::TimedOut => Err(RaftError::Other("command timed out".to_owned())),
    }
}

/// Whether a request was put into a pipeline, which may have been shut down
/// meanwhile.
pub fn pipeline_sent(shut_down: bool, outcome: SendOutcome) -> (r: Result<()>)
    ensures
        shut_down ==> (r matches Err(e) && e is PipelineShutdown),
        !shut_down ==> match outcome {
            SendOutcome::Sent => r is Ok,
            SendOutcome::Closed => r matches Err(e) && e is TransportShutdown,
            SendOutcome::TimedOut => r matches Err(RaftError::Other(text)) && text@
                == "command enqueue timeout"@,
        },
{
    if shut_down {
        return Err(RaftError::PipelineShutdown);
    }
    match outcome {
        SendOutcome::Sent => Ok(()),
        SendOutcome::Closed => Err(RaftError::TransportShutdown),
        SendOutcome::TimedOut => Err(RaftError::Other("command enqueue timeout".to_owned())),
    }
}

} // verus!
