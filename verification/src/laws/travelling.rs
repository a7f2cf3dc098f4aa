//! What is sent arrives as it was sent, and connections are kept as agreed.

use crate::append::AppendOutcome;
use crate::apply::Applying;
use crate::configuration::{Configuration, ServerSuffrage};
use crate::error::{says, RaftError, Result};
use crate::inmem_transport::InmemTransport;
use crate::laws::following::lemma_appending_keeps_progress;
use crate::log::{LogStore, LogType};
use crate::net_transport::{
    dial_address, frame_request, frame_response, law_request_round_trip, law_response_round_trip,
    lemma_frame_length, msgpack_text, names_all, pooled_along, read_response, request_bytes,
    response_bytes, take_request, take_response, write_response, NetworkTransport, RequestStep,
    RpcKind, SnapshotStream,
};
use crate::raft::{recorded_candidate, recorded_vote_term, Fatal, RaftCore};
use crate::rpc::{append_answered, RpcAnswer};
use crate::stable::StableStore;
use crate::state::RaftState;
use crate::time::{Duration, Instant};
use crate::transport::{
    check_rpc_header, AppendEntriesRequest, AppendEntriesResponse, RPCCommand, RPCHeader,
    RPCResponse, RequestPreVoteRequest, RequestPreVoteResponse, RequestVoteRequest,
    RequestVoteResponse, TimeoutNowRequest, TimeoutNowResponse,
};
use vstd::prelude::*;
use vstd::utf8::encode_utf8;

verus! {

/// A request that was put on the wire is taken off it with its type and its
/// body, and takes up exactly its own bytes.
pub proof fn law_requests_arrive(
    kind: RpcKind,
    body: &[u8],
    sent: Vec<u8>,
    wire: &[u8],
    r: Result<RequestStep>,
)
    requires
        call_ensures(frame_request, (kind, body), sent),
        body@.len() < 0x1_0000_0000,
        wire@.len() >= sent@.len(),
        wire@.take(sent@.len() as int) == sent@,
        call_ensures(take_request, (wire,), r),
    ensures
        r matches Ok(RequestStep::Request { kind: k, body: b, used }) && k == kind && b@ == body@
            && used == sent@.len(),
{
    let tag = choose|tag: u8|
        crate::net_transport::kind_of_tag(tag) == Some(kind) && sent@ == #[trigger] request_bytes(
            tag,
            body@,
        );
    let rest = wire@.skip(sent@.len() as int);
    assert(wire@ =~= sent@ + rest);
    law_request_round_trip(tag, body@, rest);
    lemma_frame_length(body@);
}

/// A response that was put on the wire is taken off it with its two parts, and
/// takes up exactly its own bytes.
pub proof fn law_responses_arrive(
    error: &[u8],
    body: &[u8],
    sent: Vec<u8>,
    wire: &[u8],
    r: Option<(Vec<u8>, Vec<u8>, usize)>,
)
    requires
        call_ensures(frame_response, (error, body), sent),
        error@.len() < 0x1_0000_0000,
        body@.len() < 0x1_0000_0000,
        wire@.len() >= sent@.len(),
        wire@.take(sent@.len() as int) == sent@,
        call_ensures(take_response, (wire,), r),
    ensures
        r matches Some(taken) && taken.0@ == error@ && taken.1@ == body@ && taken.2
            == sent@.len(),
{
    let rest = wire@.skip(sent@.len() as int);
    assert(wire@ =~= response_bytes(error@, body@) + rest);
    law_response_round_trip(error@, body@, rest);
    lemma_frame_length(error@);
    lemma_frame_length(body@);
}

/// A response is read as it was meant: a body that decodes, where no error
/// came with it; the error, where one did; and the complaint about a missing
/// body, where neither came.
pub proof fn law_responses_are_read_as_meant<T>(
    error: &[u8],
    body: &[u8],
    decoded: Result<T>,
    missing: &str,
    r: Result<T>,
    text: Seq<char>,
)
    requires
        call_ensures(read_response::<T>, (error, body, decoded, missing), r),
        encode_utf8(text).len() < 0x1_0000_0000,
        error@ == crate::net_transport::msgpack_text(text),
    ensures
        r is Ok ==> decoded is Ok && r == decoded && text.len() == 0 && body@.len() > 0,
        decoded is Ok && text.len() == 0 && body@.len() > 0 ==> r == decoded,
        text.len() > 0 && (body@.len() == 0 || decoded is Ok) ==> (r matches Err(
            RaftError::Other(t),
        ) && t@ == text),
        text.len() == 0 && body@.len() == 0 ==> (r matches Err(RaftError::Other(t)) && t@
            == missing@),
        body@.len() > 0 && decoded is Err ==> r == decoded,
{
}

/// A connection that is put into the pool of its target is the one that is
/// taken out next where the pool was empty; and no pool grows beyond its limit,
/// nor at all once the transport is closed.
pub proof fn law_pooled_connections_are_used_again<C, P>(
    t: &mut NetworkTransport<C, P>,
    conn: C,
    target: &str,
    back: Option<C>,
)
    requires
        call_ensures(NetworkTransport::<C, P>::return_to_pool, (t, conn, target), back),
    ensures
        ({
            let before = crate::net_transport::pooled(old(t).pool(), target@);
            let after = crate::net_transport::pooled(final(t).pool(), target@);
            &&& old(t).closed() ==> back == Some(conn) && after == before
            &&& before.len() >= old(t).pool_limit() ==> back == Some(conn) && after == before
            &&& !old(t).closed() && before.len() < old(t).pool_limit() ==> back is None
                && after.len() == before.len() + 1 && after.last() == conn && after.take(
                before.len() as int,
            ) == before
        }),
{
    let before = crate::net_transport::pooled(old(t).pool(), target@);
    assert(before.push(conn).take(before.len() as int) =~= before);
}

/// A connection is taken out of the pool once, the oldest first, and none is
/// made up.
pub proof fn law_pooled_connections_are_taken_once<C, P>(
    t: &mut NetworkTransport<C, P>,
    target: &str,
    conn: Option<C>,
)
    requires
        call_ensures(NetworkTransport::<C, P>::get_pooled, (t, target), conn),
    ensures
        ({
            let before = crate::net_transport::pooled(old(t).pool(), target@);
            let after = crate::net_transport::pooled(final(t).pool(), target@);
            &&& conn is None <==> before.len() == 0
            &&& conn is Some ==> before == seq![conn->Some_0] + after
            &&& conn is None ==> after.len() == 0
        }),
{
    let before = crate::net_transport::pooled(old(t).pool(), target@);
    if before.len() > 0 {
        assert(before =~= seq![before[0]] + before.drop_first());
    }
}

/// A peer is reached exactly while it is connected, where it was connected
/// last.
pub proof fn law_connected_peers_are_reached<T>(
    t: &mut InmemTransport<T>,
    peer: &str,
    trans: T,
    other: &str,
    r: Result<&T>,
    before: Result<&T>,
)
    requires
        call_ensures(InmemTransport::<T>::connect, (t, peer, trans), ()),
        call_ensures(InmemTransport::<T>::route, (&*final(t), other), r),
        call_ensures(InmemTransport::<T>::route, (&*old(t), other), before),
    ensures
        other@ == peer@ ==> (r matches Ok(found) && *found == trans),
        encode_utf8(other@) != encode_utf8(peer@) ==> (r is Ok <==> before is Ok) && (r is Ok
            ==> *r->Ok_0 == *before->Ok_0),
{
}

/// A peer that was disconnected is not reached any more.
pub proof fn law_disconnected_peers_are_not_reached<T>(
    t: &mut InmemTransport<T>,
    peer: &str,
    closed: Vec<u64>,
    r: Result<&T>,
)
    requires
        call_ensures(InmemTransport::<T>::disconnect, (t, peer), closed),
        call_ensures(InmemTransport::<T>::route, (&*final(t), peer), r),
    ensures
        r is Err,
{
}

/// Messages of the current protocol version and of the one before it are
/// taken, and no others.
pub proof fn law_known_versions_are_taken(header: &RPCHeader, r: Result<()>)
    requires
        call_ensures(check_rpc_header, (header,), r),
    ensures
        r is Ok <==> header.protocol_version == 3 || header.protocol_version == 2,
        r matches Err(e) ==> e is UnsupportedProtocol,
{
}

/// A message of another version changes nothing and is refused; one that is
/// taken is answered in kind.
pub proof fn law_unknown_versions_change_nothing<L: LogStore, S: StableStore>(
    core: &mut RaftCore,
    logs: &mut L,
    stable: &mut S,
    command: RPCCommand,
    decoded: &Vec<Option<Configuration>>,
    now: Instant,
    answer: RpcAnswer,
)
    requires
        call_ensures(
            RaftCore::process_rpc::<L, S>,
            (core, logs, stable, command, decoded, now),
            Ok::<RpcAnswer, Fatal>(answer),
        ),
    ensures
        ({
            let version = command.spec_header().protocol_version;
            let known = version == 3 || version == 2;
            &&& answer is Refused <==> !known
            &&& !known ==> final(core)@ == old(core)@ && *final(logs) == *old(logs)
                && *final(stable) == *old(stable)
            &&& known && command is InstallSnapshot ==> answer is Install
            &&& known && !(command is InstallSnapshot) ==> answer is Reply
            &&& answer matches RpcAnswer::Reply(resp, work) ==> {
                &&& command is AppendEntries <==> resp is AppendEntries
                &&& command is RequestVote <==> resp is RequestVote
                &&& command is RequestPreVote <==> resp is RequestPreVote
                &&& command is TimeoutNow <==> resp is TimeoutNow
            }
        }),
{
}

/// The snapshot behind a request is read to the end of what was announced, and
/// no further, in order; a stream that ends too soon is a failure.
pub proof fn law_snapshot_streams_are_read_to_the_end(
    s: &mut SnapshotStream,
    bytes: &[u8],
    r: Result<()>,
    wanted: usize,
)
    requires
        call_ensures(SnapshotStream::wanted, (&*old(s),), wanted),
        bytes@.len() <= wanted,
        old(s).read().len() <= old(s).total(),
        call_ensures(SnapshotStream::received, (s, bytes), r),
    ensures
        wanted == 0 <==> old(s).read().len() == old(s).total(),
        wanted <= old(s).total() - old(s).read().len(),
        r is Ok <==> bytes@.len() > 0,
        r is Ok ==> final(s).read() == old(s).read() + bytes@,
        r is Err ==> final(s).read() == old(s).read(),
        final(s).total() == old(s).total(),
{
}

/// A peer is dialled where the provider says, if there is one and it answers,
/// and at its own address otherwise.
pub proof fn law_peers_are_dialled_where_the_provider_says(
    answer: Option<Result<String>>,
    target: &str,
    r: String,
)
    requires
        call_ensures(dial_address, (answer, target), r),
    ensures
        answer matches Some(Ok(addr)) ==> r@ == addr@,
        !(answer matches Some(Ok(addr))) ==> r@ == target@,
{
}

/// An error that is answered reaches whoever asked, as its text; and so does a
/// body that decodes.
pub proof fn law_answers_survive_the_wire<T>(
    answer: Result<Vec<u8>>,
    sent: Vec<u8>,
    wire: &[u8],
    taken: (Vec<u8>, Vec<u8>, usize),
    error: &[u8],
    body: &[u8],
    decoded: Result<T>,
    missing: &str,
    r: Result<T>,
)
    requires
        call_ensures(write_response, (&answer,), Ok::<Vec<u8>, RaftError>(sent)),
        wire@ == sent@,
        sent@.len() < 0x1_0000_0000,
        call_ensures(take_response, (wire,), Some(taken)),
        error@ == taken.0@,
        body@ == taken.1@,
        call_ensures(read_response::<T>, (error, body, decoded, missing), r),
    ensures
        taken.2 == sent@.len(),
        answer matches Ok(bytes) ==> taken.1@ == bytes@ && (bytes@.len() > 0 ==> r == decoded),
        answer matches Err(e) ==> taken.1@.len() == 0 && exists|text: Seq<char>| #[trigger]
            says(e, text) && (text.len() > 0 ==> r is Err && r->Err_0 is Other
                && r->Err_0->Other_0@ == text),
{
    let (text, bytes) = match answer {
        Ok(bytes) => (Seq::<char>::empty(), bytes@),
        Err(e) => (
            choose|text: Seq<char>|
                says(e, text) && sent@ == response_bytes(
                    #[trigger] msgpack_text(text),
                    Seq::empty(),
                ),
            Seq::<u8>::empty(),
        ),
    };
    let encoded = msgpack_text(text);
    lemma_frame_length(encoded);
    lemma_frame_length(bytes);
    assert(wire@ =~= response_bytes(encoded, bytes) + Seq::<u8>::empty());
    law_response_round_trip(encoded, bytes, Seq::empty());
    assert(encode_utf8(text).len() <= encoded.len());
    if let Err(e) = answer {
        assert(says(e, text));
    }
}

/// Each kind of request has its own tag on the wire, and is known by it.
pub proof fn law_tags_name_the_kind(kind: RpcKind, tag: u8, back: Result<RpcKind>)
    requires
        call_ensures(RpcKind::tag, (&kind,), tag),
        call_ensures(RpcKind::from_tag, (tag,), back),
    ensures
        tag == match kind {
            RpcKind::AppendEntries => 0,
            RpcKind::RequestVote => 1,
            RpcKind::InstallSnapshot => 2,
            RpcKind::TimeoutNow => 3,
            RpcKind::RequestPreVote => 4u8,
        },
        back matches Ok(k) && k == kind,
{
}

/// A tag that names no kind is refused.
pub proof fn law_other_tags_are_refused(tag: u8, r: Result<RpcKind>)
    requires
        call_ensures(RpcKind::from_tag, (tag,), r),
    ensures
        r is Ok <==> tag <= 4,
{
}

/// A request is sent as what it is.
pub proof fn law_requests_are_sent_as_what_they_are(command: RPCCommand, kind: RpcKind)
    requires
        call_ensures(RpcKind::of, (&command,), kind),
    ensures
        kind is AppendEntries <==> command is AppendEntries,
        kind is RequestVote <==> command is RequestVote,
        kind is RequestPreVote <==> command is RequestPreVote,
        kind is InstallSnapshot <==> command is InstallSnapshot,
        kind is TimeoutNow <==> command is TimeoutNow,
{
}

/// Ten times as long is waited for what takes long.
pub proof fn law_long_requests_are_waited_for<T>(
    t: &InmemTransport<T>,
    command: &RPCCommand,
    r: Duration,
)
    requires
        call_ensures(InmemTransport::<T>::timeout_for, (t, command), r),
    ensures
        command is InstallSnapshot || command is TimeoutNow ==> r@ == 10 * t.patience(),
        !(command is InstallSnapshot || command is TimeoutNow) ==> r@ == t.patience(),
{
}

proof fn lemma_pooled_are_along<C>(pool: Map<Seq<u8>, Seq<C>>, keys: Seq<Seq<u8>>, k: int, i: int)
    requires
        0 <= k < keys.len(),
        0 <= i < pool[keys[k]].len(),
    ensures
        pooled_along(pool, keys).contains(pool[keys[k]][i]),
    decreases keys.len(),
{
    let front = keys.drop_last();
    let before = pooled_along(pool, front);
    if k == keys.len() - 1 {
        assert(pooled_along(pool, keys)[before.len() + i] == pool[keys[k]][i]);
    } else {
        assert(front[k] == keys[k]);
        lemma_pooled_are_along(pool, front, k, i);
        let p = choose|p: int| 0 <= p < before.len() && before[p] == pool[keys[k]][i];
        assert(pooled_along(pool, keys)[p] == pool[keys[k]][i]);
    }
}

/// A transport that closes gives up every connection that it pooled.
pub proof fn law_closing_gives_up_all_connections<C, P>(
    t: &mut NetworkTransport<C, P>,
    given_up: Vec<C>,
    peer: Seq<u8>,
    i: int,
)
    requires
        call_ensures(NetworkTransport::<C, P>::close, (t,), given_up),
        old(t).pool().contains_key(peer),
        0 <= i < old(t).pool()[peer].len(),
    ensures
        given_up@.contains(old(t).pool()[peer][i]),
        final(t).closed(),
        !final(t).pool().contains_key(peer),
{
    let pool = old(t).pool();
    let keys = choose|keys: Seq<Seq<u8>>| #[trigger]
        names_all(pool, keys) && given_up@ == pooled_along(pool, keys);
    assert(keys.contains(peer));
    let k = choose|k: int| 0 <= k < keys.len() && keys[k] == peer;
    lemma_pooled_are_along(pool, keys, k, i);
}

/// Entries and roles have the codes by which others know them.
pub proof fn law_codes_are_agreed(t: LogType, s: RaftState, type_code: u8, state_code: u8)
    requires
        call_ensures(LogType::code, (&t,), type_code),
        call_ensures(RaftState::code, (&s,), state_code),
    ensures
        type_code == match t {
            LogType::Command => 0u8,
            LogType::Noop => 1u8,
            LogType::Barrier => 3u8,
            LogType::Configuration => 4u8,
        },
        state_code == match s {
            RaftState::Follower => 0u8,
            RaftState::Candidate => 1u8,
            RaftState::Leader => 2u8,
            RaftState::Shutdown => 3u8,
        },
{
}

/// A node signs what it sends with its own name, address and version.
pub proof fn law_headers_name_the_sender(core: &RaftCore, header: RPCHeader)
    requires
        call_ensures(RaftCore::rpc_header, (core,), header),
    ensures
        header.id@ == core@.local_id,
        header.addr@ == core@.local_addr,
        header.protocol_version == 3,
{
}

/// An append request that arrives is met as any is: an older term is refused
/// and changes nothing; otherwise its sender is followed, and what it committed
/// is committed as far as the log goes.
pub proof fn law_arriving_appends_are_followed<L: LogStore, S: StableStore>(
    core: &mut RaftCore,
    logs: &mut L,
    stable: &mut S,
    req: AppendEntriesRequest,
    decoded: &Vec<Option<Configuration>>,
    now: Instant,
    resp: AppendEntriesResponse,
    work: Applying,
)
    requires
        call_ensures(
            RaftCore::process_rpc::<L, S>,
            (core, logs, stable, RPCCommand::AppendEntries(req), decoded, now),
            Ok::<RpcAnswer, Fatal>(RpcAnswer::Reply(RPCResponse::AppendEntries(resp), work)),
        ),
    ensures
        ({
            let before = old(core)@;
            let after = final(core)@;
            let end = if after.shared.last_log.0 >= after.shared.last_snapshot.0 {
                after.shared.last_log.0
            } else {
                after.shared.last_snapshot.0
            };
            let commit = req.leader_commit_index;
            let advances = resp.success && commit > before.shared.commit_index;
            &&& req.term < before.shared.current_term ==> after == before && !resp.success
            &&& req.term >= before.shared.current_term ==> {
                &&& after.shared.current_term == req.term
                &&& after.leader_addr == req.header.addr@
                &&& after.leader_id == req.header.id@
                &&& req.term > before.shared.current_term || !before.from_transfer
                    ==> after.shared.state == RaftState::Follower
            }
            &&& resp.term == after.shared.current_term
            &&& resp.success ==> after.shared.last_contact == Some(now)
            &&& advances && commit <= end ==> after.shared.commit_index == commit
            &&& advances && commit > end ==> after.shared.commit_index == end
            &&& !advances ==> after.shared.commit_index == before.shared.commit_index
        }),
{
    let outcome = choose|outcome: AppendOutcome| #[trigger]
        append_answered(
            old(core)@,
            *old(logs),
            *old(stable),
            req,
            decoded@,
            now,
            outcome,
            final(core)@,
            *final(logs),
            *final(stable),
            resp,
            work,
        );
    lemma_appending_keeps_progress(old(core)@, old(logs).entries(), req, decoded, outcome);
}

/// A vote that is asked for by a message is given for the same reasons as any.
pub proof fn law_arriving_vote_requests_are_weighed<L: LogStore, S: StableStore>(
    core: &mut RaftCore,
    logs: &mut L,
    stable: &mut S,
    req: RequestVoteRequest,
    decoded: &Vec<Option<Configuration>>,
    now: Instant,
    resp: RequestVoteResponse,
    work: Applying,
)
    requires
        call_ensures(
            RaftCore::process_rpc::<L, S>,
            (core, logs, stable, RPCCommand::RequestVote(req), decoded, now),
            Ok::<RpcAnswer, Fatal>(RpcAnswer::Reply(RPCResponse::RequestVote(resp), work)),
        ),
    ensures
        *final(logs) == *old(logs),
        final(core)@.shared.current_term >= old(core)@.shared.current_term,
        resp.granted ==> {
            let n = old(core)@.shared;
            let last = if n.last_log.0 >= n.last_snapshot.0 {
                n.last_log
            } else {
                n.last_snapshot
            };
            let fresh = !(recorded_vote_term(old(stable)) == req.term && recorded_candidate(
                old(stable),
            ) is Some);
            &&& req.term >= n.current_term
            &&& final(core)@.shared.current_term == req.term
            &&& recorded_vote_term(final(stable)) == req.term
            &&& recorded_candidate(final(stable)) == Some(encode_utf8(req.header.addr@))
            &&& !fresh ==> recorded_candidate(old(stable)) == Some(encode_utf8(req.header.addr@))
            &&& fresh ==> req.last_log_term > last.1 || (req.last_log_term == last.1
                && req.last_log_index >= last.0)
        },
{
}

/// A pre-vote that is asked for by a message changes nothing, and is granted
/// only where the vote itself could be.
pub proof fn law_arriving_pre_votes_change_nothing<L: LogStore, S: StableStore>(
    core: &mut RaftCore,
    logs: &mut L,
    stable: &mut S,
    req: RequestPreVoteRequest,
    decoded: &Vec<Option<Configuration>>,
    now: Instant,
    resp: RequestPreVoteResponse,
    work: Applying,
)
    requires
        call_ensures(
            RaftCore::process_rpc::<L, S>,
            (core, logs, stable, RPCCommand::RequestPreVote(req), decoded, now),
            Ok::<RpcAnswer, Fatal>(RpcAnswer::Reply(RPCResponse::RequestPreVote(resp), work)),
        ),
    ensures
        final(core)@ == old(core)@,
        *final(logs) == *old(logs),
        *final(stable) == *old(stable),
        ({
            let n = old(core)@;
            let last = if n.shared.last_log.0 >= n.shared.last_snapshot.0 {
                n.shared.last_log
            } else {
                n.shared.last_snapshot
            };
            let servers = n.configurations.latest;
            let voter = exists|i: int|
                0 <= i < servers.len() && (#[trigger] servers[i]).id == req.header.id@
                    && servers[i].suffrage == ServerSuffrage::Voter;
            resp.granted <==> (servers.len() == 0 || voter) && (n.leader_addr.len() == 0
                || n.leader_addr == req.header.addr@) && req.term >= n.shared.current_term && (
            req.last_log_term > last.1 || (req.last_log_term == last.1 && req.last_log_index
                >= last.0))
        }),
{
}

/// A node that is told to stand by a message stands, with the leave to do so.
pub proof fn law_arriving_calls_to_stand_are_heeded<L: LogStore, S: StableStore>(
    core: &mut RaftCore,
    logs: &mut L,
    stable: &mut S,
    req: TimeoutNowRequest,
    decoded: &Vec<Option<Configuration>>,
    now: Instant,
    resp: TimeoutNowResponse,
    work: Applying,
)
    requires
        call_ensures(
            RaftCore::process_rpc::<L, S>,
            (core, logs, stable, RPCCommand::TimeoutNow(req), decoded, now),
            Ok::<RpcAnswer, Fatal>(RpcAnswer::Reply(RPCResponse::TimeoutNow(resp), work)),
        ),
    ensures
        final(core)@.shared.state == RaftState::Candidate,
        final(core)@.from_transfer,
        final(core)@.leader_addr.len() == 0,
        final(core)@.shared.current_term == old(core)@.shared.current_term,
        final(core)@.configurations == old(core)@.configurations,
{
}

} // verus!
