//! The messages that peers exchange.

use crate::config::PROTOCOL_VERSION_MAX;
use crate::configuration::{ServerAddress, ServerID};
use crate::error::{RaftError, Result};
use crate::log::Log;
use vstd::prelude::*;

verus! {

/// Common sub-structure passed along with every RPC, carrying the protocol
/// version and identity of the sender.
#[derive(Debug)]
pub struct RPCHeader {
    /// Version of the protocol the sender is speaking.
    pub protocol_version: u8,
    /// ID of the node sending the RPC request or response.
    pub id: ServerID,
    /// Address of the node sending the RPC request or response.
    pub addr: ServerAddress,
}

/// What an [`RPCHeader`] says.
#[verifier::ext_equal]
pub struct HeaderView {
    pub protocol_version: u8,
    pub id: Seq<char>,
    pub addr: Seq<char>,
}

impl View for RPCHeader {
    type V = HeaderView;

    open spec fn view(&self) -> HeaderView {
        HeaderView { protocol_version: self.protocol_version, id: self.id@, addr: self.addr@ }
    }
}

impl Clone for RPCHeader {
    fn clone(&self) -> (r: Self)
        ensures
            r@ == self@,
    {
        RPCHeader {
            protocol_version: self.protocol_version,
            id: self.id.clone(),
            addr: self.addr.clone(),
        }
    }
}

impl Default for RPCHeader {
    fn default() -> (r: Self)
        ensures
            r@ == (HeaderView { protocol_version: 0, id: Seq::empty(), addr: Seq::empty() }),
    {
        RPCHeader { protocol_version: 0, id: String::new(), addr: String::new() }
    }
}

/// Whether a message of this protocol version is processed: the implemented
/// version and the one before it.
pub open spec fn version_accepted(version: u8) -> bool {
    PROTOCOL_VERSION_MAX - 1 <= version <= PROTOCOL_VERSION_MAX
}

/// Whether this library can process a message with the given header.
pub fn check_rpc_header(header: &RPCHeader) -> (r: Result<()>)
    ensures
        r is Ok <==> version_accepted(header.protocol_version),
        r matches Err(e) ==> e is UnsupportedProtocol,
{
    if header.protocol_version > PROTOCOL_VERSION_MAX || header.protocol_version
        < PROTOCOL_VERSION_MAX - 1 {
        return Err(RaftError::UnsupportedProtocol);
    }
    Ok(())
}

/// Command used to append entries to the replicated log.
#[derive(Debug)]
pub struct AppendEntriesRequest {
    pub header: RPCHeader,
    /// Current term of the leader.
    pub term: u64,
    /// Previous log entry index/term, for integrity checking.
    pub prev_log_entry: u64,
    pub prev_log_term: u64,
    /// New entries to commit; empty for a heartbeat.
    pub entries: Vec<Log>,
    /// Commit index on the leader.
    pub leader_commit_index: u64,
}

/// Response to an [`AppendEntriesRequest`].
#[derive(Debug)]
pub struct AppendEntriesResponse {
    pub header: RPCHeader,
    /// Newer term if the leader is out of date.
    pub term: u64,
    /// Hint of the follower's last log index, to accelerate rebuilding slow
    /// nodes.
    pub last_log: u64,
    /// False if a conflicting entry prevented the append.
    pub success: bool,
    /// True when the request did not succeed but there is no need to
    /// wait/back-off before the next attempt.
    pub no_retry_backoff: bool,
}

/// What an [`AppendEntriesResponse`] says.
#[verifier::ext_equal]
pub struct AppendResponseView {
    pub header: HeaderView,
    pub term: u64,
    pub last_log: u64,
    pub success: bool,
    pub no_retry_backoff: bool,
}

impl View for AppendEntriesResponse {
    type V = AppendResponseView;

    open spec fn view(&self) -> AppendResponseView {
        AppendResponseView {
            header: self.header@,
            term: self.term,
            last_log: self.last_log,
            success: self.success,
            no_retry_backoff: self.no_retry_backoff,
        }
    }
}

/// Command used by a candidate to ask a peer for a vote.
#[derive(Debug)]
pub struct RequestVoteRequest {
    pub header: RPCHeader,
    /// Term of the candidate.
    pub term: u64,
    /// Used to ensure safety: the candidate's last log index/term.
    pub last_log_index: u64,
    pub last_log_term: u64,
    /// Indicates the vote was triggered by a leadership transfer, so peers
    /// aware of an existing leader may still grant it.
    pub leadership_transfer: bool,
}

/// What a [`RequestVoteRequest`] says.
#[verifier::ext_equal]
pub struct VoteRequestView {
    pub header: HeaderView,
    pub term: u64,
    pub last_log_index: u64,
    pub last_log_term: u64,
    pub leadership_transfer: bool,
}

impl View for RequestVoteRequest {
    type V = VoteRequestView;

    open spec fn view(&self) -> VoteRequestView {
        VoteRequestView {
            header: self.header@,
            term: self.term,
            last_log_index: self.last_log_index,
            last_log_term: self.last_log_term,
            leadership_transfer: self.leadership_transfer,
        }
    }
}

impl Clone for RequestVoteRequest {
    fn clone(&self) -> (r: Self)
        ensures
            r@ == self@,
    {
        RequestVoteRequest {
            header: self.header.clone(),
            term: self.term,
            last_log_index: self.last_log_index,
            last_log_term: self.last_log_term,
            leadership_transfer: self.leadership_transfer,
        }
    }
}

/// Response to a [`RequestVoteRequest`].
#[derive(Debug)]
pub struct RequestVoteResponse {
    pub header: RPCHeader,
    /// Newer term if the candidate is out of date.
    pub term: u64,
    /// Whether the vote is granted.
    pub granted: bool,
}

/// Command used by a candidate to ask a peer for a pre-vote.
#[derive(Debug)]
pub struct RequestPreVoteRequest {
    pub header: RPCHeader,
    /// Term the candidate would use if elected.
    pub term: u64,
    /// Used to ensure safety: the candidate's last log index/term.
    pub last_log_index: u64,
    pub last_log_term: u64,
}

/// What a [`RequestPreVoteRequest`] says.
#[verifier::ext_equal]
pub struct PreVoteRequestView {
    pub header: HeaderView,
    pub term: u64,
    pub last_log_index: u64,
    pub last_log_term: u64,
}

impl View for RequestPreVoteRequest {
    type V = PreVoteRequestView;

    open spec fn view(&self) -> PreVoteRequestView {
        PreVoteRequestView {
            header: self.header@,
            term: self.term,
            last_log_index: self.last_log_index,
            last_log_term: self.last_log_term,
        }
    }
}

/// Response to a [`RequestPreVoteRequest`].
#[derive(Debug)]
pub struct RequestPreVoteResponse {
    pub header: RPCHeader,
    /// Newer term if the candidate is out of date.
    pub term: u64,
    /// Whether the pre-vote is granted.
    pub granted: bool,
}

/// Command sent to a peer to bootstrap its log (and state machine) from a
/// snapshot on another peer.
#[derive(Debug)]
pub struct InstallSnapshotRequest {
    pub header: RPCHeader,
    /// Version of the snapshot format; only version 1 is supported.
    pub snapshot_version: u8,
    /// Current term of the leader.
    pub term: u64,
    /// Last index/term included in the snapshot.
    pub last_log_index: u64,
    pub last_log_term: u64,
    /// Encoded cluster membership in the snapshot.
    pub configuration: Vec<u8>,
    /// Log index where `configuration` was originally written.
    pub configuration_index: u64,
    /// Size of the snapshot data that follows on the reader.
    pub size: u64,
}

/// Response to an [`InstallSnapshotRequest`].
#[derive(Debug)]
pub struct InstallSnapshotResponse {
    pub header: RPCHeader,
    /// Newer term if the leader is out of date.
    pub term: u64,
    /// Whether the snapshot was installed.
    pub success: bool,
}

/// Command used by a leader to signal another server to start an election.
#[derive(Debug)]
pub struct TimeoutNowRequest {
    pub header: RPCHeader,
}

/// Response to a [`TimeoutNowRequest`].
#[derive(Debug)]
pub struct TimeoutNowResponse {
    pub header: RPCHeader,
}

/// The command of an incoming RPC.
#[derive(Debug)]
pub enum RPCCommand {
    AppendEntries(AppendEntriesRequest),
    RequestVote(RequestVoteRequest),
    RequestPreVote(RequestPreVoteRequest),
    InstallSnapshot(InstallSnapshotRequest),
    TimeoutNow(TimeoutNowRequest),
}

impl RPCCommand {
    /// The header of the request, whichever it is.
    pub open spec fn spec_header(&self) -> RPCHeader {
        match self {
            RPCCommand::AppendEntries(r) => r.header,
            RPCCommand::RequestVote(r) => r.header,
            RPCCommand::RequestPreVote(r) => r.header,
            RPCCommand::InstallSnapshot(r) => r.header,
            RPCCommand::TimeoutNow(r) => r.header,
        }
    }

    /// The RPC header of the underlying request.
    pub fn header(&self) -> (r: &RPCHeader)
        ensures
            *r == self.spec_header(),
    {
        match self {
            RPCCommand::AppendEntries(r) => &r.header,
            RPCCommand::RequestVote(r) => &r.header,
            RPCCommand::RequestPreVote(r) => &r.header,
            RPCCommand::InstallSnapshot(r) => &r.header,
            RPCCommand::TimeoutNow(r) => &r.header,
        }
    }
}

/// The response to an incoming RPC, matching the command variant.
#[derive(Debug)]
pub enum RPCResponse {
    AppendEntries(AppendEntriesResponse),
    RequestVote(RequestVoteResponse),
    RequestPreVote(RequestPreVoteResponse),
    InstallSnapshot(InstallSnapshotResponse),
    TimeoutNow(TimeoutNowResponse),
}

/// Whether an error says that a response has the wrong type.
pub open spec fn unexpected_response(e: RaftError) -> bool {
    e matches RaftError::Other(text) && text@ == "unexpected response type"@
}

impl RPCResponse {
    /// The response to a request of this type.
    pub fn into_append_entries(self) -> (r: Result<AppendEntriesResponse>)
        ensures
            match self {
                RPCResponse::AppendEntries(resp) => r matches Ok(given) && given == resp,
                _ => r matches Err(e) && unexpected_response(e),
            },
    {
        match self {
            RPCResponse::AppendEntries(resp) => Ok(resp),
            _ => Err(RaftError::Other("unexpected response type".to_owned())),
        }
    }

    /// The response to a request of this type.
    pub fn into_request_vote(self) -> (r: Result<RequestVoteResponse>)
        ensures
            match self {
                RPCResponse::RequestVote(resp) => r matches Ok(given) && given == resp,
                _ => r matches Err(e) && unexpected_response(e),
            },
    {
        match self {
            RPCResponse::RequestVote(resp) => Ok(resp),
            _ => Err(RaftError::Other("unexpected response type".to_owned())),
        }
    }

    /// The response to a request of this type.
    pub fn into_request_pre_vote(self) -> (r: Result<RequestPreVoteResponse>)
        ensures
            match self {
                RPCResponse::RequestPreVote(resp) => r matches Ok(given) && given == resp,
                _ => r matches Err(e) && unexpected_response(e),
            },
    {
        match self {
            RPCResponse::RequestPreVote(resp) => Ok(resp),
            _ => Err(RaftError::Other("unexpected response type".to_owned())),
        }
    }

    /// The response to a request of this type.
    pub fn into_install_snapshot(self) -> (r: Result<InstallSnapshotResponse>)
        ensures
            match self {
                RPCResponse::InstallSnapshot(resp) => r matches Ok(given) && given == resp,
                _ => r matches Err(e) && unexpected_response(e),
            },
    {
        match self {
            RPCResponse::InstallSnapshot(resp) => Ok(resp),
            _ => Err(RaftError::Other("unexpected response type".to_owned())),
        }
    }

    /// The response to a request of this type.
    pub fn into_timeout_now(self) -> (r: Result<TimeoutNowResponse>)
        ensures
            match self {
                RPCResponse::TimeoutNow(resp) => r matches Ok(given) && given == resp,
                _ => r matches Err(e) && unexpected_response(e),
            },
    {
        match self {
            RPCResponse::TimeoutNow(resp) => Ok(resp),
            _ => Err(RaftError::Other("unexpected response type".to_owned())),
        }
    }
}

/// Whether a response answers the command.
pub open spec fn answers(command: RPCCommand, response: RPCResponse) -> bool {
    match command {
        RPCCommand::AppendEntries(_) => response is AppendEntries,
        RPCCommand::RequestVote(_) => response is RequestVote,
        RPCCommand::RequestPreVote(_) => response is RequestPreVote,
        RPCCommand::InstallSnapshot(_) => response is InstallSnapshot,
        RPCCommand::TimeoutNow(_) => response is TimeoutNow,
    }
}

/// Whether a command is shaped like a heartbeat: an AppendEntries with no
/// entries, no commit index and no previous entry.
pub open spec fn heartbeat_shaped(command: RPCCommand) -> bool {
    command matches RPCCommand::AppendEntries(a) && {
        &&& a.prev_log_entry == 0
        &&& a.prev_log_term == 0
        &&& a.entries@.len() == 0
        &&& a.leader_commit_index == 0
    }
}

impl RPCCommand {
    /// Whether the command may take the heartbeat fast path.
    pub fn is_heartbeat(&self) -> (r: bool)
        ensures
            r == heartbeat_shaped(*self),
    {
        match self {
            RPCCommand::AppendEntries(a) => a.prev_log_entry == 0 && a.prev_log_term == 0
                && a.entries.len() == 0 && a.leader_commit_index == 0,
            _ => false,
        }
    }
}

} // verus!
