//! The errors of the library and their texts.

use crate::text::joined;
use vstd::prelude::*;

verus! {

/// An error of the operating system, carried through unread.
#[verifier::external_type_specification]
#[verifier::external_body]
pub struct ExIoError(std::io::Error);

/// Errors returned by the raft library.
#[derive(Debug)]
pub enum RaftError {
    NotLeader,
    Leader,
    NotVoter,
    LeadershipLost,
    AbortedByRestore,
    RaftShutdown,
    EnqueueTimeout,
    NothingNewToSnapshot,
    UnsupportedProtocol,
    CantBootstrap,
    LeadershipTransferInProgress,
    LogNotFound,
    PipelineReplicationNotSupported,
    IncompatibleLogStore,
    PipelineShutdown,
    TransportShutdown,
    TransportConnect { address: String, source: std::io::Error },
    Timeout,
    Configuration(String),
    Io(std::io::Error),
    Encode(String),
    Decode(String),
    Snapshot(String),
    Other(String),
}

pub type Result<T> = std::result::Result<T, RaftError>;

/// Suggested maximum size of a log entry's data.
pub const SUGGESTED_MAX_DATA_SIZE: usize = 512 * 1024;

/// `ToString::to_string` of `std::io::Error`: the text that the operating
/// system or the error's maker gives. Nothing is claimed of the text.
#[verifier::external_body]
fn io_error_text(e: &std::io::Error) -> (r: String) {
    e.to_string()
}

/// The text of an error that carries no value of the operating system.
pub open spec fn error_text(e: RaftError) -> Option<Seq<char>> {
    match e {
        RaftError::NotLeader => Some("node is not the leader"@),
        RaftError::Leader => Some("node is the leader"@),
        RaftError::NotVoter => Some("node is not a voter"@),
        RaftError::LeadershipLost => Some("leadership lost while committing log"@),
        RaftError::AbortedByRestore => Some("log restored, local lease lost"@),
        RaftError::RaftShutdown => Some("raft is already shutdown"@),
        RaftError::EnqueueTimeout => Some("failed to enqueue operation, timeout"@),
        RaftError::NothingNewToSnapshot => Some("nothing new to snapshot"@),
        RaftError::UnsupportedProtocol => Some(
            "operation not supported with current protocol version"@,
        ),
        RaftError::CantBootstrap => Some("cluster cannot be bootstrapped if already started"@),
        RaftError::LeadershipTransferInProgress => Some("leadership transfer in progress"@),
        RaftError::LogNotFound => Some("log not found"@),
        RaftError::PipelineReplicationNotSupported => Some(
            "transport does not support pipelined replication"@,
        ),
        RaftError::IncompatibleLogStore => Some(
            "incompatible log store for committed log restore"@,
        ),
        RaftError::PipelineShutdown => Some("pipeline is closed"@),
        RaftError::TransportShutdown => Some("transport is closed"@),
        RaftError::TransportConnect { address, source } => None,
        RaftError::Timeout => Some("timed out waiting for response"@),
        RaftError::Configuration(m) => Some("configuration error: "@ + m@),
        RaftError::Io(source) => None,
        RaftError::Encode(m) => Some("encoding error: "@ + m@),
        RaftError::Decode(m) => Some("decoding error: "@ + m@),
        RaftError::Snapshot(m) => Some("snapshot error: "@ + m@),
        RaftError::Other(m) => Some(m@),
    }
}

/// Whether this is the text of an error. The part that stems from the
/// operating system stands at the end of the text and is not determined here.
pub open spec fn says(e: RaftError, text: Seq<char>) -> bool {
    match e {
        RaftError::TransportConnect { address, source } => ("failed to connect to "@ + address@
            + ": "@).is_prefix_of(text),
        RaftError::Io(source) => "io error: "@.is_prefix_of(text),
        _ => error_text(e) == Some(text),
    }
}

/// Whether a text names a step and then says why it failed.
pub open spec fn step_text(step: Seq<char>, cause: RaftError, text: Seq<char>) -> bool {
    step.is_prefix_of(text) && says(cause, text.skip(step.len() as int))
}

impl RaftError {
    /// The error as text.
    pub fn message(&self) -> (r: String)
        ensures
            says(*self, r@),
    {
        match self {
            RaftError::NotLeader => "node is not the leader".to_owned(),
            RaftError::Leader => "node is the leader".to_owned(),
            RaftError::NotVoter => "node is not a voter".to_owned(),
            RaftError::LeadershipLost => "leadership lost while committing log".to_owned(),
            RaftError::AbortedByRestore => "log restored, local lease lost".to_owned(),
            RaftError::RaftShutdown => "raft is already shutdown".to_owned(),
            RaftError::EnqueueTimeout => "failed to enqueue operation, timeout".to_owned(),
            RaftError::NothingNewToSnapshot => "nothing new to snapshot".to_owned(),
            RaftError::UnsupportedProtocol => "operation not supported with current protocol version".to_owned(),
            RaftError::CantBootstrap => "cluster cannot be bootstrapped if already started".to_owned(),
            RaftError::LeadershipTransferInProgress => "leadership transfer in progress".to_owned(),
            RaftError::LogNotFound => "log not found".to_owned(),
            RaftError::PipelineReplicationNotSupported => "transport does not support pipelined replication".to_owned(),
            RaftError::IncompatibleLogStore => "incompatible log store for committed log restore".to_owned(),
            RaftError::PipelineShutdown => "pipeline is closed".to_owned(),
            RaftError::TransportShutdown => "transport is closed".to_owned(),
            RaftError::TransportConnect { address, source } => {
                let mut out = joined("failed to connect to ", address.as_str());
                out.append(": ");
                let ghost head = out@;
                out.append(io_error_text(source).as_str());
                assert(head.is_prefix_of(out@));
                out
            },
            RaftError::Timeout => "timed out waiting for response".to_owned(),
            RaftError::Configuration(m) => joined("configuration error: ", m.as_str()),
            RaftError::Io(source) => {
                let out = joined("io error: ", io_error_text(source).as_str());
                assert("io error: "@.is_prefix_of(out@));
                out
            },
            RaftError::Encode(m) => joined("encoding error: ", m.as_str()),
            RaftError::Decode(m) => joined("decoding error: ", m.as_str()),
            RaftError::Snapshot(m) => joined("snapshot error: ", m.as_str()),
            RaftError::Other(m) => m.clone(),
        }
    }
}

/// A step and why it failed, as text.
pub fn step_and_cause(step: &str, cause: &RaftError) -> (r: String)
    ensures
        step_text(step@, *cause, r@),
{
    let why = cause.message();
    let text = joined(step, why.as_str());
    assert(text@.subrange(0, step@.len() as int) =~= step@);
    assert(text@.skip(step@.len() as int) =~= why@);
    text
}

/// An operating system error as an error of the library.
pub fn io_to_raft(e: std::io::Error) -> (r: RaftError)
    ensures
        r == RaftError::Io(e),
{
    RaftError::Io(e)
}

} // verus!
