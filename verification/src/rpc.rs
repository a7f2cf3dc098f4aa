//! Incoming requests: which handler gets them, and what is answered.

use crate::append::{
    append_answer, append_effect, append_fails, append_recorded, append_work, decoded_views,
    refused_by_store, AppendOutcome,
};
use crate::apply::Applying;
use crate::configuration::Configuration;
use crate::error::RaftError;
use crate::log::LogStore;
use crate::raft::{
    own_header, recorded_candidate, recorded_vote_term, with_state, without_leader, Fatal,
    NodeView, RaftCore,
};
use crate::stable::StableStore;
use crate::state::RaftState;
use crate::time::Instant;
use crate::transport::{
    answers, check_rpc_header, version_accepted, AppendEntriesRequest, AppendEntriesResponse,
    InstallSnapshotRequest, RPCCommand, RPCResponse, RequestVoteRequest, RequestVoteResponse,
};
use crate::vote::{
    grants, pre_vote_answer_term, pre_vote_granted, vote_answer_term, vote_effect, vote_fails,
    vote_recorded, VoteOutcome,
};
use vstd::prelude::*;

verus! {

/// What an incoming request comes to.
#[derive(Debug)]
pub enum RpcAnswer {
    /// The request is refused.
    Refused(RaftError),
    /// The request is answered, and there is work for the state machine.
    Reply(RPCResponse, Applying),
    /// A snapshot is to be installed.
    Install(InstallSnapshotRequest),
}

/// Whether an append request was answered as an outcome asks for.
pub open spec fn append_answered<L: LogStore, S: StableStore>(
    n: NodeView,
    logs: L,
    stable: S,
    req: AppendEntriesRequest,
    decoded: Seq<Option<Configuration>>,
    now: Instant,
    outcome: AppendOutcome,
    after: NodeView,
    logs_now: L,
    stable_now: S,
    resp: AppendEntriesResponse,
    work: Applying,
) -> bool {
    let given = decoded_views(decoded);
    let stored = logs.entries();
    let stored_now = logs_now.entries();
    &&& outcome is StaleTerm <==> req.term < n.shared.current_term
    &&& append_effect(n, stored, req, given, now, outcome, after, logs.settled(), stored_now)
    &&& resp@ == append_answer(n, req, outcome)
    &&& append_work(n, stored, req, given, outcome, stored_now, work)
    &&& refused_by_store(logs, n.shared.last_log.0, req, outcome)
    &&& append_recorded(n, req, stable, stable_now)
}

/// Whether a vote request was answered as an outcome asks for.
pub open spec fn vote_answered<S: StableStore>(
    n: NodeView,
    stable: S,
    req: RequestVoteRequest,
    now: Instant,
    outcome: VoteOutcome,
    after: NodeView,
    stable_now: S,
    resp: RequestVoteResponse,
) -> bool {
    &&& vote_effect(
        n,
        recorded_vote_term(&stable),
        recorded_candidate(&stable),
        req@,
        now,
        outcome,
        after,
        recorded_vote_term(&stable_now),
        recorded_candidate(&stable_now),
    )
    &&& resp.header@ == own_header(n)
    &&& resp.term == vote_answer_term(n, req@, outcome)
    &&& resp.granted == grants(outcome)
    &&& vote_recorded(n, req@, outcome, after, stable, stable_now)
}

impl RaftCore {
    /// Handles an incoming request. For an AppendEntries request, `decoded`
    /// holds for each entry the configuration that its data decodes to.
    pub fn process_rpc<L: LogStore, S: StableStore>(
        &mut self,
        logs: &mut L,
        stable: &mut S,
        command: RPCCommand,
        decoded: &Vec<Option<Configuration>>,
        now: Instant,
    ) -> (r: Result<RpcAnswer, Fatal>)
        requires
            command matches RPCCommand::AppendEntries(req) ==> decoded@.len()
                == req.entries@.len(),
        ensures
            r matches Ok(answer) ==> {
                let accepted = version_accepted(command.spec_header().protocol_version);
                match answer {
                    RpcAnswer::Refused(e) => {
                        &&& !accepted
                        &&& e is UnsupportedProtocol
                        &&& final(self)@ == old(self)@
                        &&& *final(logs) == *old(logs)
                        &&& *final(stable) == *old(stable)
                    },
                    RpcAnswer::Install(req) => {
                        &&& accepted
                        &&& command == RPCCommand::InstallSnapshot(req)
                        &&& final(self)@ == old(self)@
                        &&& *final(logs) == *old(logs)
                        &&& *final(stable) == *old(stable)
                    },
                    RpcAnswer::Reply(resp, work) => {
                        &&& accepted
                        &&& answers(command, resp)
                        &&& match command {
                            RPCCommand::AppendEntries(req) => exists|outcome: AppendOutcome|
                                #[trigger] append_answered(
                                    old(self)@,
                                    *old(logs),
                                    *old(stable),
                                    req,
                                    decoded@,
                                    now,
                                    outcome,
                                    final(self)@,
                                    *final(logs),
                                    *final(stable),
                                    resp->AppendEntries_0,
                                    work,
                                ),
                            RPCCommand::RequestVote(req) => {
                                &&& exists|outcome: VoteOutcome| #[trigger]
                                    vote_answered(
                                        old(self)@,
                                        *old(stable),
                                        req,
                                        now,
                                        outcome,
                                        final(self)@,
                                        *final(stable),
                                        resp->RequestVote_0,
                                    )
                                &&& *final(logs) == *old(logs)
                            },
                            RPCCommand::RequestPreVote(req) => {
                                &&& resp->RequestPreVote_0.header@ == own_header(old(self)@)
                                &&& resp->RequestPreVote_0.term == pre_vote_answer_term(
                                    old(self)@,
                                    req@,
                                )
                                &&& resp->RequestPreVote_0.granted == pre_vote_granted(
                                    old(self)@,
                                    req@,
                                )
                                &&& final(self)@ == old(self)@
                                &&& *final(logs) == *old(logs)
                                &&& *final(stable) == *old(stable)
                            },
                            RPCCommand::InstallSnapshot(_) => false,
                            RPCCommand::TimeoutNow(_) => {
                                &&& resp->TimeoutNow_0.header@ == own_header(old(self)@)
                                &&& final(self)@ == (NodeView {
                                    from_transfer: true,
                                    ..with_state(
                                        without_leader(old(self)@),
                                        RaftState::Candidate,
                                    )
                                })
                                &&& *final(logs) == *old(logs)
                                &&& *final(stable) == *old(stable)
                            },
                        }
                        &&& !(command is AppendEntries) ==> work.batches@.len() == 0
                            && work.answered@.len() == 0
                    },
                }
            },
            r matches Err(f) ==> version_accepted(command.spec_header().protocol_version)
                && match command {
                RPCCommand::AppendEntries(req) => append_fails(
                    old(self)@,
                    req,
                    *old(stable),
                    *final(logs),
                    f,
                ),
                RPCCommand::RequestVote(req) => {
                    &&& vote_fails(old(self)@, req@, *old(stable), final(self)@, f)
                    &&& *final(logs) == *old(logs)
                },
                _ => false,
            },
    {
        match check_rpc_header(command.header()) {
            Ok(()) => {},
            Err(e) => {
                return Ok(RpcAnswer::Refused(e));
            },
        }
        let nothing = Applying { batches: Vec::new(), answered: Vec::new() };
        match command {
            RPCCommand::AppendEntries(req) => {
                match self.append_entries(logs, stable, req, decoded, now) {
                    Ok(done) => {
                        let ghost outcome = done.outcome;
                        let reply = RPCResponse::AppendEntries(done.response);
                        let work = done.applying;
                        let answer = RpcAnswer::Reply(reply, work);
                        assert(append_answered(
                            old(self)@,
                            *old(logs),
                            *old(stable),
                            command->AppendEntries_0,
                            decoded@,
                            now,
                            outcome,
                            self@,
                            *logs,
                            *stable,
                            answer->Reply_0->AppendEntries_0,
                            answer->Reply_1,
                        ));
                        return Ok(answer);
                    },
                    Err(f) => Err(f),
                }
            },
            RPCCommand::RequestVote(req) => {
                match self.request_vote(stable, req, now) {
                    Ok(answer) => {
                        let ghost outcome = answer.outcome;
                        let reply = RPCResponse::RequestVote(answer.response);
                        assert(vote_answered(
                            old(self)@,
                            *old(stable),
                            req,
                            now,
                            outcome,
                            self@,
                            *stable,
                            reply->RequestVote_0,
                        ));
                        return Ok(RpcAnswer::Reply(reply, nothing));
                    },
                    Err(f) => Err(f),
                }
            },
            RPCCommand::RequestPreVote(req) => {
                let resp = self.request_pre_vote(&req);
                Ok(RpcAnswer::Reply(RPCResponse::RequestPreVote(resp), nothing))
            },
            RPCCommand::InstallSnapshot(req) => Ok(RpcAnswer::Install(req)),
            RPCCommand::TimeoutNow(_) => {
                let resp = self.timeout_now();
                Ok(RpcAnswer::Reply(RPCResponse::TimeoutNow(resp), nothing))
            },
        }
    }
}

} // verus!
