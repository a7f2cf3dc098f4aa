//! Who is given a vote, who stands, and who wins.

use crate::configuration::{voter_count, ServerSuffrage, ServerView};
use crate::election::{
    other_voters, pre_vote_result, server_views, vote_result, Campaigning, CandidateStep, Election,
    VoteResult,
};
use crate::error::RaftError;
use crate::laws::{lemma_voters_by_position, positions};
use crate::raft::{recorded_candidate, recorded_term, recorded_vote_term, Fatal, RaftCore};
use crate::stable::StableStore;
use crate::state::RaftState;
use crate::time::Instant;
use crate::transport::{
    RequestPreVoteRequest, RequestPreVoteResponse, RequestVoteRequest, RequestVoteResponse,
    TimeoutNowResponse,
};
use crate::vote::{record_unread, vote_refused_by_store, VoteAnswer};
use vstd::prelude::*;
use vstd::utf8::encode_utf8;

verus! {

/// A vote is given only to a voter of a term that is not older, by a node that
/// knows of no other leader (or is asked to ignore it), that has not voted for
/// another in that term, and whose log is not ahead of the candidate's; and it
/// is on record by then.
pub proof fn law_votes_are_given_for_a_reason<S: StableStore>(
    core: &mut RaftCore,
    stable: &mut S,
    req: RequestVoteRequest,
    now: Instant,
    answer: VoteAnswer,
)
    requires
        call_ensures(
            RaftCore::request_vote::<S>,
            (core, stable, req, now),
            Ok::<VoteAnswer, Fatal>(answer),
        ),
        answer.response.granted,
    ensures
        req.term >= old(core)@.shared.current_term,
        final(core)@.shared.current_term == req.term,
        answer.response.term == req.term,
        old(core)@.configurations.latest.len() == 0 || exists|i: int|
            0 <= i < old(core)@.configurations.latest.len()
                && (#[trigger] old(core)@.configurations.latest[i]).id == req.header.id@
                && old(core)@.configurations.latest[i].suffrage == ServerSuffrage::Voter,
        old(core)@.leader_addr.len() == 0 || old(core)@.leader_addr == req.header.addr@
            || req.leadership_transfer,
        recorded_vote_term(final(stable)) == req.term,
        recorded_candidate(final(stable)) == Some(encode_utf8(req.header.addr@)),
        !(recorded_vote_term(old(stable)) == req.term && recorded_candidate(old(stable)) is Some)
            ==> final(core)@.shared.last_contact == Some(now),
        recorded_vote_term(old(stable)) == req.term && recorded_candidate(old(stable)) is Some
            ==> recorded_candidate(old(stable)) == Some(encode_utf8(req.header.addr@)),
        !(recorded_vote_term(old(stable)) == req.term && recorded_candidate(old(stable)) is Some)
            ==> ({
            let shared = old(core)@.shared;
            let own = if shared.last_log.0 >= shared.last_snapshot.0 {
                shared.last_log
            } else {
                shared.last_snapshot
            };
            req.last_log_term > own.1 || (req.last_log_term == own.1 && req.last_log_index
                >= own.0)
        }),
        req.term > old(core)@.shared.current_term ==> final(core)@.shared.state
            == RaftState::Follower && recorded_term(final(stable)) == req.term,
{
}

/// A vote is owed to every candidate against whom nothing speaks: it is
/// withheld only where the record of votes cannot be read or written.
pub proof fn law_votes_are_owed<S: StableStore>(
    core: &mut RaftCore,
    stable: &mut S,
    req: RequestVoteRequest,
    now: Instant,
    answer: VoteAnswer,
)
    requires
        call_ensures(
            RaftCore::request_vote::<S>,
            (core, stable, req, now),
            Ok::<VoteAnswer, Fatal>(answer),
        ),
        req.term >= old(core)@.shared.current_term,
        exists|i: int|
            0 <= i < old(core)@.configurations.latest.len()
                && (#[trigger] old(core)@.configurations.latest[i]).id == req.header.id@
                && old(core)@.configurations.latest[i].suffrage == ServerSuffrage::Voter,
        old(core)@.leader_addr.len() == 0 || old(core)@.leader_addr == req.header.addr@
            || req.leadership_transfer,
        if recorded_vote_term(old(stable)) == req.term && recorded_candidate(old(stable)) is Some {
            recorded_candidate(old(stable)) == Some(encode_utf8(req.header.addr@))
        } else {
            let shared = old(core)@.shared;
            let own = if shared.last_log.0 >= shared.last_snapshot.0 {
                shared.last_log
            } else {
                shared.last_snapshot
            };
            req.last_log_term > own.1 || (req.last_log_term == own.1 && req.last_log_index
                >= own.0)
        },
    ensures
        answer.response.granted || record_unread(*final(stable)) || vote_refused_by_store(
            old(core)@,
            req@,
            *old(stable),
        ),
        final(core)@.shared.current_term == req.term,
{
}

/// A vote that is withheld without a failure of the store leaves the record of
/// votes as it was, and a request of an older term is refused.
pub proof fn law_withheld_votes_leave_no_trace<S: StableStore>(
    core: &mut RaftCore,
    stable: &mut S,
    req: RequestVoteRequest,
    now: Instant,
    answer: VoteAnswer,
)
    requires
        call_ensures(
            RaftCore::request_vote::<S>,
            (core, stable, req, now),
            Ok::<VoteAnswer, Fatal>(answer),
        ),
        !answer.response.granted,
    ensures
        vote_refused_by_store(old(core)@, req@, *old(stable)) || (recorded_vote_term(
            final(stable),
        ) == recorded_vote_term(old(stable)) && recorded_candidate(final(stable))
            == recorded_candidate(old(stable))),
        final(core)@.shared.last_contact == old(core)@.shared.last_contact,
        answer.response.term == final(core)@.shared.current_term,
        req.term <= old(core)@.shared.current_term
            ==> final(core)@.shared.current_term == old(core)@.shared.current_term
            && final(core)@.shared.state == old(core)@.shared.state,
{
}

/// A pre-vote is granted exactly where nothing but an earlier vote could speak
/// against the vote itself.
pub proof fn law_pre_vote_is_granted_for_a_reason(
    core: &RaftCore,
    req: &RequestPreVoteRequest,
    r: RequestPreVoteResponse,
)
    requires
        call_ensures(RaftCore::request_pre_vote, (core, req), r),
    ensures
        r.granted <==> {
            let n = core@;
            let own = if n.shared.last_log.0 >= n.shared.last_snapshot.0 {
                n.shared.last_log
            } else {
                n.shared.last_snapshot
            };
            &&& req.term >= n.shared.current_term
            &&& n.configurations.latest.len() == 0 || exists|i: int|
                0 <= i < n.configurations.latest.len() && (
                #[trigger] n.configurations.latest[i]).id == req.header.id@
                    && n.configurations.latest[i].suffrage == ServerSuffrage::Voter
            &&& n.leader_addr.len() == 0 || n.leader_addr == req.header.addr@
            &&& req.last_log_term > own.1 || (req.last_log_term == own.1 && req.last_log_index
                >= own.0)
        },
        r.granted ==> r.term == req.term,
        req.term < core@.shared.current_term ==> r.term == core@.shared.current_term,
{
}

/// A follower stands exactly where its leader was not heard of for the
/// heartbeat timeout and it has a vote in a membership that it knows; then it
/// is a candidate and knows no leader, and its term is as it was. While the
/// leader is heard of, nothing changes.
pub proof fn law_silence_makes_a_candidate(
    core: &mut RaftCore,
    now: Instant,
    did_warn: &mut bool,
    stands: bool,
)
    requires
        call_ensures(RaftCore::heartbeat_timeout, (core, now, did_warn), stands),
    ensures
        ({
            let n = old(core)@;
            let after = final(core)@;
            let timeout = n.conf.heartbeat_timeout;
            let heard = n.shared.last_contact matches Some(last) && timeout > 0 && now.nanos
                < last.nanos + timeout;
            let votes = n.configurations.latest_index != 0 && exists|i: int|
                0 <= i < n.configurations.latest.len() && (
                #[trigger] n.configurations.latest[i]).id == n.local_id
                    && n.configurations.latest[i].suffrage == ServerSuffrage::Voter;
            &&& stands <==> !heard && votes
            &&& heard ==> after == n
            &&& stands ==> after.shared.state == RaftState::Candidate
            &&& !stands ==> after.shared.state == n.shared.state
            &&& !heard ==> after.leader_addr.len() == 0 && after.leader_id.len() == 0
            &&& after.shared.current_term == n.shared.current_term
            &&& after.shared.commit_index == n.shared.commit_index
            &&& after.configurations == n.configurations
        }),
{
}

proof fn lemma_other_voters_are_voters(servers: Seq<ServerView>, local: Seq<char>, j: int)
    requires
        0 <= j < other_voters(servers, local).len(),
    ensures
        exists|p: int|
            0 <= p < servers.len() && #[trigger] servers[p] == other_voters(servers, local)[j],
        other_voters(servers, local)[j].suffrage == ServerSuffrage::Voter,
        other_voters(servers, local)[j].id != local,
    decreases servers.len(),
{
    let front = other_voters(servers.drop_last(), local);
    if j < front.len() {
        lemma_other_voters_are_voters(servers.drop_last(), local, j);
        let p = choose|p: int|
            0 <= p < servers.drop_last().len() && #[trigger] servers.drop_last()[p] == front[j];
        assert(servers[p] == front[j]);
    } else {
        assert(servers[servers.len() - 1] == other_voters(servers, local)[j]);
    }
}

proof fn lemma_voters_are_asked(servers: Seq<ServerView>, local: Seq<char>, p: int)
    requires
        0 <= p < servers.len(),
        servers[p].suffrage == ServerSuffrage::Voter,
        servers[p].id != local,
    ensures
        exists|j: int|
            0 <= j < other_voters(servers, local).len() && #[trigger] other_voters(
                servers,
                local,
            )[j] == servers[p],
    decreases servers.len(),
{
    let all = other_voters(servers, local);
    let front = other_voters(servers.drop_last(), local);
    if p == servers.len() - 1 {
        assert(all[front.len() as int] == servers[p]);
    } else {
        assert(servers.drop_last()[p] == servers[p]);
        lemma_voters_are_asked(servers.drop_last(), local, p);
        let j = choose|j: int| 0 <= j < front.len() && #[trigger] front[j] == servers[p];
        assert(all[j] == servers[p]);
    }
}

/// Whom a candidate asks: every voter but itself, and nobody else. It asks in
/// its own name, for the term that follows its own, with the end of its log;
/// and it needs more than half of the votes, but not one more than that.
pub proof fn law_candidate_asks_all_voters<S: StableStore>(
    core: &mut RaftCore,
    stable: &mut S,
    election: Election,
    campaigning: Campaigning,
)
    requires
        old(core)@.shared.current_term < u64::MAX,
        old(core)@.configurations.latest.len() < usize::MAX,
        call_ensures(
            RaftCore::start_candidacy::<S>,
            (core, stable),
            Ok::<(Election, Campaigning), Fatal>((election, campaigning)),
        ),
    ensures
        ({
            let n = old(core)@;
            let servers = n.configurations.latest;
            let own = if n.shared.last_log.0 >= n.shared.last_snapshot.0 {
                n.shared.last_log
            } else {
                n.shared.last_snapshot
            };
            let voters = Set::new(
                |p: int| 0 <= p < servers.len() && servers[p].suffrage == ServerSuffrage::Voter,
            );
            let peers = match campaigning {
                Campaigning::PreVote(p) => server_views(p.peers@),
                Campaigning::Vote(v) => server_views(v.peers@),
            };
            &&& election.term == n.shared.current_term + 1
            &&& election.granted == 0 && election.prevote_granted == 0
            &&& voters.finite()
            &&& 2 * election.votes_needed > voters.len()
            &&& 2 * (election.votes_needed - 1) <= voters.len()
            &&& election.pre_vote <==> !n.conf.pre_vote_disabled && !n.from_transfer
            &&& election.pre_vote <==> campaigning is PreVote
            &&& forall|j: int|
                0 <= j < peers.len() ==> (#[trigger] peers[j]).suffrage == ServerSuffrage::Voter
                    && peers[j].id != n.local_id && servers.contains(peers[j])
            &&& forall|p: int|
                0 <= p < servers.len() && (#[trigger] servers[p]).suffrage
                    == ServerSuffrage::Voter && servers[p].id != n.local_id ==> peers.contains(
                    servers[p],
                )
            &&& match campaigning {
                Campaigning::PreVote(p) => {
                    &&& final(core)@ == n
                    &&& *final(stable) == *old(stable)
                    &&& p.request.term == n.shared.current_term + 1
                    &&& p.request.header.id@ == n.local_id
                    &&& p.request.header.addr@ == n.local_addr
                    &&& (p.request.last_log_index, p.request.last_log_term) == own
                },
                Campaigning::Vote(v) => {
                    &&& final(core)@.shared.current_term == n.shared.current_term + 1
                    &&& final(core)@.shared.state == n.shared.state
                    &&& v.request.term == n.shared.current_term + 1
                    &&& v.request.header.id@ == n.local_id
                    &&& v.request.header.addr@ == n.local_addr
                    &&& (v.request.last_log_index, v.request.last_log_term) == own
                    &&& v.request.leadership_transfer == n.from_transfer
                },
            }
        }),
{
    let n = old(core)@;
    let servers = n.configurations.latest;
    let peers = other_voters(servers, n.local_id);
    lemma_voters_are_few(servers);
    lemma_voters_by_position(servers);
    assert(Set::new(
        |p: int| 0 <= p < servers.len() && servers[p].suffrage == ServerSuffrage::Voter,
    ) =~= positions(servers, |s: ServerView| s.suffrage == ServerSuffrage::Voter));
    assert forall|j: int| 0 <= j < peers.len() implies (#[trigger] peers[j]).suffrage
        == ServerSuffrage::Voter && peers[j].id != n.local_id && servers.contains(peers[j]) by {
        lemma_other_voters_are_voters(servers, n.local_id, j);
    }
    assert forall|p: int|
        0 <= p < servers.len() && (#[trigger] servers[p]).suffrage == ServerSuffrage::Voter
            && servers[p].id != n.local_id implies peers.contains(servers[p]) by {
        lemma_voters_are_asked(servers, n.local_id, p);
    }
}

/// No more servers have a vote than there are.
pub proof fn lemma_voters_are_few(servers: Seq<ServerView>)
    ensures
        voter_count(servers) <= servers.len(),
    decreases servers.len(),
{
    if servers.len() > 0 {
        lemma_voters_are_few(servers.drop_last());
    }
}

/// A candidate becomes leader exactly with the vote that makes up the number
/// it needs, in the term that it stands in, and takes itself for the leader; a
/// voter who knows of a newer term makes it a follower in that term; any other
/// answer leaves its role as it was.
pub proof fn law_candidate_wins_with_the_votes_it_needs<S: StableStore>(
    core: &mut RaftCore,
    stable: &mut S,
    election: &mut Election,
    vote: VoteResult,
    step: CandidateStep,
)
    requires
        old(election).granted < usize::MAX,
        call_ensures(
            RaftCore::count_vote::<S>,
            (core, stable, election, vote),
            Ok::<CandidateStep, Fatal>(step),
        ),
    ensures
        ({
            let n = old(core)@;
            let after = final(core)@;
            let count = old(election).granted + if vote.granted {
                1int
            } else {
                0int
            };
            let newer = vote.term > n.shared.current_term;
            &&& step is Won <==> !newer && count >= old(election).votes_needed
            &&& step is StepDown <==> newer
            &&& step is Won ==> {
                &&& after.shared.state == RaftState::Leader
                &&& after.leader_addr == n.local_addr
                &&& after.leader_id == n.local_id
                &&& after.shared.current_term == n.shared.current_term
            }
            &&& newer ==> {
                &&& after.shared.state == RaftState::Follower
                &&& after.shared.current_term == vote.term
                &&& recorded_term(final(stable)) == vote.term
                &&& final(election).granted == old(election).granted
            }
            &&& !newer ==> final(election).granted == count
                && final(election).votes_needed == old(election).votes_needed
            &&& !newer && count < old(election).votes_needed ==> after == n && step is Wait
        }),
{
}

/// A pre-vote turns into an election exactly with the pre-vote that makes up
/// the number needed: then the term goes up by one. No count of pre-votes
/// makes a leader.
pub proof fn law_pre_votes_lead_to_an_election<S: StableStore>(
    core: &mut RaftCore,
    stable: &mut S,
    election: &mut Election,
    vote: VoteResult,
    step: CandidateStep,
)
    requires
        old(core)@.shared.current_term < u64::MAX,
        old(election).prevote_granted < usize::MAX,
        old(election).prevote_refused < usize::MAX,
        call_ensures(
            RaftCore::count_pre_vote::<S>,
            (core, stable, election, vote),
            Ok::<CandidateStep, Fatal>(step),
        ),
    ensures
        ({
            let n = old(core)@;
            let after = final(core)@;
            let count = old(election).prevote_granted + if vote.granted {
                1int
            } else {
                0int
            };
            let newer = vote.term > old(election).term;
            &&& step is Elect <==> !newer && count >= old(election).votes_needed
            &&& step is StepDown <==> newer
            &&& step is Wait <==> !newer && count < old(election).votes_needed
            &&& step is Wait ==> after == n && final(election).prevote_granted == count
                && final(election).pre_vote == old(election).pre_vote
            &&& step is Elect ==> {
                &&& after.shared.current_term == n.shared.current_term + 1
                &&& after.shared.state == n.shared.state
                &&& !final(election).pre_vote
                &&& final(election).granted == old(election).granted
                &&& final(election).votes_needed == old(election).votes_needed
                &&& step->Elect_0.request.term == n.shared.current_term + 1
            }
            &&& newer ==> after.shared.state == RaftState::Follower && after.shared.current_term
                == vote.term && recorded_term(final(stable)) == vote.term
        }),
{
}

/// A voter that cannot be reached counts as one that refuses; one that answers
/// counts as it answered.
pub proof fn law_unreachable_voters_refuse(
    reply: std::result::Result<RequestVoteResponse, RaftError>,
    term: u64,
    voter_id: String,
    r: VoteResult,
)
    requires
        call_ensures(vote_result, (reply, term, voter_id), r),
    ensures
        r.granted ==> reply is Ok,
        reply is Err ==> !r.granted && r.term == term,
        reply matches Ok(resp) ==> r.granted == resp.granted && r.term == resp.term,
{
}

/// Whoever is told to start an election at once is a candidate who needs no
/// pre-vote, and gives its leader up.
pub proof fn law_told_to_stand_makes_a_candidate(core: &mut RaftCore, r: TimeoutNowResponse)
    requires
        call_ensures(RaftCore::timeout_now, (core,), r),
    ensures
        final(core)@.shared.state == RaftState::Candidate,
        final(core)@.from_transfer,
        final(core)@.leader_addr.len() == 0,
        final(core)@.shared.current_term == old(core)@.shared.current_term,
        final(core)@.configurations == old(core)@.configurations,
{
}

/// The privilege to stand at a leader's bidding ends with the candidacy.
pub proof fn law_privilege_ends_with_the_candidacy(core: &mut RaftCore)
    requires
        call_ensures(RaftCore::end_candidacy, (core,), ()),
    ensures
        !final(core)@.from_transfer,
        final(core)@.shared == old(core)@.shared,
        final(core)@.configurations == old(core)@.configurations,
{
}

/// A known leader shields a node from candidates, and so does its membership
/// from strangers: such a request is refused, and leaves term, role and leader
/// as they were, whatever term it names.
pub proof fn law_known_leader_shields_from_candidates<S: StableStore>(
    core: &mut RaftCore,
    stable: &mut S,
    req: RequestVoteRequest,
    now: Instant,
    answer: VoteAnswer,
)
    requires
        call_ensures(
            RaftCore::request_vote::<S>,
            (core, stable, req, now),
            Ok::<VoteAnswer, Fatal>(answer),
        ),
    ensures
        ({
            let n = old(core)@;
            let after = final(core)@;
            let stranger = n.configurations.latest.len() > 0 && forall|i: int|
                0 <= i < n.configurations.latest.len() ==> (
                #[trigger] n.configurations.latest[i]).id != req.header.id@;
            let led = n.leader_addr.len() > 0 && n.leader_addr != req.header.addr@
                && !req.leadership_transfer;
            &&& stranger || led ==> {
                &&& !answer.response.granted
                &&& after.shared == n.shared
                &&& after.leader_addr == n.leader_addr
                &&& after.leader_id == n.leader_id
            }
            &&& !stranger && !led && req.term > n.shared.current_term ==> {
                &&& after.shared.current_term == req.term
                &&& after.shared.state == RaftState::Follower
                &&& after.leader_addr.len() == 0
            }
            &&& after.shared.commit_index == n.shared.commit_index
            &&& after.shared.last_log == n.shared.last_log
            &&& after.configurations == n.configurations
        }),
{
}

/// A log is recent enough where it is not behind one's own: a newer last term,
/// or the same and no fewer entries.
pub proof fn law_recent_logs_are_not_behind(core: &RaftCore, term: u64, index: u64, r: bool)
    requires
        call_ensures(RaftCore::log_recent, (core, term, index), r),
    ensures
        ({
            let log = core@.shared.last_log;
            let snapshot = core@.shared.last_snapshot;
            let last = if log.0 >= snapshot.0 {
                log
            } else {
                snapshot
            };
            r <==> term > last.1 || (term == last.1 && index >= last.0)
        }),
{
}

/// A pre-vote counts as the voter gave it; where the request failed it counts
/// in the candidate's own term, which deposes nobody.
pub proof fn law_pre_votes_count_as_given(
    reply: std::result::Result<RequestPreVoteResponse, RaftError>,
    term: u64,
    voter: String,
    r: VoteResult,
)
    requires
        call_ensures(pre_vote_result, (reply, term, voter), r),
    ensures
        r.voter_id@ == voter@,
        reply matches Ok(resp) ==> r.term == resp.term && r.granted == resp.granted,
        reply is Err ==> r.term == term,
{
}

} // verus!
