//! How the state of a node changes, and what is told of it.

use crate::configuration::{Configuration, ServerSuffrage, ServerView};
use crate::election::{own_voter_count, Campaign, PreCampaign};
use crate::error::{RaftError, Result};
use crate::future::FutureResponder;
use crate::laws::{lemma_positions_step, positions};
use crate::log::{Log, LogType};
use crate::observer::{
    Delivery, Observation, ObservationData, ObservationView, ObserverHandle, Observers,
};
use crate::raft::{
    persist_vote, recorded_candidate, recorded_term, recorded_vote_term, vote_unrecorded, Fatal,
    RaftCore,
};
use crate::stable::StableStore;
use crate::state::RaftState;
use crate::time::{backoff, capped_exponential_backoff, random_duration, Duration, Instant};
use crate::transport::RequestVoteRequest;
use crate::vote::VoteAnswer;
use vstd::prelude::*;
use vstd::utf8::encode_utf8;

verus! {

/// A change of role forgets the leader and touches nothing else but what is
/// observed.
pub proof fn law_new_role_forgets_the_leader(core: &mut RaftCore, state: RaftState)
    requires
        call_ensures(RaftCore::set_state, (core, state), ()),
    ensures
        final(core)@.shared.state == state,
        final(core)@.leader_addr.len() == 0,
        final(core)@.leader_id.len() == 0,
        final(core)@.shared.current_term == old(core)@.shared.current_term,
        final(core)@.shared.commit_index == old(core)@.shared.commit_index,
        final(core)@.shared.last_log == old(core)@.shared.last_log,
        final(core)@.configurations == old(core)@.configurations,
{
}

/// A term is taken up only once it is on record, and the vote stays on record
/// as it was.
pub proof fn law_terms_are_recorded_first<S: StableStore>(
    core: &mut RaftCore,
    stable: &mut S,
    term: u64,
    r: std::result::Result<(), Fatal>,
)
    requires
        call_ensures(RaftCore::set_current_term::<S>, (core, stable, term), r),
    ensures
        final(core)@.shared.current_term == if r is Ok {
            term
        } else {
            old(core)@.shared.current_term
        },
        r is Ok ==> recorded_term(final(stable)) == term,
        r is Ok ==> recorded_vote_term(final(stable)) == recorded_vote_term(old(stable)),
        r is Ok ==> recorded_candidate(final(stable)) == recorded_candidate(old(stable)),
        final(core)@.shared.state == old(core)@.shared.state,
{
}

/// A vote that was persisted is the one on record, with its term.
pub proof fn law_persisted_votes_are_on_record<S: StableStore>(
    stable: &mut S,
    term: u64,
    candidate: &[u8],
    r: Result<()>,
)
    requires
        call_ensures(persist_vote::<S>, (stable, term, candidate), r),
        r is Ok,
    ensures
        recorded_vote_term(final(stable)) == term,
        recorded_candidate(final(stable)) == Some(candidate@),
        recorded_term(final(stable)) == recorded_term(old(stable)),
{
}

proof fn lemma_own_votes_by_position(servers: Seq<ServerView>, local: Seq<char>)
    ensures
        ({
            let own = |s: ServerView| s.suffrage == ServerSuffrage::Voter && s.id == local;
            &&& positions(servers, own).finite()
            &&& positions(servers, own).len() == own_voter_count(servers, local)
        }),
    decreases servers.len(),
{
    let own = |s: ServerView| s.suffrage == ServerSuffrage::Voter && s.id == local;
    if servers.len() == 0 {
        assert(positions(servers, own) =~= Set::empty());
    } else {
        lemma_own_votes_by_position(servers.drop_last(), local);
        lemma_positions_step(servers, own);
    }
}

/// Whoever campaigns does so in the next term, which is on record, and gives
/// itself each vote that it has in its membership, on record; one is missing
/// only where the store did not take it.
pub proof fn law_campaigns_raise_the_term<S: StableStore>(
    core: &mut RaftCore,
    stable: &mut S,
    c: Campaign,
)
    requires
        old(core)@.shared.current_term < u64::MAX,
        call_ensures(
            RaftCore::elect_self::<S>,
            (core, stable),
            Ok::<Campaign, Fatal>(c),
        ),
    ensures
        ({
            let n = old(core)@;
            let servers = n.configurations.latest;
            let own = Set::new(
                |p: int|
                    0 <= p < servers.len() && servers[p].suffrage == ServerSuffrage::Voter
                        && servers[p].id == n.local_id,
            );
            &&& final(core)@.shared.current_term == n.shared.current_term + 1
            &&& final(core)@.shared.state == n.shared.state
            &&& c.request.term == n.shared.current_term + 1
            &&& own.finite()
            &&& c.own_votes <= own.len()
            &&& c.own_votes == own.len() ==> recorded_term(final(stable)) == c.request.term
            &&& c.own_votes == own.len() && own.len() > 0 ==> recorded_vote_term(final(stable))
                == c.request.term && recorded_candidate(final(stable)) == Some(
                encode_utf8(n.local_addr),
            )
            &&& c.own_votes < own.len() ==> exists|s: S, candidate: &[u8], e: RaftError|
                candidate@ == encode_utf8(n.local_addr) && #[trigger] vote_unrecorded(
                    s,
                    (n.shared.current_term + 1) as u64,
                    candidate,
                    e,
                )
        }),
{
    let n = old(core)@;
    let servers = n.configurations.latest;
    lemma_own_votes_by_position(servers, n.local_id);
    assert(Set::new(
        |p: int|
            0 <= p < servers.len() && servers[p].suffrage == ServerSuffrage::Voter && servers[p].id
                == n.local_id,
    ) =~= positions(
        servers,
        |s: ServerView| s.suffrage == ServerSuffrage::Voter && s.id == n.local_id,
    ));
}

/// A pre-vote counts each vote that the node has in its membership.
pub proof fn law_pre_votes_count_ones_own(core: &RaftCore, p: PreCampaign)
    requires
        core@.shared.current_term < u64::MAX,
        call_ensures(RaftCore::pre_elect_self, (core,), p),
    ensures
        ({
            let n = core@;
            let servers = n.configurations.latest;
            let own = Set::new(
                |p: int|
                    0 <= p < servers.len() && servers[p].suffrage == ServerSuffrage::Voter
                        && servers[p].id == n.local_id,
            );
            &&& own.finite()
            &&& p.own_votes == own.len()
            &&& p.request.term == n.shared.current_term + 1
        }),
{
    let n = core@;
    let servers = n.configurations.latest;
    lemma_own_votes_by_position(servers, n.local_id);
    assert(Set::new(
        |p: int|
            0 <= p < servers.len() && servers[p].suffrage == ServerSuffrage::Voter && servers[p].id
                == n.local_id,
    ) =~= positions(
        servers,
        |s: ServerView| s.suffrage == ServerSuffrage::Voter && s.id == n.local_id,
    ));
}

/// An entry that is no membership changes none; one that is makes the latest
/// the committed one and takes its place.
pub proof fn law_memberships_take_turns(
    core: &mut RaftCore,
    entry: &Log,
    decoded: &Option<Configuration>,
)
    requires
        call_ensures(RaftCore::process_configuration_log_entry, (core, entry, decoded), ()),
    ensures
        entry.log_type != LogType::Configuration ==> final(core)@ == old(core)@,
        entry.log_type == LogType::Configuration ==> {
            &&& final(core)@.configurations.committed == old(core)@.configurations.latest
            &&& final(core)@.configurations.committed_index
                == old(core)@.configurations.latest_index
            &&& decoded matches Some(conf) ==> final(core)@.configurations.latest == conf@
                && final(core)@.configurations.latest_index == entry.index && final(core)@.readable
                == conf@ && final(core)@.readable_index == entry.index
        },
        final(core)@.shared == old(core)@.shared,
{
}

/// The first answer counts, and is given out once.
pub proof fn law_first_answer_counts<T>(
    f: &mut FutureResponder<T>,
    value: T,
    g: &mut FutureResponder<T>,
    taken: Option<T>,
)
    requires
        call_ensures(FutureResponder::<T>::respond, (f, value), ()),
        *old(g) == *final(f),
        call_ensures(FutureResponder::<T>::take, (g,), taken),
    ensures
        !old(f).has_responded() ==> taken == Some(value),
        old(f).has_responded() ==> taken == old(f).pending(),
        final(g).pending() is None,
        final(g).has_responded(),
{
}

/// An observer that was removed is there no more, and every other one is.
pub proof fn law_other_observers_stay<F: Fn(&Observation) -> bool>(
    o: &mut Observers<F>,
    id: u64,
    i: int,
)
    requires
        old(o).well_formed(),
        call_ensures(Observers::<F>::deregister, (o, id), ()),
    ensures
        0 <= i < final(o).handles@.len() ==> final(o).handles@[i].id != id,
        0 <= i < old(o).handles@.len() && old(o).handles@[i].id != id
            ==> final(o).handles@.contains(old(o).handles@[i]),
{
    lemma_other_handles(old(o).handles@, id);
}

proof fn lemma_other_handles<F: Fn(&Observation) -> bool>(
    handles: Seq<ObserverHandle<F>>,
    id: u64,
)
    ensures
        forall|i: int|
            0 <= i < crate::observer::other_handles(handles, id).len() ==> (
            #[trigger] crate::observer::other_handles(handles, id)[i]).id != id,
        forall|i: int|
            0 <= i < handles.len() && (#[trigger] handles[i]).id != id
                ==> crate::observer::other_handles(handles, id).contains(handles[i]),
    decreases handles.len(),
{
    if handles.len() > 0 {
        let front = handles.drop_last();
        let rest = crate::observer::other_handles(front, id);
        let all = crate::observer::other_handles(handles, id);
        lemma_other_handles(front, id);
        assert forall|i: int| 0 <= i < all.len() implies (#[trigger] all[i]).id != id by {
            if i < rest.len() {
                assert(all[i] == rest[i]);
            }
        }
        assert forall|i: int| 0 <= i < handles.len() && (#[trigger] handles[i]).id
            != id implies all.contains(handles[i]) by {
            if i < front.len() {
                assert(front[i] == handles[i]);
                let j = choose|j: int| 0 <= j < rest.len() && rest[j] == front[i];
                assert(all[j] == handles[i]);
            } else {
                assert(all[rest.len() as int] == handles[i]);
            }
        }
    }
}

/// A timer is drawn from its minimum up to, but not including, twice that.
pub proof fn law_timers_are_drawn_within_bounds(min: Duration, r: Duration)
    requires
        call_ensures(random_duration, (min,), r),
    ensures
        min@ > 0 ==> min@ <= r@ < 2 * min@,
        min@ == 0 ==> r@ == 0,
{
}

/// An observer is counted what it was sent, and what it missed because it was
/// full and nobody waits for it; what it cannot receive any more is neither.
pub proof fn law_deliveries_are_counted<F: Fn(&Observation) -> bool>(
    h: &mut ObserverHandle<F>,
    delivery: Delivery,
)
    requires
        call_ensures(ObserverHandle::<F>::record, (h, delivery), ()),
        old(h).num_observed < u64::MAX,
        old(h).num_dropped < u64::MAX,
    ensures
        final(h).num_observed == old(h).num_observed + if delivery == Delivery::Delivered {
            1int
        } else {
            0int
        },
        final(h).num_dropped == old(h).num_dropped + if delivery == Delivery::Full
            && !old(h).observer.blocking {
            1int
        } else {
            0int
        },
        final(h).id == old(h).id,
{
}

/// What is observed is told once, in order.
pub proof fn law_observations_are_told_once(core: &mut RaftCore, told: Vec<ObservationData>, i: int)
    requires
        call_ensures(RaftCore::take_observations, (core,), told),
    ensures
        told@.len() == old(core)@.observed.len(),
        0 <= i < told@.len() ==> told@[i]@ == old(core)@.observed[i],
        final(core)@.observed.len() == 0,
        final(core)@.shared == old(core)@.shared,
{
    if 0 <= i < told@.len() {
        assert(crate::raft::observation_views(told@)[i] == told@[i]@);
    }
}

/// The leader is whom it is set to, and a leader that is known is told of.
pub proof fn law_set_leader_is_the_leader(core: &mut RaftCore, addr: String, id: String)
    requires
        call_ensures(RaftCore::set_leader, (core, addr, id), ()),
    ensures
        final(core)@.leader_addr == addr@,
        final(core)@.leader_id == id@,
        addr@.len() > 0 ==> final(core)@.observed == old(core)@.observed.push(
            ObservationView::Leader { leader_addr: addr@, leader_id: id@, leader: addr@ },
        ),
        addr@.len() == 0 ==> final(core)@.observed == old(core)@.observed,
        final(core)@.shared == old(core)@.shared,
        final(core)@.configurations == old(core)@.configurations,
{
}

/// A membership that becomes the latest is the one in use and the one that is
/// read; the committed one stays until it is committed too.
pub proof fn law_latest_membership_is_in_use(core: &mut RaftCore, conf: Configuration, index: u64)
    requires
        call_ensures(RaftCore::set_latest_configuration, (core, conf, index), ()),
    ensures
        final(core)@.configurations.latest == conf@,
        final(core)@.configurations.latest_index == index,
        final(core)@.readable == conf@,
        final(core)@.readable_index == index,
        final(core)@.configurations.committed == old(core)@.configurations.committed,
        final(core)@.configurations.committed_index == old(core)@.configurations.committed_index,
        final(core)@.shared == old(core)@.shared,
{
}

/// Committing the latest membership makes it the committed one.
pub proof fn law_latest_membership_is_committed(core: &mut RaftCore)
    requires
        call_ensures(RaftCore::commit_latest_configuration, (core,), ()),
    ensures
        final(core)@.configurations.committed == old(core)@.configurations.latest,
        final(core)@.configurations.committed_index == old(core)@.configurations.latest_index,
        final(core)@.configurations.latest == old(core)@.configurations.latest,
        final(core)@.configurations.latest_index == old(core)@.configurations.latest_index,
        final(core)@.shared == old(core)@.shared,
{
}

/// A wait grows by doubling, round by round, until the limit; the first two
/// rounds wait the base.
pub proof fn law_backoff_doubles(
    base: Duration,
    round: u64,
    limit: u64,
    first: Duration,
    second: Duration,
)
    requires
        round < u64::MAX,
        call_ensures(backoff, (base, round, limit), first),
        call_ensures(backoff, (base, (round + 1) as u64, limit), second),
    ensures
        round <= 2 || limit <= 2 ==> first@ == base@,
        2 <= round < limit ==> second@ == 2 * first@,
        round >= limit ==> second@ == first@,
{
}

/// A capped wait is the wait, or the cap where that is shorter.
pub proof fn law_capped_wait_keeps_to_the_cap(
    base: Duration,
    round: u64,
    limit: u64,
    cap: Duration,
    free: Duration,
    r: Duration,
)
    requires
        call_ensures(backoff, (base, round, limit), free),
        call_ensures(capped_exponential_backoff, (base, round, limit, cap), r),
    ensures
        r@ <= cap@,
        r@ <= free@,
        r@ == cap@ || r@ == free@,
{
}

/// A change of role is told, and nothing else is.
pub proof fn law_changes_of_role_are_told(core: &mut RaftCore, state: RaftState)
    requires
        call_ensures(RaftCore::set_state, (core, state), ()),
    ensures
        final(core)@.observed == old(core)@.observed.push(ObservationView::State { state }),
{
}

/// Every request for a vote is told, before anything else that comes of it.
pub proof fn law_vote_requests_are_told<S: StableStore>(
    core: &mut RaftCore,
    stable: &mut S,
    req: RequestVoteRequest,
    now: Instant,
    answer: VoteAnswer,
)
    requires
        call_ensures(
            RaftCore::request_vote::<S>,
            (core, stable, req, now),
            Ok::<VoteAnswer, Fatal>(answer),
        ),
    ensures
        final(core)@.observed.len() > old(core)@.observed.len(),
        final(core)@.observed[old(core)@.observed.len() as int] == (ObservationView::RequestVote {
            request: req@,
        }),
{
}

} // verus!
