//! Observations of raft state changes (leadership transitions, peer changes,
//! heartbeat failures) and the observers they are delivered to.

use crate::configuration::{Server, ServerAddress, ServerID, ServerView};
use crate::state::RaftState;
use crate::time::Instant;
use crate::transport::{RequestVoteRequest, VoteRequestView};
use vstd::prelude::*;

verus! {

/// The kinds of payloads that can be carried by an [`Observation`].
#[derive(Debug)]
pub enum ObservationData {
    /// The local raft state changed (Follower/Candidate/Leader/Shutdown).
    State(RaftState),
    /// A new leader was observed.
    Leader(LeaderObservation),
    /// A peer was added to or removed from the configuration.
    Peer(PeerObservation),
    /// A peer has failed to respond to a heartbeat.
    FailedHeartbeat(FailedHeartbeatObservation),
    /// A peer has resumed responding to heartbeats after previous
    /// failures.
    ResumedHeartbeat(ResumedHeartbeatObservation),
    /// An inbound `RequestVote` RPC was received.
    RequestVote(RequestVoteRequest),
}

/// Payload sent when leadership transitions.
#[derive(Debug)]
pub struct LeaderObservation {
    /// New leader's network address.
    pub leader_addr: ServerAddress,
    /// New leader's stable ID.
    pub leader_id: ServerID,
    /// Alias for `leader_addr`.
    pub leader: ServerAddress,
}

/// Payload sent when a peer joins or leaves the configuration.
#[derive(Debug)]
pub struct PeerObservation {
    /// The peer that changed.
    pub peer: Server,
    /// `true` if the peer was removed, `false` if it was added.
    pub removed: bool,
}

/// Payload sent when a peer fails to respond to a heartbeat.
#[derive(Debug)]
pub struct FailedHeartbeatObservation {
    pub peer_id: ServerID,
    pub last_contact: Option<Instant>,
}

/// Payload sent when a previously failing peer resumes contact.
#[derive(Debug)]
pub struct ResumedHeartbeatObservation {
    pub peer_id: ServerID,
}

/// What an observation says.
#[verifier::ext_equal]
pub enum ObservationView {
    State { state: RaftState },
    Leader { leader_addr: Seq<char>, leader_id: Seq<char>, leader: Seq<char> },
    Peer { peer: ServerView, removed: bool },
    FailedHeartbeat { peer_id: Seq<char>, last_contact: Option<Instant> },
    ResumedHeartbeat { peer_id: Seq<char> },
    RequestVote { request: VoteRequestView },
}

impl View for ObservationData {
    type V = ObservationView;

    open spec fn view(&self) -> ObservationView {
        match self {
            ObservationData::State(state) => ObservationView::State { state: *state },
            ObservationData::Leader(o) => ObservationView::Leader {
                leader_addr: o.leader_addr@,
                leader_id: o.leader_id@,
                leader: o.leader@,
            },
            ObservationData::Peer(o) => ObservationView::Peer { peer: o.peer@, removed: o.removed },
            ObservationData::FailedHeartbeat(o) => ObservationView::FailedHeartbeat {
                peer_id: o.peer_id@,
                last_contact: o.last_contact,
            },
            ObservationData::ResumedHeartbeat(o) => ObservationView::ResumedHeartbeat {
                peer_id: o.peer_id@,
            },
            ObservationData::RequestVote(request) => ObservationView::RequestVote {
                request: request@,
            },
        }
    }
}

impl Clone for ObservationData {
    fn clone(&self) -> (r: Self)
        ensures
            r@ == self@,
    {
        match self {
            ObservationData::State(state) => ObservationData::State(*state),
            ObservationData::Leader(o) => ObservationData::Leader(
                LeaderObservation {
                    leader_addr: o.leader_addr.clone(),
                    leader_id: o.leader_id.clone(),
                    leader: o.leader.clone(),
                },
            ),
            ObservationData::Peer(o) => ObservationData::Peer(
                PeerObservation { peer: o.peer.clone(), removed: o.removed },
            ),
            ObservationData::FailedHeartbeat(o) => ObservationData::FailedHeartbeat(
                FailedHeartbeatObservation {
                    peer_id: o.peer_id.clone(),
                    last_contact: o.last_contact,
                },
            ),
            ObservationData::ResumedHeartbeat(o) => ObservationData::ResumedHeartbeat(
                ResumedHeartbeatObservation { peer_id: o.peer_id.clone() },
            ),
            ObservationData::RequestVote(request) => ObservationData::RequestVote(request.clone()),
        }
    }
}

/// A single observation event delivered to a registered observer.
#[derive(Debug)]
pub struct Observation {
    /// The observation payload.
    pub data: ObservationData,
}

impl Clone for Observation {
    fn clone(&self) -> (r: Self)
        ensures
            r.data@ == self.data@,
    {
        Observation { data: self.data.clone() }
    }
}

/// Configuration for an observer.
pub struct Observer<F: Fn(&Observation) -> bool> {
    /// Buffer size of the channel created for the observer.
    pub channel_size: usize,
    /// When `true`, the dispatcher blocks on full channels. When `false`
    /// (the recommended setting), full channels drop the observation and
    /// the drop is counted.
    pub blocking: bool,
    /// Optional predicate that filters observations before delivery.
    pub filter: Option<F>,
}

impl<F: Fn(&Observation) -> bool> Default for Observer<F> {
    fn default() -> (r: Self)
        ensures
            r.channel_size == 64,
            !r.blocking,
            r.filter is None,
    {
        Observer { channel_size: 64, blocking: false, filter: None }
    }
}

impl<F: Fn(&Observation) -> bool> Observer<F> {
    /// Creates a new observer with the given parameters.
    pub fn new(receiver_size: usize, blocking: bool, filter: Option<F>) -> (r: Self)
        ensures
            r.channel_size == receiver_size,
            r.blocking == blocking,
            r.filter == filter,
    {
        Observer { channel_size: receiver_size, blocking, filter }
    }

    /// The capacity of the channel that is made for the observer: a channel
    /// holds at least one observation.
    pub fn capacity(&self) -> (r: usize)
        ensures
            r == if self.channel_size == 0 {
                1
            } else {
                self.channel_size
            },
    {
        if self.channel_size == 0 {
            1
        } else {
            self.channel_size
        }
    }
}

/// What became of an observation that was offered to an observer's channel.
#[derive(Debug, Clone, Copy, PartialEq, Eq, Structural)]
pub enum Delivery {
    /// It is in the channel.
    Delivered,
    /// The channel was full.
    Full,
    /// Nobody receives from the channel any more.
    Closed,
}

/// A registered observer and what it has been sent.
pub struct ObserverHandle<F: Fn(&Observation) -> bool> {
    pub id: u64,
    pub observer: Observer<F>,
    /// The number of observations delivered to this observer.
    pub num_observed: u64,
    /// The number of observations dropped because the channel was full and
    /// the observer is non-blocking.
    pub num_dropped: u64,
}

impl<F: Fn(&Observation) -> bool> ObserverHandle<F> {
    /// Returns `true` if the observation passes the observer's filter (or
    /// the observer has no filter).
    pub fn matches(&self, observation: &Observation) -> (r: bool)
        requires
            self.observer.filter matches Some(f) ==> call_requires(f, (observation,)),
        ensures
            match self.observer.filter {
                Some(f) => call_ensures(f, (observation,), r),
                None => r,
            },
    {
        match &self.observer.filter {
            Some(f) => f(observation),
            None => true,
        }
    }

    /// Counts what became of an observation.
    pub fn record(&mut self, delivery: Delivery)
        ensures
            final(self).id == old(self).id,
            final(self).observer == old(self).observer,
            final(self).num_observed == if delivery == Delivery::Delivered {
                old(self).num_observed.wrapping_add(1)
            } else {
                old(self).num_observed
            },
            final(self).num_dropped == if delivery == Delivery::Full && !old(
                self,
            ).observer.blocking {
                old(self).num_dropped.wrapping_add(1)
            } else {
                old(self).num_dropped
            },
    {
        match delivery {
            Delivery::Delivered => {
                self.num_observed = self.num_observed.wrapping_add(1);
            },
            Delivery::Full => {
                if !self.observer.blocking {
                    self.num_dropped = self.num_dropped.wrapping_add(1);
                }
            },
            Delivery::Closed => {},
        }
    }
}

/// The registered observers.
pub struct Observers<F: Fn(&Observation) -> bool> {
    pub handles: Vec<ObserverHandle<F>>,
    /// The ID that the next observer gets.
    pub next_id: u64,
}

/// The handles without those of this ID, in the same order.
pub open spec fn other_handles<F: Fn(&Observation) -> bool>(
    handles: Seq<ObserverHandle<F>>,
    id: u64,
) -> Seq<ObserverHandle<F>>
    decreases handles.len(),
{
    if handles.len() == 0 {
        handles
    } else if handles.last().id == id {
        other_handles(handles.drop_last(), id)
    } else {
        other_handles(handles.drop_last(), id).push(handles.last())
    }
}

impl<F: Fn(&Observation) -> bool> Observers<F> {
    /// Every registered ID was given out before the next one.
    pub open spec fn well_formed(&self) -> bool {
        &&& forall|i: int|
            0 <= i < self.handles@.len() ==> (#[trigger] self.handles@[i]).id < self.next_id
        &&& forall|i: int, j: int|
            0 <= i < j < self.handles@.len() ==> (#[trigger] self.handles@[i]).id != (
            #[trigger] self.handles@[j]).id
    }

    /// No observer is registered.
    pub fn new() -> (r: Self)
        ensures
            r.well_formed(),
            r.handles@.len() == 0,
            r.next_id == 1,
    {
        Observers { handles: Vec::new(), next_id: 1 }
    }

    /// Registers an observer and returns its ID.
    pub fn register(&mut self, observer: Observer<F>) -> (id: u64)
        requires
            old(self).well_formed(),
            old(self).next_id < u64::MAX,
        ensures
            final(self).well_formed(),
            id == old(self).next_id,
            final(self).next_id == old(self).next_id + 1,
            final(self).handles@ == old(self).handles@.push(
                ObserverHandle { id, observer, num_observed: 0, num_dropped: 0 },
            ),
    {
        let id: u64 = self.next_id;
        self.next_id = id + 1;
        self.handles.push(ObserverHandle { id, observer, num_observed: 0, num_dropped: 0 });
        id
    }

    /// Removes the observer with the given ID, if registered.
    pub fn deregister(&mut self, id: u64)
        requires
            old(self).well_formed(),
        ensures
            final(self).well_formed(),
            final(self).next_id == old(self).next_id,
            final(self).handles@ == other_handles(old(self).handles@, id),
            forall|i: int|
                0 <= i < final(self).handles@.len() ==> (#[trigger] final(self).handles@[i]).id
                    != id,
    {
        proof {
            lemma_other_handles(self.handles@, id);
        }
        let mut i: usize = 0;
        while i < self.handles.len()
            invariant
                i <= self.handles@.len() <= old(self).handles@.len(),
                self.next_id == old(self).next_id,
                other_handles(self.handles@, id) == other_handles(old(self).handles@, id),
                forall|j: int| 0 <= j < i ==> (#[trigger] self.handles@[j]).id != id,
            decreases self.handles@.len() - i,
        {
            if self.handles[i].id == id {
                proof {
                    lemma_other_handles_remove(self.handles@, id, i as int);
                }
                let _removed = self.handles.remove(i);
            } else {
                i += 1;
            }
        }
        proof {
            lemma_other_handles_all(self.handles@, id);
        }
    }
}

proof fn lemma_other_handles<F: Fn(&Observation) -> bool>(
    handles: Seq<ObserverHandle<F>>,
    id: u64,
)
    ensures
        forall|i: int|
            0 <= i < other_handles(handles, id).len() ==> (#[trigger] other_handles(
                handles,
                id,
            )[i]).id != id && exists|j: int|
                0 <= j < handles.len() && other_handles(handles, id)[i] == handles[j],
        (forall|i: int, j: int|
            0 <= i < j < handles.len() ==> (#[trigger] handles[i]).id != (
            #[trigger] handles[j]).id) ==> (forall|i: int, j: int|
            0 <= i < j < other_handles(handles, id).len() ==> (#[trigger] other_handles(
                handles,
                id,
            )[i]).id != (#[trigger] other_handles(handles, id)[j]).id),
    decreases handles.len(),
{
    if handles.len() > 0 {
        let front = handles.drop_last();
        let rest = other_handles(front, id);
        let whole = other_handles(handles, id);
        lemma_other_handles(front, id);
        assert forall|i: int| 0 <= i < whole.len() implies (#[trigger] whole[i]).id != id
            && exists|j: int| 0 <= j < handles.len() && whole[i] == handles[j] by {
            if i < rest.len() {
                assert(whole[i] == rest[i]);
                let j = choose|j: int| 0 <= j < front.len() && rest[i] == front[j];
                assert(whole[i] == handles[j]);
            } else {
                assert(whole[i] == handles[handles.len() - 1]);
            }
        }
        if forall|i: int, j: int|
            0 <= i < j < handles.len() ==> (#[trigger] handles[i]).id != (
            #[trigger] handles[j]).id {
            assert forall|i: int, j: int| 0 <= i < j < front.len() implies (
            #[trigger] front[i]).id != (#[trigger] front[j]).id by {
                assert(handles[i].id != handles[j].id);
            }
            assert forall|i: int, j: int| 0 <= i < j < whole.len() implies (
            #[trigger] whole[i]).id != (#[trigger] whole[j]).id by {
                assert(whole[i] == rest[i]);
                if j < rest.len() {
                    assert(whole[j] == rest[j]);
                } else {
                    let k = choose|k: int| 0 <= k < front.len() && rest[i] == front[k];
                    assert(handles[k].id != handles[handles.len() - 1].id);
                }
            }
        }
    }
}

proof fn lemma_other_handles_remove<F: Fn(&Observation) -> bool>(
    handles: Seq<ObserverHandle<F>>,
    id: u64,
    k: int,
)
    requires
        0 <= k < handles.len(),
        handles[k].id == id,
    ensures
        other_handles(handles.remove(k), id) == other_handles(handles, id),
    decreases handles.len(),
{
    if k == handles.len() - 1 {
        assert(handles.remove(k) =~= handles.drop_last());
    } else {
        lemma_other_handles_remove(handles.drop_last(), id, k);
        assert(handles.remove(k).drop_last() =~= handles.drop_last().remove(k));
    }
}

proof fn lemma_other_handles_all<F: Fn(&Observation) -> bool>(
    handles: Seq<ObserverHandle<F>>,
    id: u64,
)
    requires
        forall|i: int| 0 <= i < handles.len() ==> (#[trigger] handles[i]).id != id,
    ensures
        other_handles(handles, id) == handles,
    decreases handles.len(),
{
    if handles.len() > 0 {
        assert(handles[handles.len() - 1].id != id);
        assert forall|i: int| 0 <= i < handles.drop_last().len() implies (
        #[trigger] handles.drop_last()[i]).id != id by {
            assert(handles[i].id != id);
        }
        lemma_other_handles_all(handles.drop_last(), id);
        assert(handles.drop_last().push(handles.last()) =~= handles);
    }
}

} // verus!
