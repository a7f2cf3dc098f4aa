//! The state of a raft node and the transitions that every role shares.

use crate::config::{Config, ConfigView, PROTOCOL_VERSION_MAX};
use crate::configuration::{Configuration, ServerAddress, ServerID, ServerView};
use crate::error::{step_and_cause, step_text, RaftError, Result};
use crate::log::{Log, LogType, LogView};
use crate::observer::{LeaderObservation, ObservationData, ObservationView};
use crate::stable::{
    bytes_answered, key_bytes, law_keys_differ, number_answered, StableStore, CURRENT_TERM_KEY,
    LAST_VOTE_CAND_KEY, LAST_VOTE_TERM_KEY,
};
use crate::state::{RaftSharedState, RaftState};
use crate::text::{decimal, push_decimal};
use crate::time::Instant;
use crate::transport::{HeaderView, RPCHeader};
use vstd::prelude::*;

verus! {

/// The latest and committed configurations known to a raft node.
#[derive(Debug)]
pub struct Configurations {
    pub committed: Configuration,
    pub committed_index: u64,
    pub latest: Configuration,
    pub latest_index: u64,
}

/// What [`Configurations`] say.
#[verifier::ext_equal]
pub struct ConfigurationsView {
    pub committed: Seq<ServerView>,
    pub committed_index: u64,
    pub latest: Seq<ServerView>,
    pub latest_index: u64,
}

impl View for Configurations {
    type V = ConfigurationsView;

    open spec fn view(&self) -> ConfigurationsView {
        ConfigurationsView {
            committed: self.committed@,
            committed_index: self.committed_index,
            latest: self.latest@,
            latest_index: self.latest_index,
        }
    }
}

impl Clone for Configurations {
    fn clone(&self) -> (r: Self)
        ensures
            r@ == self@,
    {
        Configurations {
            committed: self.committed.clone(),
            committed_index: self.committed_index,
            latest: self.latest.clone(),
            latest_index: self.latest_index,
        }
    }
}

/// No configuration is known.
pub open spec fn no_configurations() -> ConfigurationsView {
    ConfigurationsView {
        committed: Seq::empty(),
        committed_index: 0,
        latest: Seq::empty(),
        latest_index: 0,
    }
}

impl Default for Configurations {
    fn default() -> (r: Self)
        ensures
            r@ == no_configurations(),
    {
        Configurations {
            committed: Configuration::default(),
            committed_index: 0,
            latest: Configuration::default(),
            latest_index: 0,
        }
    }
}

/// The latest configuration in use by raft and its log index.
#[derive(Debug)]
pub struct ConfigurationValue {
    pub configuration: Configuration,
    pub index: u64,
}

/// A failure after which a node must not go on: it would break a promise
/// that it has given to its peers or to its own state machine.
#[derive(Debug)]
pub enum Fatal {
    /// A new term could not be made durable.
    TermNotSaved(RaftError),
    /// A committed entry could not be read.
    LogUnread(u64, RaftError),
    /// A snapshot that was written could not be restored.
    SnapshotNotRestored(RaftError),
}

/// Whether this is the text of a fatal failure.
pub open spec fn fatal_text(f: Fatal, text: Seq<char>) -> bool {
    match f {
        Fatal::TermNotSaved(e) => step_text("failed to save current term: "@, e, text),
        Fatal::LogUnread(index, e) => step_text(
            "failed to get log "@ + decimal(index as nat) + ": "@,
            e,
            text,
        ),
        Fatal::SnapshotNotRestored(e) => step_text("failed to restore snapshot: "@, e, text),
    }
}

impl Fatal {
    /// The failure as text.
    pub fn message(&self) -> (r: String)
        ensures
            fatal_text(*self, r@),
    {
        match self {
            Fatal::TermNotSaved(e) => step_and_cause("failed to save current term: ", e),
            Fatal::LogUnread(index, e) => {
                let mut step = "failed to get log ".to_owned();
                push_decimal(&mut step, *index as u128);
                step.append(": ");
                step_and_cause(step.as_str(), e)
            },
            Fatal::SnapshotNotRestored(e) => step_and_cause("failed to restore snapshot: ", e),
        }
    }
}

/// The state of a raft node.
#[derive(Debug)]
pub struct RaftCore {
    pub conf: Config,
    pub shared: RaftSharedState,
    pub local_id: ServerID,
    pub local_addr: ServerAddress,
    /// The known leader, empty where none is known.
    pub leader_addr: ServerAddress,
    pub leader_id: ServerID,
    /// Whether this candidacy was asked for by the leader.
    pub candidate_from_leadership_transfer: bool,
    /// Tracks the latest and committed configurations from the log/snapshot.
    pub configurations: Configurations,
    /// Copy of the latest configuration and its index, for readers.
    pub latest_configuration: ConfigurationValue,
    /// Observations that wait to be delivered, oldest first.
    pub observations: Vec<ObservationData>,
    /// Whether shutdown has been initiated.
    pub shutdown: bool,
}

/// What a [`RaftCore`] holds.
#[verifier::ext_equal]
pub struct NodeView {
    pub conf: ConfigView,
    pub shared: RaftSharedState,
    pub local_id: Seq<char>,
    pub local_addr: Seq<char>,
    pub leader_addr: Seq<char>,
    pub leader_id: Seq<char>,
    pub from_transfer: bool,
    pub configurations: ConfigurationsView,
    pub readable: Seq<ServerView>,
    pub readable_index: u64,
    pub observed: Seq<ObservationView>,
    pub shutdown: bool,
}

/// What a list of observations says, one by one.
pub open spec fn observation_views(observations: Seq<ObservationData>) -> Seq<ObservationView> {
    observations.map_values(|o: ObservationData| o@)
}

impl View for RaftCore {
    type V = NodeView;

    open spec fn view(&self) -> NodeView {
        NodeView {
            conf: self.conf@,
            shared: self.shared,
            local_id: self.local_id@,
            local_addr: self.local_addr@,
            leader_addr: self.leader_addr@,
            leader_id: self.leader_id@,
            from_transfer: self.candidate_from_leadership_transfer,
            configurations: self.configurations@,
            readable: self.latest_configuration.configuration@,
            readable_index: self.latest_configuration.index,
            observed: observation_views(self.observations@),
            shutdown: self.shutdown,
        }
    }
}

/// The header of this node's messages.
pub open spec fn own_header(n: NodeView) -> HeaderView {
    HeaderView { protocol_version: PROTOCOL_VERSION_MAX, id: n.local_id, addr: n.local_addr }
}

/// The node after one more observation.
pub open spec fn with_observation(n: NodeView, o: ObservationView) -> NodeView {
    NodeView { observed: n.observed.push(o), ..n }
}

/// The node after it learned of a leader; forgetting the leader is not an
/// observation.
pub open spec fn with_leader(n: NodeView, addr: Seq<char>, id: Seq<char>) -> NodeView {
    let m = NodeView { leader_addr: addr, leader_id: id, ..n };
    if addr.len() > 0 {
        with_observation(
            m,
            ObservationView::Leader { leader_addr: addr, leader_id: id, leader: addr },
        )
    } else {
        m
    }
}

/// The node after it forgot the leader.
pub open spec fn without_leader(n: NodeView) -> NodeView {
    with_leader(n, Seq::empty(), Seq::empty())
}

/// The node after a change of role, which clears the known leader.
pub open spec fn with_state(n: NodeView, s: RaftState) -> NodeView {
    with_observation(
        (NodeView {
            shared: RaftSharedState { state: s, ..n.shared },
            ..without_leader(n)
        }),
        ObservationView::State { state: s },
    )
}

/// The node in another term.
pub open spec fn with_term(n: NodeView, term: u64) -> NodeView {
    NodeView { shared: RaftSharedState { current_term: term, ..n.shared }, ..n }
}

/// The node after contact with a leader.
pub open spec fn with_contact(n: NodeView, now: Instant) -> NodeView {
    NodeView { shared: RaftSharedState { last_contact: Some(now), ..n.shared }, ..n }
}

/// The node with another latest configuration.
pub open spec fn with_latest(n: NodeView, servers: Seq<ServerView>, index: u64) -> NodeView {
    NodeView {
        configurations: ConfigurationsView {
            latest: servers,
            latest_index: index,
            ..n.configurations
        },
        readable: servers,
        readable_index: index,
        ..n
    }
}

/// The node with another committed configuration.
pub open spec fn with_committed(n: NodeView, servers: Seq<ServerView>, index: u64) -> NodeView {
    NodeView {
        configurations: ConfigurationsView {
            committed: servers,
            committed_index: index,
            ..n.configurations
        },
        ..n
    }
}

/// The node after its latest configuration was found committed.
pub open spec fn latest_is_committed(n: NodeView) -> NodeView {
    with_committed(n, n.configurations.latest, n.configurations.latest_index)
}

/// The node after a new log entry, of which `decoded` is the configuration
/// it carries: the latest configuration becomes the committed one, and the
/// entry's the latest. Where the entry cannot be decoded, the latest
/// configuration is emptied and keeps its index.
pub open spec fn with_log_entry(
    n: NodeView,
    entry: LogView,
    decoded: Option<Seq<ServerView>>,
) -> NodeView {
    if entry.log_type != LogType::Configuration {
        n
    } else {
        let m = latest_is_committed(n);
        match decoded {
            Some(servers) => with_latest(m, servers, entry.index),
            None => NodeView {
                configurations: ConfigurationsView { latest: Seq::empty(), ..m.configurations },
                ..m
            },
        }
    }
}

/// The term of the recorded vote, 0 where none is recorded.
pub open spec fn recorded_vote_term<S: StableStore>(s: &S) -> u64 {
    if s.numbers().contains_key(key_bytes(LAST_VOTE_TERM_KEY)) {
        s.numbers()[key_bytes(LAST_VOTE_TERM_KEY)]
    } else {
        0
    }
}

/// The candidate of the recorded vote.
pub open spec fn recorded_candidate<S: StableStore>(s: &S) -> Option<Seq<u8>> {
    if s.byte_values().contains_key(key_bytes(LAST_VOTE_CAND_KEY)) {
        Some(s.byte_values()[key_bytes(LAST_VOTE_CAND_KEY)])
    } else {
        None
    }
}

/// The recorded term, 0 where none is recorded.
pub open spec fn recorded_term<S: StableStore>(s: &S) -> u64 {
    if s.numbers().contains_key(key_bytes(CURRENT_TERM_KEY)) {
        s.numbers()[key_bytes(CURRENT_TERM_KEY)]
    } else {
        0
    }
}

/// Whether a store may take a term, or may fail to.
pub open spec fn term_answered<S: StableStore>(stable: S, term: u64, taken: bool) -> bool {
    exists|set: Result<()>|
        set is Ok == taken && #[trigger] number_answered(
            stable,
            key_bytes(CURRENT_TERM_KEY),
            term,
            set,
        )
}

/// Whether a node fails because the store did not take a term.
pub open spec fn term_unsaved<S: StableStore>(stable: S, term: u64, f: Fatal) -> bool {
    f matches Fatal::TermNotSaved(e) && number_answered(
        stable,
        key_bytes(CURRENT_TERM_KEY),
        term,
        Err(e),
    )
}

/// Whether a vote is not recorded because the store says so: of the term, or,
/// once that is stored, of the candidate.
pub open spec fn vote_unrecorded<S: StableStore>(
    stable: S,
    term: u64,
    candidate: &[u8],
    e: RaftError,
) -> bool {
    ||| number_answered(stable, key_bytes(LAST_VOTE_TERM_KEY), term, Err(e))
    ||| exists|between: S, set: Result<()>|
        {
            &&& set is Ok
            &&& #[trigger] number_answered(stable, key_bytes(LAST_VOTE_TERM_KEY), term, set)
            &&& between.numbers() == stable.numbers().insert(key_bytes(LAST_VOTE_TERM_KEY), term)
            &&& #[trigger] bytes_answered(
                between,
                key_bytes(LAST_VOTE_CAND_KEY),
                candidate,
                Err(e),
            )
        }
}

/// Persists a vote: first the term, then the candidate.
pub fn persist_vote<S: StableStore>(stable: &mut S, term: u64, candidate: &[u8]) -> (r: Result<()>)
    ensures
        r is Ok ==> recorded_vote_term(final(stable)) == term,
        r is Ok ==> recorded_candidate(final(stable)) == Some(candidate@),
        r is Ok ==> recorded_term(final(stable)) == recorded_term(old(stable)),
        r matches Err(e) ==> vote_unrecorded(*old(stable), term, candidate, e),
{
    proof {
        law_keys_differ();
    }
    let ghost before = stable.numbers();
    let term_key = LAST_VOTE_TERM_KEY.as_bytes();
    let term_set = stable.set_u64(term_key, term);
    assert(number_answered(*old(stable), key_bytes(LAST_VOTE_TERM_KEY), term, term_set));
    match term_set {
        Ok(()) => {},
        Err(e) => {
            return Err(e);
        },
    }
    let ghost between = stable.numbers();
    let ghost store = *stable;
    let cand_key = LAST_VOTE_CAND_KEY.as_bytes();
    let cand_set = stable.set(cand_key, candidate);
    assert(bytes_answered(store, key_bytes(LAST_VOTE_CAND_KEY), candidate, cand_set));
    match cand_set {
        Ok(()) => {
            proof {
                let cand = key_bytes(LAST_VOTE_CAND_KEY);
                let vote = key_bytes(LAST_VOTE_TERM_KEY);
                let current = key_bytes(CURRENT_TERM_KEY);
                assert(stable.numbers().remove(cand) == between.remove(cand));
                assert(stable.numbers().remove(cand).contains_key(vote)
                    == stable.numbers().contains_key(vote));
                assert(stable.numbers().remove(cand).contains_key(current)
                    == stable.numbers().contains_key(current));
                assert(between.remove(cand)[vote] == between[vote]);
                if between.contains_key(current) {
                    assert(between.remove(cand)[current] == between[current]);
                    assert(stable.numbers().remove(cand)[current] == stable.numbers()[current]);
                }
                assert(stable.numbers().remove(cand)[vote] == stable.numbers()[vote]);
            }
            Ok(())
        },
        Err(e) => Err(e),
    }
}

impl RaftCore {
    /// An initialized RPC header for outgoing requests and responses.
    pub fn rpc_header(&self) -> (r: RPCHeader)
        ensures
            r@ == own_header(self@),
    {
        RPCHeader {
            protocol_version: PROTOCOL_VERSION_MAX,
            id: self.local_id.clone(),
            addr: self.local_addr.clone(),
        }
    }

    /// Keeps an observation for delivery.
    pub fn observe(&mut self, data: ObservationData)
        ensures
            final(self)@ == with_observation(old(self)@, data@),
    {
        self.observations.push(data);
        assert(self@.observed =~= old(self)@.observed.push(data@));
    }

    /// Takes the observations that wait to be delivered.
    pub fn take_observations(&mut self) -> (r: Vec<ObservationData>)
        ensures
            observation_views(r@) == old(self)@.observed,
            final(self)@ == (NodeView { observed: Seq::empty(), ..old(self)@ }),
    {
        let mut taken: Vec<ObservationData> = Vec::new();
        std::mem::swap(&mut taken, &mut self.observations);
        assert(self@.observed =~= Seq::<ObservationView>::empty());
        taken
    }

    /// Updates the current leader address and ID.
    pub fn set_leader(&mut self, addr: ServerAddress, id: ServerID)
        ensures
            final(self)@ == with_leader(old(self)@, addr@, id@),
    {
        self.leader_addr = addr.clone();
        self.leader_id = id.clone();
        // Only the transition to a real leader is an observation.
        if !addr.as_str().is_empty() {
            let leader = addr.clone();
            self.observe(
                ObservationData::Leader(
                    LeaderObservation { leader_addr: addr, leader_id: id, leader },
                ),
            );
        }
    }

    /// Forgets the current leader.
    pub fn clear_leader(&mut self)
        ensures
            final(self)@ == without_leader(old(self)@),
    {
        self.set_leader(String::new(), String::new());
    }

    /// The current leader address and ID, empty strings if unknown.
    pub fn leader_with_id(&self) -> (r: (ServerAddress, ServerID))
        ensures
            r.0@ == self@.leader_addr,
            r.1@ == self@.leader_id,
    {
        (self.leader_addr.clone(), self.leader_id.clone())
    }

    /// Updates the current state. Any state transition clears the known
    /// leader, so the leader must be set only after updating the state.
    pub fn set_state(&mut self, state: RaftState)
        ensures
            final(self)@ == with_state(old(self)@, state),
    {
        self.clear_leader();
        self.shared.set_state(state);
        self.observe(ObservationData::State(state));
    }

    /// Sets the current term in a durable manner: persisted to the stable
    /// store before the in-memory update.
    pub fn set_current_term<S: StableStore>(&mut self, stable: &mut S, term: u64) -> (r:
        std::result::Result<(), Fatal>)
        ensures
            r is Ok ==> final(self)@ == with_term(old(self)@, term),
            r is Ok ==> recorded_term(final(stable)) == term,
            r is Ok ==> recorded_vote_term(final(stable)) == recorded_vote_term(old(stable)),
            r is Ok ==> recorded_candidate(final(stable)) == recorded_candidate(old(stable)),
            r is Ok ==> term_answered(*old(stable), term, true),
            r matches Err(f) ==> term_unsaved(*old(stable), term, f) && final(self)@ == old(
                self,
            )@,
    {
        proof {
            law_keys_differ();
        }
        let ghost before = stable.byte_values();
        let key = CURRENT_TERM_KEY.as_bytes();
        let set = stable.set_u64(key, term);
        assert(number_answered(*old(stable), key_bytes(CURRENT_TERM_KEY), term, set));
        match set {
            Ok(()) => {
                proof {
                    let cand = key_bytes(LAST_VOTE_CAND_KEY);
                    let current = key_bytes(CURRENT_TERM_KEY);
                    assert(stable.byte_values().remove(current).contains_key(cand)
                        == stable.byte_values().contains_key(cand));
                    assert(before.remove(current).contains_key(cand) == before.contains_key(cand));
                    if before.contains_key(cand) {
                        assert(before.remove(current)[cand] == before[cand]);
                        assert(stable.byte_values().remove(current)[cand]
                            == stable.byte_values()[cand]);
                    }
                }
                self.shared.set_current_term(term);
                Ok(())
            },
            Err(e) => Err(Fatal::TermNotSaved(e)),
        }
    }

    /// Stores the latest configuration and updates the readable copy.
    pub fn set_latest_configuration(&mut self, conf: Configuration, index: u64)
        ensures
            final(self)@ == with_latest(old(self)@, conf@, index),
    {
        self.latest_configuration = ConfigurationValue { configuration: conf.clone(), index };
        self.configurations.latest = conf;
        self.configurations.latest_index = index;
    }

    /// Stores the committed configuration.
    pub fn set_committed_configuration(&mut self, conf: Configuration, index: u64)
        ensures
            final(self)@ == with_committed(old(self)@, conf@, index),
    {
        self.configurations.committed = conf;
        self.configurations.committed_index = index;
    }

    /// Makes the latest configuration the committed one.
    pub fn commit_latest_configuration(&mut self)
        ensures
            final(self)@ == latest_is_committed(old(self)@),
    {
        let latest = self.configurations.latest.clone();
        let index: u64 = self.configurations.latest_index;
        self.set_committed_configuration(latest, index);
    }

    /// Updates the configurations if the entry is a configuration entry;
    /// `decoded` is the configuration that the entry's data decodes to.
    pub fn process_configuration_log_entry(
        &mut self,
        entry: &Log,
        decoded: &Option<Configuration>,
    )
        ensures
            final(self)@ == with_log_entry(old(self)@, entry@, decoded_view(*decoded)),
    {
        if entry.log_type == LogType::Configuration {
            let mut latest = Configuration::default();
            std::mem::swap(&mut latest, &mut self.configurations.latest);
            let index: u64 = self.configurations.latest_index;
            self.set_committed_configuration(latest, index);
            match decoded {
                Some(conf) => {
                    self.set_latest_configuration(conf.clone(), entry.index);
                },
                None => {},
            }
        }
    }

    /// The latest configuration copy and its index.
    pub fn latest_configuration(&self) -> (r: ConfigurationValue)
        ensures
            r.configuration@ == self@.readable,
            r.index == self@.readable_index,
    {
        ConfigurationValue {
            configuration: self.latest_configuration.configuration.clone(),
            index: self.latest_configuration.index,
        }
    }

    /// The configurations, as a request for them is answered in every role.
    pub fn answer_configurations(&self) -> (r: Configurations)
        ensures
            r@ == self@.configurations,
    {
        self.configurations.clone()
    }

    /// Initiates shutdown; tells whether this call was the one that did.
    pub fn initiate_shutdown(&mut self) -> (r: bool)
        ensures
            r == !old(self)@.shutdown,
            final(self)@ == if old(self)@.shutdown {
                old(self)@
            } else {
                NodeView {
                    shared: RaftSharedState { state: RaftState::Shutdown, ..old(self)@.shared },
                    shutdown: true,
                    ..old(self)@
                }
            },
    {
        if self.shutdown {
            return false;
        }
        self.shutdown = true;
        self.shared.set_state(RaftState::Shutdown);
        true
    }
}

/// The servers of a decoded configuration.
pub open spec fn decoded_view(decoded: Option<Configuration>) -> Option<Seq<ServerView>> {
    match decoded {
        Some(conf) => Some(conf@),
        None => None,
    }
}

} // verus!
