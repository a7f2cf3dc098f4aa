//! Configuration of a raft node.

use crate::configuration::ServerID;
use crate::error::{RaftError, Result};
use crate::time::Duration;
use vstd::prelude::*;

verus! {

/// Maximum protocol version supported; only version 3 is implemented.
pub const PROTOCOL_VERSION_MAX: u8 = 3;

/// Snapshot version implemented by this library.
pub const SNAPSHOT_VERSION_MAX: u8 = 1;

/// Configures a raft node.
#[derive(Debug)]
pub struct Config {
    /// Time without contact from the leader after which a follower starts an
    /// election; heartbeats are sent at a tenth of it.
    pub heartbeat_timeout: Duration,
    /// Time after which a candidate restarts an undecided election.
    pub election_timeout: Duration,
    /// Batch window: the leader batches log application for this long before
    /// triggering replication.
    pub commit_timeout: Duration,
    /// Maximum number of log entries in a single AppendEntries batch.
    pub max_append_entries: usize,
    /// Whether the node shuts down when removed from the cluster.
    pub shutdown_on_remove: bool,
    /// Number of logs left in the store after a snapshot.
    pub trailing_logs: u64,
    /// Interval at which the snapshot check runs (randomized within
    /// `[interval, 2*interval)`).
    pub snapshot_interval: Duration,
    /// Minimum number of new logs since the last snapshot before a new
    /// snapshot is taken.
    pub snapshot_threshold: u64,
    /// How long a leader can go without quorum contact before stepping down.
    pub leader_lease_timeout: Duration,
    /// ID of this node; must be unique within the cluster.
    pub local_id: ServerID,
    /// Disable restoring snapshots on startup.
    pub no_snapshot_restore_on_start: bool,
    /// Disable the pre-vote phase.
    pub pre_vote_disabled: bool,
}

/// What a [`Config`] says, with spans in nanoseconds.
#[verifier::ext_equal]
pub struct ConfigView {
    pub heartbeat_timeout: nat,
    pub election_timeout: nat,
    pub commit_timeout: nat,
    pub max_append_entries: usize,
    pub shutdown_on_remove: bool,
    pub trailing_logs: u64,
    pub snapshot_interval: nat,
    pub snapshot_threshold: u64,
    pub leader_lease_timeout: nat,
    pub local_id: Seq<char>,
    pub no_snapshot_restore_on_start: bool,
    pub pre_vote_disabled: bool,
}

impl View for Config {
    type V = ConfigView;

    open spec fn view(&self) -> ConfigView {
        ConfigView {
            heartbeat_timeout: self.heartbeat_timeout@,
            election_timeout: self.election_timeout@,
            commit_timeout: self.commit_timeout@,
            max_append_entries: self.max_append_entries,
            shutdown_on_remove: self.shutdown_on_remove,
            trailing_logs: self.trailing_logs,
            snapshot_interval: self.snapshot_interval@,
            snapshot_threshold: self.snapshot_threshold,
            leader_lease_timeout: self.leader_lease_timeout@,
            local_id: self.local_id@,
            no_snapshot_restore_on_start: self.no_snapshot_restore_on_start,
            pre_vote_disabled: self.pre_vote_disabled,
        }
    }
}

impl Clone for Config {
    fn clone(&self) -> (r: Self)
        ensures
            r@ == self@,
    {
        Config {
            heartbeat_timeout: self.heartbeat_timeout,
            election_timeout: self.election_timeout,
            commit_timeout: self.commit_timeout,
            max_append_entries: self.max_append_entries,
            shutdown_on_remove: self.shutdown_on_remove,
            trailing_logs: self.trailing_logs,
            snapshot_interval: self.snapshot_interval,
            snapshot_threshold: self.snapshot_threshold,
            leader_lease_timeout: self.leader_lease_timeout,
            local_id: self.local_id.clone(),
            no_snapshot_restore_on_start: self.no_snapshot_restore_on_start,
            pre_vote_disabled: self.pre_vote_disabled,
        }
    }
}

/// A span of whole milliseconds, in nanoseconds.
pub open spec fn millis(n: nat) -> nat {
    n * 1_000_000
}

/// The settings a node starts from.
pub open spec fn default_config() -> ConfigView {
    ConfigView {
        heartbeat_timeout: millis(1000),
        election_timeout: millis(1000),
        commit_timeout: millis(50),
        max_append_entries: 64,
        shutdown_on_remove: true,
        trailing_logs: 10240,
        snapshot_interval: millis(120000),
        snapshot_threshold: 8192,
        leader_lease_timeout: millis(500),
        local_id: Seq::empty(),
        no_snapshot_restore_on_start: false,
        pre_vote_disabled: false,
    }
}

impl Default for Config {
    fn default() -> (r: Self)
        ensures
            r@ == default_config(),
    {
        Config {
            heartbeat_timeout: Duration::from_millis(1000),
            election_timeout: Duration::from_millis(1000),
            commit_timeout: Duration::from_millis(50),
            max_append_entries: 64,
            shutdown_on_remove: true,
            trailing_logs: 10240,
            snapshot_interval: Duration::from_secs(120),
            snapshot_threshold: 8192,
            leader_lease_timeout: Duration::from_millis(500),
            local_id: String::new(),
            no_snapshot_restore_on_start: false,
            pre_vote_disabled: false,
        }
    }
}

/// The first complaint about a configuration, if there is one.
pub open spec fn config_fault(c: ConfigView) -> Option<Seq<char>> {
    if c.local_id.len() == 0 {
        Some("LocalID must be set"@)
    } else if c.heartbeat_timeout < millis(5) {
        Some("HeartbeatTimeout is too low"@)
    } else if c.election_timeout < millis(5) {
        Some("ElectionTimeout is too low"@)
    } else if c.commit_timeout < millis(1) {
        Some("CommitTimeout is too low"@)
    } else if c.max_append_entries == 0 {
        Some("MaxAppendEntries must be positive"@)
    } else if c.max_append_entries > 1024 {
        Some("MaxAppendEntries is too large"@)
    } else if c.snapshot_interval < millis(5) {
        Some("SnapshotInterval is too low"@)
    } else if c.leader_lease_timeout < millis(5) {
        Some("LeaderLeaseTimeout is too low"@)
    } else if c.leader_lease_timeout > c.heartbeat_timeout {
        Some("LeaderLeaseTimeout cannot be larger than heartbeat timeout"@)
    } else if c.election_timeout < c.heartbeat_timeout {
        Some("ElectionTimeout must be equal or greater than Heartbeat Timeout"@)
    } else {
        None
    }
}

impl Config {
    /// Validates the configuration.
    pub fn validate(&self) -> (r: Result<()>)
        ensures
            match config_fault(self@) {
                Some(text) => r matches Err(RaftError::Configuration(m)) && m@ == text,
                None => r is Ok,
            },
    {
        let lowest = Duration::from_millis(5);
        if self.local_id.as_str().is_empty() {
            return Err(RaftError::Configuration("LocalID must be set".to_owned()));
        }
        if self.heartbeat_timeout.shorter_than(&lowest) {
            return Err(RaftError::Configuration("HeartbeatTimeout is too low".to_owned()));
        }
        if self.election_timeout.shorter_than(&lowest) {
            return Err(RaftError::Configuration("ElectionTimeout is too low".to_owned()));
        }
        if self.commit_timeout.shorter_than(&Duration::from_millis(1)) {
            return Err(RaftError::Configuration("CommitTimeout is too low".to_owned()));
        }
        if self.max_append_entries == 0 {
            return Err(RaftError::Configuration("MaxAppendEntries must be positive".to_owned()));
        }
        if self.max_append_entries > 1024 {
            return Err(RaftError::Configuration("MaxAppendEntries is too large".to_owned()));
        }
        if self.snapshot_interval.shorter_than(&lowest) {
            return Err(RaftError::Configuration("SnapshotInterval is too low".to_owned()));
        }
        if self.leader_lease_timeout.shorter_than(&lowest) {
            return Err(RaftError::Configuration("LeaderLeaseTimeout is too low".to_owned()));
        }
        if self.heartbeat_timeout.shorter_than(&self.leader_lease_timeout) {
            return Err(
                RaftError::Configuration(
                    "LeaderLeaseTimeout cannot be larger than heartbeat timeout".to_owned(),
                ),
            );
        }
        if self.election_timeout.shorter_than(&self.heartbeat_timeout) {
            return Err(
                RaftError::Configuration(
                    "ElectionTimeout must be equal or greater than Heartbeat Timeout".to_owned(),
                ),
            );
        }
        Ok(())
    }

    /// The configuration with the given reloadable parts.
    pub fn reloaded(&self, rc: &ReloadableConfig) -> (r: Self)
        ensures
            r@ == (ConfigView {
                trailing_logs: rc.trailing_logs,
                snapshot_interval: rc.snapshot_interval@,
                snapshot_threshold: rc.snapshot_threshold,
                heartbeat_timeout: rc.heartbeat_timeout@,
                election_timeout: rc.election_timeout@,
                ..self@
            }),
    {
        let mut next = self.clone();
        next.trailing_logs = rc.trailing_logs;
        next.snapshot_interval = rc.snapshot_interval;
        next.snapshot_threshold = rc.snapshot_threshold;
        next.heartbeat_timeout = rc.heartbeat_timeout;
        next.election_timeout = rc.election_timeout;
        next
    }
}

/// The subset of Config that can be reloaded at runtime.
#[derive(Debug, Clone, Copy)]
pub struct ReloadableConfig {
    pub trailing_logs: u64,
    pub snapshot_interval: Duration,
    pub snapshot_threshold: u64,
    pub heartbeat_timeout: Duration,
    pub election_timeout: Duration,
}

impl From<&Config> for ReloadableConfig {
    fn from(c: &Config) -> (r: Self) {
        ReloadableConfig {
            trailing_logs: c.trailing_logs,
            snapshot_interval: c.snapshot_interval,
            snapshot_threshold: c.snapshot_threshold,
            heartbeat_timeout: c.heartbeat_timeout,
            election_timeout: c.election_timeout,
        }
    }
}

impl vstd::std_specs::convert::FromSpecImpl<&Config> for ReloadableConfig {
    open spec fn obeys_from_spec() -> bool {
        true
    }

    open spec fn from_spec(c: &Config) -> ReloadableConfig {
        ReloadableConfig {
            trailing_logs: c.trailing_logs,
            snapshot_interval: c.snapshot_interval,
            snapshot_threshold: c.snapshot_threshold,
            heartbeat_timeout: c.heartbeat_timeout,
            election_timeout: c.election_timeout,
        }
    }
}

/// Reloading the parts that a configuration already has changes nothing.
pub proof fn law_reloading_own_parts_keeps_config(c: Config)
    ensures
        ({
            let own = <ReloadableConfig as vstd::std_specs::convert::FromSpec<&Config>>::from_spec(
                &c,
            );
            (ConfigView {
                trailing_logs: own.trailing_logs,
                snapshot_interval: own.snapshot_interval@,
                snapshot_threshold: own.snapshot_threshold,
                heartbeat_timeout: own.heartbeat_timeout@,
                election_timeout: own.election_timeout@,
                ..c@
            }) == c@
        }),
{
}

/// The default settings lack nothing but an ID.
pub proof fn law_default_config_needs_only_an_id(id: Seq<char>)
    requires
        id.len() > 0,
    ensures
        config_fault((ConfigView { local_id: id, ..default_config() })) is None,
        config_fault(default_config()) == Some("LocalID must be set"@),
{
}

} // verus!
