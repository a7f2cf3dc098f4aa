use raft::config::{Config, ReloadableConfig};
use raft::error::RaftError;
use raft::time::Duration;

fn node() -> Config {
    Config {
        local_id: "node1".into(),
        ..Default::default()
    }
}

fn fault(c: &Config) -> String {
    match c.validate().unwrap_err() {
        RaftError::Configuration(text) => text,
        other => panic!("unexpected error: {:?}", other),
    }
}

#[test]
fn default_config_is_valid() {
    let c = Config {
        local_id: "node1".into(),
        ..Default::default()
    };
    assert!(c.validate().is_ok());
}

#[test]
fn empty_local_id_is_rejected() {
    assert!(Config::default().validate().is_err());
}

#[test]
fn each_limit_has_its_complaint() {
    let low = Duration::from_millis(4);
    let mut c = node();
    c.heartbeat_timeout = low;
    assert_eq!(fault(&c), "HeartbeatTimeout is too low");
    let mut c = node();
    c.election_timeout = low;
    assert_eq!(fault(&c), "ElectionTimeout is too low");
    let mut c = node();
    c.commit_timeout = Duration::zero();
    assert_eq!(fault(&c), "CommitTimeout is too low");
    let mut c = node();
    c.max_append_entries = 0;
    assert_eq!(fault(&c), "MaxAppendEntries must be positive");
    c.max_append_entries = 1025;
    assert_eq!(fault(&c), "MaxAppendEntries is too large");
    let mut c = node();
    c.snapshot_interval = low;
    assert_eq!(fault(&c), "SnapshotInterval is too low");
    let mut c = node();
    c.leader_lease_timeout = low;
    assert_eq!(fault(&c), "LeaderLeaseTimeout is too low");
    let mut c = node();
    c.leader_lease_timeout = c.heartbeat_timeout.plus(&Duration::from_millis(1));
    assert_eq!(
        fault(&c),
        "LeaderLeaseTimeout cannot be larger than heartbeat timeout"
    );
    let mut c = node();
    c.election_timeout = c.heartbeat_timeout.saturating_sub(&Duration::from_millis(1));
    assert_eq!(
        fault(&c),
        "ElectionTimeout must be equal or greater than Heartbeat Timeout"
    );
}

#[test]
fn reloading_own_parts_keeps_the_config() {
    let c = node();
    let parts = ReloadableConfig::from(&c);
    let again = c.reloaded(&parts);
    assert_eq!(again.trailing_logs, c.trailing_logs);
    assert_eq!(again.snapshot_threshold, c.snapshot_threshold);
    assert_eq!(again.snapshot_interval.as_millis(), c.snapshot_interval.as_millis());
    assert_eq!(again.heartbeat_timeout.as_millis(), c.heartbeat_timeout.as_millis());
    assert_eq!(again.election_timeout.as_millis(), c.election_timeout.as_millis());
    assert_eq!(again.local_id, "node1");
}
