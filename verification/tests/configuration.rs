use raft::configuration::{
    check_configuration, next_configuration, Configuration, ConfigurationChangeCommand,
    ConfigurationChangeRequest, Server, ServerSuffrage,
};
use raft::error::RaftError;

fn req(cmd: ConfigurationChangeCommand, id: &str, addr: &str) -> ConfigurationChangeRequest {
    ConfigurationChangeRequest {
        command: cmd,
        server_id: id.to_string(),
        server_address: addr.to_string(),
        prev_index: 0,
    }
}

fn voter(id: &str, addr: &str) -> Server {
    Server {
        suffrage: ServerSuffrage::Voter,
        id: id.to_string(),
        address: addr.to_string(),
    }
}

fn text_of(err: RaftError) -> String {
    match err {
        RaftError::Configuration(text) => text,
        other => panic!("unexpected error: {:?}", other),
    }
}

#[test]
fn add_voter_appends_new_server() {
    let conf = Configuration {
        servers: vec![voter("a", "addr-a")],
    };
    let next = next_configuration(
        &conf,
        &req(ConfigurationChangeCommand::AddVoter, "b", "addr-b"),
    )
    .unwrap();
    assert_eq!(next.servers.len(), 2);
    assert!(next.has_vote("b"));
}

#[test]
fn remove_server_drops_it() {
    let conf = Configuration {
        servers: vec![voter("a", "addr-a"), voter("b", "addr-b")],
    };
    let next = next_configuration(
        &conf,
        &req(ConfigurationChangeCommand::RemoveServer, "b", ""),
    )
    .unwrap();
    assert_eq!(next.servers.len(), 1);
    assert!(!next.servers.iter().any(|s| s.id == "b"));
}

#[test]
fn demote_voter_keeps_server_without_vote() {
    let conf = Configuration {
        servers: vec![voter("a", "addr-a"), voter("b", "addr-b")],
    };
    let next = next_configuration(
        &conf,
        &req(ConfigurationChangeCommand::DemoteVoter, "b", ""),
    )
    .unwrap();
    assert_eq!(next.servers.len(), 2);
    assert!(!next.has_vote("b"));
}

#[test]
fn check_configuration_rejects_no_voters() {
    let conf = Configuration {
        servers: vec![Server {
            suffrage: ServerSuffrage::Nonvoter,
            id: "a".into(),
            address: "addr-a".into(),
        }],
    };
    assert!(check_configuration(&conf).is_err());
}

#[test]
fn check_configuration_rejects_duplicate_ids() {
    let conf = Configuration {
        servers: vec![voter("a", "addr-a"), voter("a", "addr-b")],
    };
    assert!(check_configuration(&conf).is_err());
}

#[test]
fn configuration_faults_are_named() {
    let blank_id = Configuration {
        servers: vec![voter("", "addr-a")],
    };
    assert!(text_of(check_configuration(&blank_id).unwrap_err()).contains("ID"));

    let blank_addr = Configuration {
        servers: vec![voter("a", "")],
    };
    assert!(text_of(check_configuration(&blank_addr).unwrap_err()).contains("address"));

    let same_addr = Configuration {
        servers: vec![voter("a", "addr"), voter("b", "addr")],
    };
    assert!(text_of(check_configuration(&same_addr).unwrap_err()).contains("addr"));
}

#[test]
fn the_last_voter_cannot_be_removed() {
    let conf = Configuration {
        servers: vec![voter("a", "addr-a")],
    };
    let err = next_configuration(
        &conf,
        &req(ConfigurationChangeCommand::RemoveServer, "a", ""),
    )
    .unwrap_err();
    assert!(text_of(err).contains("voter"));
}

#[test]
fn a_nonvoter_does_not_count_for_the_quorum() {
    let conf = Configuration {
        servers: vec![voter("a", "addr-a"), voter("b", "addr-b"), voter("c", "addr-c")],
    };
    assert_eq!(conf.quorum_size(), 2);
    let next = next_configuration(
        &conf,
        &req(ConfigurationChangeCommand::AddNonvoter, "d", "addr-d"),
    )
    .unwrap();
    assert_eq!(next.servers.len(), 4);
    assert!(next.contains("d"));
    assert!(!next.has_vote("d"));
    assert_eq!(next.quorum_size(), 2);
    // Adding a voter as a nonvoter takes its vote and moves its address.
    let regraded = next_configuration(
        &next,
        &req(ConfigurationChangeCommand::AddNonvoter, "a", "addr-x"),
    )
    .unwrap();
    assert_eq!(regraded.servers.len(), 4);
    assert!(!regraded.has_vote("a"));
    assert_eq!(regraded.servers[0].address, "addr-x");
    // Adding it as a voter gives it the vote and the quorum grows.
    let grown = next_configuration(
        &next,
        &req(ConfigurationChangeCommand::AddVoter, "d", "addr-e"),
    )
    .unwrap();
    assert!(grown.has_vote("d"));
    assert_eq!(grown.servers.len(), 4);
    assert_eq!(grown.quorum_size(), 3);
}
