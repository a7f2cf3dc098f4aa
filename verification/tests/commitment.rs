use raft::commitment::Commitment;
use raft::configuration::{Configuration, Server, ServerSuffrage};

fn make_configuration(voters: &[&str]) -> Configuration {
    Configuration {
        servers: voters
            .iter()
            .map(|id| Server {
                suffrage: ServerSuffrage::Voter,
                id: id.to_string(),
                address: format!("{}addr", id),
            })
            .collect(),
    }
}

fn voters(n: usize) -> Configuration {
    make_configuration(&["s1", "s2", "s3", "s4", "s5", "s6", "s7"][..n])
}

#[test]
fn set_configuration_keeps_match_indexes() {
    let mut c = Commitment::new(&make_configuration(&["a", "b", "c"]), 0);
    c.match_index("a", 10);
    c.match_index("b", 20);
    c.match_index("c", 30);
    // commit_index: 20
    assert!(c.take_notice());
    c.set_configuration(&make_configuration(&["c", "d", "e"]));
    // c: 30, d: 0, e: 0
    c.match_index("e", 40);
    assert_eq!(c.commit_index(), 30);
    assert!(c.take_notice());
}

#[test]
fn match_with_earlier_index_is_ignored() {
    let mut c = Commitment::new(&voters(5), 4);
    c.match_index("s1", 8);
    c.match_index("s2", 8);
    c.match_index("s2", 1);
    c.match_index("s3", 8);
    assert_eq!(c.commit_index(), 8);
}

#[test]
fn match_from_non_voters_is_ignored() {
    let mut c = Commitment::new(&voters(5), 4);
    c.match_index("s1", 8);
    c.match_index("s2", 8);
    c.match_index("s3", 8);
    assert!(c.take_notice());

    c.match_index("s90", 10);
    c.match_index("s91", 10);
    c.match_index("s92", 10);
    assert_eq!(c.commit_index(), 8);
    assert!(!c.take_notice());
}

#[test]
fn recalculate_quorum_median() {
    let mut c = Commitment::new(&voters(5), 0);
    c.match_index("s1", 30);
    c.match_index("s2", 20);
    assert_eq!(c.commit_index(), 0);
    assert!(!c.take_notice());

    c.match_index("s3", 10);
    assert_eq!(c.commit_index(), 10);
    assert!(c.take_notice());
    c.match_index("s4", 15);
    assert_eq!(c.commit_index(), 15);
    assert!(c.take_notice());

    c.set_configuration(&voters(3));
    // s1: 30, s2: 20, s3: 10
    assert_eq!(c.commit_index(), 20);
    assert!(c.take_notice());

    c.set_configuration(&voters(4));
    // s1: 30, s2: 20, s3: 10, s4: 0
    c.match_index("s2", 25);
    assert_eq!(c.commit_index(), 20);
    assert!(!c.take_notice());
    c.match_index("s4", 23);
    assert_eq!(c.commit_index(), 23);
    assert!(c.take_notice());
}

#[test]
fn recalculate_respects_start_index() {
    let mut c = Commitment::new(&voters(5), 4);
    c.match_index("s1", 3);
    c.match_index("s2", 3);
    c.match_index("s3", 3);
    assert_eq!(c.commit_index(), 0);
    assert!(!c.take_notice());

    c.match_index("s1", 4);
    c.match_index("s2", 4);
    c.match_index("s3", 4);
    assert_eq!(c.commit_index(), 4);
    assert!(c.take_notice());
    assert_eq!(c.start_index(), 4);
}

#[test]
fn no_voters_commits_nothing() {
    let mut c = Commitment::new(&make_configuration(&[]), 4);
    c.match_index("s1", 10);
    c.set_configuration(&make_configuration(&[]));
    c.match_index("s1", 10);
    assert_eq!(c.commit_index(), 0);
    assert!(!c.take_notice());

    // Add a voter, commit, then remove it again.
    c.set_configuration(&voters(1));
    c.match_index("s1", 10);
    assert_eq!(c.commit_index(), 10);
    assert!(c.take_notice());

    c.set_configuration(&make_configuration(&[]));
    c.match_index("s1", 20);
    assert_eq!(c.commit_index(), 10);
    assert!(!c.take_notice());
}

#[test]
fn single_voter_commits_immediately() {
    let mut c = Commitment::new(&voters(1), 4);
    c.match_index("s1", 10);
    assert_eq!(c.commit_index(), 10);
    assert!(c.take_notice());
    c.set_configuration(&voters(1));
    assert!(!c.take_notice());
    c.match_index("s1", 12);
    assert_eq!(c.commit_index(), 12);
    assert!(c.take_notice());
}

#[test]
fn a_notice_is_given_once() {
    let mut c = Commitment::new(&voters(1), 0);
    c.match_index("s1", 3);
    c.match_index("s1", 5);
    assert!(c.take_notice());
    assert!(!c.take_notice());
    assert_eq!(c.commit_index(), 5);
}

#[test]
fn commit_index_reflects_the_quorum_after_every_report() {
    let mut c = Commitment::new(&voters(3), 4);
    // Each report, and the commit index after it. Index 3 is of an earlier
    // term; a report that is not news changes nothing.
    let reports = [
        ("s1", 3, 0),
        ("s2", 3, 0),
        ("s2", 3, 0),
        ("s1", 9, 0),
        ("s2", 7, 7),
        ("s2", 5, 7),
        ("s90", 9, 7),
        ("s3", 8, 8),
        ("s3", 8, 8),
        ("s2", 12, 9),
    ];
    for (server, index, commit) in reports {
        c.match_index(server, index);
        assert_eq!(c.commit_index(), commit, "after {} at {}", server, index);
    }
}
