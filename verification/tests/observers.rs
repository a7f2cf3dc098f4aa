use raft::configuration::{Server, ServerSuffrage};
use raft::observer::{
    Delivery, LeaderObservation, Observation, ObservationData, Observer, ObserverHandle, Observers,
    PeerObservation,
};
use raft::state::RaftState;

fn sample_server(id: &str) -> Server {
    Server {
        suffrage: ServerSuffrage::Voter,
        id: id.to_string(),
        address: format!("addr-{}", id),
    }
}

fn leader() -> Observation {
    Observation {
        data: ObservationData::Leader(LeaderObservation {
            leader_addr: "addr".into(),
            leader_id: "id".into(),
            leader: "addr".into(),
        }),
    }
}

fn state(s: RaftState) -> Observation {
    Observation {
        data: ObservationData::State(s),
    }
}

type Filter = fn(&Observation) -> bool;

#[test]
fn peer_observation_roundtrip() {
    let added = PeerObservation {
        peer: sample_server("a"),
        removed: false,
    };
    let removed = PeerObservation {
        peer: sample_server("a"),
        removed: true,
    };
    assert!(!added.removed);
    assert!(removed.removed);
}

#[test]
fn observer_receives_events() {
    let mut observers: Observers<Filter> = Observers::new();
    observers.register(Observer::new(8, false, None));
    let handle: &mut ObserverHandle<Filter> = &mut observers.handles[0];
    let o = state(RaftState::Follower);
    assert!(handle.matches(&o));
    handle.record(Delivery::Delivered);
    assert_eq!(handle.num_observed, 1);
    match o.data {
        ObservationData::State(s) => assert_eq!(s, RaftState::Follower),
        other => panic!("unexpected payload: {:?}", other),
    }
}

#[test]
fn filter_blocks_mismatched() {
    let filter: Filter = |o| matches!(o.data, ObservationData::Leader(_));
    let mut observers: Observers<Filter> = Observers::new();
    observers.register(Observer::new(8, false, Some(filter)));
    let handle = &observers.handles[0];
    assert!(!handle.matches(&state(RaftState::Follower)));
    assert!(handle.matches(&leader()));
}

#[test]
fn a_full_channel_is_counted_by_non_blocking_observers() {
    let mut observers: Observers<Filter> = Observers::new();
    let a = observers.register(Observer::new(1, false, None));
    let b = observers.register(Observer::new(1, true, None));
    assert_ne!(a, b);
    for handle in observers.handles.iter_mut() {
        handle.record(Delivery::Full);
        handle.record(Delivery::Closed);
        handle.record(Delivery::Delivered);
    }
    assert_eq!(observers.handles[0].num_dropped, 1);
    assert_eq!(observers.handles[1].num_dropped, 0);
    assert_eq!(observers.handles[0].num_observed, 1);
    observers.deregister(a);
    assert_eq!(observers.handles.len(), 1);
    assert_eq!(observers.handles[0].id, b);
}
