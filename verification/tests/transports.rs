use raft::error::{RaftError, Result};
use raft::inmem_transport::{
    decode_peer, encode_peer, new_inmem_addr, new_inmem_transport,
    new_inmem_transport_with_timeout, pipeline_sent, request_answer, request_sent, uuid_text,
    InmemTransport, ReplyOutcome, SendOutcome,
};
use raft::net_transport::{
    frame, frame_request, frame_response, local_addr_text, read_response, response_body,
    take_frame, take_request, take_response, write_response, NetworkTransport,
    NetworkTransportConfig, RequestStep, RpcKind, ServerAddressProvider, SnapshotStream,
    DEFAULT_MAX_RPCS_IN_FLIGHT, DEFAULT_TIMEOUT_SCALE,
};
use raft::time::Duration;
use raft::transport::{
    AppendEntriesRequest, AppendEntriesResponse, InstallSnapshotRequest, InstallSnapshotResponse,
    RPCCommand, RPCHeader, RPCResponse, RequestPreVoteResponse, RequestVoteResponse,
    TimeoutNowRequest, TimeoutNowResponse,
};

fn header() -> RPCHeader {
    RPCHeader {
        protocol_version: 3,
        id: "a".into(),
        addr: "addr-a".into(),
    }
}

fn append_response() -> RPCResponse {
    RPCResponse::AppendEntries(AppendEntriesResponse {
        header: header(),
        term: 10,
        last_log: 100,
        success: true,
        no_retry_backoff: false,
    })
}

fn heartbeat() -> RPCCommand {
    RPCCommand::AppendEntries(AppendEntriesRequest {
        header: header(),
        term: 10,
        prev_log_entry: 0,
        prev_log_term: 0,
        entries: vec![],
        leader_commit_index: 0,
    })
}

fn install() -> RPCCommand {
    RPCCommand::InstallSnapshot(InstallSnapshotRequest {
        header: header(),
        snapshot_version: 1,
        term: 10,
        last_log_index: 100,
        last_log_term: 4,
        configuration: Vec::new(),
        configuration_index: 1,
        size: 5,
    })
}

#[test]
fn encode_decode_peer() {
    let addr: String = "addr-1".into();
    let enc = encode_peer(&addr);
    assert_eq!(enc, b"addr-1");
    assert_eq!(decode_peer(&enc), addr);
    let wide: String = "nöde-✓".into();
    assert_eq!(decode_peer(&encode_peer(&wide)), wide);
    // What is no text is made one.
    assert_eq!(decode_peer(&[b'a', 0xff, b'b']), "a\u{fffd}b");
}

#[test]
fn new_addresses_look_like_uuids() {
    let bytes: [u8; 16] = [
        0x00, 0x01, 0x0a, 0xff, 0x10, 0x20, 0x30, 0x40, 0x50, 0x60, 0x70, 0x80, 0x90, 0xa0, 0xb0,
        0xc0,
    ];
    assert_eq!(uuid_text(&bytes), "00010aff-1020-3040-5060-708090a0b0c0");
    let a = new_inmem_addr();
    let b = new_inmem_addr();
    assert_eq!(a.len(), 36);
    assert_eq!(a.matches('-').count(), 4);
    assert_ne!(a, b);
}

#[test]
fn disconnect_blocks_and_connect_restores_routing() {
    let (addr, mut t): (String, InmemTransport<u32>) = new_inmem_transport(String::new());
    assert_eq!(t.local_addr(), addr);
    t.connect("addr-2", 2);
    t.connect("addr-3", 3);
    assert_eq!(*t.route("addr-2").unwrap(), 2);
    t.disconnect("addr-2");
    let err = t.route("addr-2").unwrap_err();
    assert!(err.message().contains("failed to connect"));
    assert_eq!(err.message(), "failed to connect to peer: addr-2");
    assert_eq!(*t.route("addr-3").unwrap(), 3);

    // Reconnecting restores routing.
    t.connect("addr-2", 22);
    assert_eq!(*t.route("addr-2").unwrap(), 22);
}

#[test]
fn disconnect_all_closes_pipelines() {
    let (_addr, mut t): (String, InmemTransport<u32>) = new_inmem_transport("me".into());
    t.connect("addr-2", 2);
    t.connect("addr-3", 3);
    t.open_pipeline("addr-2", 7).unwrap();
    t.open_pipeline("addr-3", 8).unwrap();
    t.open_pipeline("addr-2", 9).unwrap();
    assert!(t.open_pipeline("addr-4", 10).is_err());
    assert_eq!(t.disconnect("addr-2"), vec![7, 9]);
    assert_eq!(t.disconnect_all(), vec![8]);
    assert!(t.route("addr-3").is_err());
    // A pipeline that was shut down takes no more requests.
    assert!(matches!(
        pipeline_sent(true, SendOutcome::Sent).unwrap_err(),
        RaftError::PipelineShutdown
    ));
}

#[test]
fn times_out_when_peer_not_responding() {
    for _ in 0..2 {
        let err = request_answer(ReplyOutcome::TimedOut).unwrap_err();
        assert!(err.message().contains("timed out"));
    }
    assert_eq!(
        request_sent(SendOutcome::TimedOut).unwrap_err().message(),
        "send timed out"
    );
    assert!(matches!(
        request_sent(SendOutcome::Closed).unwrap_err(),
        RaftError::TransportShutdown
    ));
    assert!(request_sent(SendOutcome::Sent).is_ok());
    assert!(matches!(
        request_answer(ReplyOutcome::Dropped).unwrap_err(),
        RaftError::TransportShutdown
    ));
    assert_eq!(
        pipeline_sent(false, SendOutcome::TimedOut)
            .unwrap_err()
            .message(),
        "command enqueue timeout"
    );
    assert!(matches!(
        pipeline_sent(false, SendOutcome::Closed).unwrap_err(),
        RaftError::TransportShutdown
    ));
}

#[test]
fn long_requests_get_more_time() {
    let (_, t): (String, InmemTransport<u32>) =
        new_inmem_transport_with_timeout("me".into(), Duration::from_millis(50));
    assert_eq!(t.timeout_for(&heartbeat()).as_millis(), 50);
    assert_eq!(t.timeout_for(&install()).as_millis(), 500);
    let now = RPCCommand::TimeoutNow(TimeoutNowRequest { header: header() });
    assert_eq!(t.timeout_for(&now).as_millis(), 500);
    let (_, plain): (String, InmemTransport<u32>) = new_inmem_transport("me".into());
    assert_eq!(plain.timeout_for(&heartbeat()).as_millis(), 500);
}

#[test]
fn append_entries_roundtrip() {
    let resp = request_answer(ReplyOutcome::Answered(Ok(append_response())))
        .and_then(|r| r.into_append_entries())
        .unwrap();
    assert!(resp.success);
    assert_eq!(resp.term, 10);
}

#[test]
fn responses_are_held_to_their_type() {
    let vote = RPCResponse::RequestVote(RequestVoteResponse {
        header: header(),
        term: 10,
        granted: true,
    });
    assert!(vote.into_request_vote().unwrap().granted);
    let pre = RPCResponse::RequestPreVote(RequestPreVoteResponse {
        header: header(),
        term: 10,
        granted: true,
    });
    assert!(pre.into_request_pre_vote().unwrap().granted);
    let snap = RPCResponse::InstallSnapshot(InstallSnapshotResponse {
        header: header(),
        term: 10,
        success: true,
    });
    assert!(snap.into_install_snapshot().unwrap().success);
    let now = RPCResponse::TimeoutNow(TimeoutNowResponse { header: header() });
    assert_eq!(now.into_timeout_now().unwrap().header.id, "a");
    assert_eq!(
        append_response().into_request_vote().unwrap_err().message(),
        "unexpected response type"
    );
    assert!(append_response().into_request_pre_vote().is_err());
    assert!(append_response().into_install_snapshot().is_err());
    assert!(append_response().into_timeout_now().is_err());
}

#[test]
fn frames_carry_their_length() {
    assert_eq!(frame(b"abc"), vec![0, 0, 0, 3, b'a', b'b', b'c']);
    let body = vec![7u8; 70_000];
    let framed = frame(&body);
    assert_eq!(&framed[..4], &[0, 1, 0x11, 0x70]);
    let (taken, end) = take_frame(&framed, 0).unwrap();
    assert_eq!(taken, body);
    assert_eq!(end, framed.len());
    // A part of a frame is not taken for a whole one.
    assert!(take_frame(&framed[..framed.len() - 1], 0).is_none());
    assert!(take_frame(&framed[..3], 0).is_none());
    assert!(take_frame(b"", 0).is_none());
}

#[test]
fn requests_are_read_back() {
    let kinds = [
        (RpcKind::AppendEntries, 0u8),
        (RpcKind::RequestVote, 1),
        (RpcKind::InstallSnapshot, 2),
        (RpcKind::TimeoutNow, 3),
        (RpcKind::RequestPreVote, 4),
    ];
    for (kind, tag) in kinds {
        assert_eq!(kind.tag(), tag);
        assert_eq!(RpcKind::from_tag(tag).unwrap(), kind);
        let mut bytes = frame_request(kind, b"body");
        assert_eq!(bytes[0], tag);
        bytes.extend_from_slice(b"more");
        match take_request(&bytes).unwrap() {
            RequestStep::Request { kind: k, body, used } => {
                assert_eq!(k, kind);
                assert_eq!(body, b"body");
                assert_eq!(&bytes[used..], b"more");
            }
            RequestStep::Wait => panic!("the request is complete"),
        }
        assert!(matches!(
            take_request(&bytes[..6]).unwrap(),
            RequestStep::Wait
        ));
    }
    assert!(matches!(take_request(b"").unwrap(), RequestStep::Wait));
    assert_eq!(
        take_request(&[9]).unwrap_err().message(),
        "unknown rpc type 9"
    );
    assert_eq!(RpcKind::of(&heartbeat()), RpcKind::AppendEntries);
    assert_eq!(RpcKind::of(&install()), RpcKind::InstallSnapshot);
    assert!(RpcKind::AppendEntries.may_be_pooled());
    assert!(!RpcKind::InstallSnapshot.may_be_pooled());
    assert!(heartbeat().is_heartbeat());
    assert!(!install().is_heartbeat());
    assert_eq!(install().header().addr, "addr-a");
}

fn through_the_wire(answer: &Result<Vec<u8>>) -> Result<Vec<u8>> {
    let bytes = write_response(answer).unwrap();
    for n in 0..bytes.len() {
        assert!(take_response(&bytes[..n]).is_none());
    }
    let (error, body, used) = take_response(&bytes).unwrap();
    assert_eq!(used, bytes.len());
    let decoded = Ok(body.clone());
    read_response(&error, &body, decoded, "missing response body")
}

#[test]
fn responses_are_read_back() {
    assert_eq!(through_the_wire(&Ok(b"answer".to_vec())).unwrap(), b"answer");
    let err = through_the_wire(&Err(RaftError::NotLeader)).unwrap_err();
    assert_eq!(err.message(), "node is not the leader");
    for n in [0, 1, 31, 32, 255, 256, 65535, 65536] {
        let text = "é".repeat(n / 2) + if n % 2 == 1 { "x" } else { "" };
        assert_eq!(text.len(), n);
        let answer = through_the_wire(&Err(RaftError::Other(text.clone())));
        if n == 0 {
            assert_eq!(answer.unwrap_err().message(), "missing response body");
        } else {
            assert_eq!(answer.unwrap_err().message(), text);
        }
    }
}

#[test]
fn the_empty_error_is_one_byte() {
    assert_eq!(
        write_response(&Ok(b"x".to_vec())).unwrap(),
        frame_response(&[0xa0], b"x")
    );
    assert_eq!(
        write_response(&Err(RaftError::Other("no".into()))).unwrap(),
        frame_response(&[0xa2, b'n', b'o'], b"")
    );
    // What is no text is refused.
    assert!(matches!(
        read_response(&[0xc1], &[1], Ok(1), "missing").unwrap_err(),
        RaftError::Decode(_)
    ));
    assert_eq!(
        response_body(String::new(), false, Ok(1), "gone")
            .unwrap_err()
            .message(),
        "gone"
    );
    // A body that does not decode comes before what the peer reported; the
    // decoding of an empty one is not looked at.
    let broken = || Err::<u8, RaftError>(RaftError::Decode("broken".into()));
    assert!(matches!(
        read_response(&[0xa2, b'n', b'o'], &[1], broken(), "gone").unwrap_err(),
        RaftError::Decode(_)
    ));
    assert_eq!(
        read_response(&[0xa2, b'n', b'o'], &[], broken(), "gone")
            .unwrap_err()
            .message(),
        "no"
    );
    assert_eq!(
        read_response(&[0xa2, b'n', b'o'], &[1], Ok(7u8), "gone")
            .unwrap_err()
            .message(),
        "no"
    );
    assert_eq!(read_response(&[0xa0], &[1], Ok(7u8), "gone").unwrap(), 7);
}

#[test]
fn snapshot_streams_read_what_was_announced() {
    let mut stream = SnapshotStream::new(70_000);
    assert_eq!(stream.wanted(), 65_536);
    stream.received(&vec![1u8; 65_536]).unwrap();
    assert_eq!(stream.wanted(), 4_464);
    stream.received(&vec![2u8; 4_464]).unwrap();
    assert_eq!(stream.wanted(), 0);
    let bytes = stream.into_bytes();
    assert_eq!(bytes.len(), 70_000);
    assert_eq!(bytes[65_536], 2);

    let mut early = SnapshotStream::new(5);
    early.received(b"he").unwrap();
    let err = early.received(b"").unwrap_err();
    assert!(err.message().contains("snapshot stream closed early"));
}

struct Book {
    known: bool,
}

impl ServerAddressProvider for Book {
    fn server_addr(&self, id: &String) -> Result<String> {
        if self.known {
            Ok(format!("{}.example", id))
        } else {
            Err(RaftError::Other("unknown".into()))
        }
    }
}

fn transport(max_pool: usize, depth: usize, book: Option<Book>) -> NetworkTransport<u32, Book> {
    let mut config = NetworkTransportConfig::new((), max_pool, Duration::from_secs(2));
    assert_eq!(config.max_rpcs_in_flight, DEFAULT_MAX_RPCS_IN_FLIGHT);
    config.max_rpcs_in_flight = depth;
    config.server_address_provider = book;
    NetworkTransport::new(config).1
}

#[test]
fn connections_are_pooled_up_to_a_limit() {
    let mut t = transport(2, 0, None);
    assert!(t.get_pooled("a").is_none());
    assert!(t.return_to_pool(1, "a").is_none());
    assert!(t.return_to_pool(2, "a").is_none());
    assert_eq!(t.return_to_pool(3, "a"), Some(3));
    assert!(t.return_to_pool(4, "b").is_none());
    // The oldest comes first.
    assert_eq!(t.get_pooled("a"), Some(1));
    assert_eq!(t.get_pooled("a"), Some(2));
    assert_eq!(t.get_pooled("a"), None);
    assert!(t.return_to_pool(5, "a").is_none());
    let mut all = t.close();
    all.sort();
    assert_eq!(all, vec![4, 5]);
    assert!(t.is_shutdown());
    // A closed transport keeps nothing.
    assert_eq!(t.return_to_pool(6, "a"), Some(6));
    assert!(t.close_streams().is_empty());
}

#[test]
fn pipelining_needs_depth() {
    assert!(transport(1, 0, None).check_pipelining().is_ok());
    assert!(transport(1, 2, None).check_pipelining().is_ok());
    assert!(matches!(
        transport(1, 1, None).check_pipelining().unwrap_err(),
        RaftError::PipelineReplicationNotSupported
    ));
    assert_eq!(DEFAULT_TIMEOUT_SCALE, 262_144);
    assert_eq!(transport(1, 0, None).timeout().as_millis(), 2000);
}

#[test]
fn tcp_encode_decode_peer() {
    let t = transport(2, 2, None);
    let encoded = t.encode_peer(&"id".into(), "addr");
    assert_eq!(t.decode_peer(&encoded), "addr");
}

#[test]
fn providers_say_where_peers_are_dialled() {
    let id: String = "id".into();
    let none = transport(2, 2, None);
    assert_eq!(none.resolve_address(&id, "addr"), "addr");
    let known = transport(2, 2, Some(Book { known: true }));
    assert_eq!(known.resolve_address(&id, "addr"), "id.example");
    assert_eq!(known.encode_peer(&id, "addr"), b"id.example");
    let failing = transport(2, 2, Some(Book { known: false }));
    assert_eq!(failing.resolve_address(&id, "addr"), "addr");
    assert_eq!(local_addr_text(Ok("here".into())), "here");
    assert_eq!(local_addr_text(Err(RaftError::Timeout)), "<unbound>");
}
