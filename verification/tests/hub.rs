use zhttpsocket::manager::{
    addressed_header, ClientManager, ControlEffect, ControlRequest, InboundOutcome,
    MultipartHeader, ServerControlRequest, ServerManager, SpecInfo,
};
use zhttpsocket::registry::{Addr, Prefix};

fn spec(endpoint: &str) -> SpecInfo {
    SpecInfo { spec: endpoint.to_string(), bind: true, ipc_file_mode: 0 }
}

#[test]
fn subscription_priming() {
    // the inbound subscribe socket is primed with the instance id and a space
    let m = ClientManager::new(b"test".to_vec());
    assert_eq!(m.subscription(), b"test ".to_vec());
}

#[test]
fn client_control_flow() {
    let mut m = ClientManager::new(b"test".to_vec());
    let effect = m.handle_control(ControlRequest::SetClientReq(vec![spec("inproc://test-req")]));
    match effect {
        ControlEffect::ApplyReqSpecs(specs) => {
            assert_eq!(specs.len(), 1);
            assert_eq!(specs[0].spec, "inproc://test-req");
            assert!(specs[0].bind);
        },
        _ => panic!("expected a req-spec batch"),
    }
    let effect = m.handle_control(ControlRequest::AddClientReqHandle(
        Prefix::try_new(b"a-").unwrap(),
    ));
    let key = match effect {
        ControlEffect::HandleAdded(k) => k,
        _ => panic!("expected a registration"),
    };
    assert_eq!(m.req_handles.len(), 1);

    match m.handle_req_message(b"T26:2:id,3:a-1,4:body,5:world,}") {
        InboundOutcome::Deliver(ks) => assert_eq!(ks, vec![key]),
        InboundOutcome::Discard => panic!("expected a delivery"),
    }

    assert!(!m.is_stopped());
    match m.handle_control(ControlRequest::Stop) {
        ControlEffect::Stopped => {},
        _ => panic!("expected a stop"),
    }
    assert!(m.is_stopped());
}

#[test]
fn client_stream_message_requires_our_address() {
    let mut m = ClientManager::new(b"test".to_vec());
    let effect = m.handle_control(ControlRequest::AddClientStreamHandle(
        Prefix::try_new(b"a-").unwrap(),
    ));
    let key = match effect {
        ControlEffect::HandleAdded(k) => k,
        _ => panic!("expected a registration"),
    };

    match m.handle_stream_message(b"test T26:2:id,3:a-1,4:body,5:world,}") {
        InboundOutcome::Deliver(ks) => assert_eq!(ks, vec![key]),
        InboundOutcome::Discard => panic!("expected a delivery"),
    }
    // addressed to somebody else
    assert!(matches!(
        m.handle_stream_message(b"other T26:2:id,3:a-1,4:body,5:world,}"),
        InboundOutcome::Discard
    ));
    // no address at all
    assert!(matches!(
        m.handle_stream_message(b"T26:2:id,3:a-1,4:body,5:world,}"),
        InboundOutcome::Discard
    ));
    // malformed packet behind a good address
    assert!(matches!(m.handle_stream_message(b"test junk"), InboundOutcome::Discard));
    // identifier matching nobody
    match m.handle_stream_message(b"test T26:2:id,3:c-1,4:body,5:world,}") {
        InboundOutcome::Deliver(ks) => assert_eq!(ks, Vec::<u64>::new()),
        InboundOutcome::Discard => panic!("expected an empty delivery"),
    }
}

#[test]
fn at_most_one_send_per_socket() {
    let mut m = ClientManager::new(b"test".to_vec());
    assert!(m.can_recv_req_handles());
    m.begin_req_send();
    // while the send is outstanding, the registry receive stays unarmed
    assert!(!m.can_recv_req_handles());
    assert!(m.can_recv_stream_any());
    assert!(m.can_recv_stream_addr());
    m.finish_req_send();
    assert!(m.can_recv_req_handles());

    m.begin_out_send();
    m.begin_out_stream_send();
    assert!(!m.can_recv_stream_any());
    assert!(!m.can_recv_stream_addr());
    m.finish_out_send();
    m.finish_out_stream_send();
    assert!(m.can_recv_stream_any());
    assert!(m.can_recv_stream_addr());
}

#[test]
fn addressed_send_envelope() {
    let addr = Addr::try_new(b"test-handler").unwrap();
    let h = addressed_header(&addr);
    assert_eq!(h.frames, vec![b"test-handler".to_vec()]);
}

#[test]
fn server_request_round_robin_with_header() {
    let mut m = ServerManager::new(b"test".to_vec());
    let k1 = match m.handle_control(ServerControlRequest::AddServerReqHandle) {
        ControlEffect::HandleAdded(k) => k,
        _ => panic!("expected a registration"),
    };
    let k2 = match m.handle_control(ServerControlRequest::AddServerReqHandle) {
        ControlEffect::HandleAdded(k) => k,
        _ => panic!("expected a registration"),
    };

    let mut header = MultipartHeader::new();
    header.push(b"peer-a".to_vec());
    let (picked, header_back) = m.route_req_message(header).expect("a handle must be picked");
    assert_eq!(picked, k1);
    // the reply envelope travels back untouched
    assert_eq!(header_back.frames, vec![b"peer-a".to_vec()]);

    let second = MultipartHeader::new();
    let (picked, _) = m.route_req_message(second).unwrap();
    assert_eq!(picked, k2);
}

#[test]
fn server_drops_requests_without_handles() {
    let mut m = ServerManager::new(b"test".to_vec());
    assert!(m.route_req_message(MultipartHeader::new()).is_none());
}

#[test]
fn server_stream_handles_frozen_after_specs() {
    let mut m = ServerManager::new(b"test".to_vec());
    match m.handle_control(ServerControlRequest::AddServerStreamHandle) {
        ControlEffect::HandleAdded(_) => {},
        _ => panic!("expected a registration"),
    }
    assert_eq!(m.stream_handles.len(), 1);

    let effect = m.handle_control(ServerControlRequest::SetServerStream(
        vec![spec("inproc://test-server-in")],
        vec![spec("inproc://test-server-in-stream")],
        vec![spec("inproc://test-server-out")],
    ));
    assert!(matches!(effect, ControlEffect::ApplyStreamSpecs(_, _, _)));

    // a stream handle after the specs is refused and the modulus is kept
    let effect = m.handle_control(ServerControlRequest::AddServerStreamHandle);
    assert!(matches!(effect, ControlEffect::HandleRefusedSpecsApplied));
    assert_eq!(m.stream_handles.len(), 1);

    // request handles are still welcome
    let effect = m.handle_control(ServerControlRequest::AddServerReqHandle);
    assert!(matches!(effect, ControlEffect::HandleAdded(_)));
    assert_eq!(m.req_handles.len(), 1);
}

#[test]
fn handle_bound_refuses_registration() {
    let mut m = ClientManager::new(b"test".to_vec());
    for _ in 0..1024 {
        let effect = m.handle_control(ControlRequest::AddClientReqHandle(
            Prefix::try_new(b"a-").unwrap(),
        ));
        assert!(matches!(effect, ControlEffect::HandleAdded(_)));
    }
    // request and stream handles share the one bound
    let effect = m.handle_control(ControlRequest::AddClientStreamHandle(
        Prefix::try_new(b"b-").unwrap(),
    ));
    assert!(matches!(effect, ControlEffect::HandleRefusedFull));
    assert_eq!(m.req_handles.len(), 1024);
    assert_eq!(m.stream_handles.len(), 0);
}

#[test]
fn server_stream_message_hash_dispatch() {
    let mut m = ServerManager::new(b"test".to_vec());
    let k0 = match m.handle_control(ServerControlRequest::AddServerStreamHandle) {
        ControlEffect::HandleAdded(k) => k,
        _ => panic!("expected a registration"),
    };
    // a single handle receives every identifier
    match m.handle_stream_message(b"T26:2:id,3:a-1,4:body,5:world,}") {
        InboundOutcome::Deliver(ks) => assert_eq!(ks, vec![k0]),
        InboundOutcome::Discard => panic!("expected a delivery"),
    }
    assert!(matches!(m.handle_stream_message(b"junk"), InboundOutcome::Discard));
}
