use mcp_core::transport::{
    AuthSseServer, OpenOutcome, RecvOutcome, SseEvent, StreamStep, SubmitOutcome,
};

fn open(server: &mut AuthSseServer) -> String {
    match server.open_session() {
        OpenOutcome::Opened(id) => id,
        OpenOutcome::Unavailable => panic!("dispenser unexpectedly closed"),
    }
}

fn next_event(server: &mut AuthSseServer, id: &String) -> SseEvent {
    match server.next_stream_event(id) {
        StreamStep::Event(e) => e,
        _ => panic!("expected an event"),
    }
}

#[test]
fn concurrent_sessions_have_distinct_live_entries() {
    let mut server = AuthSseServer::new();
    let a = open(&mut server);
    let b = open(&mut server);
    let c = open(&mut server);
    assert_ne!(a, b);
    assert_ne!(b, c);
    assert_ne!(a, c);
    assert_eq!(server.session_count(), 3);

    server.disconnect(&b);
    assert_eq!(server.session_count(), 2);
    assert!(server.is_registered(&a));
    assert!(!server.is_registered(&b));
    assert!(server.is_registered(&c));
}

#[test]
fn unknown_session_is_not_found_and_not_created() {
    let mut server = AuthSseServer::new();
    let fabricated = "00000000000000000000000000000000".to_string();
    let outcome = server.submit(&fabricated, "{\"ping\":1}".to_string());
    assert!(matches!(outcome, SubmitOutcome::NotFound));
    assert_eq!(outcome.status_code(), 404);
    assert_eq!(server.session_count(), 0);
    assert!(!server.is_registered(&fabricated));
}

#[test]
fn submissions_reach_engine_in_order() {
    let mut server = AuthSseServer::new();
    let id = open(&mut server);
    for msg in ["a", "b", "c"] {
        let outcome = server.submit(&id, msg.to_string());
        assert!(matches!(outcome, SubmitOutcome::Accepted));
        assert_eq!(outcome.status_code(), 202);
    }
    let mut received = Vec::new();
    while let RecvOutcome::Delivered(m) = server.recv_inbound(&id) {
        received.push(m);
    }
    assert_eq!(received, vec!["a", "b", "c"]);
    assert!(matches!(server.recv_inbound(&id), RecvOutcome::Pending));
}

#[test]
fn outbound_messages_stream_in_order_after_handshake() {
    let mut server = AuthSseServer::new();
    let id = open(&mut server);
    for msg in ["x", "y", "z"] {
        server.send_outbound(&id, msg.to_string());
    }
    match next_event(&mut server, &id) {
        SseEvent::Endpoint(data) => {
            assert_eq!(data, format!("/message?sessionId={}", id));
        },
        SseEvent::Message(_) => panic!("handshake must come first"),
    }
    for expected in ["x", "y", "z"] {
        match next_event(&mut server, &id) {
            SseEvent::Message(data) => assert_eq!(data, expected),
            SseEvent::Endpoint(_) => panic!("handshake must be emitted only once"),
        }
    }
    assert!(matches!(server.next_stream_event(&id), StreamStep::Pending));
}

#[test]
fn closing_outbound_turns_gone_then_not_found() {
    let mut server = AuthSseServer::new();
    let id = open(&mut server);
    let _ = next_event(&mut server, &id);

    server.close_outbound(&id);
    // Closed but not yet deregistered: distinguishable from never existing.
    let between = server.submit(&id, "late".to_string());
    assert!(matches!(between, SubmitOutcome::Gone));
    assert_eq!(between.status_code(), 410);

    // The stream pump observes the closed queue, ends, and deregisters.
    assert!(matches!(server.next_stream_event(&id), StreamStep::End));
    assert!(!server.is_registered(&id));
    let after = server.submit(&id, "later".to_string());
    assert!(matches!(after, SubmitOutcome::NotFound));
    assert_eq!(after.status_code(), 404);
}

#[test]
fn round_trip_ping() {
    let mut server = AuthSseServer::new();

    // Open a stream; the first event advertises the submission address.
    let id = open(&mut server);
    let advertised = match next_event(&mut server, &id) {
        SseEvent::Endpoint(data) => data,
        SseEvent::Message(_) => panic!("handshake must come first"),
    };
    let (path, session_param) = advertised.split_once('?').expect("path and query");
    assert_eq!(path, "/message");
    let captured = session_param.strip_prefix("sessionId=").expect("session parameter");

    // The engine adopts the session.
    let adopted = server.next_transport().expect("a session awaits adoption");
    assert_eq!(adopted, captured);

    // POST a payload to the advertised address.
    let outcome = server.submit(&captured.to_string(), "{\"ping\":1}".to_string());
    assert_eq!(outcome.status_code(), 202);

    // The engine reads it and answers with an equivalent payload.
    let request = match server.recv_inbound(&adopted) {
        RecvOutcome::Delivered(m) => m,
        _ => panic!("submission must reach the engine"),
    };
    let request_value: serde_json::Value = serde_json::from_str(&request).unwrap();
    let echoed = serde_json::to_string(&request_value).unwrap();
    server.send_outbound(&adopted, echoed);

    // The same stream then emits it as a message event.
    match next_event(&mut server, &id) {
        SseEvent::Message(data) => {
            let answered: serde_json::Value = serde_json::from_str(&data).unwrap();
            assert_eq!(answered, request_value);
        },
        SseEvent::Endpoint(_) => panic!("handshake must be emitted only once"),
    }
}

#[test]
fn fabricated_session_id_is_rejected() {
    let mut server = AuthSseServer::new();
    let _real = open(&mut server);
    let fabricated = "ffffffffffffffffffffffffffffffff".to_string();
    let outcome = server.submit(&fabricated, "{}".to_string());
    assert_eq!(outcome.status_code(), 404);
}

#[test]
fn two_streams_stay_independent() {
    let mut server = AuthSseServer::new();
    let first = open(&mut server);
    let second = open(&mut server);

    assert!(matches!(
        server.submit(&first, "for-first".to_string()),
        SubmitOutcome::Accepted
    ));
    assert!(matches!(
        server.submit(&second, "for-second".to_string()),
        SubmitOutcome::Accepted
    ));
    server.send_outbound(&first, "first-reply".to_string());
    server.send_outbound(&second, "second-reply".to_string());

    match server.recv_inbound(&first) {
        RecvOutcome::Delivered(m) => assert_eq!(m, "for-first"),
        _ => panic!("first session lost its submission"),
    }
    match server.recv_inbound(&second) {
        RecvOutcome::Delivered(m) => assert_eq!(m, "for-second"),
        _ => panic!("second session lost its submission"),
    }
    assert!(matches!(server.recv_inbound(&first), RecvOutcome::Pending));
    assert!(matches!(server.recv_inbound(&second), RecvOutcome::Pending));

    let _ = next_event(&mut server, &first);
    let _ = next_event(&mut server, &second);
    match next_event(&mut server, &first) {
        SseEvent::Message(m) => assert_eq!(m, "first-reply"),
        _ => panic!("first stream must carry its own reply"),
    }
    match next_event(&mut server, &second) {
        SseEvent::Message(m) => assert_eq!(m, "second-reply"),
        _ => panic!("second stream must carry its own reply"),
    }
}

#[test]
fn full_inbound_queue_reports_backpressure() {
    let mut server = AuthSseServer::new();
    let id = open(&mut server);
    for _ in 0..64 {
        assert!(matches!(
            server.submit(&id, "m".to_string()),
            SubmitOutcome::Accepted
        ));
    }
    let overflow = server.submit(&id, "overflow".to_string());
    assert!(matches!(overflow, SubmitOutcome::Full));
    assert_eq!(overflow.status_code(), 503);
    // Draining one frees one slot.
    assert!(matches!(server.recv_inbound(&id), RecvOutcome::Delivered(_)));
    assert!(matches!(
        server.submit(&id, "fits-again".to_string()),
        SubmitOutcome::Accepted
    ));
}

#[test]
fn closed_dispenser_refuses_new_streams() {
    let mut server = AuthSseServer::new();
    let existing = open(&mut server);
    server.close_dispenser();
    assert!(matches!(server.open_session(), OpenOutcome::Unavailable));
    // Nothing was registered for the refused connection.
    assert_eq!(server.session_count(), 1);
    assert!(server.is_registered(&existing));
}

#[test]
fn adoption_order_is_creation_order() {
    let mut server = AuthSseServer::new();
    let a = open(&mut server);
    let b = open(&mut server);
    assert_eq!(server.next_transport(), Some(a));
    assert_eq!(server.next_transport(), Some(b));
    assert_eq!(server.next_transport(), None);
}

#[test]
fn disconnect_is_idempotent() {
    let mut server = AuthSseServer::new();
    let id = open(&mut server);
    server.disconnect(&id);
    server.disconnect(&id);
    assert_eq!(server.session_count(), 0);
    server.close_outbound(&id);
    assert!(matches!(
        server.submit(&id, "x".to_string()),
        SubmitOutcome::NotFound
    ));
}

#[test]
fn engine_channel_closes_both_directions() {
    let mut server = AuthSseServer::new();
    let id = open(&mut server);
    server.close_outbound(&id);
    assert!(matches!(
        server.send_outbound(&id, "too late".to_string()),
        mcp_core::transport::SendOutcome::Closed
    ));
    assert!(matches!(
        server.recv_inbound(&id),
        RecvOutcome::Ended
    ));
}

#[test]
fn registry_register_lookup_remove() {
    let mut registry = mcp_core::transport::Registry::new();
    let id = "abc".to_string();
    assert_eq!(registry.len(), 0);
    assert!(registry.lookup(&id).is_none());

    registry.register(mcp_core::transport::SseTransport::new(id.clone(), 4));
    assert_eq!(registry.len(), 1);
    assert!(registry.contains(&id));
    assert!(registry.lookup(&id).is_some());

    // Removal is idempotent; removing an absent identifier is a no-op.
    registry.remove(&id);
    registry.remove(&id);
    assert_eq!(registry.len(), 0);
    assert!(!registry.contains(&id));
}

#[test]
fn generated_session_ids_are_hex() {
    let id = mcp_core::transport::generate_session_id();
    assert_eq!(id.len(), 32);
    assert!(id.chars().all(|c| c.is_ascii_hexdigit()));
}
