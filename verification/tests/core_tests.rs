//! The correlation core: id generation, dispatch, awaiters, cancellation.

use omegga::json::Json;
use omegga::rpc::Message;
use omegga::{Omegga, Response, ResponseAwaiter};

/// Blocks on the awaiter's channel and classifies the outcome, as a caller
/// outside an asynchronous runtime would.
fn wait(a: ResponseAwaiter) -> Response {
    match a.into_receiver().blocking_recv() {
        Ok(resp) => Response::of_rpc(resp),
        Err(e) => Response::RecvError(e),
    }
}

#[test]
fn id_sequence_starts_at_minus_one() {
    let mut o = Omegga::new();
    let (line1, _a1) = o.request("ping".to_string(), None);
    let (line2, _a2) = o.request("ping".to_string(), None);
    let (line3, _a3) = o.request("ping".to_string(), None);
    assert_eq!(line1, "{\"id\":-1,\"method\":\"ping\"}");
    assert_eq!(line2, "{\"id\":0,\"method\":\"ping\"}");
    assert_eq!(line3, "{\"id\":1,\"method\":\"ping\"}");
}

#[test]
fn scenario_ping_success() {
    let mut o = Omegga::new();
    let (line, awaiter) = o.request("ping".to_string(), None);
    assert_eq!(line, "{\"id\":-1,\"method\":\"ping\"}");
    let ev = o.dispatch_line("{\"id\":-1,\"result\":\"pong\"}");
    assert!(ev.is_none());
    match wait(awaiter) {
        Response::Success(Some(Json::Str(s))) => assert_eq!(s, "pong"),
        other => panic!("expected success with \"pong\", got {:?}", other),
    }
}

#[test]
fn scenario_rpc_error() {
    let mut o = Omegga::new();
    let (_line, awaiter) = o.request("fail".to_string(), None);
    let ev = o.dispatch_line("{\"id\":-1,\"error\":{\"code\":1,\"message\":\"bad\"}}");
    assert!(ev.is_none());
    match wait(awaiter) {
        Response::RpcError(e) => {
            assert_eq!(e.code, 1);
            assert_eq!(e.message, "bad");
            assert!(e.data.is_none());
        },
        other => panic!("expected an RPC error, got {:?}", other),
    }
}

#[test]
fn scenario_event_forwarded() {
    let mut o = Omegga::new();
    let ev = o.dispatch_line("{\"method\":\"event\",\"params\":{\"x\":1}}");
    match ev {
        Some(Message::Notification { method, params }) => {
            assert_eq!(method, "event");
            assert_eq!(
                params,
                Some(Json::Obj(vec![("x".to_string(), Json::Int(1))]))
            );
        },
        other => panic!("expected a notification event, got {:?}", other),
    }
}

#[test]
fn scenario_unmatched_response_ignored() {
    let mut o = Omegga::new();
    let (_line, awaiter) = o.request("ping".to_string(), None);
    // A response for an id nobody asked about: no event, no effect on the
    // pending request.
    let ev = o.dispatch_line("{\"id\":999,\"result\":null}");
    assert!(ev.is_none());
    // The pending request still resolves normally afterwards.
    let ev2 = o.dispatch_line("{\"id\":-1,\"result\":null}");
    assert!(ev2.is_none());
    match wait(awaiter) {
        Response::Success(Some(Json::Null)) => {},
        other => panic!("expected a null success, got {:?}", other),
    }
}

#[test]
fn out_of_order_responses_match_by_id() {
    let mut o = Omegga::new();
    let (_l1, a1) = o.request("first".to_string(), None);
    let (_l2, a2) = o.request("second".to_string(), None);
    // Answer the second request first.
    assert!(o.dispatch_line("{\"id\":0,\"result\":\"b\"}").is_none());
    assert!(o.dispatch_line("{\"id\":-1,\"result\":\"a\"}").is_none());
    match wait(a1) {
        Response::Success(Some(Json::Str(s))) => assert_eq!(s, "a"),
        other => panic!("first awaiter got {:?}", other),
    }
    match wait(a2) {
        Response::Success(Some(Json::Str(s))) => assert_eq!(s, "b"),
        other => panic!("second awaiter got {:?}", other),
    }
}

#[test]
fn duplicate_response_is_no_op() {
    let mut o = Omegga::new();
    let (_l, a) = o.request("once".to_string(), None);
    assert!(o.dispatch_line("{\"id\":-1,\"result\":1}").is_none());
    // The entry is gone: the same line again has no effect and no event.
    assert!(o.dispatch_line("{\"id\":-1,\"result\":2}").is_none());
    match wait(a) {
        Response::Success(Some(Json::Int(n))) => assert_eq!(n, 1),
        other => panic!("awaiter got {:?}", other),
    }
}

#[test]
fn invalid_lines_do_not_disturb_pending_entries() {
    let mut o = Omegga::new();
    let (_l, a) = o.request("ping".to_string(), None);
    for line in ["", "garbage", "{\"id\":-1", "{\"id\":-1,\"result\":}", "[]"] {
        assert!(o.dispatch_line(line).is_none(), "line {:?}", line);
    }
    assert!(o.dispatch_line("{\"id\":-1,\"result\":true}").is_none());
    match wait(a) {
        Response::Success(Some(Json::Bool(true))) => {},
        other => panic!("awaiter got {:?}", other),
    }
}

#[test]
fn cancel_drops_the_entry_and_fails_the_awaiter() {
    let mut o = Omegga::new();
    let (_l, a) = o.request("slow".to_string(), None);
    assert!(o.cancel(-1));
    // Cancelling again finds nothing.
    assert!(!o.cancel(-1));
    // The sending half is gone, so the awaiter reports a receive failure,
    // distinct from success and from an RPC error.
    match wait(a) {
        Response::RecvError(_) => {},
        other => panic!("expected a receive failure, got {:?}", other),
    }
    // A late response for the cancelled id is a no-op.
    assert!(o.dispatch_line("{\"id\":-1,\"result\":null}").is_none());
}

#[test]
fn string_id_response_is_ignored() {
    let mut o = Omegga::new();
    let (_l, a) = o.request("ping".to_string(), None);
    // Outbound ids are integers; a response with a string id matches nothing
    // and is dropped without an event.
    assert!(o.dispatch_line("{\"id\":\"-1\",\"result\":\"x\"}").is_none());
    assert!(o.dispatch_line("{\"id\":-1,\"result\":\"x\"}").is_none());
    match wait(a) {
        Response::Success(Some(Json::Str(s))) => assert_eq!(s, "x"),
        other => panic!("awaiter got {:?}", other),
    }
}

#[test]
fn inbound_request_is_forwarded() {
    let mut o = Omegga::new();
    let ev = o.dispatch_line("{\"id\":5,\"method\":\"peer.call\",\"params\":[1]}");
    match ev {
        Some(Message::Request { id, method, params }) => {
            assert_eq!(id, omegga::rpc::RequestId::Int(5));
            assert_eq!(method, "peer.call");
            assert_eq!(params, Some(Json::Arr(vec![Json::Int(1)])));
        },
        other => panic!("expected a forwarded request, got {:?}", other),
    }
}

#[test]
fn writer_helpers_emit_exact_lines() {
    let o = Omegga::new();
    let n = o.write_notification("hi".to_string(), None);
    assert_eq!(n, "{\"method\":\"hi\"}");
    let r = o.write_response(
        omegga::rpc::RequestId::Int(2),
        Some(Json::Bool(false)),
        None,
    );
    assert_eq!(r, "{\"id\":2,\"result\":false}");
    let q = o.write_request(omegga::rpc::RequestId::Str("q".to_string()), "m".to_string(), None);
    assert_eq!(q, "{\"id\":\"q\",\"method\":\"m\"}");
    let w = o.write(Message::notification("n".to_string(), Some(Json::Int(3))));
    assert_eq!(w, "{\"method\":\"n\",\"params\":3}");
}

#[test]
fn awaiter_receiver_resolves_through_tokio() {
    // The receiving half can be taken out and awaited on a runtime, as an
    // asynchronous caller would.
    let mut o = Omegga::new();
    let (_l, a) = o.request("ping".to_string(), None);
    assert!(o.dispatch_line("{\"id\":-1,\"result\":\"pong\"}").is_none());
    let rt = tokio::runtime::Builder::new_current_thread().build().unwrap();
    let out = rt.block_on(async move {
        match a.into_receiver().await {
            Ok(resp) => Response::of_rpc(resp),
            Err(e) => Response::RecvError(e),
        }
    });
    match out {
        Response::Success(Some(Json::Str(s))) => assert_eq!(s, "pong"),
        other => panic!("got {:?}", other),
    }
}

#[test]
fn error_wins_over_result_when_both_present() {
    // The decoder does not force `result` and `error` to be exclusive; the
    // awaiter's classification counts such a response as the error.
    let mut o = Omegga::new();
    let (_l, a) = o.request("odd".to_string(), None);
    let line = "{\"id\":-1,\"result\":\"x\",\"error\":{\"code\":7,\"message\":\"boom\"}}";
    assert!(o.dispatch_line(line).is_none());
    match wait(a) {
        Response::RpcError(e) => {
            assert_eq!(e.code, 7);
            assert_eq!(e.message, "boom");
        },
        other => panic!("expected the error outcome, got {:?}", other),
    }
}

#[test]
fn awaiter_carries_its_request_id() {
    let mut o = Omegga::new();
    let (_l1, a1) = o.request("a".to_string(), None);
    let (_l2, a2) = o.request("b".to_string(), None);
    assert_eq!(a1.id(), -1);
    assert_eq!(a2.id(), 0);
    // The id is the key to cancel with when a handle is abandoned.
    assert!(o.cancel(a2.id()));
    match wait(a2) {
        Response::RecvError(_) => {},
        other => panic!("expected a receive failure, got {:?}", other),
    }
}
