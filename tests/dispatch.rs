use dht_rpc::{
    begin_call, decode, encode, make_token, route, CallError, Dropped, EncodeError, Key, Message,
    Node, PendingCalls, Request, Response, Route, RpcMessage, BUF_SIZE,
};
use std::sync::mpsc;

fn node(addr: &str, id: u8) -> Node {
    Node::new(addr.to_string(), Key::new(vec![id; 4]))
}

fn reply(token: &Key, from: &Node, to: &str, res: Response) -> Vec<u8> {
    encode(&RpcMessage {
        token: token.clone(),
        src: from.get_addr(),
        dst: to.to_string(),
        msg: Message::Response(res),
    })
    .unwrap()
}

#[test]
fn node_addr() {
    assert_eq!(node("1.2.3.4:5", 0).get_addr(), "1.2.3.4:5");
}

#[test]
fn tokens_depend_on_stamp_and_peers() {
    let x = node("127.0.0.1:1", 1);
    let y = node("127.0.0.1:2", 2);
    assert_eq!(make_token(&x, &y, 7), make_token(&x, &y, 7));
    assert_ne!(make_token(&x, &y, 7), make_token(&x, &y, 8));
    assert_ne!(make_token(&x, &y, 7), make_token(&y, &x, 7));
    let t = make_token(&x, &y, 1);
    assert_eq!(&t.bytes[t.bytes.len() - 8..], &[0, 0, 0, 0, 0, 0, 0, 1]);
}

#[test]
fn begin_call_registers_and_encodes() {
    let x = node("127.0.0.1:1", 1);
    let y = node("127.0.0.1:2", 2);
    let mut t: PendingCalls<u8> = PendingCalls::new();
    let (tok, bytes) = begin_call(&mut t, &x, &y, 42, Request::Ping, 1).unwrap();
    assert_eq!(tok, make_token(&x, &y, 42));
    assert!(t.contains(&tok));
    let m = decode(&bytes).unwrap();
    assert_eq!(
        m,
        RpcMessage { token: tok.clone(), src: x.get_addr(), dst: y.get_addr(), msg: Message::Request(Request::Ping) }
    );
}

#[test]
fn begin_call_refuses_token_in_use() {
    let x = node("127.0.0.1:1", 1);
    let y = node("127.0.0.1:2", 2);
    let mut t: PendingCalls<u8> = PendingCalls::new();
    begin_call(&mut t, &x, &y, 42, Request::Ping, 1).unwrap();
    assert_eq!(begin_call(&mut t, &x, &y, 42, Request::Ping, 2).err(), Some(CallError::TokenInUse));
    assert_eq!(t.claim(&make_token(&x, &y, 42)), Some(1));
}

#[test]
fn begin_call_refuses_oversized_request() {
    let x = node("127.0.0.1:1", 1);
    let y = node("127.0.0.1:2", 2);
    let mut t: PendingCalls<u8> = PendingCalls::new();
    let req = Request::Store("k".to_string(), "v".repeat(BUF_SIZE));
    match begin_call(&mut t, &x, &y, 1, req, 1) {
        Err(CallError::Encode(EncodeError::TooLarge { size })) => assert!(size > BUF_SIZE),
        other => panic!("unexpected {:?}", other),
    }
    assert!(!t.contains(&make_token(&x, &y, 1)));
}

#[test]
fn route_drops_misrouted() {
    let bytes = encode(&RpcMessage {
        token: Key::new(vec![1]),
        src: "127.0.0.1:1".to_string(),
        dst: "127.0.0.1:3".to_string(),
        msg: Message::Request(Request::Ping),
    })
    .unwrap();
    let r = route(&"127.0.0.1:2".to_string(), &bytes, "127.0.0.1:1".to_string());
    assert!(matches!(r, Route::Drop(Dropped::Misrouted)));
}

#[test]
fn route_stops_on_abort() {
    let bytes = encode(&RpcMessage {
        token: Key::new(vec![]),
        src: "me".to_string(),
        dst: "me".to_string(),
        msg: Message::Abort,
    })
    .unwrap();
    assert!(matches!(route(&"me".to_string(), &bytes, "me".to_string()), Route::Stop));
}

#[test]
fn route_overrides_source_with_origin() {
    let bytes = encode(&RpcMessage {
        token: Key::new(vec![4]),
        src: "liar:1".to_string(),
        dst: "me:2".to_string(),
        msg: Message::Request(Request::FindValue("k".to_string())),
    })
    .unwrap();
    match route(&"me:2".to_string(), &bytes, "real:3".to_string()) {
        Route::Serve(w) => {
            assert_eq!(w.token, Key::new(vec![4]));
            assert_eq!(w.src, "real:3");
            assert_eq!(w.payload, Request::FindValue("k".to_string()));
        }
        other => panic!("unexpected {:?}", other),
    }
}

#[test]
fn unknown_variant_is_dropped_and_serving_goes_on() {
    let own = "127.0.0.1:2".to_string();
    let mut bad = encode(&RpcMessage {
        token: Key::new(vec![1]),
        src: "x".to_string(),
        dst: own.clone(),
        msg: Message::Abort,
    })
    .unwrap();
    let last = bad.len() - 1;
    bad[last] = 9;
    assert!(matches!(route(&own, &bad, "x".to_string()), Route::Drop(Dropped::Malformed)));
    assert!(matches!(route(&own, &[1, 2, 3], "x".to_string()), Route::Drop(Dropped::Malformed)));
    let good = encode(&RpcMessage {
        token: Key::new(vec![2]),
        src: "x".to_string(),
        dst: own.clone(),
        msg: Message::Request(Request::Ping),
    })
    .unwrap();
    assert!(matches!(route(&own, &good, "x".to_string()), Route::Serve(_)));
}

#[test]
fn ping_round_trip_between_two_nodes() {
    let x = node("127.0.0.1:7001", 1);
    let y = node("127.0.0.1:7002", 2);
    let mut table: PendingCalls<mpsc::Sender<Option<Response>>> = PendingCalls::new();
    let (tx, rx) = mpsc::channel();
    let (tok, datagram) = begin_call(&mut table, &x, &y, 1000, Request::Ping, tx).unwrap();

    // Y's dispatcher hands the request to its handler
    let req = match route(&y.get_addr(), &datagram, x.get_addr()) {
        Route::Serve(w) => w,
        other => panic!("unexpected {:?}", other),
    };
    assert_eq!(req.payload, Request::Ping);
    assert_eq!(req.src, x.get_addr());

    // the handler answers with the same token, to the recorded source
    let answer = reply(&req.token, &y, &req.src, Response::Ping);
    match route(&x.get_addr(), &answer, y.get_addr()) {
        Route::Complete(k, res) => {
            assert_eq!(k, tok);
            let slot = table.claim(&k).expect("call is waiting");
            slot.send(Some(res)).unwrap();
        }
        other => panic!("unexpected {:?}", other),
    }
    assert_eq!(rx.recv().unwrap(), Some(Response::Ping));
    // the timeout fires later and finds nothing
    assert!(table.claim(&tok).is_none());
}

#[test]
fn unreachable_peer_times_out_to_none() {
    let x = node("127.0.0.1:7001", 1);
    let y = node("10.255.255.1:9", 2);
    let mut table: PendingCalls<mpsc::Sender<Option<Response>>> = PendingCalls::new();
    let (tx, rx) = mpsc::channel();
    let (tok, _) = begin_call(&mut table, &x, &y, 5, Request::FindNode(Key::new(vec![3; 4])), tx).unwrap();
    // nothing comes back: the timeout claims the slot
    let slot = table.claim(&tok).expect("call is waiting");
    slot.send(None).unwrap();
    assert!(!table.contains(&tok));
    assert_eq!(rx.recv().unwrap(), None);
}

#[test]
fn concurrent_calls_resolve_to_their_own_replies() {
    let x = node("127.0.0.1:7001", 1);
    let y = node("127.0.0.1:7002", 2);
    for swap in [false, true] {
        let mut table: PendingCalls<mpsc::Sender<Option<Response>>> = PendingCalls::new();
        let (tx1, rx1) = mpsc::channel();
        let (tx2, rx2) = mpsc::channel();
        let (t1, _) = begin_call(&mut table, &x, &y, 1, Request::Ping, tx1).unwrap();
        let (t2, _) = begin_call(&mut table, &x, &y, 2, Request::FindValue("k".to_string()), tx2).unwrap();
        assert_ne!(t1, t2);
        let a1 = reply(&t1, &y, &x.get_addr(), Response::Ping);
        let a2 = reply(&t2, &y, &x.get_addr(), Response::FindNode(vec![]));
        let burst = if swap { vec![a2, a1] } else { vec![a1, a2] };
        for d in burst {
            match route(&x.get_addr(), &d, y.get_addr()) {
                Route::Complete(k, res) => table.claim(&k).unwrap().send(Some(res)).unwrap(),
                other => panic!("unexpected {:?}", other),
            }
        }
        assert_eq!(rx1.recv().unwrap(), Some(Response::Ping));
        assert_eq!(rx2.recv().unwrap(), Some(Response::FindNode(vec![])));
        assert!(!table.contains(&t1));
        assert!(!table.contains(&t2));
    }
}
