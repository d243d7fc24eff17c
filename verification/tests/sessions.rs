use serde_json::Value;
use tideio::engineio::{EngineFault, EngineIO, PollStep};
use tideio::packet::PacketError;
use tideio::socketio::{Reply, SocketIO};

fn body(r: &Reply) -> String {
    r.body.clone().unwrap_or_default()
}

fn content_type(r: &Reply) -> Option<String> {
    r.content_type.clone()
}

#[test]
fn emit_to_unconnected_session_is_dropped() {
    let mut io = SocketIO::new();
    io.emit("news", vec![Value::from(1u64)], String::from("/"), String::from("s1"));
    io.set_connect("s1");
    assert!(io.get_payload("s1").is_none());
}

#[test]
fn emitted_events_come_out_in_order() {
    let mut io = SocketIO::new();
    io.set_connect("s1");
    io.emit("a", vec![Value::from(1u64)], String::from("/"), String::from("s1"));
    io.emit("b", vec![], String::from("/chat"), String::from("s1"));
    let first = io.get_payload("s1").unwrap();
    assert_eq!(first.event, "a");
    assert_eq!(first.sid, "s1");
    assert_eq!(first.data, "42[\"a\",1]");
    let second = io.get_payload("s1").unwrap();
    assert_eq!(second.event, "b");
    assert_eq!(second.data, "42/chat,[\"b\"]");
    assert!(io.get_payload("s1").is_none());
}

#[test]
fn emit_to_one_session_leaves_others_alone() {
    let mut io = SocketIO::new();
    io.set_connect("s1");
    io.set_connect("s2");
    io.emit("a", vec![], String::from("/"), String::from("s1"));
    assert!(io.get_payload("s2").is_none());
    assert!(io.get_payload("s1").is_some());
}

#[test]
fn disconnected_session_gets_nothing() {
    let mut io = SocketIO::new();
    io.set_connect("s1");
    io.emit("a", vec![], String::from("/"), String::from("s1"));
    io.set_disconnect("s1");
    assert!(!io.is_connected("s1"));
    assert!(io.get_payload("s1").is_none());
}

#[test]
fn namespaces_join_and_leave() {
    let mut io = SocketIO::new();
    io.insert_namespace(String::from("/chat"), String::from("s1"));
    assert!(io.is_registered_namespace("s1"));
    assert_eq!(io.remove_namespace("/chat", "s1"), Some(String::from("/chat")));
    assert!(!io.is_registered_namespace("s1"));
    assert_eq!(io.remove_namespace("/chat", "s1"), None);
    io.remove_value_from_namespace("/nowhere", "s1");
}

#[test]
fn connect_and_disconnect_replies() {
    let mut io = SocketIO::new();
    let (reply, call) = io.handle("0/admin,", "abc").unwrap();
    assert!(call.is_none());
    assert_eq!(reply.status, 200);
    assert_eq!(body(&reply), "40/admin,{\"sid\":\"abc\"}");
    assert_eq!(content_type(&reply), Some(String::from("text/plain; charset=UTF-8")));
    assert!(io.is_registered_namespace("abc"));
    let (reply, _) = io.handle("0", "def").unwrap();
    assert_eq!(body(&reply), "40{\"sid\":\"def\"}");
    io.set_connect("abc");
    let (reply, _) = io.handle("1/admin,", "abc").unwrap();
    assert_eq!(body(&reply), "41/admin,{\"sid\":\"abc\"}");
    assert!(!io.is_registered_namespace("abc"));
    assert!(!io.is_connected("abc"));
}

#[test]
fn events_reach_registered_listeners_only() {
    let mut io = SocketIO::new();
    io.on("bind");
    let (reply, call) = io.handle("2[\"bind\",{\"user_id\":\"1\"}]", "s1").unwrap();
    assert_eq!(body(&reply), "Event processed");
    assert_eq!(content_type(&reply), None);
    let call = call.unwrap();
    assert_eq!(call.event, "bind");
    assert_eq!(call.namespace, "/");
    assert_eq!(call.sid, "s1");
    assert_eq!(call.data.len(), 2);
    assert_eq!(call.data[0], Value::String(String::from("bind")));
    let (_, call) = io.handle("2[\"other\"]", "s1").unwrap();
    assert!(call.is_none());
    let (_, call) = io.handle("2[1,\"bind\"]", "s1").unwrap();
    assert!(call.is_none());
}

#[test]
fn other_packets_are_acknowledged() {
    let mut io = SocketIO::new();
    let (reply, call) = io.handle("3[]", "s1").unwrap();
    assert_eq!(body(&reply), "Messages processed");
    assert!(call.is_none());
    assert_eq!(io.handle("x", "s1").unwrap_err(), PacketError::WronglyJsonized);
}

#[test]
fn engine_ping_pong() {
    let mut engine = EngineIO::new();
    let (reply, _) = engine.handle_packet("2", "s").unwrap();
    assert_eq!(body(&reply), "3");
    assert_eq!(content_type(&reply), Some(String::from("application/json")));
    let (reply, _) = engine.handle_packet("3probe", "s").unwrap();
    assert_eq!(body(&reply), "2");
    let (reply, _) = engine.handle_packet("6", "s").unwrap();
    assert_eq!(reply.body, None);
    assert_eq!(reply.status, 200);
    let (reply, _) = engine.handle_packet("0", "s").unwrap();
    assert_eq!(reply.body, None);
    assert_eq!(body(&engine.ping()), "2");
    assert_eq!(body(&engine.pong()), "3");
}

#[test]
fn engine_message_goes_to_socketio() {
    let mut engine = EngineIO::new();
    let (reply, _) = engine.handle_packet("40/admin,", "s").unwrap();
    assert_eq!(body(&reply), "40/admin,{\"sid\":\"s\"}");
    assert!(matches!(engine.handle_packet("4x", "s"), Err(PacketError::WronglyJsonized)));
}

#[test]
fn long_polling_handshake() {
    let mut engine = EngineIO::new();
    match engine.long_polling_step("", "", "T1").unwrap() {
        PollStep::Answer(reply, None) => {
            assert_eq!(
                body(&reply),
                "0{\"maxPayload\":1000000,\"pingInterval\":25000,\"pingTimeout\":20000,\"sid\":\"T1\",\"upgrades\":[\"\"]}"
            );
            assert_eq!(content_type(&reply), Some(String::from("text/plain; charset=UTF-8")));
        }
        _ => panic!("expected a handshake"),
    }
    assert!(!engine.is_connected("T1"));
}

#[test]
fn long_polling_connects_then_waits_then_delivers() {
    let mut engine = EngineIO::new();
    match engine.long_polling_step("", "S", "T").unwrap() {
        PollStep::Answer(reply, None) => assert_eq!(body(&reply), "40{\"sid\":\"S\"}"),
        _ => panic!("expected the connect reply"),
    }
    assert!(engine.is_connected("S"));
    match engine.long_polling_step("", "S", "T").unwrap() {
        PollStep::Wait(sid) => assert_eq!(sid, "S"),
        _ => panic!("expected to wait"),
    }
    assert!(engine.poll_payload("S").is_none());
    engine.emit("onBind", vec![Value::String(String::from("Echo"))], String::from("/"), String::from("S"));
    let reply = engine.poll_payload("S").unwrap();
    assert_eq!(body(&reply), "42[\"onBind\",\"Echo\"]");
    assert_eq!(content_type(&reply), Some(String::from("text/plain; charset=UTF-8")));
}

#[test]
fn long_polling_handles_first_nonempty_packet_only() {
    let mut engine = EngineIO::new();
    engine.on("bind");
    match engine.long_polling_step("\u{1e}42[\"bind\",1]\u{1e}2", "S", "T").unwrap() {
        PollStep::Answer(reply, Some(call)) => {
            assert_eq!(body(&reply), "Event processed");
            assert_eq!(call.event, "bind");
            assert_eq!(call.sid, "S");
        }
        _ => panic!("expected the event to be dispatched"),
    }
    match engine.long_polling_step("2", "", "T") {
        Ok(PollStep::Answer(reply, None)) => assert_eq!(body(&reply), "3"),
        _ => panic!("expected a pong"),
    }
}

#[test]
fn long_polling_faults() {
    let mut engine = EngineIO::new();
    assert_eq!(engine.long_polling_step("4x", "S", "T").err(), Some(EngineFault::Packet(PacketError::WronglyJsonized)));
    assert_eq!(engine.long_polling_step("é", "S", "T").err(), Some(EngineFault::BadPacketType));
}

#[test]
fn echo_scenario() {
    // A client binds, the listener answers with an event to the same session.
    let mut engine = EngineIO::new();
    engine.on("bind");
    let _ = engine.long_polling_step("", "C", "T").unwrap();
    let step = engine.long_polling_step("42[\"bind\",{\"user_id\":\"1\"}]", "C", "T").unwrap();
    let call = match step {
        PollStep::Answer(_, Some(call)) => call,
        _ => panic!("expected a listener call"),
    };
    engine.emit("onBind", vec![Value::String(String::from("Echo"))], call.namespace.clone(), call.sid.clone());
    let reply = engine.poll_payload("C").unwrap();
    assert_eq!(body(&reply), "42[\"onBind\",\"Echo\"]");
}
