use throttle_bridge::dcc::Direction;
use tokio::sync::broadcast;
use tokio::sync::broadcast::error::TryRecvError;
use throttle_bridge::jmri::{send_payload, session_init_lines, split_line, JmriMessage};
use throttle_bridge::json::{throttle_to_json, update_from_json, update_to_json};
use throttle_bridge::parse::Update;
use throttle_bridge::relay::{
    handle_gateway_message, handle_upstream_message, recv_failure_action, GatewayReply,
    LoopAction, RecvFailure,
};
use throttle_bridge::server::{ws_outbound_payload, ws_wrap_inbound, WSMessage};
use throttle_bridge::store::Store;

const ADDR: &str = "S67";

fn clamp(v: i16) -> i16 {
    v.clamp(-1, 129)
}

#[test]
fn velocity_is_clamped_for_all_inputs() {
    for v in [-999i16, -2, -1, 0, 1, 64, 128, 129, 130, 500, i16::MAX, i16::MIN] {
        let mut store = Store::new(ADDR.to_string());
        store.apply(&Update::Velocity(v), ADDR);
        assert_eq!(store.snapshot(ADDR).get_vel(), clamp(v));
    }
}

#[test]
fn emergency_is_negative_velocity() {
    let mut store = Store::new(ADDR.to_string());
    store.apply(&Update::Velocity(-5), ADDR);
    assert!(store.snapshot(ADDR).is_emergency());
    store.apply(&Update::Velocity(0), ADDR);
    assert!(!store.snapshot(ADDR).is_emergency());
}

#[test]
fn function_updates_toggle_membership() {
    let mut store = Store::new(ADDR.to_string());
    store.apply(&Update::Function { num: 12, is_on: true }, ADDR);
    assert!(store.snapshot(ADDR).get_func(&12));
    store.apply(&Update::Function { num: 12, is_on: false }, ADDR);
    assert!(!store.snapshot(ADDR).get_func(&12));
    // Turning an absent function off, or a present one on, changes nothing.
    store.apply(&Update::Function { num: 7, is_on: false }, ADDR);
    assert!(!store.snapshot(ADDR).get_func(&7));
    store.apply(&Update::Function { num: 7, is_on: true }, ADDR);
    store.apply(&Update::Function { num: 7, is_on: true }, ADDR);
    assert!(store.snapshot(ADDR).get_func(&7));
}

#[test]
fn direction_updates_apply() {
    let mut store = Store::new(ADDR.to_string());
    assert_eq!(*store.snapshot(ADDR).get_dir(), Direction::Forward);
    store.apply(&Update::Direction(Direction::Reverse), ADDR);
    assert_eq!(*store.snapshot(ADDR).get_dir(), Direction::Reverse);
}

#[test]
fn clock_update_touches_only_the_clock() {
    let mut store = Store::new(ADDR.to_string());
    store.apply(&Update::Velocity(20), ADDR);
    let before = throttle_to_json(&store.snapshot(ADDR));
    store.apply(&Update::Time { timestamp: 100, scale: "2.0".to_string() }, ADDR);
    let (timestamp, scale) = store.clock();
    assert_eq!(timestamp, 100);
    assert_eq!(scale, "2.0");
    assert_eq!(throttle_to_json(&store.snapshot(ADDR)), before);
}

#[test]
fn store_knows_only_its_address() {
    let store = Store::new(ADDR.to_string());
    assert!(store.has_throttle(ADDR));
    assert!(!store.has_throttle("S68"));
}

#[test]
fn upstream_line_reaches_gateway_as_function_update() {
    let mut store = Store::new(ADDR.to_string());
    let msg = JmriMessage::Receive("F112".to_string());
    let out = handle_upstream_message(&mut store, &msg, ADDR)
        .expect("a decodable line is republished");
    match out {
        WSMessage::Send { address, message } => {
            assert_eq!(address, ADDR);
            match update_from_json(&message) {
                Some(Update::Function { num, is_on }) => {
                    assert_eq!(num, 12);
                    assert!(is_on);
                }
                _ => panic!("the payload deserializes to the function update"),
            }
        }
        WSMessage::Receive { .. } => panic!("the orchestrator publishes a Send"),
    }
    assert!(store.snapshot(ADDR).get_func(&12));
}

#[test]
fn upstream_echo_and_noise_are_dropped() {
    let mut store = Store::new(ADDR.to_string());
    assert!(handle_upstream_message(
        &mut store,
        &JmriMessage::Send("MTAS67<;>F112".to_string()),
        ADDR
    )
    .is_none());
    assert!(handle_upstream_message(
        &mut store,
        &JmriMessage::Receive("garbage".to_string()),
        ADDR
    )
    .is_none());
    assert!(!store.snapshot(ADDR).get_func(&12));
}

#[test]
fn update_keyword_answers_with_snapshot() {
    let mut store = Store::new(ADDR.to_string());
    store.apply(&Update::Velocity(20), ADDR);
    store.apply(&Update::Function { num: 12, is_on: true }, ADDR);
    let msg = WSMessage::Receive { address: ADDR.to_string(), message: "update".to_string() };
    match handle_gateway_message(&store, &msg, ADDR) {
        GatewayReply::ToGateway(v) => {
            assert_eq!(v.len(), 1);
            match &v[0] {
                WSMessage::Send { address, message } => {
                    assert_eq!(address, ADDR);
                    assert_eq!(message, &throttle_to_json(&store.snapshot(ADDR)));
                }
                WSMessage::Receive { .. } => panic!("the reply is a Send"),
            }
        }
        _ => panic!("the update keyword answers on the gateway bus"),
    }
}

#[test]
fn test_update_keyword_answers_with_canned_updates() {
    let store = Store::new(ADDR.to_string());
    let msg =
        WSMessage::Receive { address: ADDR.to_string(), message: "test-update".to_string() };
    match handle_gateway_message(&store, &msg, ADDR) {
        GatewayReply::ToGateway(v) => {
            assert_eq!(v.len(), 3);
            let expected = [
                update_to_json(&Update::Function { num: 12, is_on: true }),
                update_to_json(&Update::Direction(Direction::Forward)),
                update_to_json(&Update::Velocity(20)),
            ];
            for (m, want) in v.iter().zip(expected.iter()) {
                match m {
                    WSMessage::Send { address, message } => {
                        assert_eq!(address, ADDR);
                        assert_eq!(message, want);
                    }
                    WSMessage::Receive { .. } => panic!("the replies are Sends"),
                }
            }
        }
        _ => panic!("the test-update keyword answers on the gateway bus"),
    }
}

#[test]
fn json_payload_is_forwarded_upstream() {
    let store = Store::new(ADDR.to_string());
    let msg = WSMessage::Receive {
        address: ADDR.to_string(),
        message: "{\"Velocity\":20}".to_string(),
    };
    match handle_gateway_message(&store, &msg, ADDR) {
        GatewayReply::ToUpstream(JmriMessage::Send(s)) => {
            assert_eq!(s, "MTAS67<;>V20\nMTAS67<;>qV");
        }
        _ => panic!("a JSON velocity update is forwarded upstream"),
    }
}

#[test]
fn clock_json_payload_is_not_forwarded() {
    let store = Store::new(ADDR.to_string());
    let msg = WSMessage::Receive {
        address: ADDR.to_string(),
        message: "{\"Time\":{\"timestamp\":1,\"scale\":1.0}}".to_string(),
    };
    assert!(matches!(handle_gateway_message(&store, &msg, ADDR), GatewayReply::Nothing));
}

#[test]
fn malformed_payloads_are_ignored() {
    let store = Store::new(ADDR.to_string());
    for text in ["", "upd", "{\"Velocity\":oops}", "{}"] {
        let msg = WSMessage::Receive { address: ADDR.to_string(), message: text.to_string() };
        assert!(matches!(handle_gateway_message(&store, &msg, ADDR), GatewayReply::Nothing));
    }
    let echo = WSMessage::Send { address: ADDR.to_string(), message: "update".to_string() };
    assert!(matches!(handle_gateway_message(&store, &echo, ADDR), GatewayReply::Nothing));
}

#[test]
fn outbound_loop_only_serves_its_own_address() {
    let own = WSMessage::Send { address: ADDR.to_string(), message: "hi".to_string() };
    assert_eq!(ws_outbound_payload(ADDR, &own), Some("hi".to_string()));
    let other = WSMessage::Send { address: "S68".to_string(), message: "hi".to_string() };
    assert!(ws_outbound_payload(ADDR, &other).is_none());
    let receive = WSMessage::Receive { address: ADDR.to_string(), message: "hi".to_string() };
    assert!(ws_outbound_payload(ADDR, &receive).is_none());
}

#[test]
fn inbound_frames_are_tagged_with_the_local_address() {
    match ws_wrap_inbound(ADDR, "update".to_string()) {
        WSMessage::Receive { address, message } => {
            assert_eq!(address, ADDR);
            assert_eq!(message, "update");
        }
        WSMessage::Send { .. } => panic!("an inbound frame becomes a Receive"),
    }
}

#[test]
fn read_buffer_splits_into_clean_fragments() {
    assert_eq!(split_line("abc\ndef\n"), vec!["abc".to_string(), "def".to_string()]);
    assert_eq!(split_line("  hi  "), vec!["hi".to_string()]);
    assert_eq!(split_line("\n \n"), Vec::<String>::new());
    assert_eq!(split_line(""), Vec::<String>::new());
    assert_eq!(split_line("a\r\nb"), vec!["a".to_string(), "b".to_string()]);
}

#[test]
fn write_loop_appends_the_separator() {
    let m = JmriMessage::Send("MTAS67<;>qV".to_string());
    assert_eq!(send_payload(&m), Some("MTAS67<;>qV\n".to_string()));
    assert!(send_payload(&JmriMessage::Receive("x".to_string())).is_none());
}

#[test]
fn session_initiation_lines() {
    let lines = session_init_lines("123e4567", ADDR);
    let texts: Vec<String> = lines
        .into_iter()
        .map(|m| match m {
            JmriMessage::Send(s) => s,
            JmriMessage::Receive(_) => panic!("initiation lines are Sends"),
        })
        .collect();
    assert_eq!(
        texts,
        vec!["HU123e4567".to_string(), "NRusty".to_string(), "MT+S67<;>S67".to_string()]
    );
}

#[test]
fn message_descriptions() {
    assert_eq!(JmriMessage::Send("x".to_string()).describe(), "Send: x");
    assert_eq!(JmriMessage::Receive("y".to_string()).describe(), "Receive: y");
}

#[test]
fn lagged_subscribers_skip_and_closed_buses_stop() {
    assert_eq!(recv_failure_action(&RecvFailure::Lagged), LoopAction::Skip);
    assert_eq!(recv_failure_action(&RecvFailure::Closed), LoopAction::Stop);
}

#[test]
fn lagged_subscriber_sees_a_strict_suffix() {
    let (tx, mut rx) = broadcast::channel::<u32>(10);
    for v in 1..=25u32 {
        // The publisher is never blocked by the slow subscriber.
        tx.send(v).expect("a subscriber exists");
    }
    let lag = match rx.try_recv() {
        Err(TryRecvError::Lagged(n)) => n,
        other => panic!("the stalled subscriber observes a lag, got {:?}", other),
    };
    assert!(lag > 0);
    // What remains is a strict, contiguous suffix ending at the newest
    // message.
    let mut received = Vec::new();
    loop {
        match rx.try_recv() {
            Ok(v) => received.push(v),
            Err(TryRecvError::Empty) => break,
            Err(e) => panic!("unexpected receive failure {:?}", e),
        }
    }
    assert_eq!(*received.last().expect("some messages remain"), 25);
    for w in received.windows(2) {
        assert_eq!(w[1], w[0] + 1);
    }
    assert_eq!(received[0], 1 + lag as u32);
}

#[test]
fn error_types_carry_their_messages() {
    let e = throttle_bridge::config::ConfigError::new("no configuration".to_string());
    assert_eq!(e.message(), "no configuration");
    let p = throttle_bridge::parse::ParseError::new("bad line".to_string());
    assert_eq!(p.message(), "bad line");
}
