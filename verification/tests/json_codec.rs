use throttle_bridge::dcc::{Direction, Throttle};
use throttle_bridge::json::{throttle_to_json, update_from_json, update_to_json};
use throttle_bridge::parse::Update;

#[test]
fn function_update_to_json() {
    let u = Update::Function { num: 12, is_on: true };
    assert_eq!(update_to_json(&u), "{\"Function\":{\"num\":12,\"is_on\":true}}");
}

#[test]
fn velocity_update_to_json() {
    assert_eq!(update_to_json(&Update::Velocity(-1)), "{\"Velocity\":-1}");
    assert_eq!(update_to_json(&Update::Velocity(20)), "{\"Velocity\":20}");
}

#[test]
fn direction_update_to_json() {
    assert_eq!(
        update_to_json(&Update::Direction(Direction::Forward)),
        "{\"Direction\":\"Forward\"}"
    );
    assert_eq!(
        update_to_json(&Update::Direction(Direction::Reverse)),
        "{\"Direction\":\"Reverse\"}"
    );
}

#[test]
fn time_update_to_json() {
    let u = Update::Time { timestamp: 100, scale: "2.0".to_string() };
    assert_eq!(update_to_json(&u), "{\"Time\":{\"timestamp\":100,\"scale\":2.0}}");
}

#[test]
fn update_json_round_trips() {
    let cases = [
        update_to_json(&Update::Function { num: 12, is_on: true }),
        update_to_json(&Update::Function { num: 0, is_on: false }),
        update_to_json(&Update::Velocity(-1)),
        update_to_json(&Update::Velocity(129)),
        update_to_json(&Update::Direction(Direction::Reverse)),
        update_to_json(&Update::Time { timestamp: 100, scale: "2.0".to_string() }),
    ];
    for text in &cases {
        let u = update_from_json(text).expect("an encoded update reads back");
        assert_eq!(&update_to_json(&u), text);
    }
}

#[test]
fn json_reader_accepts_whitespace() {
    match update_from_json(" { \"Velocity\" : 20 } ") {
        Some(Update::Velocity(v)) => assert_eq!(v, 20),
        _ => panic!("whitespace between tokens is insignificant"),
    }
}

#[test]
fn json_reader_accepts_either_field_order() {
    match update_from_json("{\"Function\":{\"is_on\":false,\"num\":3}}") {
        Some(Update::Function { num, is_on }) => {
            assert_eq!(num, 3);
            assert!(!is_on);
        }
        _ => panic!("is_on may come first"),
    }
    match update_from_json("{\"Time\":{\"scale\":1.5,\"timestamp\":7}}") {
        Some(Update::Time { timestamp, scale }) => {
            assert_eq!(timestamp, 7);
            assert_eq!(scale, "1.5");
        }
        _ => panic!("scale may come first"),
    }
}

#[test]
fn json_reader_rejects_bad_documents() {
    assert!(update_from_json("").is_none());
    assert!(update_from_json("junk").is_none());
    assert!(update_from_json("{\"Velocity\":}").is_none());
    assert!(update_from_json("{\"Velocity\":012}").is_none());
    assert!(update_from_json("{\"Velocity\":99999}").is_none());
    assert!(update_from_json("{\"Velocity\":-40000}").is_none());
    assert!(update_from_json("{\"Velocity\":1}x").is_none());
    assert!(update_from_json("{\"Speed\":1}").is_none());
    assert!(update_from_json("{\"Function\":{\"num\":300,\"is_on\":true}}").is_none());
    assert!(update_from_json("{\"Function\":{\"num\":1}}").is_none());
}

#[test]
fn json_reader_accepts_negative_bound() {
    match update_from_json("{\"Velocity\":-32768}") {
        Some(Update::Velocity(v)) => assert_eq!(v, -32768),
        _ => panic!("the lowest velocity value reads back"),
    }
}

#[test]
fn throttle_snapshot_to_json() {
    let mut t = Throttle::new("S67".to_string());
    t.set_vel(20);
    t.set_func(12, true);
    t.set_func(3, true);
    assert_eq!(
        throttle_to_json(&t),
        "{\"address\":\"S67\",\"velocity\":{\"value\":20},\"direction\":\"Forward\",\"functions\":[3,12]}"
    );
}

#[test]
fn emitted_function_json_parses_as_generic_json() {
    let text = update_to_json(&Update::Function { num: 12, is_on: true });
    let v: serde_json::Value = serde_json::from_str(&text).expect("the document is valid JSON");
    assert_eq!(v["Function"]["num"], serde_json::Value::from(12u8));
    assert_eq!(v["Function"]["is_on"], serde_json::Value::from(true));
}

#[test]
fn emitted_snapshot_parses_as_generic_json() {
    let mut t = Throttle::new("S67".to_string());
    t.set_vel(-1);
    t.set_func(5, true);
    let v: serde_json::Value =
        serde_json::from_str(&throttle_to_json(&t)).expect("the document is valid JSON");
    assert_eq!(v["address"], serde_json::Value::from("S67"));
    assert_eq!(v["velocity"]["value"], serde_json::Value::from(-1i16));
    assert_eq!(v["direction"], serde_json::Value::from("Forward"));
    assert_eq!(v["functions"][0], serde_json::Value::from(5u8));
}

#[test]
fn generic_json_document_reads_back() {
    let mut inner = serde_json::Map::new();
    inner.insert("num".to_string(), serde_json::Value::from(9u8));
    inner.insert("is_on".to_string(), serde_json::Value::from(true));
    let mut outer = serde_json::Map::new();
    outer.insert("Function".to_string(), serde_json::Value::Object(inner));
    let text = serde_json::Value::Object(outer).to_string();
    match update_from_json(&text) {
        Some(Update::Function { num, is_on }) => {
            assert_eq!(num, 9);
            assert!(is_on);
        }
        _ => panic!("a generically produced document reads back"),
    }
}
