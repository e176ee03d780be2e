use throttle_bridge::dcc::{Direction, Velocity};
use throttle_bridge::encode::make_jmri_request;
use throttle_bridge::jmri::JmriMessage;
use throttle_bridge::parse::{parse, Update};

fn send_text(m: JmriMessage) -> String {
    match m {
        JmriMessage::Send(s) => s,
        JmriMessage::Receive(_) => panic!("expected a Send"),
    }
}

#[test]
fn decode_function_line() {
    match parse("F112") {
        Some(Update::Function { num, is_on }) => {
            assert_eq!(num, 12);
            assert!(is_on);
        }
        _ => panic!("F112 must decode as a function update"),
    }
}

#[test]
fn encode_function_update() {
    let u = Update::Function { num: 12, is_on: true };
    let m = make_jmri_request("S67", &u).expect("function updates encode");
    assert_eq!(send_text(m), "MTAS67<;>F112");
}

#[test]
fn encode_function_off() {
    let u = Update::Function { num: 3, is_on: false };
    let m = make_jmri_request("S67", &u).expect("function updates encode");
    assert_eq!(send_text(m), "MTAS67<;>F03");
}

#[test]
fn decode_velocity_line() {
    match parse("V-1") {
        Some(Update::Velocity(v)) => assert_eq!(v, -1),
        _ => panic!("V-1 must decode as a velocity update"),
    }
}

#[test]
fn encode_velocity_update() {
    let m = make_jmri_request("S67", &Update::Velocity(-1)).expect("velocity updates encode");
    assert_eq!(send_text(m), "MTAS67<;>V-1\nMTAS67<;>qV");
}

#[test]
fn decode_direction_line() {
    match parse("R0") {
        Some(Update::Direction(Direction::Reverse)) => {}
        _ => panic!("R0 must decode as reverse"),
    }
    match parse("R1") {
        Some(Update::Direction(Direction::Forward)) => {}
        _ => panic!("R1 must decode as forward"),
    }
}

#[test]
fn direction_tokens() {
    assert_eq!(Direction::Reverse.token(), "R0");
    assert_eq!(Direction::Forward.token(), "R1");
}

#[test]
fn encode_direction_update() {
    let m = make_jmri_request("S67", &Update::Direction(Direction::Reverse))
        .expect("direction updates encode");
    assert_eq!(send_text(m), "MTAS67<;>R0\nMTAS67<;>vR");
}

#[test]
fn decode_clock_line() {
    match parse("PFT100<;>2.0") {
        Some(Update::Time { timestamp, scale }) => {
            assert_eq!(timestamp, 100);
            assert_eq!(scale, "2.0");
        }
        _ => panic!("PFT100<;>2.0 must decode as a clock update"),
    }
}

#[test]
fn encode_clock_update_yields_nothing() {
    let u = Update::Time { timestamp: 100, scale: "2.0".to_string() };
    assert!(make_jmri_request("S67", &u).is_none());
}

#[test]
fn function_rule_takes_priority() {
    // The velocity pattern occurs earlier in the line, but the function
    // rule is checked first and wins.
    match parse("V20F112") {
        Some(Update::Function { num, is_on }) => {
            assert_eq!(num, 12);
            assert!(is_on);
        }
        _ => panic!("a line with a function token decodes by the function rule"),
    }
}

#[test]
fn velocity_rule_beats_direction_rule() {
    match parse("R0V5") {
        Some(Update::Velocity(v)) => assert_eq!(v, 5),
        _ => panic!("the velocity rule precedes the direction rule"),
    }
}

#[test]
fn direction_rule_beats_clock_rule() {
    // The clock line carries an R0 token, and the direction rule is
    // checked before the clock rule.
    match parse("PFT10<;>2R0") {
        Some(Update::Direction(Direction::Reverse)) => {}
        _ => panic!("the direction rule precedes the clock rule"),
    }
}

#[test]
fn function_number_is_greedy() {
    match parse("F112234") {
        Some(Update::Function { num, is_on }) => {
            assert_eq!(num, 12);
            assert!(is_on);
        }
        _ => panic!("two digits are taken when available"),
    }
}

#[test]
fn function_single_digit() {
    match parse("F05") {
        Some(Update::Function { num, is_on }) => {
            assert_eq!(num, 5);
            assert!(!is_on);
        }
        _ => panic!("F05 must decode as function 5 off"),
    }
}

#[test]
fn velocity_takes_at_most_three_digits() {
    match parse("V12345") {
        Some(Update::Velocity(v)) => assert_eq!(v, 123),
        _ => panic!("the velocity token holds at most three digits"),
    }
}

#[test]
fn undecodable_lines_yield_nothing() {
    assert!(parse("").is_none());
    assert!(parse("hello").is_none());
    assert!(parse("V").is_none());
    assert!(parse("V-").is_none());
    assert!(parse("F2").is_none());
    assert!(parse("R2").is_none());
    assert!(parse("PFT<;>2").is_none());
    assert!(parse("PFT5<;>").is_none());
}

#[test]
fn clock_timestamp_beyond_range_yields_nothing() {
    assert!(parse("PFT99999999999999999999<;>1").is_none());
}

#[test]
fn clock_scale_is_canonicalized() {
    match parse("PFT1<;>007") {
        Some(Update::Time { timestamp, scale }) => {
            assert_eq!(timestamp, 1);
            assert_eq!(scale, "7");
        }
        _ => panic!("clock with zero-padded scale must decode"),
    }
    match parse("PFT1<;>00.5") {
        Some(Update::Time { scale, .. }) => assert_eq!(scale, "0.5"),
        _ => panic!("clock with zero integer part must decode"),
    }
}

#[test]
fn clock_scale_fraction_is_greedy() {
    match parse("PFT1<;>2.53x") {
        Some(Update::Time { scale, .. }) => assert_eq!(scale, "2.53"),
        _ => panic!("fractional scale must decode"),
    }
    match parse("PFT1<;>2.") {
        Some(Update::Time { scale, .. }) => assert_eq!(scale, "2"),
        _ => panic!("a bare dot is not part of the scale"),
    }
}

#[test]
fn velocity_from_str_reads_token() {
    let v = Velocity::from_str("V12").expect("V12 holds a velocity token");
    assert_eq!(v.value(), 12);
    // from_str does not clamp: the raw token value is kept.
    let v = Velocity::from_str("V999").expect("V999 holds a velocity token");
    assert_eq!(v.value(), 999);
}

#[test]
fn velocity_from_str_rejects_other_text() {
    let e = Velocity::from_str("zzz").expect_err("zzz holds no velocity token");
    assert_eq!(e.message(), "Unable to parse 'zzz' as Velocity");
}

#[test]
fn direction_from_str() {
    assert_eq!(Direction::from_str("R0"), Direction::Reverse);
    assert_eq!(Direction::from_str("R1"), Direction::Forward);
    // Anything but the reverse token reads as forward.
    assert_eq!(Direction::from_str("xx"), Direction::Forward);
}
