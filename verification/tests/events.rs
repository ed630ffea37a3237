use walltaker::codec::Incoming;
use walltaker::decode::decode;
use walltaker::dispatch::{dispatch, handle_message};
use walltaker::reconcile::DesiredState;

fn desired(ids: &[usize]) -> DesiredState {
    let mut d = DesiredState::new();
    for id in ids {
        d.add_id(*id);
    }
    d
}

#[test]
fn decode_welcome() {
    assert!(matches!(decode("{\"type\":\"welcome\"}"), Ok(Incoming::Welcome)));
}

#[test]
fn decode_ping() {
    match decode("{\"type\":\"ping\",\"message\":1700000000}") {
        Ok(Incoming::Ping { message }) => assert_eq!(message, 1700000000),
        other => panic!("wrong decode: {:?}", other.is_ok()),
    }
}

#[test]
fn decode_confirm() {
    match decode("{\"type\":\"confirm_subscription\",\"identifier\":\"{\\\"channel\\\":\\\"LinkChannel\\\",\\\"id\\\":1}\"}") {
        Ok(Incoming::ConfirmSubscription { identifier }) => {
            assert_eq!(identifier, "{\"channel\":\"LinkChannel\",\"id\":1}");
        }
        other => panic!("wrong decode: {:?}", other.is_ok()),
    }
}

#[test]
fn decode_disconnect() {
    match decode("{\"type\":\"disconnect\",\"reason\":\"server_restart\",\"reconnect\":true}") {
        Ok(Incoming::Disconnect { reason, reconnect }) => {
            assert_eq!(reason, "server_restart");
            assert!(reconnect);
        }
        other => panic!("wrong decode: {:?}", other.is_ok()),
    }
}

#[test]
fn decode_update_with_url() {
    let text = "{\"identifier\":\"{\\\"channel\\\":\\\"LinkChannel\\\",\\\"id\\\":1}\",\"message\":{\"id\":1,\"post_url\":\"https://x/img.jpg\",\"set_by\":null}}";
    match decode(text) {
        Ok(Incoming::Message { identifier, message }) => {
            assert_eq!(identifier, "{\"channel\":\"LinkChannel\",\"id\":1}");
            assert_eq!(message.id, 1);
            assert_eq!(message.post_url.as_deref(), Some("https://x/img.jpg"));
            assert_eq!(message.set_by, None);
        }
        other => panic!("wrong decode: {:?}", other.is_ok()),
    }
}

#[test]
fn decode_update_without_url() {
    let text = "{\"identifier\":\"{\\\"channel\\\":\\\"LinkChannel\\\",\\\"id\\\":2}\",\"message\":{\"id\":2,\"post_url\":null,\"set_by\":\"someone\"}}";
    match decode(text) {
        Ok(Incoming::Message { message, .. }) => {
            assert_eq!(message.id, 2);
            assert_eq!(message.post_url, None);
            assert_eq!(message.set_by.as_deref(), Some("someone"));
        }
        other => panic!("wrong decode: {:?}", other.is_ok()),
    }
}

#[test]
fn decode_rejects_malformed() {
    assert!(decode("").is_err());
    assert!(decode("not json").is_err());
    assert!(decode("{\"type\":\"welcome\"} x").is_err());
    assert!(decode("{\"type\":\"welcome\"").is_err());
    assert!(decode("{\"type\":\"pong\"}").is_err());
    assert!(decode("{\"type\":\"ping\",\"message\":}").is_err());
    // A nonce beyond u64 is rejected rather than wrapped.
    assert!(decode("{\"type\":\"ping\",\"message\":99999999999999999999999}").is_err());
    assert!(decode("{\"type\":\"disconnect\",\"reason\":\"x\",\"reconnect\":maybe}").is_err());
    // A tagged shape that matched its tag must supply its fields.
    assert!(decode("{\"type\":\"ping\"}").is_err());
    // An unknown escape inside a string is malformed, not silently kept.
    assert!(decode("{\"type\":\"confirm_subscription\",\"identifier\":\"a\\x\"}").is_err());
    // A raw control character inside a string is not valid JSON.
    assert!(decode("{\"type\":\"confirm_subscription\",\"identifier\":\"a\nb\"}").is_err());
}

#[test]
fn decode_tolerates_field_order_and_whitespace() {
    match decode("{\"message\":42,\"type\":\"ping\"}") {
        Ok(Incoming::Ping { message }) => assert_eq!(message, 42),
        other => panic!("wrong decode: {:?}", other.is_ok()),
    }
    match decode("{\"identifier\":\"x\",\"type\":\"confirm_subscription\"}") {
        Ok(Incoming::ConfirmSubscription { identifier }) => assert_eq!(identifier, "x"),
        other => panic!("wrong decode: {:?}", other.is_ok()),
    }
    match decode(" { \"type\" : \"ping\" ,\n\t\"message\" : 7 } ") {
        Ok(Incoming::Ping { message }) => assert_eq!(message, 7),
        other => panic!("wrong decode: {:?}", other.is_ok()),
    }
    assert!(matches!(decode(" {\"type\":\"welcome\"} "), Ok(Incoming::Welcome)));
}

#[test]
fn decode_ignores_unknown_fields() {
    match decode("{\"extra\":[1,{\"a\":null},-2.5e3],\"type\":\"ping\",\"message\":1,\"more\":\"x\"}") {
        Ok(Incoming::Ping { message }) => assert_eq!(message, 1),
        other => panic!("wrong decode: {:?}", other.is_ok()),
    }
    let text = "{\"message\":{\"set_by\":\"a\",\"surprise\":{\"deep\":[]},\"id\":3,\"post_url\":null},\"identifier\":\"y\"}";
    match decode(text) {
        Ok(Incoming::Message { identifier, message }) => {
            assert_eq!(identifier, "y");
            assert_eq!(message.id, 3);
            assert_eq!(message.post_url, None);
            assert_eq!(message.set_by.as_deref(), Some("a"));
        }
        other => panic!("wrong decode: {:?}", other.is_ok()),
    }
}

#[test]
fn decode_update_without_optional_fields() {
    // Optional payload fields may be missing entirely.
    match decode("{\"identifier\":\"x\",\"message\":{\"id\":1,\"post_url\":null}}") {
        Ok(Incoming::Message { message, .. }) => {
            assert_eq!(message.post_url, None);
            assert_eq!(message.set_by, None);
        }
        other => panic!("wrong decode: {:?}", other.is_ok()),
    }
}

#[test]
fn decode_unknown_type_falls_back_to_update() {
    let text = "{\"type\":\"pong\",\"identifier\":\"z\",\"message\":{\"id\":9,\"post_url\":null,\"set_by\":null}}";
    match decode(text) {
        Ok(Incoming::Message { identifier, message }) => {
            assert_eq!(identifier, "z");
            assert_eq!(message.id, 9);
        }
        other => panic!("wrong decode: {:?}", other.is_ok()),
    }
}

#[test]
fn ping_produces_no_command_and_no_error() {
    let d = desired(&[1, 2]);
    let mut out: Vec<String> = Vec::new();
    let r = handle_message("{\"type\":\"ping\",\"message\":42}", &d, &mut out);
    assert!(matches!(r, Ok(None)));
    assert!(out.is_empty());
}

#[test]
fn update_with_url_triggers_one_fetch() {
    let d = desired(&[1]);
    let mut out: Vec<String> = Vec::new();
    let text = "{\"identifier\":\"{\\\"channel\\\":\\\"LinkChannel\\\",\\\"id\\\":1}\",\"message\":{\"id\":1,\"post_url\":\"https://x/img.jpg\",\"set_by\":null}}";
    let r = handle_message(text, &d, &mut out);
    match r {
        Ok(Some(url)) => assert_eq!(url, "https://x/img.jpg"),
        other => panic!("wrong dispatch: {:?}", other.is_ok()),
    }
    assert!(out.is_empty());
}

#[test]
fn update_with_null_url_is_inert() {
    let d = desired(&[1]);
    let mut out: Vec<String> = Vec::new();
    let text = "{\"identifier\":\"{\\\"channel\\\":\\\"LinkChannel\\\",\\\"id\\\":1}\",\"message\":{\"id\":1,\"post_url\":null,\"set_by\":null}}";
    let r = handle_message(text, &d, &mut out);
    assert!(matches!(r, Ok(None)));
    assert!(out.is_empty());
}

#[test]
fn welcome_resubscribes_all() {
    let d = desired(&[1, 2]);
    let mut out: Vec<String> = Vec::new();
    let r = handle_message("{\"type\":\"welcome\"}", &d, &mut out);
    assert!(matches!(r, Ok(None)));
    assert_eq!(
        out,
        vec![
            walltaker::codec::subscribe_message(1),
            walltaker::codec::announce_message(1),
            walltaker::codec::subscribe_message(2),
            walltaker::codec::announce_message(2),
        ]
    );
}

#[test]
fn welcome_twice_is_idempotent() {
    let d = desired(&[3, 5]);
    let mut first: Vec<String> = Vec::new();
    let mut second: Vec<String> = Vec::new();
    let f1 = dispatch(&Incoming::Welcome, &d, &mut first);
    let f2 = dispatch(&Incoming::Welcome, &d, &mut second);
    assert!(f1.is_none() && f2.is_none());
    assert_eq!(first, second);
    assert_eq!(first.len(), 4);
}

#[test]
fn confirm_and_disconnect_are_quiet() {
    let d = desired(&[1, 2]);
    let mut out: Vec<String> = Vec::new();
    let confirm = Incoming::ConfirmSubscription { identifier: String::from("x") };
    let disconnect = Incoming::Disconnect { reason: String::from("bye"), reconnect: false };
    assert!(dispatch(&confirm, &d, &mut out).is_none());
    assert!(dispatch(&disconnect, &d, &mut out).is_none());
    assert!(out.is_empty());
}

#[test]
fn builder_frames_read_back() {
    match walltaker::decode::decode_command(&walltaker::codec::subscribe_message(1)) {
        Ok(walltaker::codec::Outgoing::Subscribe { identifier }) => {
            assert_eq!(identifier, "{\"channel\":\"LinkChannel\",\"id\":1}");
        }
        other => panic!("wrong decode: {other:?}"),
    }
}

#[test]
fn malformed_frame_queues_nothing() {
    let d = desired(&[1]);
    let mut out: Vec<String> = Vec::new();
    let r = handle_message("{\"type\":\"welcome\"", &d, &mut out);
    assert!(r.is_err());
    assert!(out.is_empty());
}
