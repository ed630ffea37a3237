use walltaker::codec::{
    announce_message, check_message, encode, encode_identifier, subscribe_message,
    unsubscribe_message, Identifier, Outgoing,
};
use walltaker::decode::decode_command;

#[test]
fn subscribe_message_exact() {
    assert_eq!(
        subscribe_message(1),
        "{\"command\":\"subscribe\",\"identifier\":\"{\\\"channel\\\":\\\"LinkChannel\\\",\\\"id\\\":1}\"}"
    );
}

#[test]
fn unsubscribe_message_exact() {
    assert_eq!(
        unsubscribe_message(42),
        "{\"command\":\"unsubscribe\",\"identifier\":\"{\\\"channel\\\":\\\"LinkChannel\\\",\\\"id\\\":42}\"}"
    );
}

#[test]
fn announce_message_exact() {
    assert_eq!(
        announce_message(5),
        "{\"command\":\"message\",\"data\":\"{\\\"client\\\":\\\"2wall2taker-chewtoy/0.1.0\\\",\\\"action\\\":\\\"announce_client\\\"}\",\"identifier\":\"{\\\"channel\\\":\\\"LinkChannel\\\",\\\"id\\\":5}\"}"
    );
}

#[test]
fn check_message_exact() {
    assert_eq!(
        check_message(7),
        "{\"data\":\"{\\\"action\\\":\\\"check\\\"}\",\"identifier\":\"{\\\"channel\\\":\\\"LinkChannel\\\",\\\"id\\\":7}\",\"command\":\"message\"}"
    );
}

#[test]
fn encode_identifier_exact() {
    let ident = Identifier { channel: String::from("LinkChannel"), id: 90210 };
    assert_eq!(
        encode_identifier(&ident),
        "{\"channel\":\"LinkChannel\",\"id\":90210}"
    );
}

#[test]
fn round_trip_subscribe() {
    let cmd = Outgoing::Subscribe { identifier: String::from("{\"channel\":\"LinkChannel\",\"id\":1}") };
    let wire = encode(&cmd);
    match decode_command(&wire) {
        Ok(Outgoing::Subscribe { identifier }) => {
            assert_eq!(identifier, "{\"channel\":\"LinkChannel\",\"id\":1}");
        }
        other => panic!("wrong decode: {other:?}"),
    }
}

#[test]
fn round_trip_unsubscribe() {
    let cmd = Outgoing::Unsubscribe { identifier: String::from("plain text") };
    let wire = encode(&cmd);
    match decode_command(&wire) {
        Ok(Outgoing::Unsubscribe { identifier }) => assert_eq!(identifier, "plain text"),
        other => panic!("wrong decode: {other:?}"),
    }
}

#[test]
fn round_trip_announce() {
    let cmd = Outgoing::Announce {
        data: String::from("{\"action\":\"announce_client\"}"),
        identifier: String::from("{\"id\":3}"),
    };
    let wire = encode(&cmd);
    match decode_command(&wire) {
        Ok(Outgoing::Announce { data, identifier }) => {
            assert_eq!(data, "{\"action\":\"announce_client\"}");
            assert_eq!(identifier, "{\"id\":3}");
        }
        other => panic!("wrong decode: {other:?}"),
    }
}

#[test]
fn round_trip_check() {
    let cmd = Outgoing::Check {
        data: String::from("{\"action\":\"check\"}"),
        identifier: String::from("{\"id\":9}"),
        command: String::from("message"),
    };
    let wire = encode(&cmd);
    match decode_command(&wire) {
        Ok(Outgoing::Check { data, identifier, command }) => {
            assert_eq!(data, "{\"action\":\"check\"}");
            assert_eq!(identifier, "{\"id\":9}");
            assert_eq!(command, "message");
        }
        other => panic!("wrong decode: {other:?}"),
    }
}

#[test]
fn round_trip_awkward_content() {
    // Quotes and backslashes in the embedded documents survive the trip.
    let cmd = Outgoing::Subscribe { identifier: String::from("a\"b\\c\nd") };
    let wire = encode(&cmd);
    match decode_command(&wire) {
        Ok(Outgoing::Subscribe { identifier }) => assert_eq!(identifier, "a\"b\\c\nd"),
        other => panic!("wrong decode: {other:?}"),
    }
}

#[test]
fn control_characters_are_escaped() {
    let cmd = Outgoing::Subscribe { identifier: String::from("a\nb\u{1}c") };
    assert_eq!(
        encode(&cmd),
        "{\"command\":\"subscribe\",\"identifier\":\"a\\nb\\u0001c\"}"
    );
    match decode_command(&encode(&cmd)) {
        Ok(Outgoing::Subscribe { identifier }) => assert_eq!(identifier, "a\nb\u{1}c"),
        other => panic!("wrong decode: {other:?}"),
    }
}

#[test]
fn decode_command_rejects_garbage() {
    assert!(decode_command("").is_err());
    assert!(decode_command("{\"command\":\"subscribe\"}").is_err());
    assert!(decode_command("{\"command\":\"subscribe\",\"identifier\":\"unterminated").is_err());
    assert!(decode_command("not json at all").is_err());
}
