use notification_service::payload::{iso8601, pubsub_message};
use notification_service::types::Timestamp;

#[test]
fn instants_are_written_in_iso_8601_with_milliseconds() {
    assert_eq!(iso8601(Timestamp(947_638_923_004)), Some("2000-01-12T01:02:03.004Z".to_string()));
    assert_eq!(iso8601(Timestamp(0)), Some("1970-01-01T00:00:00.000Z".to_string()));
    assert_eq!(iso8601(Timestamp(i64::MAX)), None);
}

#[test]
fn pubsub_message_matches_the_service_shape() {
    let client_id = "59f9c690-caa0-5595-aa99-8d80f824e223";
    let raw = pubsub_message(client_id, Timestamp(1_734_512_893_001)).expect("in range");
    assert_eq!(
        raw,
        "{\"streamId\":\"59f9c690-caa0-5595-aa99-8d80f824e223\",\"timestamp\":\"2024-12-18T09:08:13.001Z\"}"
    );
    let decoded: serde_json::Value = serde_json::from_str(&raw).expect("the service must be able to decode it");
    assert_eq!(decoded["streamId"], client_id);
    let quoted = pubsub_message("a\"b", Timestamp(0)).unwrap();
    let decoded: serde_json::Value = serde_json::from_str(&quoted).unwrap();
    assert_eq!(decoded["streamId"], "a\"b");
}

#[test]
fn client_ids_are_escaped_as_json_string_literals() {
    let raw = pubsub_message("q\"b\\s\u{1}\n\u{7f}é", Timestamp(0)).unwrap();
    assert_eq!(
        raw,
        "{\"streamId\":\"q\\\"b\\\\s\\u0001\\n\u{7f}é\",\"timestamp\":\"1970-01-01T00:00:00.000Z\"}"
    );
}
