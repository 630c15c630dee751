use notification_service::keys::{
    client_details_key, client_of_stream_key, clients_of_streams, last_sent_client_notification_key,
    notification_client_key, notification_stream_key,
};
use notification_service::stream_id::{is_stream_id_less, is_stream_id_less_or_eq, max_stream_id, parse_stream_id_exec};
use notification_service::types::ClientId;

#[test]
fn stream_ids_order_by_milliseconds_then_sequence() {
    assert!(is_stream_id_less("1-5", "2-0"));
    assert!(is_stream_id_less("2-0", "2-1"));
    assert!(!is_stream_id_less("2-1", "2-1"));
    assert!(!is_stream_id_less("3-0", "2-9"));
    assert!(!is_stream_id_less("junk", "2-0"));
    assert!(!is_stream_id_less("1", "2-0"));
    assert!(is_stream_id_less_or_eq("2-1", "2-1"));
    assert!(is_stream_id_less_or_eq("junk", "junk"));
    assert_eq!(max_stream_id("1-9", "2-0"), "2-0");
    assert_eq!(max_stream_id("5-0", "2-0"), "5-0");
    assert_eq!(parse_stream_id_exec("1700000000000-3"), Some((1_700_000_000_000, 3)));
    assert_eq!(parse_stream_id_exec("12-3-4"), Some((12, 3)));
    assert_eq!(parse_stream_id_exec("-3"), None);
}

#[test]
fn keys_follow_the_service_layout() {
    assert_eq!(notification_client_key("abc", 56), "Nabc{56}");
    assert_eq!(client_details_key("tok"), "notification:client_details:tok");
    assert!(last_sent_client_notification_key("abc").contains("abc"));
    assert!(notification_stream_key("n1").contains("n1"));
}

#[test]
fn a_stream_key_names_its_client() {
    let key = notification_client_key("59f9c690-caa0-5595-aa99-8d80f824e223", 7);
    assert_eq!(client_of_stream_key(&key), Some(ClientId("59f9c690-caa0-5595-aa99-8d80f824e223".to_string())));
    assert_eq!(client_of_stream_key("notification:client_details:x"), None);
    assert_eq!(client_of_stream_key("Nxyz{1}"), None);
    assert_eq!(client_of_stream_key("NNab{0}"), Some(ClientId("ab".to_string())));
    let paired = clients_of_streams(vec![
        (notification_client_key("ab-12", 0), vec![]),
        ("no-client-here".to_string(), vec![]),
        (notification_client_key("cd", 1), vec![]),
    ]);
    let names: Vec<String> = paired.iter().map(|(c, _)| c.inner()).collect();
    assert_eq!(names, vec!["ab-12", "cd"]);
}
