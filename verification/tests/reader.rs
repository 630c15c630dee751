use notification_service::active::ActiveNotification;
use notification_service::redis_types::{EntityData, NotificationData};
use notification_service::registry::{
    claim_read_batch, handle_client_disconnection_or_failure, read_cursor, register_session, DisconnectOutcome,
    ReaderMap,
};
use notification_service::types::{
    ClientId, DeliveryGuarantee, DeliveryPolicy, NotificationId, Shard, StreamEntry, StreamToken, StreamTokenSource,
    Timestamp, Ttl,
};
use std::num::NonZeroU32;

fn now_millis() -> i64 {
    chrono::Utc::now().timestamp_millis()
}

fn notification(stream_id: &str) -> NotificationData {
    NotificationData {
        stream_id: StreamEntry(stream_id.to_string()),
        id: NotificationId(format!("id-{stream_id}")),
        category: "TEST".to_string(),
        title: String::new(),
        body: String::new(),
        show: false,
        created_at: Timestamp(now_millis()),
        ttl: Ttl(now_millis() + 5 * 60 * 1000),
        entity: EntityData { id: String::new(), _type: String::new(), data: String::new() },
    }
}

fn reader_map_owned_by(client_id: &ClientId, owner: StreamToken) -> ReaderMap {
    let mut clients_tx = ReaderMap::new();
    register_session(&mut clients_tx, client_id, Shard(0), None, owner, 0);
    clients_tx
}

fn reader_map_with_client(client_id: &ClientId, tokens: &mut StreamTokenSource) -> ReaderMap {
    reader_map_owned_by(client_id, StreamToken::next(tokens))
}

fn stream_ids(notifs: &[NotificationData]) -> Vec<String> {
    notifs.iter().map(|n| n.stream_id.inner()).collect()
}

#[test]
fn disconnect_from_the_owning_stream_removes_the_client() {
    let mut tokens = StreamTokenSource::new();
    let client_id = ClientId("c1".to_string());
    let owner = StreamToken::next(&mut tokens);
    let mut clients_tx = reader_map_owned_by(&client_id, owner);

    let outcome = handle_client_disconnection_or_failure(&mut clients_tx, &client_id, &None, owner, true);

    assert_eq!(outcome, DisconnectOutcome::Removed);
    assert_eq!(clients_tx.len(), 0);
    assert_eq!(read_cursor(&clients_tx, &client_id).inner(), "0-0");
}

#[test]
fn stale_disconnect_is_ignored_when_guarded() {
    let mut tokens = StreamTokenSource::new();
    let client_id = ClientId("c1".to_string());
    let stale = StreamToken::next(&mut tokens);
    let mut clients_tx = reader_map_owned_by(&client_id, StreamToken::next(&mut tokens));

    let outcome = handle_client_disconnection_or_failure(&mut clients_tx, &client_id, &None, stale, true);

    assert_eq!(outcome, DisconnectOutcome::StaleIgnored);
    assert_eq!(clients_tx.len(), 1);
}

#[test]
fn stale_disconnect_still_evicts_when_unguarded() {
    let mut tokens = StreamTokenSource::new();
    let client_id = ClientId("c1".to_string());
    let stale = StreamToken::next(&mut tokens);
    let mut clients_tx = reader_map_owned_by(&client_id, StreamToken::next(&mut tokens));

    let outcome = handle_client_disconnection_or_failure(&mut clients_tx, &client_id, &None, stale, false);

    assert_eq!(outcome, DisconnectOutcome::StaleEvicted);
    assert_eq!(clients_tx.len(), 0);
}

#[test]
fn at_most_once_hands_each_entry_to_one_racing_read() {
    let mut tokens = StreamTokenSource::new();
    let client_id = ClientId("c1".to_string());
    let mut clients_tx = reader_map_with_client(&client_id, &mut tokens);
    let policy = DeliveryPolicy::new(DeliveryGuarantee::AtMostOnce, None);
    let stale_read = vec![notification("1-0"), notification("2-0")];

    let first = claim_read_batch(&mut clients_tx, &client_id, stale_read.clone(), policy);
    let second = claim_read_batch(
        &mut clients_tx,
        &client_id,
        [stale_read, vec![notification("3-0")]].concat(),
        policy,
    );

    assert_eq!(stream_ids(&first), vec!["1-0", "2-0"]);
    assert_eq!(stream_ids(&second), vec!["3-0"]);
    assert_eq!(read_cursor(&clients_tx, &client_id).inner(), "3-0");
}

#[test]
fn at_least_once_passes_racing_reads_through() {
    let mut tokens = StreamTokenSource::new();
    let client_id = ClientId("c1".to_string());
    let mut clients_tx = reader_map_with_client(&client_id, &mut tokens);
    let policy = DeliveryPolicy::new(DeliveryGuarantee::AtLeastOnce, None);
    let stale_read = vec![notification("1-0"), notification("2-0")];

    claim_read_batch(&mut clients_tx, &client_id, stale_read.clone(), policy);
    let second = claim_read_batch(&mut clients_tx, &client_id, stale_read, policy);

    assert_eq!(stream_ids(&second), vec!["1-0", "2-0"]);
    assert_eq!(read_cursor(&clients_tx, &client_id).inner(), "2-0");
}

#[test]
fn push_cap_follows_guarantee() {
    let at_most_once = DeliveryPolicy::new(DeliveryGuarantee::AtMostOnce, NonZeroU32::new(5).map(NonZeroU32::get));
    let capped = DeliveryPolicy::new(DeliveryGuarantee::AtLeastOnce, NonZeroU32::new(3).map(NonZeroU32::get));
    let uncapped = DeliveryPolicy::new(DeliveryGuarantee::AtLeastOnce, None);

    assert_eq!(at_most_once.push_cap, Some(1));
    assert_eq!(capped.push_cap, Some(3));
    assert_eq!(uncapped.push_cap, None);
}

#[test]
fn push_claim_is_capped_and_released_on_failed_round() {
    let n = notification("1-0");
    let mut active = ActiveNotification::default();
    active.update(vec![n.clone()]);

    assert!(active.try_claim_push(&n.id, Some(1)));
    assert!(!active.try_claim_push(&n.id, Some(1)));
    active.release_push(&n.id);
    assert!(active.try_claim_push(&n.id, Some(1)));

    assert!(active.try_claim_push(&n.id, None));
    assert!(!active.try_claim_push(&NotificationId("missing".to_string()), None));
}

#[test]
fn an_older_read_never_moves_the_cursor_back() {
    let mut tokens = StreamTokenSource::new();
    let client_id = ClientId("c1".to_string());
    let mut clients_tx = reader_map_with_client(&client_id, &mut tokens);
    let at_least_once = DeliveryPolicy::new(DeliveryGuarantee::AtLeastOnce, None);
    claim_read_batch(&mut clients_tx, &client_id, vec![notification("5-0")], at_least_once);
    claim_read_batch(&mut clients_tx, &client_id, vec![notification("1-0")], at_least_once);
    assert_eq!(read_cursor(&clients_tx, &client_id).inner(), "5-0");

    let at_most_once = DeliveryPolicy::new(DeliveryGuarantee::AtMostOnce, None);
    let late = claim_read_batch(&mut clients_tx, &client_id, vec![notification("4-9")], at_most_once);
    assert!(late.is_empty());
    assert_eq!(read_cursor(&clients_tx, &client_id).inner(), "5-0");
}

#[test]
fn a_client_that_is_not_registered_claims_nothing_at_most_once() {
    let mut clients_tx = ReaderMap::new();
    let policy = DeliveryPolicy::new(DeliveryGuarantee::AtMostOnce, None);
    let got = claim_read_batch(&mut clients_tx, &ClientId("ghost".into()), vec![notification("1-0")], policy);
    assert!(got.is_empty());
    assert_eq!(read_cursor(&clients_tx, &ClientId("ghost".into())).inner(), "0-0");
}
