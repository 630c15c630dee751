use notification_service::dispatch::{
    acknowledge_client, active_notification_dispatch, dispatch_step, ingest_backfill, record_push, retry_step, settle_push_round,
    DispatchStep, RetryStep,
};
use notification_service::expired::{flush_expired_queue, new_expired_queue};
use notification_service::reader::{
    client_reciever, cursors_by_shard, pending_redelivery_of, pubsub_route, retry_targets, PubsubRoute,
    ReceiverAction, ReceiverOptions, SenderType,
};
use notification_service::redis_types::{EntityData, NotificationData};
use notification_service::registry::{
    handle_client_disconnection_or_failure, read_cursor, register_session, DisconnectOutcome, ReaderMap, SlotEvent,
};
use notification_service::types::{
    ClientId, DeliveryGuarantee, DeliveryMode, DeliveryPolicy, ExpiryReason, NotificationId, SessionID, Shard,
    StreamEntry, StreamToken, Timestamp, Ttl,
};

const NOW: i64 = 1_700_000_000_000;

fn notification_with_ttl(stream_id: &str, ttl: i64) -> NotificationData {
    NotificationData {
        stream_id: StreamEntry(stream_id.to_string()),
        id: NotificationId(format!("id-{stream_id}")),
        category: "TEST".to_string(),
        title: String::new(),
        body: String::new(),
        show: true,
        created_at: Timestamp(NOW),
        ttl: Ttl(ttl),
        entity: EntityData { id: String::new(), _type: String::new(), data: String::new() },
    }
}

fn live(stream_id: &str) -> NotificationData {
    notification_with_ttl(stream_id, NOW + 60_000)
}

fn client(name: &str) -> ClientId {
    ClientId(name.to_string())
}

fn ids(notifs: &[NotificationData]) -> Vec<String> {
    notifs.iter().map(|n| n.stream_id.inner()).collect()
}

#[test]
fn named_sessions_join_and_leave_one_by_one() {
    let mut m = ReaderMap::new();
    let c = client("c1");
    let e1 = register_session(&mut m, &c, Shard(3), Some(SessionID("s1".into())), StreamToken(1), 10);
    let e2 = register_session(&mut m, &c, Shard(3), Some(SessionID("s2".into())), StreamToken(2), 11);
    assert_eq!(e1, SlotEvent::Inserted);
    assert_eq!(e2, SlotEvent::SessionAdded);
    match pubsub_route(&m, &c) {
        PubsubRoute::Local { shard, channels } => {
            assert_eq!(shard, Shard(3));
            assert_eq!(channels, vec![10, 11]);
        },
        _ => panic!("the client has sessions"),
    }

    let first = handle_client_disconnection_or_failure(&mut m, &c, &Some(SessionID("s1".into())), StreamToken(9), true);
    assert_eq!(first, DisconnectOutcome::SessionClosed);
    assert_eq!(m.len(), 1);
    let last = handle_client_disconnection_or_failure(&mut m, &c, &Some(SessionID("s2".into())), StreamToken(9), true);
    assert_eq!(last, DisconnectOutcome::SessionClosed);
    assert_eq!(m.len(), 0);
    assert_eq!(pubsub_route(&m, &c), PubsubRoute::Foreign);
}

#[test]
fn a_session_of_the_same_name_replaces_the_old_one() {
    let mut m = ReaderMap::new();
    let c = client("c1");
    register_session(&mut m, &c, Shard(0), Some(SessionID("s1".into())), StreamToken(1), 10);
    let again = register_session(&mut m, &c, Shard(0), Some(SessionID("s1".into())), StreamToken(2), 12);
    assert_eq!(again, SlotEvent::SessionAdded);
    assert_eq!(pubsub_route(&m, &c), PubsubRoute::Local { shard: Shard(0), channels: vec![12] });
}

#[test]
fn streams_with_and_without_session_ids_take_over_from_each_other() {
    let mut m = ReaderMap::new();
    let c = client("c1");
    assert_eq!(register_session(&mut m, &c, Shard(0), None, StreamToken(1), 1), SlotEvent::Inserted);
    assert_eq!(register_session(&mut m, &c, Shard(0), None, StreamToken(2), 2), SlotEvent::Replaced);
    assert_eq!(
        register_session(&mut m, &c, Shard(0), Some(SessionID("s".into())), StreamToken(3), 3),
        SlotEvent::BecameMulti
    );
    assert_eq!(register_session(&mut m, &c, Shard(0), None, StreamToken(4), 4), SlotEvent::BecameSingle);
    assert_eq!(pubsub_route(&m, &c), PubsubRoute::Local { shard: Shard(0), channels: vec![4] });
}

#[test]
fn a_close_without_session_id_leaves_named_sessions_alone() {
    let mut m = ReaderMap::new();
    let c = client("c1");
    register_session(&mut m, &c, Shard(0), Some(SessionID("s".into())), StreamToken(1), 1);
    let outcome = handle_client_disconnection_or_failure(&mut m, &c, &None, StreamToken(1), false);
    assert_eq!(outcome, DisconnectOutcome::SessionIdMissing);
    assert_eq!(m.len(), 1);
}

#[test]
fn closing_an_unknown_client_finds_nothing() {
    let mut m = ReaderMap::new();
    let outcome = handle_client_disconnection_or_failure(&mut m, &client("x"), &None, StreamToken(1), true);
    assert_eq!(outcome, DisconnectOutcome::NotFound);
}

#[test]
fn the_receiver_registers_and_catches_up_only_in_pubsub_mode() {
    let mut m = ReaderMap::new();
    let c = client("c1");
    let policy = DeliveryPolicy::new(DeliveryGuarantee::AtLeastOnce, None);
    let pubsub = ReceiverOptions { max_shards: 4, delivery_mode: DeliveryMode::Pubsub, stale_disconnect_guard: true, policy };
    let sweep = ReceiverOptions { delivery_mode: DeliveryMode::Sweep, ..pubsub };
    let a = client_reciever(&mut m, &c, SenderType::ClientConnection(None, StreamToken(1), 5), Shard(2), pubsub);
    assert_eq!(a, ReceiverAction::Connected { event: SlotEvent::Inserted, catchup: true });
    let b = client_reciever(&mut m, &c, SenderType::ClientConnection(None, StreamToken(2), 6), Shard(2), sweep);
    assert_eq!(b, ReceiverAction::Connected { event: SlotEvent::Replaced, catchup: false });
    let d = client_reciever(&mut m, &c, SenderType::ClientDisconnection(None, StreamToken(1)), Shard(2), pubsub);
    assert_eq!(d, ReceiverAction::Disconnected(DisconnectOutcome::StaleIgnored));
    assert_eq!(SenderType::ClientDisconnection(None, StreamToken(1)).name(), "ClientDisconnection");
}

#[test]
fn a_read_is_made_pending_in_every_session() {
    let mut m = ReaderMap::new();
    let c = client("c1");
    register_session(&mut m, &c, Shard(0), Some(SessionID("a".into())), StreamToken(1), 1);
    register_session(&mut m, &c, Shard(0), Some(SessionID("b".into())), StreamToken(2), 2);
    let policy = DeliveryPolicy::new(DeliveryGuarantee::AtMostOnce, None);
    let got = active_notification_dispatch(&mut m, &c, vec![live("1-0"), live("2-0")], policy).expect("sessions");
    assert_eq!(ids(&got), vec!["1-0", "2-0"]);
    assert_eq!(read_cursor(&m, &c).inner(), "2-0");
    assert_eq!(ids(&pending_redelivery_of(&m, &c)), vec!["1-0", "2-0"]);
    assert!(active_notification_dispatch(&mut m, &client("nobody"), vec![live("3-0")], policy).is_none());
}

#[test]
fn a_backfill_counts_each_notification_once_per_session() {
    let mut m = ReaderMap::new();
    let c = client("c1");
    register_session(&mut m, &c, Shard(0), Some(SessionID("a".into())), StreamToken(1), 1);
    register_session(&mut m, &c, Shard(0), Some(SessionID("b".into())), StreamToken(2), 2);
    let policy = DeliveryPolicy::new(DeliveryGuarantee::AtLeastOnce, None);
    let counted = ingest_backfill(&mut m, &c, vec![live("1-0")], policy);
    assert_eq!(counted, vec!["TEST".to_string(), "TEST".to_string()]);
    let again = ingest_backfill(&mut m, &c, vec![live("1-0")], policy);
    assert!(again.is_empty());
    assert!(ingest_backfill(&mut m, &client("nobody"), vec![live("1-0")], policy).is_empty());
}

#[test]
fn dispatch_pushes_a_live_notification_once_under_at_most_once() {
    let mut m = ReaderMap::new();
    let mut q = new_expired_queue();
    let c = client("c1");
    register_session(&mut m, &c, Shard(1), None, StreamToken(1), 1);
    let policy = DeliveryPolicy::new(DeliveryGuarantee::AtMostOnce, None);
    let n = live("1-0");
    active_notification_dispatch(&mut m, &c, vec![n.clone()], policy);

    let step = dispatch_step(&mut m, &mut q, &c, Shard(1), &n, Timestamp(NOW), policy);
    assert_eq!(step, DispatchStep::Push { count_total: true, attempt: "first" });
    let again = dispatch_step(&mut m, &mut q, &c, Shard(1), &n, Timestamp(NOW), policy);
    assert_eq!(again, DispatchStep::Hold { count_total: false });

    record_push(&mut m, &c, &n.id, Timestamp(NOW));
    settle_push_round(policy, &mut m, &mut q, &c, Shard(1), &n, true, Timestamp(NOW));
    assert!(pending_redelivery_of(&m, &c).is_empty());
    let flush = flush_expired_queue(&mut q);
    assert_eq!(flush.batches.len(), 1);
    assert_eq!(flush.batches[0].shard, 1);
    assert_eq!(flush.batches[0].clients, vec![("c1".to_string(), vec!["1-0".to_string()])]);
    assert!(flush.expired.is_empty());
}

#[test]
fn a_failed_round_gives_the_push_back() {
    let mut m = ReaderMap::new();
    let mut q = new_expired_queue();
    let c = client("c1");
    register_session(&mut m, &c, Shard(0), None, StreamToken(1), 1);
    let policy = DeliveryPolicy::new(DeliveryGuarantee::AtMostOnce, None);
    let n = live("1-0");
    active_notification_dispatch(&mut m, &c, vec![n.clone()], policy);
    assert!(matches!(dispatch_step(&mut m, &mut q, &c, Shard(0), &n, Timestamp(NOW), policy), DispatchStep::Push { .. }));
    settle_push_round(policy, &mut m, &mut q, &c, Shard(0), &n, false, Timestamp(NOW));
    assert!(matches!(dispatch_step(&mut m, &mut q, &c, Shard(0), &n, Timestamp(NOW), policy), DispatchStep::Push { .. }));
    assert_eq!(ids(&pending_redelivery_of(&m, &c)), vec!["1-0"]);
}

#[test]
fn an_expired_notification_is_queued_for_deletion_once() {
    let mut m = ReaderMap::new();
    let mut q = new_expired_queue();
    let c = client("c1");
    register_session(&mut m, &c, Shard(2), None, StreamToken(1), 1);
    let policy = DeliveryPolicy::new(DeliveryGuarantee::AtLeastOnce, None);
    let n = notification_with_ttl("1-0", NOW - 1);
    active_notification_dispatch(&mut m, &c, vec![n.clone()], policy);
    let step = dispatch_step(&mut m, &mut q, &c, Shard(2), &n, Timestamp(NOW), policy);
    assert_eq!(step, DispatchStep::Expired { count_total: true, reason: Some(ExpiryReason::NoConsumer) });
    let again = dispatch_step(&mut m, &mut q, &c, Shard(2), &n, Timestamp(NOW), policy);
    assert_eq!(again, DispatchStep::Expired { count_total: false, reason: None });
    let flush = flush_expired_queue(&mut q);
    assert_eq!(flush.expired, vec![("TEST".to_string(), ExpiryReason::NoConsumer)]);
    assert_eq!(flush.batches[0].shard, 2);
}

#[test]
fn dispatch_skips_what_is_not_pending() {
    let mut m = ReaderMap::new();
    let mut q = new_expired_queue();
    let c = client("c1");
    register_session(&mut m, &c, Shard(0), None, StreamToken(1), 1);
    let policy = DeliveryPolicy::new(DeliveryGuarantee::AtLeastOnce, None);
    let step = dispatch_step(&mut m, &mut q, &c, Shard(0), &live("9-0"), Timestamp(NOW), policy);
    assert_eq!(step, DispatchStep::Skip);
}

#[test]
fn the_retry_loop_repeats_sent_notifications_and_settles_expired_ones() {
    let mut m = ReaderMap::new();
    let mut q = new_expired_queue();
    let c = client("c1");
    register_session(&mut m, &c, Shard(0), None, StreamToken(1), 1);
    let policy = DeliveryPolicy::new(DeliveryGuarantee::AtLeastOnce, Some(3));
    let n = live("1-0");
    let old = notification_with_ttl("2-0", NOW - 1);
    active_notification_dispatch(&mut m, &c, vec![n.clone(), old.clone()], policy);
    assert!(matches!(dispatch_step(&mut m, &mut q, &c, Shard(0), &n, Timestamp(NOW), policy), DispatchStep::Push { .. }));
    record_push(&mut m, &c, &n.id, Timestamp(NOW));
    settle_push_round(policy, &mut m, &mut q, &c, Shard(0), &n, true, Timestamp(NOW));

    let retry = retry_step(&mut m, &mut q, &c, Shard(0), &n, Timestamp(NOW), policy);
    assert_eq!(retry, RetryStep::Push { count_total: false, count_retry: true, attempt: "repeat" });
    let expired = retry_step(&mut m, &mut q, &c, Shard(0), &old, Timestamp(NOW), policy);
    assert_eq!(expired, RetryStep::Expired { reason: Some(ExpiryReason::NoConsumer) });
    assert_eq!(ids(&pending_redelivery_of(&m, &c)), vec!["1-0"]);
    let third = retry_step(&mut m, &mut q, &c, Shard(0), &n, Timestamp(NOW), policy);
    assert!(matches!(third, RetryStep::Push { .. }));
    let capped = retry_step(&mut m, &mut q, &c, Shard(0), &n, Timestamp(NOW), policy);
    assert_eq!(capped, RetryStep::Skip);
}

#[test]
fn the_retry_loop_visits_clients_with_sessions() {
    let mut m = ReaderMap::new();
    register_session(&mut m, &client("a"), Shard(1), None, StreamToken(1), 7);
    register_session(&mut m, &client("b"), Shard(0), Some(SessionID("s".into())), StreamToken(2), 8);
    let work = retry_targets(&m);
    assert_eq!(work.len(), 2);
    assert_eq!(work[0].client_id, client("a"));
    assert_eq!(work[0].channels, vec![7]);
    assert_eq!(work[1].shard, Shard(0));
}

#[test]
fn a_sweep_reads_each_shard_from_its_clients_cursors() {
    let mut m = ReaderMap::new();
    register_session(&mut m, &client("a"), Shard(1), None, StreamToken(1), 7);
    register_session(&mut m, &client("b"), Shard(0), None, StreamToken(2), 8);
    register_session(&mut m, &client("c"), Shard(1), None, StreamToken(3), 9);
    let policy = DeliveryPolicy::new(DeliveryGuarantee::AtLeastOnce, None);
    active_notification_dispatch(&mut m, &client("c"), vec![live("5-1")], policy);
    let by_shard = cursors_by_shard(&m, 3);
    assert_eq!(by_shard.len(), 3);
    assert_eq!(by_shard[0], vec![(client("b"), StreamEntry("0-0".into()))]);
    assert_eq!(by_shard[1], vec![(client("a"), StreamEntry("0-0".into())), (client("c"), StreamEntry("5-1".into()))]);
    assert!(by_shard[2].is_empty());
}

#[test]
fn at_most_once_hands_a_pushed_notification_to_the_primary_session() {
    let mut m = ReaderMap::new();
    let mut q = new_expired_queue();
    let c = client("c1");
    register_session(&mut m, &c, Shard(4), Some(SessionID("s1".into())), StreamToken(1), 10);
    register_session(&mut m, &c, Shard(4), Some(SessionID("s2".into())), StreamToken(2), 11);
    let policy = DeliveryPolicy::new(DeliveryGuarantee::AtMostOnce, None);
    let n = live("1-0");
    active_notification_dispatch(&mut m, &c, vec![n.clone()], policy);
    assert!(matches!(dispatch_step(&mut m, &mut q, &c, Shard(4), &n, Timestamp(NOW), policy), DispatchStep::Push { .. }));
    settle_push_round(policy, &mut m, &mut q, &c, Shard(4), &n, true, Timestamp(NOW + 5));

    // No session keeps it pending; the primary awaits its acknowledgement,
    // sent when the round settled since no push was recorded.
    assert!(pending_redelivery_of(&m, &c).is_empty());
    let acked = acknowledge_client(&mut m, &c, &n.id).expect("the primary awaits the acknowledgement");
    assert_eq!(acked.category, "TEST");
    assert_eq!(acked.stream_id_to_delete, None);
    assert_eq!(acked.sent_at, Some(Timestamp(NOW + 5)));
    assert_eq!(acknowledge_client(&mut m, &c, &n.id), None);

    let flush = flush_expired_queue(&mut q);
    assert_eq!(flush.batches[0].shard, 4);
    assert_eq!(flush.batches[0].clients, vec![("c1".to_string(), vec!["1-0".to_string()])]);
}

#[test]
fn an_acknowledgement_settles_a_pending_notification_in_every_session() {
    let mut m = ReaderMap::new();
    let c = client("c1");
    register_session(&mut m, &c, Shard(0), Some(SessionID("s1".into())), StreamToken(1), 10);
    register_session(&mut m, &c, Shard(0), Some(SessionID("s2".into())), StreamToken(2), 11);
    let policy = DeliveryPolicy::new(DeliveryGuarantee::AtLeastOnce, None);
    let n = live("7-0");
    active_notification_dispatch(&mut m, &c, vec![n.clone()], policy);
    record_push(&mut m, &c, &n.id, Timestamp(NOW));
    let acked = acknowledge_client(&mut m, &c, &n.id).expect("pending");
    assert_eq!(acked.stream_id_to_delete, Some(StreamEntry("7-0".to_string())));
    assert_eq!(acked.sent_at, Some(Timestamp(NOW)));
    assert!(pending_redelivery_of(&m, &c).is_empty());
    assert_eq!(acknowledge_client(&mut m, &c, &n.id), None);
    assert_eq!(acknowledge_client(&mut m, &client("nobody"), &n.id), None);
}
