use notification_service::active::ActiveNotification;
use notification_service::redis_types::{EntityData, NotificationData};
use notification_service::types::{ExpiryReason, NotificationId, StreamEntry, Timestamp, Ttl};

fn n(stream_id: &str, ttl: i64) -> NotificationData {
    NotificationData {
        stream_id: StreamEntry(stream_id.to_string()),
        id: NotificationId(format!("id-{stream_id}")),
        category: "CAT".to_string(),
        title: "t".to_string(),
        body: "b".to_string(),
        show: true,
        created_at: Timestamp(0),
        ttl: Ttl(ttl),
        entity: EntityData { id: String::new(), _type: String::new(), data: String::new() },
    }
}

#[test]
fn each_metric_is_counted_once_per_notification() {
    let x = n("1-0", 100);
    let mut a = ActiveNotification::default();
    assert!(a.try_claim_total(&x));
    assert!(!a.try_claim_total(&x));
    assert_eq!(a.try_claim_expired_with_reason(&x.id), Some(ExpiryReason::NoConsumer));
    assert!(!a.try_claim_expired(&x.id));
    assert!(!a.try_claim_retry(&x.id));
    a.mark_sent(&x.id, Timestamp(5));
    assert!(a.try_claim_retry(&x.id));
    assert!(!a.try_claim_retry(&x.id));
    assert_eq!(a.attempt(&x.id), "repeat");
}

#[test]
fn reading_a_batch_twice_is_reading_it_once() {
    let mut a = ActiveNotification::default();
    a.update(vec![n("1-0", 100), n("2-0", 100)]);
    a.update(vec![n("1-0", 100), n("2-0", 100)]);
    assert_eq!(a.count(), 2);
    assert!(a.contains(&NotificationId("id-1-0".into())));
}

#[test]
fn a_read_acknowledgement_names_the_entry_to_delete() {
    let x = n("7-1", 100);
    let mut a = ActiveNotification::default();
    a.update(vec![x.clone()]);
    let acked = a.acknowledge(&x.id).expect("pending");
    assert_eq!(acked.stream_id_to_delete, Some(StreamEntry("7-1".into())));
    assert_eq!(acked.category, "CAT");
    assert!(!a.contains(&x.id));
    assert!(a.acknowledge(&x.id).is_none());
}

#[test]
fn an_awaited_notification_is_settled_by_its_acknowledgement() {
    let x = n("8-0", 100);
    let mut a = ActiveNotification::default();
    a.update(vec![x.clone()]);
    a.await_ack_at(&x.id, Timestamp(42));
    assert!(!a.contains(&x.id));
    let acked = a.acknowledge(&x.id).expect("awaiting");
    assert_eq!(acked.sent_at, Some(Timestamp(42)));
    assert_eq!(acked.stream_id_to_delete, None);
}

#[test]
fn a_refresh_keeps_exactly_the_live_notifications() {
    let mut a = ActiveNotification::default();
    a.update(vec![n("1-0", 10), n("2-0", 50), n("3-0", 30)]);
    a.refresh_at(Timestamp(30));
    let left: Vec<String> = a.pending_redelivery().iter().map(|x| x.stream_id.inner()).collect();
    assert_eq!(left, vec!["2-0", "3-0"]);
}

#[test]
fn expired_awaits_are_dropped_and_reported() {
    let mut a = ActiveNotification::default();
    a.update(vec![n("1-0", 10), n("2-0", 50)]);
    a.await_ack_at(&NotificationId("id-1-0".into()), Timestamp(1));
    a.await_ack_at(&NotificationId("id-2-0".into()), Timestamp(1));
    assert_eq!(a.expire_awaiting_ack(Timestamp(20)), vec!["CAT".to_string()]);
    assert_eq!(a.drain_awaiting_ack(), vec!["CAT".to_string()]);
    assert!(a.drain_awaiting_ack().is_empty());
}
