use notification_service::expired::{flush_expired_queue, new_expired_queue, push_delivered_cleanup, try_push_expired};
use notification_service::redis_types::{EntityData, NotificationData};
use notification_service::types::{
    CleanupReason, ClientId, ExpiredMeta, ExpiryReason, NotificationId, StreamEntry, Timestamp, Ttl,
};

fn meta(category: &str, reason: CleanupReason) -> ExpiredMeta {
    ExpiredMeta { category: category.to_string(), reason }
}

#[test]
fn the_first_expiry_reason_stays() {
    let mut q = new_expired_queue();
    let c = ClientId("c".into());
    try_push_expired(&mut q, &c, 4, "1-0".into(), meta("A", CleanupReason::Expired(ExpiryReason::Timeout)));
    try_push_expired(&mut q, &c, 4, "1-0".into(), meta("B", CleanupReason::Expired(ExpiryReason::NoConsumer)));
    let f = flush_expired_queue(&mut q);
    assert_eq!(f.expired, vec![("A".to_string(), ExpiryReason::Timeout)]);
}

#[test]
fn a_delivered_cleanup_overwrites_an_expiry() {
    let mut q = new_expired_queue();
    let c = ClientId("c".into());
    try_push_expired(&mut q, &c, 4, "1-0".into(), meta("A", CleanupReason::Expired(ExpiryReason::Timeout)));
    let n = NotificationData {
        stream_id: StreamEntry("1-0".into()),
        id: NotificationId("n".into()),
        category: "B".into(),
        title: String::new(),
        body: String::new(),
        show: true,
        created_at: Timestamp(0),
        ttl: Ttl(0),
        entity: EntityData { id: String::new(), _type: String::new(), data: String::new() },
    };
    push_delivered_cleanup(&mut q, &c, 9, &n);
    let f = flush_expired_queue(&mut q);
    assert!(f.expired.is_empty());
    assert_eq!(f.batches.len(), 1);
    assert_eq!(f.batches[0].shard, 4);
}

#[test]
fn a_flush_groups_clients_by_shard_and_empties_the_queue() {
    let mut q = new_expired_queue();
    let gone = CleanupReason::Expired(ExpiryReason::NoConsumer);
    try_push_expired(&mut q, &ClientId("a".into()), 1, "1-0".into(), meta("X", gone));
    try_push_expired(&mut q, &ClientId("b".into()), 2, "2-0".into(), meta("Y", CleanupReason::Delivered));
    try_push_expired(&mut q, &ClientId("c".into()), 1, "3-0".into(), meta("Z", gone));
    try_push_expired(&mut q, &ClientId("a".into()), 1, "4-0".into(), meta("X", gone));
    let f = flush_expired_queue(&mut q);
    assert_eq!(f.batches.len(), 2);
    assert_eq!(f.batches[0].shard, 1);
    assert_eq!(
        f.batches[0].clients,
        vec![
            ("a".to_string(), vec!["1-0".to_string(), "4-0".to_string()]),
            ("c".to_string(), vec!["3-0".to_string()])
        ]
    );
    assert_eq!(f.batches[1].clients, vec![("b".to_string(), vec!["2-0".to_string()])]);
    assert_eq!(f.expired.len(), 3);
    let again = flush_expired_queue(&mut q);
    assert!(again.batches.is_empty());
    assert!(again.expired.is_empty());
}
