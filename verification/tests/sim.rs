use notification_service::ids::{client_id, stream_key};
use notification_service::seen::{Seen, SeenWindow};
use notification_service::sim::{in_never_ack_cohort, validate_delivery_path, AckDelayCurve};
use notification_service::types::DeliveryMode;

fn is_first(seen: Seen) -> bool {
    matches!(seen, Seen::First)
}

#[test]
fn a_repeat_before_the_ack_is_labelled_as_such() {
    let mut window = SeenWindow::new(8);
    assert!(is_first(window.observe("a")));
    assert!(matches!(window.observe("a"), Seen::Repeat { after_ack: false }));
}

#[test]
fn a_repeat_after_the_ack_is_labelled_as_such() {
    let mut window = SeenWindow::new(8);
    window.observe("a");
    window.mark_acked("a");
    assert!(matches!(window.observe("a"), Seen::Repeat { after_ack: true }));
}

#[test]
fn the_window_evicts_oldest_first_and_stays_bounded() {
    let mut window = SeenWindow::new(2);
    window.observe("a");
    window.observe("b");
    window.observe("c");

    assert!(is_first(window.observe("a")), "'a' should have been evicted");
    assert!(!is_first(window.observe("c")), "'c' is still in the window");
    assert!(window.len() <= 2);
}

#[test]
fn marking_an_id_the_window_never_saw_is_a_no_op() {
    let mut window = SeenWindow::new(2);
    window.mark_acked("absent");
    assert!(is_first(window.observe("absent")));
}

#[test]
fn ack_curve_rejects_percentiles_out_of_order() {
    assert!(AckDelayCurve::new(2030, 756, 2290, 5000).is_err());
    assert!(AckDelayCurve::new(756, 2030, 2290, 100).is_err());
}

fn cohort_size(population: u64, never_ack_pct: u64) -> u64 {
    (0..population).filter(|index| in_never_ack_cohort(*index, never_ack_pct)).count() as u64
}

#[test]
fn never_ack_cohort_holds_its_ratio_on_small_populations() {
    assert_eq!(cohort_size(20, 10), 2);
    assert_eq!(cohort_size(20, 25), 5);
    assert_eq!(cohort_size(20, 50), 10);
    assert_eq!(cohort_size(20, 0), 0);
    assert_eq!(cohort_size(20, 100), 20);
}

#[test]
fn never_ack_cohort_holds_its_ratio_at_pod_scale() {
    assert_eq!(cohort_size(18_600, 10), 1_860);
    assert_eq!(cohort_size(18_600, 4), 744);
}

#[test]
fn never_ack_cohort_is_stable_under_replica_splits() {
    let whole = (0..1000).filter(|index| in_never_ack_cohort(*index, 10)).collect::<Vec<_>>();
    let split = (0..500).chain(500..1000).filter(|index| in_never_ack_cohort(*index, 10)).collect::<Vec<_>>();
    assert_eq!(whole, split);
}

#[test]
fn client_ids_are_stable_across_binaries() {
    assert_eq!(client_id(0), "59f9c690-caa0-5595-aa99-8d80f824e223");
    assert_eq!(client_id(1), "c99406c6-c950-5eed-84b9-2d75d81362a5");
    assert_eq!(client_id(19), "ac003980-36f1-5fac-bdd7-5b53b50b8dab");
}

#[test]
fn replica_splits_cover_the_population_exactly_once() {
    let whole: Vec<String> = (0..200).map(client_id).collect();
    let split: Vec<String> = (0..100).chain(100..200).map(client_id).collect();
    assert_eq!(whole, split);
}

#[test]
fn a_matching_delivery_path_is_accepted() {
    assert!(validate_delivery_path(DeliveryMode::Pubsub, true).is_ok());
    assert!(validate_delivery_path(DeliveryMode::Sweep, false).is_ok());
}

#[test]
fn a_pubsub_service_without_a_publishing_producer_is_rejected() {
    let err = validate_delivery_path(DeliveryMode::Pubsub, false)
        .expect_err("only the sweep would deliver, and the cell would read as a Pubsub result");
    assert!(err.contains("PUBLISH_ENABLED"), "{err}");
}

#[test]
fn a_sweep_service_with_a_publishing_producer_is_rejected() {
    let err = validate_delivery_path(DeliveryMode::Sweep, true)
        .expect_err("Sweep would be charged for publishes nothing subscribes to");
    assert!(err.contains("DELIVERY_MODE"), "{err}");
}

#[test]
fn shards_and_keys_match_the_service_formula() {
    let id = client_id(0);
    assert_eq!(stream_key(&id, 56), "N59f9c690-caa0-5595-aa99-8d80f824e223{56}");
    assert_eq!(stream_key(&id, 56), notification_service::keys::notification_client_key(&id, 56));
}

#[test]
fn every_hundred_clients_hold_exactly_the_share_that_never_acks() {
    for pct in 0..=100u64 {
        for hundred in [0u64, 1, 7, 185] {
            let count = (hundred * 100..hundred * 100 + 100).filter(|index| in_never_ack_cohort(*index, pct)).count();
            assert_eq!(count as u64, pct, "pct {pct} hundred {hundred}");
        }
    }
}
