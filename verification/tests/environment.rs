use notification_service::environment::{delivery_mode_from_env, delivery_mode_setting};
use notification_service::types::DeliveryMode;

#[test]
fn delivery_mode_comes_from_the_environment() {
    let pubsub = delivery_mode_from_env(Some("Pubsub".to_string()), DeliveryMode::Sweep);
    let sweep = delivery_mode_from_env(Some("sweep".to_string()), DeliveryMode::Pubsub);
    let blank = delivery_mode_from_env(Some("   ".to_string()), DeliveryMode::Sweep);
    let unset = delivery_mode_from_env(None, DeliveryMode::Pubsub);

    assert_eq!(pubsub, DeliveryMode::Pubsub);
    assert_eq!(sweep, DeliveryMode::Sweep);
    assert_eq!(blank, DeliveryMode::Sweep);
    assert_eq!(unset, DeliveryMode::Pubsub);
}

#[test]
fn an_unrecognised_delivery_mode_is_rejected_rather_than_silently_swept() {
    let outcome = delivery_mode_setting(Some("nonsense".to_string()));
    assert!(outcome.is_err(), "a typo must not run a Pubsub cell in Sweep mode");
}
