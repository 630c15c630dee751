use notification_service::action::{
    build_api_headers, identify, on_ack_stream_event, token_origin_or_default, AckStreamAction, AckStreamEvent,
    Identity, OptionalHeaders,
};
use notification_service::clock::abs_diff_utc_as_sec;
use notification_service::errors::{AppError, ErrorBody, StatusCode};
use notification_service::ids::InstanceId;
use notification_service::seen::SeenWindow;
use notification_service::sim::{AckMode, AckDelayCurve};
use notification_service::sim_stream::{
    ack_delay, after_attempt, produced_at_millis, receive_payload, AckDelay, Backoff, StreamEnd,
};
use notification_service::streaming::{AppConfig, ClientStreamService, User};
use notification_service::text::{parse_unsigned, to_ascii_lowercase, trim, IntErrorKind};
use notification_service::types::{ExpiryReason, NotificationId, Timestamp, TokenOrigin};

#[test]
fn errors_map_to_grpc_statuses() {
    assert_eq!(AppError::InvalidRequest("x".into()).into_status(), (StatusCode::InvalidArgument, "x".to_string()));
    assert_eq!(AppError::InternalError("y".into()).into_status(), (StatusCode::Internal, "y".to_string()));
    assert_eq!(AppError::DriverAppAuthFailed.into_status(), (StatusCode::InvalidArgument, "AUTH_FAILED".to_string()));
    assert_eq!(AppError::DriverAppUnauthorized.into_status(), (StatusCode::Unauthenticated, "UNAUTHORIZED".to_string()));
    let body = ErrorBody::new("oops".into(), "E1".into());
    assert_eq!(body.error_message(), "oops");
    assert_eq!(body.error_code, "E1");
}

#[test]
fn only_the_headers_sent_are_passed_on_in_order() {
    let h = OptionalHeaders {
        x_package: Some("pkg".into()),
        x_bundle_version: None,
        x_client_version: Some("1.2".into()),
        x_config_version: None,
        x_react_bundle_version: None,
        x_device: Some("phone".into()),
    };
    assert_eq!(
        build_api_headers(&h),
        vec![
            ("x-package".to_string(), "pkg".to_string()),
            ("x-client-version".to_string(), "1.2".to_string()),
            ("x-device".to_string(), "phone".to_string())
        ]
    );
}

#[test]
fn a_connection_is_identified_from_its_headers() {
    assert!(matches!(identify(None, true), Err(AppError::InvalidRequest(_))));
    assert!(matches!(identify(Some("t".into()), true), Ok(Identity::Known(c)) if c.inner() == "t"));
    assert!(matches!(identify(Some("t".into()), false), Ok(Identity::Authenticate(t)) if t == "t"));
    assert_eq!(token_origin_or_default(Some("RiderApp")), TokenOrigin::RiderApp);
    assert_eq!(token_origin_or_default(Some("riderapp")), TokenOrigin::DriverApp);
    assert_eq!(token_origin_or_default(None), TokenOrigin::DriverApp);
}

#[test]
fn the_ack_stream_acknowledges_ignores_and_disconnects() {
    assert_eq!(on_ack_stream_event(AckStreamEvent::Message(String::new())), AckStreamAction::Ignore);
    assert_eq!(
        on_ack_stream_event(AckStreamEvent::Message("n1".into())),
        AckStreamAction::Ack(NotificationId("n1".into()))
    );
    assert_eq!(on_ack_stream_event(AckStreamEvent::End), AckStreamAction::Disconnect("DISCONNECTED"));
    assert_eq!(on_ack_stream_event(AckStreamEvent::Error), AckStreamAction::Disconnect("DISCONNECTED"));
    assert_eq!(on_ack_stream_event(AckStreamEvent::TimedOut), AckStreamAction::Disconnect("TIMED_OUT"));
}

#[test]
fn a_simulated_client_acks_first_sights_unless_silent() {
    let mut seen = SeenWindow::new(4);
    let r = receive_payload(&mut seen, "a", false, AckMode::Instant);
    assert!(r.first_sight && r.ack && !r.never_acked);
    let again = receive_payload(&mut seen, "a", false, AckMode::Instant);
    assert_eq!(again.repeat_after_ack, Some(false));
    let silent = receive_payload(&mut seen, "b", true, AckMode::Instant);
    assert!(!silent.ack && silent.never_acked);
    assert_eq!(ack_delay(AckMode::Delayed, 250), AckDelay::Fixed(250));
    assert_eq!(ack_delay(AckMode::Distribution, 250), AckDelay::Sampled);
    assert_eq!(ack_delay(AckMode::Never, 250), AckDelay::Fixed(0));
}

#[test]
fn the_ack_curve_reports_the_percentiles_it_refuses() {
    assert_eq!(
        AckDelayCurve::new(2030, 756, 2290, 5000).unwrap_err(),
        "ack percentiles must satisfy p50 <= p90 <= p95 <= max, got 2030/756/2290/5000"
    );
    let c = AckDelayCurve::new(800, 2071, 2326, 5000).expect("ordered");
    assert_eq!(c.p95_ms, 2326);
}

#[test]
fn instance_ids_are_hyphenated_version_four_uuids() {
    let id = InstanceId::generate();
    assert_eq!(id.0.len(), 36);
    assert_eq!(id.0.chars().nth(14), Some('4'));
    assert_ne!(InstanceId::generate(), id);
}

#[test]
fn whole_seconds_between_instants() {
    assert_eq!(abs_diff_utc_as_sec(Timestamp(1_000), Timestamp(3_999)), 2);
    assert_eq!(abs_diff_utc_as_sec(Timestamp(3_999), Timestamp(1_000)), 2);
    assert_eq!(abs_diff_utc_as_sec(Timestamp(0), Timestamp(0)), 0);
}

#[test]
fn text_helpers_match_std() {
    assert_eq!(trim("  a b \t"), "a b");
    assert_eq!(to_ascii_lowercase("PubSub"), "pubsub");
    assert_eq!(parse_unsigned("+12", u64::MAX), Ok(12));
    assert_eq!(parse_unsigned("", u64::MAX), Err(IntErrorKind::Empty));
    assert_eq!(parse_unsigned("70000", u16::MAX as u64), Err(IntErrorKind::PosOverflow));
    assert_eq!(IntErrorKind::InvalidDigit.message(), "invalid digit found in string");
    assert_eq!(ExpiryReason::Timeout.as_str(), "timeout");
}

#[test]
fn streaming_settings_default_to_empty() {
    let cfg = AppConfig::default();
    assert!(cfg.server.host_ip.is_empty() && !cfg.api.enabled);
    let service = ClientStreamService::new(cfg);
    assert!(service.config().api.base_url.is_empty());
    let user = User::new("u1", "Ann");
    assert_eq!(user, User { id: "u1".into(), name: "Ann".into() });
}

#[test]
fn located_messages_are_posted_only_when_the_api_is_enabled() {
    let mut cfg = AppConfig::default();
    cfg.api.base_url = "http://api.local".to_string();
    cfg.api.enabled = true;
    let service = ClientStreamService::new(cfg);
    let post = service.location_post(&vec![true, false, true]).expect("two messages carry a location");
    assert_eq!(post.kept, vec![0, 2]);
    assert_eq!(post.url, "http://api.local/driver/location");
    assert!(service.location_post(&vec![false, false]).is_none());
    assert!(service.location_post(&vec![]).is_none());
    let disabled = ClientStreamService::new(AppConfig::default());
    assert!(disabled.location_post(&vec![true]).is_none());
}

#[test]
fn produced_at_is_read_back_out_of_the_producers_entity_data() {
    let data = r#"{"searchRequestId":"abc","produced_at_ms":1734512893001}"#;
    assert_eq!(produced_at_millis(data), Some(1734512893001));
}

#[test]
fn entity_data_without_the_stamp_yields_no_latency_sample() {
    assert_eq!(produced_at_millis(r#"{"searchRequestId":"abc"}"#), None);
    assert_eq!(produced_at_millis("not json at all"), None);
    assert_eq!(produced_at_millis(r#"{"produced_at_ms":"nope"}"#), None);
}

#[test]
fn a_failed_client_backs_off_doubling_up_to_the_limit() {
    assert_eq!(after_attempt(false, 100), Backoff { wait_ms: 100, next_ms: 200 });
    assert_eq!(after_attempt(false, 4000), Backoff { wait_ms: 4000, next_ms: 5000 });
    assert_eq!(after_attempt(false, 5000), Backoff { wait_ms: 5000, next_ms: 5000 });
    assert_eq!(after_attempt(true, 5000), Backoff { wait_ms: 0, next_ms: 100 });
    assert_eq!(StreamEnd::LifetimeElapsed.reason(), "client_closed");
    assert_eq!(StreamEnd::ServerClosed.reason(), "server_closed");
}

#[test]
fn a_live_activity_update_goes_to_the_device_path() {
    assert_eq!(
        notification_service::liveactivity::apns_request_url("https://api.push.apple.com", "443", "abc123"),
        "https://api.push.apple.com:443/3/device/abc123"
    );
}
