use notification_service::clients::{self, ClientsOverrides, ClientsSection};
use notification_service::producer::{self, plan_search_request, ProducerOverrides, ProducerSection, RateReading};
use notification_service::sim::{AckMode, ReconnectMode};
use notification_service::sim_stream::{ack_delay, AckDelay};
use std::collections::HashSet;

fn some(s: &str) -> Option<String> {
    Some(s.to_string())
}

const SOURCE: &str = "dhall-configs/dev/sim.dhall";

fn clients_section() -> ClientsSection {
    ClientsSection {
        endpoints: vec!["http://localhost:50051".to_string()],
        client_index_start: 0,
        client_count: 100,
        ack_mode: AckMode::Distribution,
        ack_delay_ms: 0,
        ack_p50_ms: 800,
        ack_p90_ms: 2071,
        ack_p95_ms: 2326,
        ack_max_ms: 30_000,
        reconnect_mode: ReconnectMode::Distribution,
        never_ack_pct: 1,
        metrics_port: 9101,
        max_shards: 128,
        streams_per_connection: 0,
        token_origin: "DriverDashboard".to_string(),
    }
}

fn no_client_overrides() -> ClientsOverrides {
    ClientsOverrides { endpoints: None, client_count: None, client_index_start: None }
}

fn producer_section() -> ProducerSection {
    ProducerSection {
        client_count: 100,
        fleet_client_count: 100,
        client_index_start: 0,
        fanout: 5,
        burst: true,
        publish_enabled: false,
        ttl_seconds: 30,
        payload_bytes: 1400,
        metrics_port: 9102,
        max_shards: 128,
        stream_expiration_seconds: 3600,
        max_inflight_search_requests: 64,
    }
}

fn no_producer_overrides() -> ProducerOverrides {
    ProducerOverrides { client_count: None, fleet_client_count: None, publish_enabled: None, client_index_start: None }
}

fn producer_config() -> producer::Config {
    producer::from_section(producer_section(), no_producer_overrides(), RateReading::Positive, SOURCE)
        .expect("the section is valid")
}

#[test]
fn the_clients_section_reads_through_unchanged() {
    let cfg = clients::from_section(clients_section(), no_client_overrides(), Ok(()), SOURCE).expect("valid");
    assert_eq!(cfg.client_count, 100);
    assert_eq!(cfg.endpoints, vec!["http://localhost:50051".to_string()]);
    assert_eq!(cfg.ack_delays.p50_ms, 800);
    assert_eq!(cfg.ack_delays.p90_ms, 2071);
    assert_eq!(cfg.ack_delays.p95_ms, 2326);
    assert_eq!(cfg.never_ack_pct, 1);
    assert_eq!(cfg.metrics_port, 9101);
    assert_eq!(cfg.streams_per_connection, 1);
    assert_eq!(cfg.ack_mode, AckMode::Distribution);
    assert_eq!(cfg.token_origin, "DriverDashboard");
}

#[test]
fn env_overrides_replace_the_file_values() {
    let overrides = ClientsOverrides {
        endpoints: some(" http://notification-service:50051 , http://other:50051 "),
        client_count: some("19301"),
        client_index_start: some("4000"),
    };
    let cfg = clients::from_section(clients_section(), overrides, Ok(()), SOURCE).expect("overrides must parse");
    assert_eq!(cfg.client_count, 19_301);
    assert_eq!(cfg.client_index_start, 4_000);
    assert_eq!(
        cfg.endpoints,
        vec!["http://notification-service:50051".to_string(), "http://other:50051".to_string()]
    );
}

#[test]
fn an_unparseable_override_is_an_error_rather_than_a_silent_fallback() {
    let overrides = ClientsOverrides { endpoints: None, client_count: some("four thousand"), client_index_start: None };
    let err = match clients::from_section(clients_section(), overrides, Ok(()), SOURCE) {
        Ok(_) => panic!("a typo must not run the cell at the file's value"),
        Err(err) => err,
    };
    assert!(err.contains("CLIENT_COUNT"), "{err}");
}

#[test]
fn each_clients_check_names_what_it_refused() {
    let mut s = clients_section();
    s.endpoints = vec!["  ".to_string()];
    assert_eq!(
        clients::from_section(s, no_client_overrides(), Ok(()), SOURCE).err().unwrap(),
        "dhall-configs/dev/sim.dhall: clients.endpoints resolved to an empty list"
    );
    let mut s = clients_section();
    s.client_count = 0;
    assert_eq!(
        clients::from_section(s, no_client_overrides(), Ok(()), SOURCE).err().unwrap(),
        "dhall-configs/dev/sim.dhall: clients.client_count must be > 0"
    );
    let mut s = clients_section();
    s.never_ack_pct = 101;
    assert_eq!(
        clients::from_section(s, no_client_overrides(), Ok(()), SOURCE).err().unwrap(),
        "dhall-configs/dev/sim.dhall: clients.never_ack_pct must be 0..=100"
    );
    let mut s = clients_section();
    s.ack_p90_ms = 700;
    assert_eq!(
        clients::from_section(s, no_client_overrides(), Ok(()), SOURCE).err().unwrap(),
        "dhall-configs/dev/sim.dhall: clients ack percentiles must satisfy p50 <= p90 <= p95 <= max, got 800/700/2326/30000"
    );
    assert_eq!(
        clients::from_section(
            clients_section(),
            no_client_overrides(),
            Err("reconnect_lifetime_buckets must not be empty".to_string()),
            SOURCE
        )
        .err()
        .unwrap(),
        "dhall-configs/dev/sim.dhall: clients.reconnect_lifetime_buckets must not be empty"
    );
    let overrides = ClientsOverrides { endpoints: None, client_count: None, client_index_start: some("-1") };
    assert_eq!(
        clients::from_section(clients_section(), overrides, Ok(()), SOURCE).err().unwrap(),
        "invalid CLIENT_INDEX_START: invalid digit found in string"
    );
}

#[test]
fn config_env_overrides_replace_the_file_values() {
    let overrides = ProducerOverrides {
        client_count: some("19301"),
        fleet_client_count: some("580000"),
        publish_enabled: some("true"),
        client_index_start: None,
    };
    let cfg = producer::from_section(producer_section(), overrides, RateReading::Positive, SOURCE)
        .expect("overrides must parse");
    assert_eq!(cfg.client_count, 19_301);
    assert_eq!(cfg.fleet_client_count, 580_000);
    assert!(cfg.publish_enabled);
}

#[test]
fn config_an_unparseable_override_is_an_error_rather_than_a_silent_fallback() {
    let rate = RateReading::Invalid("invalid TARGET_RATE: invalid float literal".to_string());
    let err = match producer::from_section(producer_section(), no_producer_overrides(), rate, SOURCE) {
        Ok(_) => panic!("a typo must not run the cell at the file's rate"),
        Err(err) => err,
    };
    assert!(err.contains("TARGET_RATE"), "{err}");
}

#[test]
fn a_fleet_narrower_than_the_connected_population_is_rejected() {
    let overrides = ProducerOverrides {
        client_count: some("4000"),
        fleet_client_count: some("100"),
        publish_enabled: None,
        client_index_start: None,
    };
    let parsed = producer::from_section(producer_section(), overrides, RateReading::Positive, SOURCE);
    assert!(parsed.is_err());
    assert_eq!(
        parsed.err().unwrap(),
        "dhall-configs/dev/sim.dhall: producer.fleet_client_count must be >= producer.client_count"
    );
}

#[test]
fn each_producer_check_names_what_it_refused() {
    let mut s = producer_section();
    s.client_count = 0;
    assert_eq!(
        producer::from_section(s, no_producer_overrides(), RateReading::Positive, SOURCE).err().unwrap(),
        "dhall-configs/dev/sim.dhall: producer.client_count must be > 0"
    );
    assert_eq!(
        producer::from_section(producer_section(), no_producer_overrides(), RateReading::NotPositive, SOURCE)
            .err()
            .unwrap(),
        "dhall-configs/dev/sim.dhall: producer.target_rate must be > 0"
    );
    let mut s = producer_section();
    s.max_inflight_search_requests = 0;
    assert_eq!(
        producer::from_section(s, no_producer_overrides(), RateReading::Positive, SOURCE).err().unwrap(),
        "dhall-configs/dev/sim.dhall: producer.max_inflight_search_requests must be > 0"
    );
    let overrides = ProducerOverrides {
        client_count: None,
        fleet_client_count: None,
        publish_enabled: some("yes"),
        client_index_start: None,
    };
    assert_eq!(
        producer::from_section(producer_section(), overrides, RateReading::Positive, SOURCE).err().unwrap(),
        "invalid PUBLISH_ENABLED: provided string was not `true` or `false`"
    );
    let mut s = producer_section();
    s.fanout = 0;
    let cfg = producer::from_section(s, no_producer_overrides(), RateReading::Positive, SOURCE).unwrap();
    assert_eq!(cfg.fanout, 1);
    assert_eq!(cfg.payload_bytes, 1400);
    assert_eq!(cfg.ttl_seconds, 30);
    assert_eq!(cfg.max_shards, 128);
}

#[test]
fn a_search_request_reaches_fanout_distinct_drivers() {
    let cfg = producer_config();
    let targets = plan_search_request(&cfg);
    assert_eq!(targets.len(), cfg.fanout as usize);
    let distinct: HashSet<&String> = targets.iter().map(|target| &target.client_id).collect();
    assert_eq!(distinct.len(), targets.len(), "a driver was picked twice");
}

#[test]
fn every_target_falls_inside_the_fleet_index_range() {
    let mut cfg = producer_config();
    cfg.fleet_client_count = 580_000;
    cfg.client_index_start = 1_000;
    let end = cfg.client_index_start + cfg.fleet_client_count;
    for target in plan_search_request(&cfg) {
        assert!((cfg.client_index_start..end).contains(&target.index));
        assert_eq!(target.local, target.index < cfg.client_index_start + cfg.client_count);
        assert_eq!(target.client_id, notification_service::ids::client_id(target.index));
    }
}

#[test]
fn a_fanout_wider_than_the_fleet_is_clamped_rather_than_panicking() {
    let mut cfg = producer_config();
    cfg.fleet_client_count = 3;
    cfg.client_count = 3;
    cfg.fanout = 500;
    let targets = plan_search_request(&cfg);
    assert_eq!(targets.len(), 3);
    let mut indexes: Vec<u64> = targets.iter().map(|t| t.index).collect();
    indexes.sort();
    assert_eq!(indexes, vec![0, 1, 2]);
    let positions: Vec<usize> = targets.iter().map(|t| t.position).collect();
    assert_eq!(positions, vec![0, 1, 2]);
}

#[test]
fn distribution_mode_draws_instead_of_using_the_constant_delay() {
    let mut cfg = clients::from_section(clients_section(), no_client_overrides(), Ok(()), SOURCE).expect("valid");
    cfg.ack_delay_ms = 9_999;

    cfg.ack_mode = AckMode::Instant;
    assert_eq!(ack_delay(cfg.ack_mode, cfg.ack_delay_ms), AckDelay::Fixed(0));

    cfg.ack_mode = AckMode::Delayed;
    assert_eq!(ack_delay(cfg.ack_mode, cfg.ack_delay_ms), AckDelay::Fixed(9_999));

    cfg.ack_mode = AckMode::Distribution;
    assert_eq!(ack_delay(cfg.ack_mode, cfg.ack_delay_ms), AckDelay::Sampled);
    assert_eq!(cfg.ack_delays.max_ms, 30_000);
}
