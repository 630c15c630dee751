use notification_service::environment::{
    bool_override_is_valid, env_override, env_override_opt, env_value, override_is_valid, redis_settings_from_env,
    RedisSettings,
};
use notification_service::sim_config::{
    client_index_start, default_roots, describe_candidates, env_override as sim_env_override, env_override_bool,
    env_override_list, explicit_config_path, explicit_path_outcome, resolve_default, ExplicitPath, RootProbe,
    SCENARIO_HINT, SCENARIO_RELATIVE_DEFAULT, SERVICE_HINT, SERVICE_RELATIVE_DEFAULT,
};

fn some(s: &str) -> Option<String> {
    Some(s.to_string())
}

#[test]
fn service_overrides_are_trimmed_and_blank_ones_ignored() {
    assert_eq!(env_value(some("  42 ")), some("42"));
    assert_eq!(env_value(some("   ")), None);
    assert_eq!(env_override(some(" 250 "), 100, u64::MAX), 250);
    assert_eq!(env_override(None, 100, u64::MAX), 100);
    assert_eq!(env_override_opt(some(""), u64::MAX), None);
    assert!(override_is_valid(&some("50051"), u16::MAX as u64));
    assert!(!override_is_valid(&some("70000"), u16::MAX as u64));
    assert!(!override_is_valid(&some("fast"), u64::MAX));
}

#[test]
fn simulator_overrides_name_the_variable_they_reject() {
    assert_eq!(sim_env_override("CLIENT_COUNT", some("19301"), 5), Ok(19_301));
    assert_eq!(sim_env_override("CLIENT_COUNT", some("  "), 5), Ok(5));
    assert_eq!(sim_env_override("CLIENT_COUNT", None, 5), Ok(5));
    let err = sim_env_override("CLIENT_COUNT", some("four thousand"), 5).unwrap_err();
    assert_eq!(err, "invalid CLIENT_COUNT: invalid digit found in string");
    assert_eq!(env_override_bool("PUBLISH_ENABLED", some("true"), false), Ok(true));
    assert!(env_override_bool("PUBLISH_ENABLED", some("yes"), false).unwrap_err().contains("PUBLISH_ENABLED"));
    assert_eq!(client_index_start(some("4000"), 1), Ok(4000));
}

#[test]
fn list_overrides_split_trim_and_fall_back() {
    let default = vec!["http://localhost:50051".to_string()];
    assert_eq!(
        env_override_list(some(" http://notification-service:50051 , http://other:50051 "), default.clone()),
        vec!["http://notification-service:50051".to_string(), "http://other:50051".to_string()]
    );
    assert_eq!(env_override_list(some(" , ,"), default.clone()), default);
    assert_eq!(env_override_list(None, default.clone()), default);
}

#[test]
fn the_default_roots_are_the_checkout_then_the_image() {
    let roots = default_roots();
    assert_eq!(roots.len(), 2);
    assert_eq!(roots[0].path, ".");
    assert_eq!(roots[1].path, "/etc/notification-service");
}

fn probe(candidate: &str, file_exists: bool, dir_exists: bool) -> RootProbe {
    RootProbe { candidate: candidate.to_string(), label: "test root", file_exists, dir_exists }
}

#[test]
fn default_falls_through_to_the_first_root_that_has_the_file() {
    let probes = vec![
        probe("/nonexistent-sim-root/dhall-configs/dev/sim.dhall", false, false),
        probe("/repo/dhall-configs/dev/sim.dhall", true, true),
    ];
    let resolved = resolve_default("SIM_CONFIG", SCENARIO_RELATIVE_DEFAULT, SCENARIO_HINT, &probes, "/wd")
        .expect("the repo checkout root carries the scenario");
    assert!(resolved.ends_with(SCENARIO_RELATIVE_DEFAULT));
}

#[test]
fn the_service_config_default_resolves_the_same_way() {
    let probes = vec![
        probe("/nonexistent-sim-root/dhall-configs/dev/notification_service.dhall", false, false),
        probe("/repo/dhall-configs/dev/notification_service.dhall", true, true),
    ];
    let resolved = resolve_default("DHALL_CONFIG", SERVICE_RELATIVE_DEFAULT, SERVICE_HINT, &probes, "/wd")
        .expect("the repo checkout root carries the service config");
    assert_eq!(resolved, "/repo/dhall-configs/dev/notification_service.dhall");
}

#[test]
fn an_explicit_path_is_used_verbatim_and_skips_the_roots() {
    let explicit = "/repo/dhall-configs/dev/sim.dhall";
    let path = match explicit_config_path("SIM_CONFIG", some(explicit), SCENARIO_RELATIVE_DEFAULT) {
        ExplicitPath::Path(p) => p,
        _ => panic!("an explicit path does not consult the roots"),
    };
    let resolved = explicit_path_outcome("SIM_CONFIG", path, true, "/wd")
        .expect("an explicit path does not consult the roots");
    assert_eq!(resolved, explicit);
}

#[test]
fn an_unresolvable_default_names_every_context_it_tried() {
    let probes = vec![
        probe("/nonexistent-sim-root/dhall-configs/dev/sim.dhall", false, false),
        probe("/also-nonexistent/dhall-configs/dev/sim.dhall", false, true),
    ];
    let message = resolve_default("SIM_CONFIG", SCENARIO_RELATIVE_DEFAULT, SCENARIO_HINT, &probes, "/wd")
        .expect_err("neither root exists");
    assert!(message.contains("/nonexistent-sim-root"), "{message}");
    assert!(message.contains("/also-nonexistent"), "{message}");
    assert!(message.contains(SCENARIO_HINT), "{message}");
    assert_eq!(
        describe_candidates(&probes),
        "  tried /nonexistent-sim-root/dhall-configs/dev/sim.dhall (test root: directory absent)\n  tried /also-nonexistent/dhall-configs/dev/sim.dhall (test root: directory exists, file absent)"
    );
}

#[test]
fn an_explicit_path_that_is_missing_is_an_error_not_a_fallback() {
    let path = match explicit_config_path("SIM_CONFIG", some(" /no/such/scenario.dhall "), SCENARIO_RELATIVE_DEFAULT) {
        ExplicitPath::Path(p) => p,
        _ => panic!("a path was given"),
    };
    assert_eq!(path, "/no/such/scenario.dhall");
    let err = explicit_path_outcome("SIM_CONFIG", path.clone(), false, "/wd").unwrap_err();
    assert!(err.contains("/no/such/scenario.dhall"));
    assert_eq!(explicit_path_outcome("SIM_CONFIG", path.clone(), true, "/wd"), Ok(path));
}

#[test]
fn an_empty_value_is_rejected_rather_than_treated_as_unset() {
    assert!(matches!(explicit_config_path("SIM_CONFIG", some("   "), SCENARIO_RELATIVE_DEFAULT), ExplicitPath::Blank(_)));
    assert!(matches!(explicit_config_path("SIM_CONFIG", None, SCENARIO_RELATIVE_DEFAULT), ExplicitPath::Unset));
}

#[test]
fn redis_settings_take_the_environment_overrides() {
    let base = RedisSettings { host: "localhost".into(), port: 6379, cluster_enabled: false, pool_size: 10 };
    let r = redis_settings_from_env(base, some(" redis.internal "), some("7000"), some("true"), None);
    assert_eq!(r.host, "redis.internal");
    assert_eq!(r.port, 7000);
    assert!(r.cluster_enabled);
    assert_eq!(r.pool_size, 10);
    assert!(!bool_override_is_valid(&some("yes")));
    assert!(bool_override_is_valid(&some(" false ")));
}
