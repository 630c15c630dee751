//! The service's settings that the environment may override. The caller reads
//! the variable; these functions decide what its value means.

use vstd::prelude::*;
use crate::text::{
    ascii_lower, parse_bool, parse_bool_spec, parse_unsigned, parse_unsigned_spec, to_ascii_lowercase, trim, trimmed,
};
use crate::types::DeliveryMode;

verus! {

/// What a variable's value counts as: trimmed, and nothing when blank.
pub open spec fn env_value_spec(raw: Option<Seq<char>>) -> Option<Seq<char>> {
    match raw {
        Some(v) => if trimmed(v).len() > 0 {
            Some(trimmed(v))
        } else {
            None
        },
        None => None,
    }
}

pub open spec fn opt_string_view(raw: Option<String>) -> Option<Seq<char>> {
    match raw {
        Some(v) => Some(v@),
        None => None,
    }
}

/// The value of a variable as the service reads it: trimmed, and `None`
/// when it is unset or blank.
pub fn env_value(raw: Option<String>) -> (v: Option<String>)
    ensures
        opt_string_view(v) == env_value_spec(opt_string_view(raw)),
{
    match raw {
        Some(r) => {
            let t = trim(r.as_str());
            if t.as_str().is_empty() {
                None
            } else {
                Some(t)
            }
        },
        None => None,
    }
}

/// Whether an override of a number whose type tops out at `max` is unset,
/// blank, or a number of that type.
pub open spec fn override_parses(raw: Option<Seq<char>>, max: nat) -> bool {
    match env_value_spec(raw) {
        Some(v) => parse_unsigned_spec(v, max) is Ok,
        None => true,
    }
}

/// The number an override sets, when it sets one.
pub open spec fn override_value(raw: Option<Seq<char>>, max: nat) -> Option<nat> {
    match env_value_spec(raw) {
        Some(v) => match parse_unsigned_spec(v, max) {
            Ok(n) => Some(n),
            Err(_) => None,
        },
        None => None,
    }
}

/// Whether an override can be taken; the service refuses to start on one
/// that cannot.
pub fn override_is_valid(raw: &Option<String>, max: u64) -> (b: bool)
    requires
        max >= 9,
    ensures
        b == override_parses(opt_string_view(*raw), max as nat),
{
    let r = match raw {
        Some(r) => Some(r.clone()),
        None => None,
    };
    match env_value(r) {
        Some(v) => parse_unsigned(v.as_str(), max).is_ok(),
        None => true,
    }
}

/// The number an override sets, if it sets one. An override that is not a
/// number of the type is refused: the caller stops rather than fall back.
pub fn env_override_opt(raw: Option<String>, max: u64) -> (n: Option<u64>)
    requires
        max >= 9,
        override_parses(opt_string_view(raw), max as nat),
    ensures
        match n {
            Some(v) => override_value(opt_string_view(raw), max as nat) == Some(v as nat),
            None => override_value(opt_string_view(raw), max as nat) is None,
        },
{
    match env_value(raw) {
        Some(v) => match parse_unsigned(v.as_str(), max) {
            Ok(n) => Some(n),
            Err(_) => None,
        },
        None => None,
    }
}

/// The override if one is set, else `fallback`.
pub fn env_override(raw: Option<String>, fallback: u64, max: u64) -> (n: u64)
    requires
        max >= 9,
        override_parses(opt_string_view(raw), max as nat),
    ensures
        n as nat == match override_value(opt_string_view(raw), max as nat) {
            Some(v) => v,
            None => fallback as nat,
        },
{
    match env_override_opt(raw, max) {
        Some(n) => n,
        None => fallback,
    }
}

/// What `DELIVERY_MODE` says: nothing when unset or blank, else the mode it
/// names in any case, or the (lower-cased) value that names none.
pub open spec fn delivery_mode_setting_spec(raw: Option<Seq<char>>) -> Result<Option<DeliveryMode>, Seq<char>> {
    match env_value_spec(raw) {
        None => Ok(None),
        Some(v) => if ascii_lower(v) == "sweep"@ {
            Ok(Some(DeliveryMode::Sweep))
        } else if ascii_lower(v) == "pubsub"@ {
            Ok(Some(DeliveryMode::Pubsub))
        } else {
            Err(ascii_lower(v))
        },
    }
}

/// Reads the value of `DELIVERY_MODE`.
pub fn delivery_mode_setting(raw: Option<String>) -> (r: Result<Option<DeliveryMode>, String>)
    ensures
        match r {
            Ok(m) => delivery_mode_setting_spec(opt_string_view(raw)) == Ok::<Option<DeliveryMode>, Seq<char>>(m),
            Err(other) => delivery_mode_setting_spec(opt_string_view(raw)) == Err::<Option<DeliveryMode>, Seq<char>>(
                other@,
            ),
        },
{
    match env_value(raw) {
        None => Ok(None),
        Some(v) => {
            let lower = to_ascii_lowercase(v.as_str());
            let sweep = String::from_str("sweep");
            let pubsub = String::from_str("pubsub");
            proof {
                reveal_strlit("sweep");
                reveal_strlit("pubsub");
            }
            if lower == sweep {
                Ok(Some(DeliveryMode::Sweep))
            } else if lower == pubsub {
                Ok(Some(DeliveryMode::Pubsub))
            } else {
                Err(lower)
            }
        },
    }
}

/// The delivery mode: the one `DELIVERY_MODE` names, in any case, or
/// `fallback` when it is unset or blank. A value that names no mode is
/// refused: the caller stops rather than run in a mode nobody asked for.
pub fn delivery_mode_from_env(raw: Option<String>, fallback: DeliveryMode) -> (m: DeliveryMode)
    requires
        delivery_mode_setting_spec(opt_string_view(raw)) is Ok,
    ensures
        m == match delivery_mode_setting_spec(opt_string_view(raw)) {
            Ok(Some(mode)) => mode,
            _ => fallback,
        },
{
    match delivery_mode_setting(raw) {
        Ok(Some(mode)) => mode,
        _ => fallback,
    }
}

/// Whether an override of a `bool` setting is unset, blank, `true` or
/// `false`.
pub open spec fn bool_override_parses(raw: Option<Seq<char>>) -> bool {
    match env_value_spec(raw) {
        Some(v) => parse_bool_spec(v) is Some,
        None => true,
    }
}

pub fn bool_override_is_valid(raw: &Option<String>) -> (b: bool)
    ensures
        b == bool_override_parses(opt_string_view(*raw)),
{
    let r = match raw {
        Some(r) => Some(r.clone()),
        None => None,
    };
    match env_value(r) {
        Some(v) => parse_bool(v.as_str()).is_some(),
        None => true,
    }
}

/// The Redis settings that the environment may override.
#[derive(Debug)]
pub struct RedisSettings {
    pub host: String,
    pub port: u16,
    pub cluster_enabled: bool,
    pub pool_size: usize,
}

/// The Redis settings with the overrides of `REDIS_HOST`, `REDIS_PORT`,
/// `REDIS_CLUSTER_ENABLED` and `REDIS_POOL_SIZE` (their values are the raw
/// arguments) applied; an unset or blank variable keeps the setting. A value
/// that does not parse is refused: the caller stops rather than fall back.
pub fn redis_settings_from_env(
    redis_cfg: RedisSettings,
    host: Option<String>,
    port: Option<String>,
    cluster_enabled: Option<String>,
    pool_size: Option<String>,
) -> (r: RedisSettings)
    requires
        override_parses(opt_string_view(port), u16::MAX as nat),
        bool_override_parses(opt_string_view(cluster_enabled)),
        override_parses(opt_string_view(pool_size), usize::MAX as nat),
    ensures
        r.host@ == match env_value_spec(opt_string_view(host)) {
            Some(h) => h,
            None => redis_cfg.host@,
        },
        r.port as nat == match override_value(opt_string_view(port), u16::MAX as nat) {
            Some(p) => p,
            None => redis_cfg.port as nat,
        },
        r.cluster_enabled == match env_value_spec(opt_string_view(cluster_enabled)) {
            Some(v) => parse_bool_spec(v)->0,
            None => redis_cfg.cluster_enabled,
        },
        r.pool_size as nat == match override_value(opt_string_view(pool_size), usize::MAX as nat) {
            Some(p) => p,
            None => redis_cfg.pool_size as nat,
        },
{
    let mut cfg = redis_cfg;
    if let Some(h) = env_value(host) {
        cfg.host = h;
    }
    if let Some(p) = env_override_opt(port, 65535) {
        cfg.port = p as u16;
    }
    if let Some(v) = env_value(cluster_enabled) {
        if let Some(b) = parse_bool(v.as_str()) {
            cfg.cluster_enabled = b;
        }
    }
    if let Some(p) = env_override_opt(pool_size, usize::MAX as u64) {
        cfg.pool_size = p as usize;
    }
    cfg
}

} // verus!
