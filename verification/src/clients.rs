//! The simulated clients' settings, checked once the environment has
//! overridden the scenario file.

use vstd::prelude::*;
use crate::environment::opt_string_view;
use crate::expired::strings_view;
use crate::sim::{ack_curve_error, AckDelayCurve, AckMode, ReconnectMode};
use crate::sim_config::{
    client_index_start, env_override, env_override_list, keep_nonblank_trimmed, nonblank_trimmed,
    override_list_spec, override_u64_spec,
};

verus! {

/// The `clients` section of the scenario file, but for the reconnect
/// lifetimes and the connect rate, which the caller reads.
pub struct ClientsSection {
    pub endpoints: Vec<String>,
    pub client_index_start: u64,
    pub client_count: u64,
    pub ack_mode: AckMode,
    pub ack_delay_ms: u64,
    pub ack_p50_ms: u64,
    pub ack_p90_ms: u64,
    pub ack_p95_ms: u64,
    pub ack_max_ms: u64,
    pub reconnect_mode: ReconnectMode,
    pub never_ack_pct: u64,
    pub metrics_port: u16,
    pub max_shards: u64,
    pub streams_per_connection: u64,
    pub token_origin: String,
}

/// The values of `SIM_ENDPOINTS`, `CLIENT_COUNT` and `CLIENT_INDEX_START`;
/// `None` where one is unset.
pub struct ClientsOverrides {
    pub endpoints: Option<String>,
    pub client_count: Option<String>,
    pub client_index_start: Option<String>,
}

/// The simulated clients' settings, checked.
pub struct Config {
    pub endpoints: Vec<String>,
    pub client_index_start: u64,
    pub client_count: u64,
    pub ack_mode: AckMode,
    pub ack_delay_ms: u64,
    pub ack_delays: AckDelayCurve,
    pub reconnect_mode: ReconnectMode,
    pub never_ack_pct: u64,
    pub metrics_port: u16,
    pub max_shards: u64,
    pub streams_per_connection: u64,
    pub token_origin: String,
}

/// The endpoints the clients connect to: the list override or the file's,
/// each trimmed, blanks left out.
pub open spec fn clients_endpoints(s: ClientsSection, o: ClientsOverrides) -> Seq<Seq<char>> {
    nonblank_trimmed(override_list_spec(opt_string_view(o.endpoints), strings_view(s.endpoints@)))
}

/// The first error in reading the section, in the order the checks run:
/// the endpoints, the client count and its override, the never-ack share,
/// the acknowledgement percentiles, the reconnect lifetimes (`lifetimes`,
/// read by the caller), and the override of the first index.
pub open spec fn clients_error(s: ClientsSection, o: ClientsOverrides, lifetimes: Result<(), String>, source: Seq<char>) -> Option<
    Seq<char>,
> {
    if clients_endpoints(s, o).len() == 0 {
        Some(source + ": clients.endpoints resolved to an empty list"@)
    } else {
        match override_u64_spec("CLIENT_COUNT"@, opt_string_view(o.client_count), s.client_count) {
            Err(e) => Some(e),
            Ok(c) => if c == 0 {
                Some(source + ": clients.client_count must be > 0"@)
            } else if s.never_ack_pct > 100 {
                Some(source + ": clients.never_ack_pct must be 0..=100"@)
            } else if !(s.ack_p50_ms <= s.ack_p90_ms && s.ack_p90_ms <= s.ack_p95_ms && s.ack_p95_ms <= s.ack_max_ms) {
                Some(source + ": clients "@ + ack_curve_error(s.ack_p50_ms, s.ack_p90_ms, s.ack_p95_ms, s.ack_max_ms))
            } else {
                match lifetimes {
                    Err(e) => Some(source + ": clients."@ + e@),
                    Ok(_) => match override_u64_spec(
                        "CLIENT_INDEX_START"@,
                        opt_string_view(o.client_index_start),
                        s.client_index_start,
                    ) {
                        Err(e) => Some(e),
                        Ok(_) => None,
                    },
                }
            },
        }
    }
}

/// The value an override gives when it gives one.
pub open spec fn value_or_zero(r: Result<u64, Seq<char>>) -> u64 {
    match r {
        Ok(v) => v,
        Err(_) => 0,
    }
}

/// The clients' settings from their section, the variables that override
/// it and the outcome of reading the reconnect lifetimes. `source` names the
/// file in errors. An override that does not parse is an error, never a
/// silent fallback.
pub fn from_section(section: ClientsSection, overrides: ClientsOverrides, lifetimes: Result<(), String>, source: &str) -> (r:
    Result<Config, String>)
    ensures
        r is Ok <==> clients_error(section, overrides, lifetimes, source@) is None,
        r matches Err(m) ==> clients_error(section, overrides, lifetimes, source@) == Some(m@),
        r matches Ok(c) ==> {
            &&& strings_view(c.endpoints@) == clients_endpoints(section, overrides)
            &&& c.client_count == value_or_zero(
                override_u64_spec("CLIENT_COUNT"@, opt_string_view(overrides.client_count), section.client_count),
            )
            &&& c.client_index_start == value_or_zero(
                override_u64_spec(
                    "CLIENT_INDEX_START"@,
                    opt_string_view(overrides.client_index_start),
                    section.client_index_start,
                ),
            )
            &&& c.ack_mode == section.ack_mode
            &&& c.ack_delay_ms == section.ack_delay_ms
            &&& c.ack_delays == (AckDelayCurve {
                p50_ms: section.ack_p50_ms,
                p90_ms: section.ack_p90_ms,
                p95_ms: section.ack_p95_ms,
                max_ms: section.ack_max_ms,
            })
            &&& c.reconnect_mode == section.reconnect_mode
            &&& c.never_ack_pct == section.never_ack_pct
            &&& c.metrics_port == section.metrics_port
            &&& c.max_shards == section.max_shards
            &&& c.streams_per_connection == if section.streams_per_connection < 1 {
                1
            } else {
                section.streams_per_connection
            }
            &&& c.token_origin@ == section.token_origin@
        },
{
    let listed = env_override_list(overrides.endpoints, section.endpoints);
    let endpoints = keep_nonblank_trimmed(&listed);
    if endpoints.len() == 0 {
        let mut m = String::from_str(source);
        m.append(": clients.endpoints resolved to an empty list");
        return Err(m);
    }
    let client_count = match env_override("CLIENT_COUNT", overrides.client_count, section.client_count) {
        Ok(n) => n,
        Err(e) => return Err(e),
    };
    if client_count == 0 {
        let mut m = String::from_str(source);
        m.append(": clients.client_count must be > 0");
        return Err(m);
    }
    if section.never_ack_pct > 100 {
        let mut m = String::from_str(source);
        m.append(": clients.never_ack_pct must be 0..=100");
        return Err(m);
    }
    let ack_delays = match AckDelayCurve::new(
        section.ack_p50_ms,
        section.ack_p90_ms,
        section.ack_p95_ms,
        section.ack_max_ms,
    ) {
        Ok(c) => c,
        Err(e) => {
            let mut m = String::from_str(source);
            m.append(": clients ");
            m.append(e.as_str());
            return Err(m);
        },
    };
    match lifetimes {
        Ok(()) => {},
        Err(e) => {
            let mut m = String::from_str(source);
            m.append(": clients.");
            m.append(e.as_str());
            return Err(m);
        },
    }
    let start = match client_index_start(overrides.client_index_start, section.client_index_start) {
        Ok(n) => n,
        Err(e) => return Err(e),
    };
    Ok(
        Config {
            endpoints,
            client_index_start: start,
            client_count,
            ack_mode: section.ack_mode,
            ack_delay_ms: section.ack_delay_ms,
            ack_delays,
            reconnect_mode: section.reconnect_mode,
            never_ack_pct: section.never_ack_pct,
            metrics_port: section.metrics_port,
            max_shards: section.max_shards,
            streams_per_connection: if section.streams_per_connection < 1 {
                1
            } else {
                section.streams_per_connection
            },
            token_origin: section.token_origin,
        },
    )
}

} // verus!
