//! The simulated producer: the settings it runs with, checked once the
//! environment has overridden the scenario file, and the drivers each search
//! request is written to.

use vstd::prelude::*;
use crate::environment::opt_string_view;
use crate::ids::{client_id, sim_name, uuid_v5_oid_text};
use crate::sim_config::{
    client_index_start, env_override, env_override_bool, override_bool_spec, override_u64_spec,
};

verus! {

/// The `producer` section of the scenario file, but for its target rate,
/// which the caller reads.
pub struct ProducerSection {
    pub client_count: u64,
    pub fleet_client_count: u64,
    pub client_index_start: u64,
    pub fanout: u64,
    pub burst: bool,
    pub publish_enabled: bool,
    pub ttl_seconds: i64,
    pub payload_bytes: usize,
    pub metrics_port: u16,
    pub max_shards: u64,
    pub stream_expiration_seconds: i64,
    pub max_inflight_search_requests: usize,
}

/// The values of the variables that override the section: `CLIENT_COUNT`,
/// `FLEET_CLIENT_COUNT`, `PUBLISH_ENABLED` and `CLIENT_INDEX_START`; `None`
/// where one is unset.
pub struct ProducerOverrides {
    pub client_count: Option<String>,
    pub fleet_client_count: Option<String>,
    pub publish_enabled: Option<String>,
    pub client_index_start: Option<String>,
}

/// What reading the target rate gave: the error of a `TARGET_RATE` that is
/// not a number, or whether the rate is above zero.
pub enum RateReading {
    Invalid(String),
    NotPositive,
    Positive,
}

/// The producer's settings, checked.
pub struct Config {
    pub client_count: u64,
    pub fleet_client_count: u64,
    pub client_index_start: u64,
    pub fanout: u64,
    pub burst: bool,
    pub publish_enabled: bool,
    pub ttl_seconds: i64,
    pub payload_bytes: usize,
    pub metrics_port: u16,
    pub max_shards: u64,
    pub stream_expiration_seconds: i64,
    pub max_inflight: usize,
}

/// The first error in reading the section, in the order the checks run:
/// the overrides of the counts, the rate and the publish switch; then the
/// counts, the rate and the in-flight bound; then the first index.
pub open spec fn producer_error(s: ProducerSection, o: ProducerOverrides, rate: RateReading, source: Seq<char>) -> Option<
    Seq<char>,
> {
    let cc = override_u64_spec("CLIENT_COUNT"@, opt_string_view(o.client_count), s.client_count);
    let fc = override_u64_spec("FLEET_CLIENT_COUNT"@, opt_string_view(o.fleet_client_count), s.fleet_client_count);
    let pe = override_bool_spec("PUBLISH_ENABLED"@, opt_string_view(o.publish_enabled), s.publish_enabled);
    let ix = override_u64_spec("CLIENT_INDEX_START"@, opt_string_view(o.client_index_start), s.client_index_start);
    match (cc, fc) {
        (Err(e), _) => Some(e),
        (Ok(_), Err(e)) => Some(e),
        (Ok(c), Ok(f)) => match rate {
            RateReading::Invalid(e) => Some(e@),
            _ => match pe {
                Err(e) => Some(e),
                Ok(_) => if c == 0 {
                    Some(source + ": producer.client_count must be > 0"@)
                } else if f < c {
                    Some(source + ": producer.fleet_client_count must be >= producer.client_count"@)
                } else if rate is NotPositive {
                    Some(source + ": producer.target_rate must be > 0"@)
                } else if s.max_inflight_search_requests == 0 {
                    Some(source + ": producer.max_inflight_search_requests must be > 0"@)
                } else {
                    match ix {
                        Err(e) => Some(e),
                        Ok(_) => None,
                    }
                },
            },
        },
    }
}

/// A value that an override spec gives when it gives one.
pub open spec fn ok_or<T>(r: Result<T, Seq<char>>, d: T) -> T {
    match r {
        Ok(v) => v,
        Err(_) => d,
    }
}

/// The producer's settings from its section, the variables that override it
/// and the target rate the caller read. `source` names the file in errors.
/// An override that does not parse is an error, never a silent fallback.
pub fn from_section(section: ProducerSection, overrides: ProducerOverrides, rate: RateReading, source: &str) -> (r:
    Result<Config, String>)
    ensures
        r is Ok <==> producer_error(section, overrides, rate, source@) is None,
        r matches Err(m) ==> producer_error(section, overrides, rate, source@) == Some(m@),
        r matches Ok(c) ==> {
            &&& c.client_count == ok_or(
                override_u64_spec("CLIENT_COUNT"@, opt_string_view(overrides.client_count), section.client_count),
                0,
            )
            &&& c.fleet_client_count == ok_or(
                override_u64_spec(
                    "FLEET_CLIENT_COUNT"@,
                    opt_string_view(overrides.fleet_client_count),
                    section.fleet_client_count,
                ),
                0,
            )
            &&& c.publish_enabled == ok_or(
                override_bool_spec(
                    "PUBLISH_ENABLED"@,
                    opt_string_view(overrides.publish_enabled),
                    section.publish_enabled,
                ),
                false,
            )
            &&& c.client_index_start == ok_or(
                override_u64_spec(
                    "CLIENT_INDEX_START"@,
                    opt_string_view(overrides.client_index_start),
                    section.client_index_start,
                ),
                0,
            )
            &&& c.fanout == if section.fanout < 1 { 1 } else { section.fanout }
            &&& c.burst == section.burst
            &&& c.ttl_seconds == section.ttl_seconds
            &&& c.payload_bytes == section.payload_bytes
            &&& c.metrics_port == section.metrics_port
            &&& c.max_shards == section.max_shards
            &&& c.stream_expiration_seconds == section.stream_expiration_seconds
            &&& c.max_inflight == section.max_inflight_search_requests
        },
{
    let client_count = match env_override("CLIENT_COUNT", overrides.client_count, section.client_count) {
        Ok(n) => n,
        Err(e) => return Err(e),
    };
    let fleet_client_count = match env_override(
        "FLEET_CLIENT_COUNT",
        overrides.fleet_client_count,
        section.fleet_client_count,
    ) {
        Ok(n) => n,
        Err(e) => return Err(e),
    };
    let positive = match rate {
        RateReading::Invalid(e) => return Err(e),
        RateReading::NotPositive => false,
        RateReading::Positive => true,
    };
    let publish_enabled = match env_override_bool("PUBLISH_ENABLED", overrides.publish_enabled, section.publish_enabled) {
        Ok(b) => b,
        Err(e) => return Err(e),
    };
    if client_count == 0 {
        let mut m = String::from_str(source);
        m.append(": producer.client_count must be > 0");
        return Err(m);
    }
    if fleet_client_count < client_count {
        let mut m = String::from_str(source);
        m.append(": producer.fleet_client_count must be >= producer.client_count");
        return Err(m);
    }
    if !positive {
        let mut m = String::from_str(source);
        m.append(": producer.target_rate must be > 0");
        return Err(m);
    }
    if section.max_inflight_search_requests == 0 {
        let mut m = String::from_str(source);
        m.append(": producer.max_inflight_search_requests must be > 0");
        return Err(m);
    }
    let start = match client_index_start(overrides.client_index_start, section.client_index_start) {
        Ok(n) => n,
        Err(e) => return Err(e),
    };
    Ok(
        Config {
            client_count,
            fleet_client_count,
            client_index_start: start,
            fanout: if section.fanout < 1 { 1 } else { section.fanout },
            burst: section.burst,
            publish_enabled,
            ttl_seconds: section.ttl_seconds,
            payload_bytes: section.payload_bytes,
            metrics_port: section.metrics_port,
            max_shards: section.max_shards,
            stream_expiration_seconds: section.stream_expiration_seconds,
            max_inflight: section.max_inflight_search_requests,
        },
    )
}

/// No index occurs twice in `s`.
pub open spec fn all_distinct(s: Seq<usize>) -> bool {
    forall|i: int, j: int| 0 <= i < s.len() && 0 <= j < s.len() && i != j ==> s[i] != s[j]
}

/// `rand::seq::index::sample` on the thread's generator, as a vector:
/// exactly `amount` distinct indices below `length`, in random order. The
/// crate panics when `amount` exceeds `length`.
#[verifier::external_body]
fn sample_indices(length: usize, amount: usize) -> (v: Vec<usize>)
    requires
        amount <= length,
    ensures
        v@.len() == amount,
        forall|i: int| 0 <= i < v@.len() ==> v@[i] < length,
        all_distinct(v@),
{
    rand::seq::index::sample(&mut rand::thread_rng(), length, amount).into_vec()
}

/// One driver a search request is written to: its index in the population,
/// its client id, its place in the request (which spreads the writes over
/// time), and whether this pod connects it.
pub struct SearchTarget {
    pub index: u64,
    pub client_id: String,
    pub position: usize,
    pub local: bool,
}

/// The id of the simulated client with the given index.
pub open spec fn sim_client_id(index: u64) -> Seq<char> {
    uuid_v5_oid_text(vstd::utf8::encode_utf8(sim_name(index)))
}

/// The targets at the given offsets into the fleet, in their order.
pub fn targets_at(client_index_start: u64, client_count: u64, offsets: &Vec<usize>) -> (t: Vec<SearchTarget>)
    requires
        forall|i: int| 0 <= i < offsets@.len() ==> client_index_start + offsets@[i] <= u64::MAX,
    ensures
        t@.len() == offsets@.len(),
        forall|i: int|
            #![trigger t@[i]]
            0 <= i < t@.len() ==> {
                &&& t@[i].index == client_index_start + offsets@[i]
                &&& t@[i].client_id@ == sim_client_id(t@[i].index)
                &&& t@[i].position == i
                &&& t@[i].local == (offsets@[i] < client_count)
            },
{
    let mut t: Vec<SearchTarget> = Vec::new();
    let mut k: usize = 0;
    while k < offsets.len()
        invariant
            k <= offsets@.len(),
            t@.len() == k,
            forall|i: int| 0 <= i < offsets@.len() ==> client_index_start + offsets@[i] <= u64::MAX,
            forall|i: int|
                #![trigger t@[i]]
                0 <= i < k ==> {
                    &&& t@[i].index == client_index_start + offsets@[i]
                    &&& t@[i].client_id@ == sim_client_id(t@[i].index)
                    &&& t@[i].position == i
                    &&& t@[i].local == (offsets@[i] < client_count)
                },
        decreases offsets.len() - k,
    {
        let offset = offsets[k];
        let index = client_index_start + offset as u64;
        let id = client_id(index);
        t.push(SearchTarget { index, client_id: id, position: k, local: (offset as u64) < client_count });
        k = k + 1;
    }
    t
}

/// The drivers one search request reaches: as many as the fanout, but no
/// more than the fleet holds, each picked at random from the fleet's index
/// range and none twice. A driver is local when this pod connects it.
pub fn plan_search_request(cfg: &Config) -> (t: Vec<SearchTarget>)
    requires
        cfg.fleet_client_count <= usize::MAX,
        cfg.client_index_start + cfg.fleet_client_count <= u64::MAX,
    ensures
        t@.len() == if cfg.fanout < cfg.fleet_client_count { cfg.fanout } else { cfg.fleet_client_count },
        forall|i: int|
            #![trigger t@[i]]
            0 <= i < t@.len() ==> {
                &&& cfg.client_index_start <= t@[i].index < cfg.client_index_start + cfg.fleet_client_count
                &&& t@[i].local == (t@[i].index < cfg.client_index_start + cfg.client_count)
                &&& t@[i].client_id@ == sim_client_id(t@[i].index)
                &&& t@[i].position == i
            },
        forall|i: int, j: int| 0 <= i < t@.len() && 0 <= j < t@.len() && i != j ==> t@[i].index != t@[j].index,
{
    let population = cfg.fleet_client_count as usize;
    let fanout = if cfg.fanout < cfg.fleet_client_count {
        cfg.fanout as usize
    } else {
        population
    };
    let offsets = sample_indices(population, fanout);
    let t = targets_at(cfg.client_index_start, cfg.client_count, &offsets);
    assert forall|i: int, j: int| 0 <= i < t@.len() && 0 <= j < t@.len() && i != j implies t@[i].index
        != t@[j].index by {
        assert(offsets@[i] != offsets@[j]);
    }
    t
}

} // verus!
