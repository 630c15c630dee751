//! The settings and messages of the streaming demo servers.

use vstd::prelude::*;

verus! {

/// Where a server listens.
#[derive(Debug)]
pub struct ServerConfig {
    pub host_ip: String,
    pub port: String,
}

impl Default for ServerConfig {
    fn default() -> (c: Self)
        ensures
            c.host_ip@ == Seq::<char>::empty(),
            c.port@ == Seq::<char>::empty(),
    {
        ServerConfig { host_ip: String::new(), port: String::new() }
    }
}

/// The API that received locations are forwarded to.
#[derive(Debug)]
pub struct ApiConfig {
    pub base_url: String,
    pub enabled: bool,
}

impl Default for ApiConfig {
    fn default() -> (c: Self)
        ensures
            c.base_url@ == Seq::<char>::empty(),
            !c.enabled,
    {
        ApiConfig { base_url: String::new(), enabled: false }
    }
}

#[derive(Debug)]
pub struct AppConfig {
    pub server: ServerConfig,
    pub api: ApiConfig,
}

impl Default for AppConfig {
    fn default() -> (c: Self)
        ensures
            c.server.host_ip@ == Seq::<char>::empty(),
            c.server.port@ == Seq::<char>::empty(),
            c.api.base_url@ == Seq::<char>::empty(),
            !c.api.enabled,
    {
        AppConfig { server: ServerConfig::default(), api: ApiConfig::default() }
    }
}

/// The positions of the messages of a batch that carry a location, in order.
pub open spec fn located(has_location: Seq<bool>) -> Seq<usize>
    decreases has_location.len(),
{
    if has_location.len() == 0 {
        Seq::empty()
    } else {
        let r = located(has_location.drop_last());
        if has_location.last() {
            r.push((has_location.len() - 1) as usize)
        } else {
            r
        }
    }
}

/// A batch of locations to post: which messages of the batch go into the
/// body, in order, and where the body is posted.
#[derive(Debug)]
pub struct LocationPost {
    pub kept: Vec<usize>,
    pub url: String,
}

/// The client-streaming service, with its settings.
#[derive(Debug)]
pub struct ClientStreamService {
    config: AppConfig,
}

impl ClientStreamService {
    pub closed spec fn settings(&self) -> AppConfig {
        self.config
    }

    pub fn new(config: AppConfig) -> (s: Self)
        ensures
            s.settings() == config,
    {
        ClientStreamService { config }
    }

    pub fn config(&self) -> (c: &AppConfig)
        ensures
            *c == self.settings(),
    {
        &self.config
    }

    /// What the service does with a batch of messages, given which of them
    /// carry a location (the others are logged and left out): it posts the
    /// located ones to `{base_url}/driver/location` when the API is enabled
    /// and at least one message carries a location, and posts nothing else.
    pub fn location_post(&self, has_location: &Vec<bool>) -> (r: Option<LocationPost>)
        ensures
            r is Some <==> (self.settings().api.enabled && located(has_location@).len() > 0),
            r matches Some(p) ==> {
                &&& p.kept@ == located(has_location@)
                &&& p.url@ == self.settings().api.base_url@ + "/driver/location"@
            },
    {
        let mut kept: Vec<usize> = Vec::new();
        let mut i: usize = 0;
        while i < has_location.len()
            invariant
                i <= has_location@.len(),
                kept@ == located(has_location@.take(i as int)),
            decreases has_location.len() - i,
        {
            let ghost t = has_location@.take(i + 1);
            assert(t.drop_last() == has_location@.take(i as int));
            if has_location[i] {
                kept.push(i);
            }
            i = i + 1;
        }
        assert(has_location@.take(has_location@.len() as int) == has_location@);
        if self.config.api.enabled && kept.len() > 0 {
            let mut url = self.config.api.base_url.clone();
            url.append("/driver/location");
            Some(LocationPost { kept, url })
        } else {
            None
        }
    }
}

/// What the location API answers.
#[derive(Debug)]
pub struct APIResponse {
    pub _result: String,
}

/// The Redis settings of the streaming servers.
#[derive(Debug)]
pub struct RedisConfig {
    pub redis_host: String,
    pub redis_port: u16,
    pub redis_pool_size: usize,
    pub redis_partition: usize,
    pub reconnect_max_attempts: u32,
    pub reconnect_delay: u32,
    pub default_ttl: u32,
    pub default_hash_ttl: u32,
    pub stream_read_count: u64,
}

/// A user of the server-streaming demo.
#[derive(Debug, PartialEq, Eq)]
pub struct User {
    pub id: String,
    pub name: String,
}

impl User {
    pub fn new(id: &str, name: &str) -> (u: Self)
        ensures
            u.id@ == id@,
            u.name@ == name@,
    {
        User { id: String::from_str(id), name: String::from_str(name) }
    }
}

} // verus!
