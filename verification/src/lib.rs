//! Delivery bookkeeping of a push-notification service, with its contracts.

pub mod text;
pub mod types;
pub mod assoc;
pub mod redis_types;
pub mod clock;
pub mod active;
pub mod active_laws;
pub mod stream_id;
pub mod keys;
pub mod ids;
pub mod seen;
pub mod environment;
pub mod sim;
pub mod sim_laws;
pub mod sim_config;
pub mod sim_stream;
pub mod errors;
pub mod streaming;
pub mod action;
pub mod liveactivity;
pub mod expired;
pub mod registry;
pub mod registry_laws;
pub mod dispatch;
pub mod dispatch_laws;
pub mod reader;
pub mod producer;
pub mod payload;
pub mod clients;
