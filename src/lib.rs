//! Verified core of a geolocation-enriching HTTP reverse proxy: the TTL+LRU
//! cache, the path policy, the forwarded-address extractor, the header
//! injector and the decisions around GeoIP lookups.

pub mod cache;
pub mod forwarded;
pub mod injector;
pub mod ip;
pub mod ip_text;
pub mod json;
pub mod matcher;
pub mod proxy;
pub mod resolver;
pub mod settings;
pub mod text;
