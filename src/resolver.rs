use crate::cache::{clock_millis, CacheModel, PriorityMap};
use crate::ip::{same_address, IpAddress};
use crate::json::Json;
use vstd::prelude::*;
use vstd::string::{StrSliceExecFns, StringExecFns};

verus! {

/// The standard, padded base64 text of some bytes.
pub uninterp spec fn base64_of(b: Seq<u8>) -> Seq<char>;

/// Relies on base64::encode: the standard alphabet with padding.
#[verifier::external_body]
fn base64_encode(b: &Vec<u8>) -> (r: String)
    ensures
        r@ == base64_of(b@),
{
    base64::encode(b)
}

pub const GEOIP_CITY_URL: &'static str = "https://geoip.maxmind.com/geoip/v2.1/city/";

/// The GeoIP lookup failed; the caller only learns that there is no reply.
#[derive(Debug, Clone, Copy, PartialEq, Eq)]
pub struct LookupError;

/// The URL that looks up an address, given in its canonical text.
pub fn lookup_url(ip_text: &str) -> (r: String)
    ensures
        r@ == GEOIP_CITY_URL@ + ip_text@,
{
    let mut url = String::from_str(GEOIP_CITY_URL);
    url.append(ip_text);
    url
}

/// The UTF-8 bytes of `id:password`.
pub open spec fn credentials_bytes(id: Seq<char>, password: Seq<char>) -> Seq<u8> {
    vstd::utf8::encode_utf8(id + ":"@ + password)
}

/// The value of the `Authorization` header for HTTP Basic authentication.
pub fn basic_authorization(id: &str, password: &str) -> (r: String)
    ensures
        r@ == "Basic "@ + base64_of(credentials_bytes(id@, password@)),
{
    let mut joined = String::from_str(id);
    joined.append(":");
    joined.append(password);
    let bytes = joined.as_str().as_bytes_vec();
    let mut r = String::from_str("Basic ");
    r.append(base64_encode(&bytes).as_str());
    r
}

/// The cache slot of an address: an IPv6 address as its 128-bit number, an
/// IPv4 address as its IPv4-mapped IPv6 form `::ffff:a.b.c.d`. Those two
/// addresses share a slot; each entry records the address it answers for.
pub open spec fn key_of(ip: IpAddress) -> u128 {
    match ip {
        IpAddress::V4(a) => (0xffff_0000_0000int + a@[0] * 0x100_0000int + a@[1] * 0x1_0000int + a@[2]
            * 0x100int + a@[3]) as u128,
        IpAddress::V6(g) => (g@[0] * 0x1_0000_0000_0000_0000_0000_0000_0000int + g@[1]
            * 0x1_0000_0000_0000_0000_0000_0000int + g@[2] * 0x1_0000_0000_0000_0000_0000int + g@[3]
            * 0x1_0000_0000_0000_0000int + g@[4] * 0x1_0000_0000_0000int + g@[5]
            * 0x1_0000_0000int + g@[6] * 0x1_0000int + g@[7]) as u128,
    }
}

pub fn cache_key(ip: &IpAddress) -> (r: u128)
    ensures
        r == key_of(*ip),
{
    match ip {
        IpAddress::V4(a) => 0xffff_0000_0000u128 + (a[0] as u128) * 0x100_0000 + (a[1] as u128)
            * 0x1_0000 + (a[2] as u128) * 0x100 + (a[3] as u128),
        IpAddress::V6(g) => (g[0] as u128) * 0x1_0000_0000_0000_0000_0000_0000_0000 + (g[1] as u128)
            * 0x1_0000_0000_0000_0000_0000_0000 + (g[2] as u128) * 0x1_0000_0000_0000_0000_0000 + (
        g[3] as u128) * 0x1_0000_0000_0000_0000 + (g[4] as u128) * 0x1_0000_0000_0000 + (g[5] as u128)
            * 0x1_0000_0000 + (g[6] as u128) * 0x1_0000 + (g[7] as u128),
    }
}

/// Milliseconds in a number of seconds, saturating.
pub open spec fn millis_of(secs: u64) -> u64 {
    if secs > u64::MAX / 1000 {
        u64::MAX
    } else {
        (secs * 1000) as u64
    }
}

/// A fresh cached reply for exactly `ip` at `now`.
pub open spec fn cache_hit(m: CacheModel<(IpAddress, Json)>, ip: IpAddress, now: u64) -> bool {
    m.visible(key_of(ip), now) && m.entries[key_of(ip)].0 == ip
}

/// The GeoIP resolver's state: the `Authorization` header value and the
/// cache of replies, each stored with its address. The network exchange is up to the
/// caller: it asks `cached` first, and on a miss fetches the reply from
/// `lookup_url` and hands it to `store`.
pub struct HttpRequest {
    authorization: String,
    cache: PriorityMap<(IpAddress, Json)>,
}

impl HttpRequest {
    pub closed spec fn wf(self) -> bool {
        self.cache.wf()
    }

    /// The state of the reply cache.
    pub closed spec fn cache_model(self) -> CacheModel<(IpAddress, Json)> {
        self.cache@
    }

    pub closed spec fn authorization_view(self) -> Seq<char> {
        self.authorization@
    }

    /// A resolver for the given GeoIP account whose cache holds at most
    /// `cache_capacity` replies, each for at most `cache_duration_secs`.
    pub fn new(id: &str, password: &str, cache_capacity: usize, cache_duration_secs: u64) -> (r:
        HttpRequest)
        ensures
            r.wf(),
            r.authorization_view() == "Basic "@ + base64_of(credentials_bytes(id@, password@)),
            r.cache_model().entries.dom() == Set::<u128>::empty(),
            r.cache_model().capacity == cache_capacity,
            r.cache_model().ttl == millis_of(cache_duration_secs),
            r.cache_model().sweep_interval == millis_of(cache_duration_secs),
    {
        let ttl = if cache_duration_secs > u64::MAX / 1000 {
            u64::MAX
        } else {
            cache_duration_secs * 1000
        };
        HttpRequest {
            authorization: basic_authorization(id, password),
            cache: PriorityMap::new(cache_capacity, ttl, ttl),
        }
    }

    /// The `Authorization` header value sent with each lookup.
    pub fn authorization(&self) -> (r: &String)
        ensures
            r@ == self.authorization_view(),
    {
        &self.authorization
    }

    /// The cached reply for `ip` at time `now`, if there is a fresh one.
    pub fn cached_at(&mut self, ip: &IpAddress, now: u64) -> (r: Option<&Json>)
        requires
            old(self).wf(),
        ensures
            final(self).wf(),
            final(self).authorization_view() == old(self).authorization_view(),
            final(self).cache_model() == if cache_hit(old(self).cache_model(), *ip, now) {
                old(self).cache_model().looked_up(key_of(*ip), now)
            } else {
                old(self).cache_model()
            },
            r is Some <==> cache_hit(old(self).cache_model(), *ip, now),
            r matches Some(j) ==> *j == old(self).cache_model().entries[key_of(*ip)].1,
    {
        let key = cache_key(ip);
        match self.cache.peek(&key) {
            Some(e) => {
                if !same_address(&e.0, ip) {
                    return None;
                }
            },
            None => {
                return None;
            },
        }
        match self.cache.get_at(&key, now) {
            Some(e) => Some(&e.1),
            None => None,
        }
    }

    /// The outcome of a lookup whose reply was fetched at time `now`: a
    /// reply is stored under `ip` and handed back; no reply (the exchange or
    /// the decoding failed) is a `LookupError`, and nothing is stored.
    pub fn store_at(&mut self, ip: &IpAddress, reply: Option<Json>, now: u64) -> (r: Result<
        &Json,
        LookupError,
    >)
        requires
            old(self).wf(),
        ensures
            final(self).wf(),
            final(self).authorization_view() == old(self).authorization_view(),
            reply is None ==> r is Err && final(self).cache_model() == old(self).cache_model(),
            reply matches Some(j) ==> r matches Ok(v) && *v == j && final(self).cache_model()
                == old(self).cache_model().inserted(key_of(*ip), (*ip, j), now).looked_up(
                key_of(*ip),
                now,
            ),
    {
        match reply {
            None => Err(LookupError),
            Some(j) => {
                let key = cache_key(ip);
                let ghost entry = (*ip, j);
                let _ = self.cache.insert_at(key, (*ip, j), now);
                proof {
                    crate::cache::lemma_insert_then_get(old(self).cache@, key, entry, now, now);
                }
                match self.cache.get_at(&key, now) {
                    Some(e) => Ok(&e.1),
                    None => Err(LookupError),
                }
            },
        }
    }

    /// `cached_at` at the current time of the system clock.
    pub fn cached(&mut self, ip: &IpAddress) -> (r: Option<&Json>)
        requires
            old(self).wf(),
        ensures
            final(self).wf(),
            final(self).authorization_view() == old(self).authorization_view(),
            exists|now: u64|
                {
                    &&& (r is Some <==> cache_hit(old(self).cache_model(), *ip, now))
                    &&& final(self).cache_model() == if cache_hit(old(self).cache_model(), *ip, now) {
                        old(self).cache_model().looked_up(key_of(*ip), now)
                    } else {
                        old(self).cache_model()
                    }
                },
            r matches Some(j) ==> *j == old(self).cache_model().entries[key_of(*ip)].1,
    {
        let now = clock_millis();
        self.cached_at(ip, now)
    }

    /// `store_at` at the current time of the system clock.
    pub fn store(&mut self, ip: &IpAddress, reply: Option<Json>) -> (r: Result<&Json, LookupError>)
        requires
            old(self).wf(),
        ensures
            final(self).wf(),
            final(self).authorization_view() == old(self).authorization_view(),
            reply is None ==> r is Err && final(self).cache_model() == old(self).cache_model(),
            reply matches Some(j) ==> r matches Ok(v) && *v == j && exists|now: u64|
                final(self).cache_model() == old(self).cache_model().inserted(key_of(*ip), (*ip, j), now).looked_up(
                    key_of(*ip),
                    now,
                ),
    {
        let now = clock_millis();
        self.store_at(ip, reply, now)
    }
}

} // verus!