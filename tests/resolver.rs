use prux::ip::IpAddress;
use prux::json::Json;
use prux::resolver::{basic_authorization, cache_key, lookup_url, HttpRequest, LookupError};

#[test]
fn authorization_header_value() {
    assert_eq!(basic_authorization("user", "pass"), "Basic dXNlcjpwYXNz");
    let r = HttpRequest::new("42", "hunter", 10, 60);
    assert_eq!(r.authorization(), &format!("Basic {}", "NDI6aHVudGVy"));
}

#[test]
fn lookup_url_for_address() {
    assert_eq!(lookup_url("8.8.8.8"), "https://geoip.maxmind.com/geoip/v2.1/city/8.8.8.8");
}

#[test]
fn cache_keys() {
    assert_eq!(cache_key(&IpAddress::V4([1, 2, 3, 4])), 0xffff_0102_0304);
    assert_eq!(cache_key(&IpAddress::V6([0, 0, 0, 0, 0, 0, 0, 1])), 1);
    assert_eq!(
        cache_key(&IpAddress::V6([0x2001, 0xdb8, 0, 0, 0, 0, 0, 0])),
        0x2001_0db8_0000_0000_0000_0000_0000_0000
    );
}

#[test]
fn store_then_cached() {
    let mut r = HttpRequest::new("id", "pw", 4, 60);
    let ip = IpAddress::V4([8, 8, 8, 8]);
    assert!(r.cached_at(&ip, 0).is_none());
    assert_eq!(r.store_at(&ip, None, 0).err(), Some(LookupError));
    assert!(r.cached_at(&ip, 0).is_none());
    let stored = r.store_at(&ip, Some(Json::Str("reply".to_string())), 0);
    assert!(matches!(stored, Ok(Json::Str(s)) if s == "reply"));
    assert!(matches!(r.cached_at(&ip, 60_000), Some(Json::Str(s)) if s == "reply"));
    assert!(r.cached_at(&ip, 120_001).is_none());
}

#[test]
fn mapped_address_does_not_share_reply() {
    let mut r = HttpRequest::new("id", "pw", 4, 60);
    let v4 = IpAddress::V4([1, 2, 3, 4]);
    let mapped = IpAddress::V6([0, 0, 0, 0, 0, 0xffff, 0x0102, 0x0304]);
    assert_eq!(cache_key(&v4), cache_key(&mapped));
    assert!(r.store_at(&v4, Some(Json::Str("four".to_string())), 0).is_ok());
    assert!(r.cached_at(&mapped, 1).is_none());
    assert!(matches!(r.cached_at(&v4, 1), Some(Json::Str(s)) if s == "four"));
    assert!(r.store_at(&mapped, Some(Json::Str("six".to_string())), 2).is_ok());
    assert!(matches!(r.cached_at(&mapped, 3), Some(Json::Str(s)) if s == "six"));
    assert!(r.cached_at(&v4, 3).is_none());
}
