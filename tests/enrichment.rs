use hyper::header::{HeaderName, HeaderValue};
use hyper::HeaderMap;
use prux::injector::{enrichment_for, get_location_hdr, EnrichmentSet};
use prux::ip::IpAddress;
use prux::json::{Json, JsonNumber};
use prux::proxy::{proxy_info, EnrichmentPlan, HttpVersion, Proxy, UpstreamUri, UPSTREAM_FAILURE_BODY};
use std::collections::HashMap;
use std::str::FromStr;

fn obj(members: Vec<(&str, Json)>) -> Json {
    Json::Object(members.into_iter().map(|(k, v)| (k.to_string(), v)).collect())
}

fn text(s: &str) -> Json {
    Json::Str(s.to_string())
}

fn number(v: f64) -> Json {
    Json::Number(JsonNumber { text: format!("{}", v), rounded: format!("{:.0}", v) })
}

fn as_map(set: &EnrichmentSet) -> HashMap<String, String> {
    let mut m = HashMap::new();
    for (k, v) in set.pairs() {
        m.insert(k.clone(), v.clone());
    }
    m
}

fn upstream() -> UpstreamUri {
    UpstreamUri {
        scheme: "http".to_string(),
        authority: "backend:8080".to_string(),
        base_path: "/".to_string(),
    }
}

fn full_reply() -> Json {
    obj(vec![
        ("city", obj(vec![("names", obj(vec![("en", text("Mountain View"))]))])),
        ("country", obj(vec![("names", obj(vec![("en", text("United States"))]))])),
        (
            "location",
            obj(vec![
                ("latitude", number(37.386)),
                ("longitude", number(-122.0838)),
                ("accuracy_radius", number(1000.0)),
                ("time_zone", text("America/Los_Angeles")),
            ]),
        ),
        ("subdivisions", obj(vec![("iso_code", text("CA"))])),
        ("traits", obj(vec![("isp", text("Google")), ("network", text("8.8.8.0/24"))])),
    ])
}

#[test]
fn end_to_end_enrichment() {
    let proxy = Proxy::new(
        upstream(),
        Some(IpAddress::V4([10, 0, 0, 1])),
        vec!["/api/*".to_string()],
        None,
        vec!["/api/*".to_string()],
        None,
        false,
    );
    let mut headers = HeaderMap::new();
    headers.insert(
        HeaderName::from_str("X-Forwarded-For").unwrap(),
        HeaderValue::from_str("8.8.8.8").unwrap(),
    );
    let plan = proxy.plan(&headers, "/api/users/1");
    assert_eq!(plan, EnrichmentPlan::Lookup(IpAddress::V4([8, 8, 8, 8])));
    let reply = obj(vec![
        ("city", obj(vec![("names", obj(vec![("en", text("Mountain View"))]))])),
        ("country", obj(vec![("names", obj(vec![("en", text("United States"))]))])),
        ("location", obj(vec![("latitude", number(37.386)), ("longitude", number(-122.0838))])),
    ]);
    let set = enrichment_for("8.8.8.8", Some(&reply));
    let m = as_map(&set);
    assert_eq!(m.len(), 4);
    assert_eq!(m["Prux-Addr"], "8.8.8.8");
    assert_eq!(m["Prux-City"], "Mountain View");
    assert_eq!(m["Prux-Country"], "United States");
    assert_eq!(m["Prux-Coord"], "37.386,-122.0838");
    assert_eq!(proxy.upstream_target("/api/users/1?x=1"), "http://backend:8080/api/users/1?x=1");
}

#[test]
fn full_header_set() {
    let m = as_map(&enrichment_for("8.8.8.8", Some(&full_reply())));
    assert_eq!(m.len(), 9);
    assert_eq!(m["Prux-Coord-Accuracy"], "1000");
    assert_eq!(m["Prux-Timezone"], "America/Los_Angeles");
    assert_eq!(m["Prux-Province"], "CA");
    assert_eq!(m["Prux-Isp"], "Google");
    assert_eq!(m["Prux-Network"], "8.8.8.0/24");
}

#[test]
fn wrong_types_are_skipped() {
    let reply = obj(vec![
        ("city", obj(vec![("names", obj(vec![("en", number(3.0))]))])),
        ("country", text("United States")),
        ("location", obj(vec![("latitude", number(1.5)), ("longitude", text("east"))])),
        ("traits", Json::Array(vec![text("isp")])),
    ]);
    let m = as_map(&enrichment_for("2001:db8::1", Some(&reply)));
    assert_eq!(m.len(), 1);
    assert_eq!(m["Prux-Addr"], "2001:db8::1");
}

#[test]
fn address_only_without_reply() {
    let m = as_map(&enrichment_for("8.8.4.4", None));
    assert_eq!(m.len(), 1);
    assert_eq!(m["Prux-Addr"], "8.8.4.4");
}

#[test]
fn same_reply_same_headers() {
    let reply = full_reply();
    let mut a = EnrichmentSet::new();
    let mut b = EnrichmentSet::new();
    get_location_hdr("8.8.8.8", &reply, &mut a);
    get_location_hdr("8.8.8.8", &reply, &mut b);
    assert_eq!(as_map(&a), as_map(&b));
}

#[test]
fn location_headers_start_with_address() {
    let reply = obj(vec![
        ("city", obj(vec![("names", obj(vec![("en", number(5.0))]))])),
        ("location", obj(vec![("latitude", number(1.5))])),
        ("traits", obj(vec![("isp", text("X"))])),
    ]);
    let mut set = EnrichmentSet::new();
    get_location_hdr("8.8.8.8", &reply, &mut set);
    let m = as_map(&set);
    assert_eq!(m.len(), 2);
    assert_eq!(m["Prux-Addr"], "8.8.8.8");
    assert_eq!(m["Prux-Isp"], "X");

    let reply = obj(vec![
        (
            "location",
            obj(vec![
                ("latitude", number(37.386)),
                ("longitude", number(-122.0838)),
                ("accuracy_radius", number(1000.0)),
                ("time_zone", text("America/Los_Angeles")),
            ]),
        ),
        ("subdivisions", obj(vec![("iso_code", text("CA"))])),
        ("traits", obj(vec![("network", text("8.8.8.0/24"))])),
    ]);
    let mut set = EnrichmentSet::new();
    get_location_hdr("8.8.8.8", &reply, &mut set);
    let m = as_map(&set);
    assert_eq!(m.len(), 6);
    assert_eq!(m["Prux-Addr"], "8.8.8.8");
    assert_eq!(m["Prux-Coord"], "37.386,-122.0838");
    assert_eq!(m["Prux-Coord-Accuracy"], "1000");
    assert_eq!(m["Prux-Timezone"], "America/Los_Angeles");
    assert_eq!(m["Prux-Province"], "CA");
    assert_eq!(m["Prux-Network"], "8.8.8.0/24");
}

#[test]
fn later_value_replaces_earlier() {
    let mut set = EnrichmentSet::new();
    set.insert("Prux-City".to_string(), "A".to_string());
    set.insert("Prux-City".to_string(), "B".to_string());
    assert_eq!(as_map(&set)["Prux-City"], "B");
}

#[test]
fn plan_follows_policies_and_filter() {
    let proxy = Proxy::new(
        UpstreamUri {
            scheme: "https".to_string(),
            authority: "example.org".to_string(),
            base_path: "/base/".to_string(),
        },
        Some(IpAddress::V4([8, 8, 4, 4])),
        vec!["/api/*".to_string(), "/public".to_string()],
        Some(vec!["/api/secret".to_string()]),
        vec!["/api/*".to_string()],
        None,
        false,
    );
    let empty = HeaderMap::new();
    assert_eq!(proxy.plan(&empty, "/api/x"), EnrichmentPlan::Lookup(IpAddress::V4([8, 8, 4, 4])));
    assert_eq!(proxy.plan(&empty, "/public/x"), EnrichmentPlan::AddressOnly(IpAddress::V4([8, 8, 4, 4])));
    assert_eq!(proxy.plan(&empty, "/api/secret"), EnrichmentPlan::Skip);
    assert_eq!(proxy.plan(&empty, "/elsewhere"), EnrichmentPlan::Skip);
    let mut private = HeaderMap::new();
    private.insert(
        HeaderName::from_str("X-Forwarded-For").unwrap(),
        HeaderValue::from_str("192.168.0.7").unwrap(),
    );
    assert_eq!(proxy.plan(&private, "/api/x"), EnrichmentPlan::Skip);
    assert!(proxy.validate_path("/public"));
    assert!(!proxy.validate_path("/api/secret/1"));
    assert_eq!(proxy.upstream_target("/api/x"), "https://example.org/base/api/x");
}

#[test]
fn proxy_info_header() {
    assert_eq!(proxy_info(HttpVersion::Http11, "1.2.3"), "1.1 prux-1.2.3");
    assert_eq!(proxy_info(HttpVersion::Http09, "1.2.3"), "0.9 prux-1.2.3");
    assert_eq!(proxy_info(HttpVersion::Http10, "1.2.3"), "1.0 prux-1.2.3");
    assert_eq!(proxy_info(HttpVersion::Http2, "1.2.3"), "2.0 prux-1.2.3");
    assert_eq!(proxy_info(HttpVersion::Other, "1.2.3"), "2.0 prux-1.2.3");
    assert_eq!(UPSTREAM_FAILURE_BODY, "Something went wrong, please try again later.");
}
