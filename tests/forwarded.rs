use hyper::header::{HeaderName, HeaderValue};
use hyper::{header, HeaderMap};
use prux::forwarded::get_forwarded_ip_from_headers;
use prux::ip::IpAddress;
use std::str::FromStr;

fn build_test_header(forwarded: Option<&str>, x_forwarded: Option<&str>) -> HeaderMap {
    let mut headers = HeaderMap::with_capacity(2);

    if let Some(f) = forwarded {
        headers.insert(header::FORWARDED, HeaderValue::from_str(f).unwrap());
    }

    if let Some(f) = x_forwarded {
        headers.insert(
            HeaderName::from_str("X-Forwarded-For").unwrap(),
            HeaderValue::from_str(f).unwrap(),
        );
    }

    headers
}

fn v4(a: u8, b: u8, c: u8, d: u8) -> Option<IpAddress> {
    Some(IpAddress::V4([a, b, c, d]))
}

fn doc_v6(last: u16) -> Option<IpAddress> {
    Some(IpAddress::V6([0x2001, 0xdb8, 0xcafe, 0, 0, 0, 0, last]))
}

#[test]
fn test_forwarded() {
    let forwarded = "for=192.0.2.43";
    let headers = build_test_header(Some(forwarded), None);
    assert_eq!(
        get_forwarded_ip_from_headers(&headers, None, false),
        v4(192, 0, 2, 43),
        r#"testing simple ipv4 Forwarded header : "Fowrarded: {}""#,
        forwarded
    );

    let forwarded = r#"for="[2001:db8:cafe::17]""#;
    let headers = build_test_header(Some(forwarded), None);
    assert_eq!(
        get_forwarded_ip_from_headers(&headers, None, false),
        doc_v6(0x17),
        r#"testing simple ipv6 Forwarded header : "Fowrarded: {}""#,
        forwarded
    );

    let forwarded = r#"for=192.0.2.44, for="[2001:db8:cafe::17]""#;
    let headers = build_test_header(Some(forwarded), None);
    assert_eq!(
        get_forwarded_ip_from_headers(&headers, None, false),
        v4(192, 0, 2, 44),
        r#"testing Forwarded header with multiple for : "Fowrarded: {}""#,
        forwarded
    );

    let forwarded = r#"for=192.0.2.45  ,  for="[2001:db8:cafe::17]""#;
    let headers = build_test_header(Some(forwarded), None);
    assert_eq!(
        get_forwarded_ip_from_headers(&headers, None, false),
        v4(192, 0, 2, 45),
        r#"testing Forwarded header with multiple for and whitespaces : "Fowrarded: {}""#,
        forwarded
    );

    let forwarded = r#"by=203.0.113.42;for=192.0.2.46, for="[2001:db8:cafe::17]""#;
    let headers = build_test_header(Some(forwarded), None);
    assert_eq!(
        get_forwarded_ip_from_headers(&headers, None, false),
        v4(192, 0, 2, 46),
        r#"testing Forwarded header "by" clause : "Fowrarded: {}""#,
        forwarded
    );
}

#[test]
fn x_forwarded_for() {
    let x_forwarded_for = "192.0.2.43";
    let headers = build_test_header(None, Some(x_forwarded_for));
    assert_eq!(
        get_forwarded_ip_from_headers(&headers, None, false),
        v4(192, 0, 2, 43),
        r#"testing simple ipv4 X-Forwarded-For header : "X-Fowrarded-For: {}""#,
        x_forwarded_for
    );

    let x_forwarded_for = r#"192.0.2.44, "[2001:db8:cafe::17]""#;
    let headers = build_test_header(None, Some(x_forwarded_for));
    assert_eq!(
        get_forwarded_ip_from_headers(&headers, None, false),
        v4(192, 0, 2, 44),
        r#"testing simple ipv4 X-Forwarded-For header with proxies : "X-Fowrarded-For: {}""#,
        x_forwarded_for
    );

    let x_forwarded_for = r#"2001:db8:cafe::17"#;
    let headers = build_test_header(None, Some(x_forwarded_for));
    assert_eq!(
        get_forwarded_ip_from_headers(&headers, None, false),
        doc_v6(0x17),
        r#"testing simple ipv6 X-Forwarded-For header : "X-Fowrarded-For: {}""#,
        x_forwarded_for
    );

    let x_forwarded_for = r#""[2001:db8:cafe::17]""#;
    let headers = build_test_header(None, Some(x_forwarded_for));
    assert_eq!(
        get_forwarded_ip_from_headers(&headers, None, false),
        doc_v6(0x17),
        r#"testing simple ipv6 X-Forwarded-For header with "Forwarded"-style delimiters : "X-Fowrarded-For: {}""#,
        x_forwarded_for
    );
}

#[test]
fn x_forwarded_for_priority() {
    let forwarded = r#"by=203.0.113.42;for=192.0.2.46, for="[2001:db8:cafe::18]""#;
    let x_forwarded_for = r#"192.0.2.44, "[2001:db8:cafe::17]""#;
    let headers = build_test_header(Some(forwarded), Some(x_forwarded_for));
    assert_eq!(
        get_forwarded_ip_from_headers(&headers, None, false),
        v4(192, 0, 2, 44),
        "Testing \"X-Fowrarded-For\" priority over \"Forwarded\"; Headers: \n\"X-Forwarded-For: {}\"\n\"Forwarded: {}\"",
        x_forwarded_for,
        forwarded
    );
}

#[test]
fn custom_ip_forwarding_header() {
    let ip = r#"203.0.113.42"#;
    let header_name = Some("CF-Connecting-IP".to_string());
    let mut headers = HeaderMap::with_capacity(1);
    headers.insert(
        HeaderName::from_str(header_name.as_deref().unwrap()).unwrap(),
        HeaderValue::from_str(ip).unwrap(),
    );
    assert_eq!(
        get_forwarded_ip_from_headers(&headers, header_name.as_deref(), false),
        v4(203, 0, 113, 42),
        r#"Testing custom forwarded ip header with header name "CF-Connecting-IP""#,
    );
}

#[test]
fn custom_header_wins_over_others() {
    let mut headers = build_test_header(Some("for=192.0.2.46"), Some("192.0.2.44"));
    headers.insert(
        HeaderName::from_str("CF-Connecting-IP").unwrap(),
        HeaderValue::from_str("  203.0.113.42 ").unwrap(),
    );
    assert_eq!(
        get_forwarded_ip_from_headers(&headers, Some("cf-connecting-ip"), true),
        v4(203, 0, 113, 42)
    );
    assert_eq!(
        get_forwarded_ip_from_headers(&headers, Some("CF-Connecting-IP"), false),
        v4(203, 0, 113, 42)
    );
}

#[test]
fn only_custom_header_ignores_others() {
    let headers = build_test_header(Some("for=192.0.2.46"), Some("192.0.2.44"));
    assert_eq!(
        get_forwarded_ip_from_headers(&headers, Some("CF-Connecting-IP"), true),
        None
    );
    assert_eq!(get_forwarded_ip_from_headers(&headers, None, true), None);
    assert_eq!(
        get_forwarded_ip_from_headers(&headers, Some("CF-Connecting-IP"), false),
        v4(192, 0, 2, 44)
    );
}

#[test]
fn unreadable_forwarded_value_gives_nothing() {
    let headers = build_test_header(None, Some("not-an-address, 192.0.2.1"));
    assert_eq!(get_forwarded_ip_from_headers(&headers, None, false), None);
    let headers = build_test_header(Some("by=192.0.2.1;proto=http"), None);
    assert_eq!(get_forwarded_ip_from_headers(&headers, None, false), None);
    let headers = build_test_header(None, None);
    assert_eq!(get_forwarded_ip_from_headers(&headers, None, false), None);
}

#[test]
fn upper_case_ipv6_is_lowered_and_read() {
    let headers = build_test_header(Some(r#"For="[2001:DB8:CAFE::17]""#), None);
    assert_eq!(get_forwarded_ip_from_headers(&headers, None, false), doc_v6(0x17));
}

#[test]
fn invalid_utf8_value_gives_nothing() {
    let mut headers = HeaderMap::new();
    headers.insert(
        HeaderName::from_str("X-Forwarded-For").unwrap(),
        HeaderValue::from_bytes(b"192.0.2.1\xff").unwrap(),
    );
    assert_eq!(get_forwarded_ip_from_headers(&headers, None, false), None);
}

#[test]
fn unusable_header_names_find_nothing() {
    let headers = build_test_header(Some("for=192.0.2.46"), Some("192.0.2.44"));
    assert_eq!(get_forwarded_ip_from_headers(&headers, Some(""), true), None);
    assert_eq!(get_forwarded_ip_from_headers(&headers, Some("bad name"), true), None);
    assert_eq!(get_forwarded_ip_from_headers(&headers, Some("bad name"), false), v4(192, 0, 2, 44));
    let long = "x".repeat(70_000);
    assert_eq!(get_forwarded_ip_from_headers(&headers, Some(&long), true), None);
}

#[test]
fn long_header_name_is_looked_up() {
    let name = format!("X-{}", "a".repeat(100));
    let mut headers = HeaderMap::new();
    headers.insert(HeaderName::from_str(&name).unwrap(), HeaderValue::from_str("8.8.8.8").unwrap());
    assert_eq!(
        get_forwarded_ip_from_headers(&headers, Some(&name.to_uppercase()), true),
        v4(8, 8, 8, 8)
    );
}
