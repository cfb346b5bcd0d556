use prux::ip_text::canonical_text;
use prux::ip::{ip_is_global, parse_ip, parse_ipv4_chars, parse_ipv6_chars, IpAddress};

fn chars(s: &str) -> Vec<char> {
    s.chars().collect()
}

#[test]
fn reads_dotted_quads() {
    assert_eq!(parse_ipv4_chars(&chars("192.0.2.43")), Some([192, 0, 2, 43]));
    assert_eq!(parse_ipv4_chars(&chars("0.0.0.0")), Some([0, 0, 0, 0]));
    assert_eq!(parse_ipv4_chars(&chars("255.255.255.255")), Some([255, 255, 255, 255]));
    assert_eq!(parse_ipv4_chars(&chars("256.0.0.1")), None);
    assert_eq!(parse_ipv4_chars(&chars("01.2.3.4")), None);
    assert_eq!(parse_ipv4_chars(&chars("1.2.3")), None);
    assert_eq!(parse_ipv4_chars(&chars("1.2.3.4.5")), None);
    assert_eq!(parse_ipv4_chars(&chars("1..3.4")), None);
    assert_eq!(parse_ipv4_chars(&chars(" 1.2.3.4")), None);
    assert_eq!(parse_ipv4_chars(&chars("1234.2.3.4")), None);
}

#[test]
fn reads_ipv6_texts() {
    assert_eq!(
        parse_ipv6_chars(&chars("2001:db8:cafe::17")),
        Some([0x2001, 0xdb8, 0xcafe, 0, 0, 0, 0, 0x17])
    );
    assert_eq!(parse_ipv6_chars(&chars("::")), Some([0; 8]));
    assert_eq!(parse_ipv6_chars(&chars("::1")), Some([0, 0, 0, 0, 0, 0, 0, 1]));
    assert_eq!(parse_ipv6_chars(&chars("1::")), Some([1, 0, 0, 0, 0, 0, 0, 0]));
    assert_eq!(parse_ipv6_chars(&chars("1:2:3:4:5:6:7:8")), Some([1, 2, 3, 4, 5, 6, 7, 8]));
    assert_eq!(parse_ipv6_chars(&chars("1:2:3:4:5:6:7::")), Some([1, 2, 3, 4, 5, 6, 7, 0]));
    assert_eq!(
        parse_ipv6_chars(&chars("::ffff:192.0.2.1")),
        Some([0, 0, 0, 0, 0, 0xffff, 0xc000, 0x0201])
    );
    assert_eq!(
        parse_ipv6_chars(&chars("1:2:3:4:5:6:1.2.3.4")),
        Some([1, 2, 3, 4, 5, 6, 0x0102, 0x0304])
    );
    assert_eq!(parse_ipv6_chars(&chars("ABCD::Ef")), Some([0xabcd, 0, 0, 0, 0, 0, 0, 0xef]));
    assert_eq!(parse_ipv6_chars(&chars("1:2:3:4:5:6:7")), None);
    assert_eq!(parse_ipv6_chars(&chars("1:2:3:4:5:6:7:8:9")), None);
    assert_eq!(parse_ipv6_chars(&chars("1::2::3")), None);
    assert_eq!(parse_ipv6_chars(&chars("1:::2")), None);
    assert_eq!(parse_ipv6_chars(&chars("12345::")), None);
    assert_eq!(parse_ipv6_chars(&chars("1.2.3.4::")), None);
    assert_eq!(parse_ipv6_chars(&chars("1:2:1.2.3.4")), None);
    assert_eq!(parse_ipv6_chars(&chars("1:2:3:4:5:6::1.2.3.4")), None);
    assert_eq!(parse_ipv6_chars(&chars(":1")), None);
    assert_eq!(parse_ipv6_chars(&chars("")), None);
}

#[test]
fn reads_either_family() {
    assert_eq!(parse_ip(&chars("8.8.8.8")), Some(IpAddress::V4([8, 8, 8, 8])));
    assert_eq!(
        parse_ip(&chars("2001:db8::1")),
        Some(IpAddress::V6([0x2001, 0xdb8, 0, 0, 0, 0, 0, 1]))
    );
    assert_eq!(parse_ip(&chars("example.com")), None);
}

#[test]
fn global_filter() {
    assert!(ip_is_global(&IpAddress::V4([8, 8, 8, 8])));
    assert!(!ip_is_global(&IpAddress::V4([10, 1, 2, 3])));
    assert!(!ip_is_global(&IpAddress::V4([172, 16, 0, 1])));
    assert!(ip_is_global(&IpAddress::V4([172, 32, 0, 1])));
    assert!(!ip_is_global(&IpAddress::V4([192, 168, 1, 1])));
    assert!(!ip_is_global(&IpAddress::V4([127, 0, 0, 1])));
    assert!(!ip_is_global(&IpAddress::V4([169, 254, 3, 4])));
    assert!(!ip_is_global(&IpAddress::V4([255, 255, 255, 255])));
    assert!(!ip_is_global(&IpAddress::V4([192, 0, 2, 43])));
    assert!(!ip_is_global(&IpAddress::V4([198, 51, 100, 7])));
    assert!(!ip_is_global(&IpAddress::V4([203, 0, 113, 42])));
    assert!(!ip_is_global(&IpAddress::V4([0, 0, 0, 0])));
    assert!(!ip_is_global(&IpAddress::V6([0, 0, 0, 0, 0, 0, 0, 1])));
    assert!(!ip_is_global(&IpAddress::V6([0; 8])));
    assert!(ip_is_global(&IpAddress::V6([0x2001, 0xdb8, 0xcafe, 0, 0, 0, 0, 0x17])));
}

#[test]
fn canonical_address_texts() {
    let v6 = |g: [u16; 8]| canonical_text(&IpAddress::V6(g));
    assert_eq!(canonical_text(&IpAddress::V4([8, 8, 8, 8])), "8.8.8.8");
    assert_eq!(canonical_text(&IpAddress::V4([192, 0, 2, 255])), "192.0.2.255");
    assert_eq!(canonical_text(&IpAddress::V4([0, 10, 100, 0])), "0.10.100.0");
    assert_eq!(v6([0x2001, 0xdb8, 0xcafe, 0, 0, 0, 0, 0x17]), "2001:db8:cafe::17");
    assert_eq!(v6([0; 8]), "::");
    assert_eq!(v6([0, 0, 0, 0, 0, 0, 0, 1]), "::1");
    assert_eq!(v6([1, 0, 0, 0, 0, 0, 0, 0]), "1::");
    assert_eq!(v6([0, 0, 0, 0, 0, 0xffff, 0xc000, 0x0201]), "::ffff:192.0.2.1");
    assert_eq!(v6([1, 0, 0, 1, 0, 0, 0, 1]), "1:0:0:1::1");
    assert_eq!(v6([1, 0, 0, 2, 0, 0, 3, 4]), "1::2:0:0:3:4");
    assert_eq!(v6([1, 2, 3, 4, 5, 6, 7, 0]), "1:2:3:4:5:6:7:0");
    assert_eq!(v6([0xabcd, 0xef01, 0, 0, 0, 0, 0, 0x10]), "abcd:ef01::10");
}

#[test]
fn parse_then_text_round_trip() {
    for text in ["8.8.4.4", "2001:db8::1", "::ffff:203.0.113.9", "fe80::1:2"] {
        let chars: Vec<char> = text.chars().collect();
        assert_eq!(canonical_text(&parse_ip(&chars).unwrap()), text);
    }
}
