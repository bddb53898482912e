use dns_authority::ip::format_ipv4;
use dns_authority::ip::parse_ipv4;
use dns_authority::ip::Ipv4;
use dns_authority::name::check_fqdn;

#[test]
fn valid_fqdns_are_accepted() {
    assert!(check_fqdn("example.com."));
    assert!(check_fqdn("a."));
    assert!(check_fqdn("host-1.Example.COM."));
    assert!(check_fqdn("123.example.com."));
}

#[test]
fn invalid_fqdns_are_rejected() {
    assert!(!check_fqdn(""));
    assert!(!check_fqdn("."));
    assert!(!check_fqdn("example.com"));
    assert!(!check_fqdn(".example.com."));
    assert!(!check_fqdn("a..b."));
    assert!(!check_fqdn("not a domain"));
    assert!(!check_fqdn("host_1.example.com."));
    assert!(!check_fqdn("h\u{00e9}.example.com."));
    let long = format!("{}.", "a".repeat(300));
    assert!(!check_fqdn(&long));
}

#[test]
fn dotted_quads_parse_to_their_octets() {
    assert_eq!(
        parse_ipv4("10.0.0.5"),
        Some(Ipv4 { a: 10, b: 0, c: 0, d: 5 })
    );
    assert_eq!(parse_ipv4("0.0.0.0"), Some(Ipv4 { a: 0, b: 0, c: 0, d: 0 }));
    assert_eq!(
        parse_ipv4("255.255.255.255"),
        Some(Ipv4 {
            a: 255,
            b: 255,
            c: 255,
            d: 255
        })
    );
}

#[test]
fn malformed_addresses_do_not_parse() {
    assert!(parse_ipv4("").is_none());
    assert!(parse_ipv4("999.999.999.999").is_none());
    assert!(parse_ipv4("256.0.0.1").is_none());
    assert!(parse_ipv4("01.2.3.4").is_none());
    assert!(parse_ipv4("1.2.3").is_none());
    assert!(parse_ipv4("1.2.3.4.5").is_none());
    assert!(parse_ipv4("1..2.3").is_none());
    assert!(parse_ipv4("1.2.3.").is_none());
    assert!(parse_ipv4(".1.2.3.4").is_none());
    assert!(parse_ipv4("a.b.c.d").is_none());
    assert!(parse_ipv4("1.2.3.4 ").is_none());
}

#[test]
fn formatting_is_canonical_and_parses_back() {
    let ip = Ipv4 { a: 10, b: 0, c: 0, d: 5 };
    assert_eq!(format_ipv4(&ip), "10.0.0.5");
    let ip = Ipv4 {
        a: 255,
        b: 200,
        c: 30,
        d: 4,
    };
    let text = format_ipv4(&ip);
    assert_eq!(text, "255.200.30.4");
    assert_eq!(parse_ipv4(&text), Some(ip));
}
