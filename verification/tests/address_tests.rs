//! The address model: classification of strings into variants, canonical
//! rendering, and the one-line display of records.

use zicsv::Address;
use zicsv::Date;
use zicsv::Record;

#[test]
fn string_from_address() {
    assert_eq!(
        Address::ipv4_from_str("1.2.3.4").unwrap().render(),
        "1.2.3.4"
    );

    assert_eq!(
        Address::ipv4_network_from_str("1.2.3.0/24").unwrap().render(),
        "1.2.3.0/24"
    );

    assert_eq!(
        Address::DomainName("example.com".into()).render(),
        "example.com"
    );

    assert_eq!(
        Address::WildcardDomainName("*.example.com".into()).render(),
        "*.example.com"
    );

    assert_eq!(
        Address::url_from_str("http://example.com/").unwrap().render(),
        "http://example.com/"
    );
}

#[test]
fn display_record() {
    let record = Record {
        addresses: vec![],
        organization: "Test org".into(),
        document_id: "Test document ID".into(),
        document_date: Date::from_ymd(2017, 1, 2),
    };
    assert_eq!(
        record.display_string(),
        "(\"Test org\", \"Test document ID\"/2017-01-02)"
    );

    let record = Record {
        addresses: vec![Address::DomainName("example.com".into())],
        organization: "Test org".into(),
        document_id: "Test document ID".into(),
        document_date: Date::from_ymd(2017, 1, 2),
    };
    assert_eq!(
        record.display_string(),
        "example.com (\"Test org\", \"Test document ID\"/2017-01-02)"
    );

    let record = Record {
        addresses: vec![
            Address::DomainName("example.com".into()),
            Address::ipv4_from_str("1.2.3.4").unwrap(),
        ],
        organization: "Test org".into(),
        document_id: "Test document ID".into(),
        document_date: Date::from_ymd(2017, 1, 2),
    };
    assert_eq!(
        record.display_string(),
        "example.com, 1.2.3.4 (\"Test org\", \"Test document ID\"/2017-01-02)"
    );
}

#[test]
fn address_from_str() {
    assert!("".parse::<Address>().is_err());

    assert_eq!(
        "127.0.0.1".parse::<Address>().unwrap(),
        Address::ipv4_from_str("127.0.0.1").unwrap()
    );

    assert_eq!(
        "127.0.0.0/8".parse::<Address>().unwrap(),
        Address::ipv4_network_from_str("127.0.0.0/8").unwrap()
    );

    assert_eq!(
        "http://example.com".parse::<Address>().unwrap(),
        Address::url_from_str("http://example.com").unwrap()
    );
    assert_eq!(
        "http://EXAMPLE.com".parse::<Address>().unwrap(),
        Address::url_from_str("http://example.com").unwrap()
    );
    assert_eq!(
        "http://\u{442}\u{435}\u{441}\u{442}.org/test".parse::<Address>().unwrap(),
        Address::url_from_str("http://xn--e1aybc.org/test").unwrap()
    );
    // Uppercase.
    assert_eq!(
        "http://\u{422}\u{415}\u{421}\u{422}.org/test".parse::<Address>().unwrap(),
        Address::url_from_str("http://xn--e1aybc.org/test").unwrap()
    );

    assert_eq!(
        "*".parse::<Address>().unwrap(),
        Address::WildcardDomainName("*".into())
    );

    assert_eq!(
        "*.example.org".parse::<Address>().unwrap(),
        Address::WildcardDomainName("*.example.org".into())
    );
    assert_eq!(
        "*.EXAMPLE.org".parse::<Address>().unwrap(),
        Address::WildcardDomainName("*.example.org".into())
    );
    assert_eq!(
        "*.\u{442}\u{435}\u{441}\u{442}.org".parse::<Address>().unwrap(),
        Address::WildcardDomainName("*.xn--e1aybc.org".into())
    );
    // Uppercase.
    assert_eq!(
        "*.\u{422}\u{415}\u{421}\u{422}.org".parse::<Address>().unwrap(),
        Address::WildcardDomainName("*.xn--e1aybc.org".into())
    );
    assert_eq!(
        "*.xn--e1aybc.org".parse::<Address>().unwrap(),
        Address::WildcardDomainName("*.xn--e1aybc.org".into())
    );
    assert_eq!(
        "*.XN--E1AYBC.org".parse::<Address>().unwrap(),
        Address::WildcardDomainName("*.xn--e1aybc.org".into())
    );

    assert_eq!(
        "example.org".parse::<Address>().unwrap(),
        Address::DomainName("example.org".into())
    );
    assert_eq!(
        "EXAMPLE.org".parse::<Address>().unwrap(),
        Address::DomainName("example.org".into())
    );
    assert_eq!(
        "\u{442}\u{435}\u{441}\u{442}.org".parse::<Address>().unwrap(),
        Address::DomainName("xn--e1aybc.org".into())
    );
    // Uppercase.
    assert_eq!(
        "\u{422}\u{415}\u{421}\u{422}.org".parse::<Address>().unwrap(),
        Address::DomainName("xn--e1aybc.org".into())
    );
    assert_eq!(
        "xn--e1aybc.org".parse::<Address>().unwrap(),
        Address::DomainName("xn--e1aybc.org".into())
    );
    assert_eq!(
        "XN--E1AYBC.ORG".parse::<Address>().unwrap(),
        Address::DomainName("xn--e1aybc.org".into())
    );
}

#[test]
fn round_trip_parse_render() {
    for s in [
        "1.2.3.4",
        "255.255.255.255",
        "0.0.0.0",
        "1.2.3.0/24",
        "0.0.0.0/0",
        "10.0.0.0/8",
        "example.org",
        "xn--e1aybc.org",
        "*",
        "*.example.org",
    ] {
        let a = s.parse::<Address>().unwrap();
        assert_eq!(a.render(), s);
        assert_eq!(a.render().parse::<Address>().unwrap(), a);
    }
}

#[test]
fn network_normalized_on_parse() {
    // A non-aligned CIDR literal is normalized to its network address.
    assert_eq!(
        "1.2.3.4/16".parse::<Address>().unwrap().render(),
        "1.2.0.0/16"
    );
}

#[test]
fn ipv4_from_octets() {
    let ip = zicsv::Ipv4Address::from_octets(1, 2, 3, 4);
    assert_eq!("1.2.3.4".parse::<Address>().unwrap(), Address::IPv4(ip));
    assert_eq!(ip.bits, 0x0102_0304);
}

#[test]
fn address_kind_tags() {
    assert_eq!(
        "1.2.3.4".parse::<Address>().unwrap().kind(),
        zicsv::AddressKind::IPv4
    );
    assert_eq!(
        "1.2.3.0/24".parse::<Address>().unwrap().kind(),
        zicsv::AddressKind::IPv4Network
    );
    assert_eq!(
        "example.org".parse::<Address>().unwrap().kind(),
        zicsv::AddressKind::DomainName
    );
    assert_eq!(
        "*.org".parse::<Address>().unwrap().kind(),
        zicsv::AddressKind::WildcardDomainName
    );
    assert_eq!(
        "http://example.org".parse::<Address>().unwrap().kind(),
        zicsv::AddressKind::URL
    );
}

#[test]
fn bad_addresses_are_rejected() {
    assert!(Address::ipv4_from_str("1.2.3.256").is_err());
    assert!(Address::ipv4_from_str("01.2.3.4").is_err());
    assert!(Address::ipv4_network_from_str("1.2.3.0/33").is_err());
    assert!(Address::ipv4_network_from_str("1.2.3.0").is_err());
    assert!(Address::domain_name_from_str("").is_err());
    assert!(Address::domain_name_from_str("*example.org").is_err());
    assert!(Address::wildcard_domain_name_from_str("example.org").is_err());
    assert!(Address::wildcard_domain_name_from_str("*example.org").is_err());
    assert!(Address::url_from_str("not a url").is_err());
    assert!("*example.org".parse::<Address>().is_err());
}

#[test]
fn output_format_names() {
    let variants = zicsv::OutputFormat::variants();
    assert_eq!(variants, vec!["human-readable", "pretty-json", "json"]);
    for name in variants {
        let format: zicsv::OutputFormat = name.parse().unwrap();
        assert_eq!(format.as_str(), name);
    }
    assert!("yaml".parse::<zicsv::OutputFormat>().is_err());
}
