//! The matcher and query expansion: the variant cross product, wildcard
//! coverage, and the derivation of sub-addresses from a user query.

use zicsv::Address;
use zicsv::MatchReason;

fn parse(s: &str) -> Address {
    s.parse().unwrap()
}

#[test]
fn addr_match() {
    assert_eq!(zicsv::addr_match(&parse("4.3.2.1"), &parse("1.2.3.4")), None);
    assert_eq!(
        zicsv::addr_match(&parse("1.2.3.4"), &parse("1.2.3.4")),
        Some(MatchReason::IPv4Equals)
    );
    assert_eq!(zicsv::addr_match(&parse("4.3.0.0/16"), &parse("1.2.3.4")), None);
    assert_eq!(
        zicsv::addr_match(&parse("1.2.0.0/16"), &parse("1.2.3.4")),
        Some(MatchReason::IPv4InBlockedIPv4Network)
    );

    assert_eq!(zicsv::addr_match(&parse("4.3.2.1"), &parse("1.2.0.0/16")), None);
    assert_eq!(
        zicsv::addr_match(&parse("1.2.3.4"), &parse("1.2.0.0/16")),
        Some(MatchReason::IPv4NetworkContainsBlockedIPv4)
    );
    assert_eq!(zicsv::addr_match(&parse("4.3.0.0/16"), &parse("1.2.0.0/16")), None);
    assert_eq!(
        zicsv::addr_match(&parse("1.2.0.0/16"), &parse("1.2.0.0/16")),
        Some(MatchReason::IPv4NetworkEquals)
    );
    assert_eq!(zicsv::addr_match(&parse("4.3.0.0/8"), &parse("1.2.0.0/16")), None);
    assert_eq!(
        zicsv::addr_match(&parse("1.0.0.0/8"), &parse("1.2.0.0/16")),
        Some(MatchReason::IPv4NetworkInBlockedIPv4Network)
    );
    assert_eq!(zicsv::addr_match(&parse("4.3.2.0/24"), &parse("1.2.0.0/16")), None);
    assert_eq!(
        zicsv::addr_match(&parse("1.2.3.0/24"), &parse("1.2.0.0/16")),
        Some(MatchReason::IPv4NetworkContainsBlockedIPv4Network)
    );

    assert_eq!(zicsv::addr_match(&parse("example.com"), &parse("example.org")), None);
    assert_eq!(
        zicsv::addr_match(&parse("example.org"), &parse("example.org")),
        Some(MatchReason::DomainNameEquals)
    );
    assert_eq!(zicsv::addr_match(&parse("*.com"), &parse("example.org")), None);
    assert_eq!(
        zicsv::addr_match(&parse("*.org"), &parse("example.org")),
        Some(MatchReason::DomainNameInBlockedWildcard)
    );
    assert_eq!(
        zicsv::addr_match(&parse("*"), &parse("example.org")),
        Some(MatchReason::DomainNameInBlockedWildcard)
    );

    assert_eq!(
        zicsv::addr_match(&parse("test.example.com"), &parse("*.example.org")),
        None
    );
    assert_eq!(
        zicsv::addr_match(&parse("test.example.org"), &parse("*.example.org")),
        Some(MatchReason::WildcardContainsBlockedDomain)
    );
    assert_eq!(
        zicsv::addr_match(&parse("*.example.com"), &parse("*.example.org")),
        None
    );
    assert_eq!(
        zicsv::addr_match(&parse("*.example.org"), &parse("*.example.org")),
        Some(MatchReason::WildcardEquals)
    );
    assert_eq!(zicsv::addr_match(&parse("*.com"), &parse("*.example.org")), None);
    assert_eq!(
        zicsv::addr_match(&parse("*.org"), &parse("*.example.org")),
        Some(MatchReason::WildcardInBlockedWildcard)
    );
    assert_eq!(
        zicsv::addr_match(&parse("*.test.example.com"), &parse("*.example.org")),
        None
    );
    assert_eq!(
        zicsv::addr_match(&parse("*.test.example.org"), &parse("*.example.org")),
        Some(MatchReason::WildcardContainsBlockedWildcard)
    );

    assert_eq!(
        zicsv::addr_match(&parse("http://example.com/test"), &parse("http://example.org/test")),
        None
    );
    assert_eq!(
        zicsv::addr_match(&parse("http://example.org/test"), &parse("http://example.org/test")),
        Some(MatchReason::URLEquals)
    );
    assert_eq!(
        zicsv::addr_match(
            &parse("http://example.com/test/test2"),
            &parse("http://example.org/test")
        ),
        None
    );
    assert_eq!(
        zicsv::addr_match(
            &parse("http://example.org/test/test2"),
            &parse("http://example.org/test")
        ),
        Some(MatchReason::URLContainsBlockedURL)
    );
    assert_eq!(
        zicsv::addr_match(&parse("http://example.com/"), &parse("http://example.org/test")),
        None
    );
    assert_eq!(
        zicsv::addr_match(&parse("http://example.org/"), &parse("http://example.org/test")),
        Some(MatchReason::URLInBlockedURL)
    );
}

#[test]
fn wildcard_covers_everything() {
    assert!(zicsv::match_wildcard_domain("*", "example.org"));
    assert!(zicsv::match_wildcard_domain("*", "a"));
    assert!(zicsv::match_wildcard_domain("*", ""));
    assert!(zicsv::match_wildcard_domain("*.example.org", "test.example.org"));
    assert!(!zicsv::match_wildcard_domain("*.example.org", "example.org"));
    assert!(!zicsv::match_wildcard_domain("*.example.org", "test.example.com"));
}

/// A resolver over the system hosts file only, as the `trust-dns-resolver`
/// crate provides it: no nameservers are configured, so any failure is
/// reported as an empty answer.
struct TestResolver(trust_dns_resolver::Resolver);

fn create_resolver() -> TestResolver {
    let conf = trust_dns_resolver::config::ResolverConfig::new();
    let mut opts = trust_dns_resolver::config::ResolverOpts::default();
    // IPv6 is not supported.
    opts.ip_strategy = trust_dns_resolver::config::LookupIpStrategy::Ipv4Only;
    TestResolver(trust_dns_resolver::Resolver::new(conf, opts).unwrap())
}

impl zicsv::Resolver for TestResolver {
    fn lookup_ipv4(&mut self, domain: &str) -> Result<Vec<zicsv::Ipv4Address>, zicsv::ResolveError> {
        match self.0.lookup_ip(domain) {
            Ok(response) => Ok(response
                .iter()
                .filter_map(|addr| match addr.to_string().parse::<Address>() {
                    Ok(Address::IPv4(ip)) => Some(ip),
                    _ => None,
                })
                .collect()),
            Err(_) => Err(zicsv::ResolveError::NoRecordsFound),
        }
    }

    fn lookup_cname(&mut self, domain: &str) -> Result<Vec<String>, zicsv::ResolveError> {
        let kind = trust_dns_resolver::proto::rr::record_type::RecordType::CNAME;
        match self.0.lookup(domain, kind) {
            Ok(response) => Ok(response
                .iter()
                .filter_map(|data| match data {
                    trust_dns_resolver::proto::rr::record_data::RData::CNAME(name) => {
                        Some(name.0.to_utf8())
                    }
                    _ => None,
                })
                .collect()),
            Err(_) => Err(zicsv::ResolveError::NoRecordsFound),
        }
    }
}

fn loopback_contains(address: &Address) -> bool {
    let net = match parse("127.0.0.0/8") {
        Address::IPv4Network(net) => net,
        _ => unreachable!(),
    };
    match address {
        Address::IPv4(ip) => net.contains_ip(ip),
        invalid_address => panic!("Invalid address: {}", invalid_address.render()),
    }
}

#[test]
fn extract_more_info() {
    let mut resolver = create_resolver();

    let more: Vec<Option<Address>> =
        zicsv::extract_more_info(&parse("127.0.0.1"), &mut resolver)
            .into_iter()
            .map(Result::ok)
            .collect();
    assert_eq!(more, vec![]);

    let more: Vec<Option<Address>> =
        zicsv::extract_more_info(&parse("127.0.0.0/8"), &mut resolver)
            .into_iter()
            .map(Result::ok)
            .collect();
    assert_eq!(more, vec![]);

    let more: Vec<Option<Address>> =
        zicsv::extract_more_info(&parse("http://example.org/"), &mut resolver)
            .into_iter()
            .map(Result::ok)
            .collect();
    assert_eq!(more, vec![Some(Address::DomainName("example.org".into()))]);

    let more: Vec<Option<Address>> =
        zicsv::extract_more_info(&parse("http://1.2.3.4/"), &mut resolver)
            .into_iter()
            .map(Result::ok)
            .collect();
    assert_eq!(more, vec![Some(Address::ipv4_from_str("1.2.3.4").unwrap())]);

    // IPv6 addresses are not currently supported.
    let more: Vec<Option<Address>> =
        zicsv::extract_more_info(&parse("http://[1080::8:800:200C:417A]/foo"), &mut resolver)
            .into_iter()
            .map(Result::ok)
            .collect();
    assert_eq!(more, vec![None]);

    let more: Vec<Option<Address>> =
        zicsv::extract_more_info(&Address::WildcardDomainName("*.example.org".into()), &mut resolver)
            .into_iter()
            .map(Result::ok)
            .collect();
    assert_eq!(more, vec![]);

    let mut localhost_addr: Vec<Option<Address>> =
        zicsv::extract_more_info(&Address::DomainName("localhost".into()), &mut resolver)
            .into_iter()
            .map(Result::ok)
            .collect();
    assert_eq!(localhost_addr.len(), 1);
    let localhost_addr = localhost_addr.pop().unwrap().unwrap();
    assert!(loopback_contains(&localhost_addr));
}

#[test]
fn extract_all_info() {
    let mut resolver = create_resolver();

    let mut n_errors = 0usize;
    assert!(zicsv::extract_all_info("", &mut resolver, &mut n_errors).is_err());
    assert_eq!(n_errors, 0);

    let mut n_errors = 0usize;
    assert_eq!(
        zicsv::extract_all_info("127.0.0.1", &mut resolver, &mut n_errors).unwrap(),
        vec![parse("127.0.0.1")]
    );
    assert_eq!(n_errors, 0);

    let mut n_errors = 0usize;
    let mut from_localhost_url =
        zicsv::extract_all_info("http://localhost", &mut resolver, &mut n_errors)
            .unwrap()
            .into_iter();
    assert_eq!(n_errors, 0);
    assert_eq!(
        from_localhost_url.next(),
        Some(Address::url_from_str("http://localhost").unwrap())
    );
    assert_eq!(
        from_localhost_url.next(),
        Some(Address::DomainName("localhost".into()))
    );
    let localhost_addr = from_localhost_url.next().unwrap();
    assert_eq!(from_localhost_url.next(), None);
    assert!(loopback_contains(&localhost_addr));

    let mut n_errors = 0usize;
    assert_eq!(
        zicsv::extract_all_info("http://1.2.3.4", &mut resolver, &mut n_errors).unwrap(),
        vec![parse("http://1.2.3.4"), parse("1.2.3.4")]
    );
    assert_eq!(n_errors, 0);

    let mut n_errors = 0usize;
    assert_eq!(
        zicsv::extract_all_info("http://[1080::8:800:200C:417A]", &mut resolver, &mut n_errors)
            .unwrap(),
        vec![parse("http://[1080::8:800:200C:417A]")]
    );
    assert_eq!(n_errors, 1);
}

/// A resolver whose address lookups fail and whose CNAME answers are not
/// valid domain names.
struct BrokenResolver;

impl zicsv::Resolver for BrokenResolver {
    fn lookup_ipv4(&mut self, _domain: &str) -> Result<Vec<zicsv::Ipv4Address>, zicsv::ResolveError> {
        Err(zicsv::ResolveError::Failed)
    }

    fn lookup_cname(&mut self, _domain: &str) -> Result<Vec<String>, zicsv::ResolveError> {
        Ok(vec!["*bad".to_string()])
    }
}

#[test]
fn expansion_counts_item_errors() {
    let mut resolver = BrokenResolver;
    let mut n_errors = 0usize;
    let expanded = zicsv::extract_all_info("example.org", &mut resolver, &mut n_errors).unwrap();
    assert_eq!(expanded, vec![Address::DomainName("example.org".into())]);
    // One failed lookup and one unusable CNAME target.
    assert_eq!(n_errors, 2);
}

/// A resolver with fixed answers: two addresses, then two CNAME targets of
/// which one is not a usable domain.
struct StubResolver;

impl zicsv::Resolver for StubResolver {
    fn lookup_ipv4(&mut self, _domain: &str) -> Result<Vec<zicsv::Ipv4Address>, zicsv::ResolveError> {
        Ok(vec![
            zicsv::Ipv4Address::from_octets(9, 8, 7, 6),
            zicsv::Ipv4Address::from_octets(1, 2, 3, 4),
        ])
    }

    fn lookup_cname(&mut self, _domain: &str) -> Result<Vec<String>, zicsv::ResolveError> {
        Ok(vec!["Target.Example".to_string(), "*bad".to_string()])
    }
}

#[test]
fn expansion_is_image_of_answers() {
    // A domain's contribution is exactly the image of the two lookup
    // answers: the address-record leg in order, then the CNAME leg in
    // order, bad targets kept as error items in place.
    let mut resolver = StubResolver;
    let items = zicsv::extract_more_info(&Address::DomainName("example.test".into()), &mut resolver);
    assert_eq!(items.len(), 4);
    assert_eq!(
        items[0],
        Ok(Address::IPv4(zicsv::Ipv4Address::from_octets(9, 8, 7, 6)))
    );
    assert_eq!(
        items[1],
        Ok(Address::IPv4(zicsv::Ipv4Address::from_octets(1, 2, 3, 4)))
    );
    assert_eq!(items[2], Ok(Address::DomainName("target.example".into())));
    assert_eq!(items[3], Err(zicsv::ExpandError::InvalidDomain));
}

/// A resolver whose every domain has more addresses than the expansion cap
/// can hold.
struct FloodResolver;

impl zicsv::Resolver for FloodResolver {
    fn lookup_ipv4(&mut self, _domain: &str) -> Result<Vec<zicsv::Ipv4Address>, zicsv::ResolveError> {
        Ok((0u32..1500).map(|bits| zicsv::Ipv4Address { bits }).collect())
    }

    fn lookup_cname(&mut self, _domain: &str) -> Result<Vec<String>, zicsv::ResolveError> {
        Err(zicsv::ResolveError::NoRecordsFound)
    }
}

#[test]
fn expansion_caps_worklist() {
    // 1500 answers for the one domain: the list is capped at the expansion
    // limit and every dropped address is counted as an error.
    let mut resolver = FloodResolver;
    let mut n_errors = 0usize;
    let expanded = zicsv::extract_all_info("example.test", &mut resolver, &mut n_errors).unwrap();
    assert_eq!(expanded.len(), zicsv::expand::EXPANSION_LIMIT);
    assert_eq!(expanded[0], Address::DomainName("example.test".into()));
    assert_eq!(expanded[1], Address::IPv4(zicsv::Ipv4Address { bits: 0 }));
    assert_eq!(
        expanded[999],
        Address::IPv4(zicsv::Ipv4Address { bits: 998 })
    );
    assert_eq!(n_errors, 501);
}

#[test]
fn matcher_cross_product() {
    let record = zicsv::Record {
        addresses: vec![parse("1.2.0.0/16"), parse("*.org")],
        organization: "org".into(),
        document_id: "id".into(),
        document_date: zicsv::Date::from_ymd(2017, 1, 2),
    };
    let records = vec![record];

    let mut resolver = zicsv::NullResolver;
    let mut n_errors = 0usize;
    let first = zicsv::extract_all_info("1.2.3.4", &mut resolver, &mut n_errors).unwrap();
    assert_eq!(first, vec![parse("1.2.3.4")]);
    let second = zicsv::extract_all_info("example.org", &mut resolver, &mut n_errors).unwrap();
    assert_eq!(second, vec![Address::DomainName("example.org".into())]);
    assert_eq!(n_errors, 0);

    let queries = vec![
        zicsv::QueryResult::new("1.2.3.4".to_string(), first),
        zicsv::QueryResult::new("example.org".to_string(), second),
    ];
    let results = zicsv::find_all_matches(&records, queries);

    assert_eq!(results.len(), 2);
    assert_eq!(results[0].original_address, "1.2.3.4");
    assert_eq!(results[0].addresses.len(), 1);
    assert_eq!(results[0].addresses[0].matches.len(), 1);
    assert_eq!(results[0].addresses[0].matches[0].block_record_index, 0);
    assert_eq!(
        results[0].addresses[0].matches[0].blocked_address,
        parse("1.2.0.0/16")
    );
    assert_eq!(
        results[0].addresses[0].matches[0].match_reason,
        MatchReason::IPv4InBlockedIPv4Network
    );

    assert_eq!(results[1].original_address, "example.org");
    assert_eq!(results[1].addresses.len(), 1);
    assert_eq!(results[1].addresses[0].matches.len(), 1);
    assert_eq!(
        results[1].addresses[0].matches[0].blocked_address,
        parse("*.org")
    );
    assert_eq!(
        results[1].addresses[0].matches[0].match_reason,
        MatchReason::DomainNameInBlockedWildcard
    );
}

#[test]
fn select_keeps_asked_variants() {
    let record = zicsv::Record {
        addresses: vec![
            parse("1.2.3.4"),
            parse("1.2.3.0/24"),
            parse("example.com"),
            parse("*.example.com"),
            parse("http://example.com/"),
        ],
        organization: String::new(),
        document_id: String::new(),
        document_date: zicsv::Date::from_ymd(2017, 1, 2),
    };
    let records = vec![record];

    let options = zicsv::SelectOptions {
        ipv4: true,
        ipv4_network: false,
        domain: true,
        wildcard_domain: false,
        url: false,
    };
    assert_eq!(zicsv::select(&options, &records), vec!["1.2.3.4", "example.com"]);

    let options = zicsv::SelectOptions {
        ipv4: false,
        ipv4_network: true,
        domain: false,
        wildcard_domain: true,
        url: true,
    };
    assert_eq!(
        zicsv::select(&options, &records),
        vec!["1.2.3.0/24", "*.example.com", "http://example.com/"]
    );

    let none = zicsv::SelectOptions {
        ipv4: false,
        ipv4_network: false,
        domain: false,
        wildcard_domain: false,
        url: false,
    };
    assert!(!none.any());
    assert!(zicsv::select(&none, &records).is_empty());
}

#[test]
fn search_pipeline_end_to_end() {
    let dump = "Updated: 2017-11-29 12:34:56 -0100\n\
                1.2.0.0/16;*.org;;Some org;Doc 1;2017-01-02\n\
                5.6.7.8;;;Other org;Doc 2;2017-03-04\n";
    let mut reader = zicsv::Reader::from_bytes(dump.as_bytes()).unwrap();
    let entries = reader.records();
    let records: Vec<zicsv::Record> = entries.into_iter().map(|r| r.unwrap()).collect();
    assert_eq!(records.len(), 2);

    let mut resolver = zicsv::NullResolver;
    let mut n_errors = 0usize;
    let queries = vec![
        zicsv::QueryResult::new(
            "1.2.3.4".to_string(),
            zicsv::extract_all_info("1.2.3.4", &mut resolver, &mut n_errors).unwrap(),
        ),
        zicsv::QueryResult::new(
            "5.6.7.8".to_string(),
            zicsv::extract_all_info("5.6.7.8", &mut resolver, &mut n_errors).unwrap(),
        ),
        zicsv::QueryResult::new(
            "9.9.9.9".to_string(),
            zicsv::extract_all_info("9.9.9.9", &mut resolver, &mut n_errors).unwrap(),
        ),
    ];
    assert_eq!(n_errors, 0);
    let results = zicsv::find_all_matches(&records, queries);

    assert_eq!(results[0].addresses[0].matches.len(), 1);
    assert_eq!(results[0].addresses[0].matches[0].block_record_index, 0);
    assert_eq!(
        results[0].addresses[0].matches[0].match_reason,
        MatchReason::IPv4InBlockedIPv4Network
    );
    let blocking = &records[results[0].addresses[0].matches[0].block_record_index];
    assert_eq!(blocking.organization, "Some org");
    assert_eq!(blocking.document_id, "Doc 1");

    assert_eq!(results[1].addresses[0].matches.len(), 1);
    assert_eq!(results[1].addresses[0].matches[0].block_record_index, 1);
    assert_eq!(
        results[1].addresses[0].matches[0].match_reason,
        MatchReason::IPv4Equals
    );

    assert!(results[2].addresses[0].matches.is_empty());
}

#[test]
fn human_readable_report() {
    let record = zicsv::Record {
        addresses: vec![parse("1.2.0.0/16")],
        organization: "Some org".into(),
        document_id: "Doc 1".into(),
        document_date: zicsv::Date::from_ymd(2017, 1, 2),
    };
    let records = vec![record];
    let mut resolver = zicsv::NullResolver;
    let mut n_errors = 0usize;
    let queries = vec![
        zicsv::QueryResult::new(
            "1.2.3.4".to_string(),
            zicsv::extract_all_info("1.2.3.4", &mut resolver, &mut n_errors).unwrap(),
        ),
        zicsv::QueryResult::new(
            "9.9.9.9".to_string(),
            zicsv::extract_all_info("9.9.9.9", &mut resolver, &mut n_errors).unwrap(),
        ),
    ];
    let results = zicsv::find_all_matches(&records, queries);
    let report = zicsv::format_search_results(&results, &records);
    let expected = "1.2.3.4:\n\
                    \u{20}   1.2.3.4: blocked\n\
                    \u{20}       IPv4 address is contained in blocked IPv4 network:\n\
                    \u{20}           Blocked: 1.2.0.0/16\n\
                    \u{20}           Organization: Some org\n\
                    \u{20}           Document ID: Doc 1\n\
                    \u{20}           Document date: 2017-01-02\n\
                    \n\
                    9.9.9.9:\n\
                    \u{20}   9.9.9.9: not found\n";
    assert_eq!(report, expected);
}

#[test]
fn match_reason_texts() {
    assert_eq!(MatchReason::IPv4Equals.name(), "IPv4Equals");
    assert_eq!(
        MatchReason::IPv4Equals.phrase(),
        "IPv4 address is equal to blocked IPv4 address"
    );
    assert_eq!(
        MatchReason::DomainNameInBlockedWildcard.phrase(),
        "Domain name matches blocked wildcard domain name"
    );
}
