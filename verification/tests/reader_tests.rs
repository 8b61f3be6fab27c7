//! The dump reader: header timestamp, record parsing, the per-column
//! delimiter conventions, the legacy codepage, and per-line errors.

use zicsv::Address;
use zicsv::Date;
use zicsv::Reader;

fn from_str(data: &str) -> Result<Reader, zicsv::HeaderError> {
    Reader::from_bytes(data.as_bytes())
}

#[test]
fn parse_valid_timestamp() {
    let reader = from_str("Updated: 2017-11-29 12:34:56 -0100").unwrap();
    assert_eq!(
        *reader.get_timestamp(),
        Date::from_ymd(2017, 11, 29).and_hms(13, 34, 56)
    );

    let reader = from_str("Updated: 2017-11-29 12:34:56 -0100\n;;;;;2017-01-02\n").unwrap();
    assert_eq!(
        *reader.get_timestamp(),
        Date::from_ymd(2017, 11, 29).and_hms(13, 34, 56)
    );
}

#[test]
fn parse_invalid_timestamp() {
    let reader = from_str("");
    assert!(reader.is_err());

    // No ':'.
    let reader = from_str("test");
    assert!(reader.is_err());

    // Invalid date/time format.
    let reader = from_str("Updated: 2017-11-29 12:34:56");
    assert!(reader.is_err());
}

#[test]
fn parse_no_records() {
    let record = from_str("Updated: 2017-11-29 12:34:56 -0100\n")
        .unwrap()
        .next_record();
    assert!(record.is_none());
}

#[test]
fn parse_valid_record() {
    let record = from_str("Updated: 2017-11-29 12:34:56 -0100\n;;;;;2017-01-02\n")
        .unwrap()
        .next_record()
        .unwrap()
        .unwrap();
    assert!(record.addresses.is_empty());
    assert!(record.organization.is_empty());
    assert!(record.document_id.is_empty());
    assert_eq!(record.document_date, Date::from_ymd(2017, 1, 2));

    let record = from_str("Updated: 2017-11-29 12:34:56 -0100\n;;;org string;id string;2017-01-02\n")
        .unwrap()
        .next_record()
        .unwrap()
        .unwrap();
    assert!(record.addresses.is_empty());
    assert_eq!(record.organization, "org string");
    assert_eq!(record.document_id, "id string");
    assert_eq!(record.document_date, Date::from_ymd(2017, 1, 2));

    let record = from_str(
        "Updated: 2017-11-29 12:34:56 -0100\n;;;\"org string\";id string;2017-01-02\n",
    )
        .unwrap()
        .next_record()
        .unwrap()
        .unwrap();
    assert!(record.addresses.is_empty());
    assert_eq!(record.organization, "org string");
    assert_eq!(record.document_id, "id string");
    assert_eq!(record.document_date, Date::from_ymd(2017, 1, 2));

    let record = from_str(
        "Updated: 2017-11-29 12:34:56 -0100\n;;;\"org;string\";id string;2017-01-02\n",
    )
        .unwrap()
        .next_record()
        .unwrap()
        .unwrap();
    assert!(record.addresses.is_empty());
    assert_eq!(record.organization, "org;string");
    assert_eq!(record.document_id, "id string");
    assert_eq!(record.document_date, Date::from_ymd(2017, 1, 2));

    let record = from_str(
        "Updated: 2017-11-29 12:34:56 -0100\n1.2.3.4;example.com;http://example.com;;;2017-01-02\n",
    )
        .unwrap()
        .next_record()
        .unwrap()
        .unwrap();
    let addresses = vec![
        Address::ipv4_from_str("1.2.3.4").unwrap(),
        Address::DomainName("example.com".into()),
        Address::url_from_str("http://example.com").unwrap(),
    ];
    assert_eq!(record.addresses, addresses);
    assert!(record.organization.is_empty());
    assert!(record.document_id.is_empty());
    assert_eq!(record.document_date, Date::from_ymd(2017, 1, 2));

    let record = from_str(
        "Updated: 2017-11-29 12:34:56 -0100\n1.2.3.4|1.2.3.0/24;example.com|*.example.com;http://example.com?test=x|y;;;2017-01-02\n",
    )
        .unwrap()
        .next_record()
        .unwrap()
        .unwrap();
    let addresses = vec![
        Address::ipv4_from_str("1.2.3.4").unwrap(),
        Address::ipv4_network_from_str("1.2.3.0/24").unwrap(),
        Address::DomainName("example.com".into()),
        Address::WildcardDomainName("*.example.com".into()),
        Address::url_from_str("http://example.com?test=x|y").unwrap(),
    ];
    assert_eq!(record.addresses, addresses);
    assert!(record.organization.is_empty());
    assert!(record.document_id.is_empty());
    assert_eq!(record.document_date, Date::from_ymd(2017, 1, 2));

    let record = from_str(
        "Updated: 2017-11-29 12:34:56 -0100\n1.2.3.4 | 1.2.3.0/24;example.com | *.example.com;http://example.com?test=x | http://example.com?test=y;;;2017-01-02\n",
    )
        .unwrap()
        .next_record()
        .unwrap()
        .unwrap();
    let addresses = vec![
        Address::ipv4_from_str("1.2.3.4").unwrap(),
        Address::ipv4_network_from_str("1.2.3.0/24").unwrap(),
        Address::DomainName("example.com".into()),
        Address::WildcardDomainName("*.example.com".into()),
        Address::url_from_str("http://example.com?test=x").unwrap(),
        Address::url_from_str("http://example.com?test=y").unwrap(),
    ];
    assert_eq!(record.addresses, addresses);
    assert!(record.organization.is_empty());
    assert!(record.document_id.is_empty());
    assert_eq!(record.document_date, Date::from_ymd(2017, 1, 2));
}

#[test]
fn parse_invalid_record() {
    // Too many columns.
    let record = from_str("Updated: 2017-11-29 12:34:56 -0100\n;;;;;;2017-01-02\n")
        .unwrap()
        .next_record()
        .unwrap();
    assert!(record.is_err());

    // Not enough columns.
    let record = from_str("Updated: 2017-11-29 12:34:56 -0100\n;;;;2017-01-02\n")
        .unwrap()
        .next_record()
        .unwrap();
    assert!(record.is_err());

    // No date.
    let record = from_str("Updated: 2017-11-29 12:34:56 -0100\n;;;;;\n")
        .unwrap()
        .next_record()
        .unwrap();
    assert!(record.is_err());

    // Invalid date format.
    let record = from_str("Updated: 2017-11-29 12:34:56 -0100\n;;;;;test\n")
        .unwrap()
        .next_record()
        .unwrap();
    assert!(record.is_err());

    // Invalid IPv4 address.
    let record = from_str("Updated: 2017-11-29 12:34:56 -0100\ninvalid;;;;;2017-01-02\n")
        .unwrap()
        .next_record()
        .unwrap();
    assert!(record.is_err());

    // Invalid URL.
    let record = from_str("Updated: 2017-11-29 12:34:56 -0100\n;;invalid;;;2017-01-02\n")
        .unwrap()
        .next_record()
        .unwrap();
    assert!(record.is_err());
}

#[test]
fn record_error_kinds_and_lines() {
    let data = "Updated: 2017-11-29 12:34:56 -0100\n\
                1.2.3.4;;;;;2017-01-02\n\
                ;;;;;nodate\n\
                ;;;;;2017-01-02\n\
                1.2.3.0/99;;;;;2017-01-02\n";
    let mut reader = from_str(data).unwrap();
    let records = reader.records();
    assert_eq!(records.len(), 4);
    assert!(records[0].is_ok());
    let e1 = records[1].as_ref().unwrap_err();
    assert_eq!(e1.line, 3);
    assert_eq!(e1.kind, zicsv::RecordErrorKind::Date);
    assert!(records[2].is_ok());
    let e3 = records[3].as_ref().unwrap_err();
    assert_eq!(e3.line, 5);
    assert_eq!(e3.kind, zicsv::RecordErrorKind::Ipv4Network);
}

#[test]
fn legacy_codepage_fields() {
    // The organization field holds Cyrillic text in Windows-1251.
    let mut data = b"Updated: 2017-11-29 12:34:56 -0100\n;;;".to_vec();
    data.extend_from_slice(&[0xd2, 0xe5, 0xf1, 0xf2]);
    data.extend_from_slice(b";;2017-01-02\n");
    let mut reader = Reader::from_bytes(&data).unwrap();
    let record = reader.next_record().unwrap().unwrap();
    assert_eq!(record.organization, "\u{422}\u{435}\u{441}\u{442}");

    // Every byte is assigned in the WHATWG windows-1251 table; even 0x98
    // decodes (to U+0098) rather than failing the line.
    let mut data = b"Updated: 2017-11-29 12:34:56 -0100\n;;;".to_vec();
    data.push(0x98);
    data.extend_from_slice(b";;2017-01-02\n");
    let mut reader = Reader::from_bytes(&data).unwrap();
    let record = reader.next_record().unwrap().unwrap();
    assert_eq!(record.organization, "\u{98}");
}

#[test]
fn timestamp_normalization_across_midnight() {
    let reader = from_str("Updated: 2017-01-01 00:30:00 +0200\n").unwrap();
    assert_eq!(
        *reader.get_timestamp(),
        Date::from_ymd(2016, 12, 31).and_hms(22, 30, 0)
    );

    let reader = from_str("Updated: 2016-12-31 23:30:00 -0100\n").unwrap();
    assert_eq!(
        *reader.get_timestamp(),
        Date::from_ymd(2017, 1, 1).and_hms(0, 30, 0)
    );
}
