use net_kit::addr::{ip_in_range, ip_to_string, is_special_ip, parse_cidr, parse_ipv4, AddressRange, CidrError};

#[test]
fn cidr_slash_30_example() {
    let r = parse_cidr("192.168.1.10/30").unwrap();
    assert_eq!(r, AddressRange { base: parse_ipv4("192.168.1.8").unwrap(), prefix_len: 30 });
    assert_eq!(r.host_count(), 4);
    assert_eq!(ip_to_string(r.base), "192.168.1.8");
    assert_eq!(ip_to_string(r.last()), "192.168.1.11");
}

#[test]
fn cidr_slash_24_has_256_hosts() {
    let r = parse_cidr("10.0.0.77/24").unwrap();
    assert_eq!(ip_to_string(r.base), "10.0.0.0");
    assert_eq!(r.host_count(), 256);
    assert_eq!(ip_to_string(r.last()), "10.0.0.255");
}

#[test]
fn cidr_slash_0_covers_everything() {
    let r = parse_cidr("8.8.8.8/0").unwrap();
    assert_eq!(r.base, 0);
    assert_eq!(r.host_count(), 1u64 << 32);
    assert_eq!(r.last(), u32::MAX);
}

#[test]
fn cidr_rejects_long_prefixes() {
    assert_eq!(parse_cidr("10.0.0.1/31"), Err(CidrError::InvalidPrefix));
    assert_eq!(parse_cidr("10.0.0.1/32"), Err(CidrError::InvalidPrefix));
    assert_eq!(parse_cidr("10.0.0.1/x"), Err(CidrError::InvalidPrefix));
    assert_eq!(parse_cidr("10.0.0.1/"), Err(CidrError::InvalidPrefix));
}

#[test]
fn cidr_rejects_malformed_text() {
    assert_eq!(parse_cidr("10.0.0.1"), Err(CidrError::InvalidFormat));
    assert_eq!(parse_cidr("10.0.0.1/24/8"), Err(CidrError::InvalidFormat));
    assert_eq!(parse_cidr("10.0.0.256/24"), Err(CidrError::InvalidAddress));
    assert_eq!(parse_cidr("10.0.0/24"), Err(CidrError::InvalidAddress));
    assert_eq!(parse_cidr("10.0.a.1/24"), Err(CidrError::InvalidAddress));
}

#[test]
fn cidr_error_messages_are_not_empty() {
    assert!(!CidrError::InvalidFormat.message().is_empty());
    assert!(!CidrError::InvalidAddress.message().is_empty());
    assert!(!CidrError::InvalidPrefix.message().is_empty());
}

#[test]
fn ipv4_round_trip() {
    assert_eq!(parse_ipv4("192.168.1.8"), Some(0xC0A8_0108));
    assert_eq!(ip_to_string(0xC0A8_0108), "192.168.1.8");
    assert_eq!(parse_ipv4("+1.2.3.4"), Some(0x0102_0304));
    assert_eq!(parse_ipv4("1.2.3"), None);
    assert_eq!(parse_ipv4("1.2.3.4.5"), None);
    assert_eq!(parse_ipv4(""), None);
    assert_eq!(ip_to_string(0), "0.0.0.0");
    assert_eq!(ip_to_string(u32::MAX), "255.255.255.255");
}

#[test]
fn range_membership() {
    assert!(ip_in_range("10.0.0.5", 0x0A00_0000, 0x0A00_00FF));
    assert!(!ip_in_range("10.0.1.5", 0x0A00_0000, 0x0A00_00FF));
    assert!(!ip_in_range("not an ip", 0, u32::MAX));
}

#[test]
fn special_addresses() {
    assert!(is_special_ip("224.0.0.1"));
    assert!(is_special_ip("239.255.255.250"));
    assert!(is_special_ip("255.255.255.255"));
    assert!(!is_special_ip("255.255.255.254"));
    assert!(!is_special_ip("192.168.1.1"));
    assert!(!is_special_ip("224"));
}
