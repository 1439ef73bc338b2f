use net_kit::ports::{parse_ports, PortError};

#[test]
fn ports_example_list() {
    assert_eq!(parse_ports("22,80-82,443"), Ok(vec![22, 80, 81, 82, 443]));
}

#[test]
fn ports_sorted_and_deduplicated() {
    assert_eq!(parse_ports("443, 22 ,80-82,81,22"), Ok(vec![22, 80, 81, 82, 443]));
    assert_eq!(parse_ports("5-7,6-9"), Ok(vec![5, 6, 7, 8, 9]));
}

#[test]
fn ports_rejections() {
    assert_eq!(parse_ports("0"), Err(PortError::InvalidPort));
    assert_eq!(parse_ports("80-22"), Err(PortError::InvalidRange));
    assert_eq!(parse_ports(""), Err(PortError::Empty));
    assert_eq!(parse_ports(" , ,"), Err(PortError::Empty));
    assert_eq!(parse_ports("65536"), Err(PortError::InvalidPort));
    assert_eq!(parse_ports("http"), Err(PortError::InvalidPort));
    assert_eq!(parse_ports("0-5"), Err(PortError::InvalidRange));
    assert_eq!(parse_ports("1-x"), Err(PortError::InvalidRange));
    assert_eq!(parse_ports("1-2-3"), Err(PortError::InvalidRange));
}

#[test]
fn ports_first_bad_token_decides() {
    assert_eq!(parse_ports("abc,5-1"), Err(PortError::InvalidPort));
    assert_eq!(parse_ports("5-1,abc"), Err(PortError::InvalidRange));
}

#[test]
fn ports_full_range_edges() {
    let all = parse_ports("1-65535").unwrap();
    assert_eq!(all.len(), 65535);
    assert_eq!(all[0], 1);
    assert_eq!(all[65534], 65535);
    assert_eq!(parse_ports("65535"), Ok(vec![65535]));
    assert_eq!(parse_ports(" 7 - 9 "), Ok(vec![7, 8, 9]));
    assert_eq!(parse_ports("+8"), Ok(vec![8]));
}

#[test]
fn port_error_messages_are_not_empty() {
    assert!(!PortError::InvalidRange.message().is_empty());
    assert!(!PortError::InvalidPort.message().is_empty());
    assert!(!PortError::Empty.message().is_empty());
}
