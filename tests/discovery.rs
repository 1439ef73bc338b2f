use net_kit::discovery::{is_uninformative_mac, lookup_arp, parse_local_addresses, parse_neighbor_table, resolve_hostname, HostRecord, Platform};

#[test]
fn linux_neighbor_table() {
    let text = "192.168.1.1 dev wlan0 lladdr aa:bb:cc:dd:ee:ff REACHABLE\n192.168.1.7 dev wlan0  FAILED\n";
    let v = parse_neighbor_table(Platform::Linux, text);
    assert_eq!(v.len(), 1);
    assert_eq!(v[0].ip, "192.168.1.1");
    assert_eq!(v[0].mac, "aa:bb:cc:dd:ee:ff");
    assert_eq!(v[0].hostname, "");
    assert_eq!(v[0].vendor, "Unknown");
}

#[test]
fn windows_neighbor_table() {
    let text = "\r\nInterface: 192.168.1.5 --- 0xb\r\n  Internet Address      Physical Address      Type\r\n  192.168.1.1           aa-bb-cc-dd-ee-ff     dynamic\r\n";
    let v = parse_neighbor_table(Platform::Windows, text);
    assert_eq!(v.len(), 1);
    assert_eq!(v[0].ip, "192.168.1.1");
    assert_eq!(v[0].mac, "aa-bb-cc-dd-ee-ff");
}

#[test]
fn macos_neighbor_table() {
    let text = "router.lan (192.168.1.1) at aa:bb:cc:dd:ee:ff on en0 ifscope [ethernet]\n? (192.168.1.9) at (incomplete) on en0\n";
    let v = parse_neighbor_table(Platform::MacOs, text);
    assert_eq!(v.len(), 2);
    assert_eq!(v[0].ip, "192.168.1.1");
    assert_eq!(v[0].hostname, "router.lan");
    assert_eq!(v[0].mac, "aa:bb:cc:dd:ee:ff");
    assert_eq!(v[1].mac, "(incomplete)");
}

#[test]
fn local_addresses() {
    let linux = "2: wlan0: <UP>\n    inet 192.168.1.5/24 brd 192.168.1.255 scope global wlan0\n    inet6 fe80::1/64\n";
    let v = parse_local_addresses(Platform::Linux, linux);
    assert_eq!(v.len(), 1);
    assert_eq!(v[0].ip, "192.168.1.5");
    assert_eq!(v[0].mac, "local");
    assert_eq!(v[0].hostname, "This device");
    assert_eq!(v[0].vendor, "Local");
    let mac = "en0: flags\n\tinet 10.0.0.3 netmask 0xffffff00\n";
    assert_eq!(parse_local_addresses(Platform::MacOs, mac)[0].ip, "10.0.0.3");
    let win = "   IPv4 Address. . . . . . . . . . . : 192.168.1.20\r\n   Subnet Mask . . . : 255.255.255.0\r\n";
    let w = parse_local_addresses(Platform::Windows, win);
    assert_eq!(w.len(), 1);
    assert_eq!(w[0].ip, "192.168.1.20");
}

#[test]
fn neighbor_queries() {
    let r = lookup_arp(Platform::Linux, "192.168.1.1", Some("192.168.1.1 dev wlan0 lladdr AA:BB:CC:00:11:22 STALE\n")).unwrap();
    assert_eq!(r.mac, "AA:BB:CC:00:11:22");
    assert_eq!(r.ip, "192.168.1.1");
    assert!(lookup_arp(Platform::Linux, "192.168.1.255", Some("192.168.1.255 dev wlan0 lladdr FF:FF:FF:FF:FF:FF PERMANENT")).is_none());
    assert!(lookup_arp(Platform::Linux, "192.168.1.3", Some("192.168.1.3 dev wlan0 lladdr 01:00:5E:00:00:fb x")).is_none());
    assert!(lookup_arp(Platform::Linux, "224.0.0.251", Some("224.0.0.251 dev wlan0 lladdr aa:bb:cc:dd:ee:ff x")).is_none());
    assert!(lookup_arp(Platform::Linux, "192.168.1.1", None).is_none());
    assert!(lookup_arp(Platform::Linux, "192.168.1.1", Some("192.168.1.1 dev wlan0 FAILED")).is_none());
    let m = lookup_arp(Platform::MacOs, "10.0.0.1", Some("gw (10.0.0.1) at 0:11:22:33:44:55 on en0")).unwrap();
    assert_eq!(m.hostname, "gw");
    let w = lookup_arp(Platform::Windows, "10.0.0.1", Some("Interface\r\n  10.0.0.10  aa-aa-aa-aa-aa-aa dynamic\r\n  10.0.0.1  bb-bb-bb-bb-bb-bb dynamic\r\n")).unwrap();
    assert_eq!(w.mac, "bb-bb-bb-bb-bb-bb");
    assert!(lookup_arp(Platform::Windows, "10.0.0.1", Some("  10.0.0.1  ff-ff-ff-ff-ff-ff static\r\n")).is_none());
}

#[test]
fn host_name_hints() {
    let listing = "    Name               Type         Status\n    ---------------------------------------------\n    DESKTOP-1     <00>  UNIQUE      Registered\n    WORKGROUP     <00>  GROUP       Registered\n";
    assert_eq!(resolve_hostname("10.0.0.2", true, Some(listing)), Some("DESKTOP-1".to_string()));
    assert_eq!(resolve_hostname("10.0.0.2", false, Some(listing)), None);
    assert_eq!(resolve_hostname("10.0.0.2", true, None), None);
    assert_eq!(resolve_hostname("10.0.0.2", true, Some("10.0.0.2 <00> UNIQUE\n")), None);
}

#[test]
fn record_constructors() {
    let r = HostRecord::unlisted("10.0.0.9".to_string(), String::new());
    assert_eq!(r.mac, "unknown");
    assert_eq!(r.vendor, "Unknown");
    let l = HostRecord::local("10.0.0.1".to_string());
    assert_eq!(l.hostname, "This device");
}

#[test]
fn uninformative_hardware_addresses() {
    assert!(is_uninformative_mac(Platform::Linux, "ff:ff:ff:ff:ff:ff"));
    assert!(is_uninformative_mac(Platform::MacOs, "01:00:5e:7f:00:01"));
    assert!(is_uninformative_mac(Platform::Windows, "ff-ff-ff-ff-ff-ff"));
    assert!(is_uninformative_mac(Platform::Windows, "01-00-5e-00-00-fb"));
    assert!(!is_uninformative_mac(Platform::Windows, "ff:ff:ff:ff:ff:ff"));
    assert!(!is_uninformative_mac(Platform::Linux, "FF:FF:FF:FF:FF:FF"));
    assert!(!is_uninformative_mac(Platform::Linux, "aa:bb:cc:dd:ee:ff"));
}
