use net_kit::capture::{
    build_protocol_filter, capture_action, open_failure_message, try_fallback, combine_filters, find_tshark, parse_capture_line, parse_interface_list,
    parse_tshark_line, protocol_clause, tshark_available, tshark_path_candidates, CaptureAction, PollOutcome,
};

fn names(v: &[&str]) -> Vec<String> {
    v.iter().map(|s| s.to_string()).collect()
}

#[test]
fn protocol_filters_are_or_joined() {
    assert_eq!(
        build_protocol_filter(&names(&["tcp", "icmp", "dns"])),
        Some("tcp or icmp or icmp6 or (udp port 53 or tcp port 53)".to_string())
    );
    assert_eq!(build_protocol_filter(&names(&["TCP", "Arp"])), Some("tcp or arp".to_string()));
    assert_eq!(build_protocol_filter(&names(&["http", "UDP"])), Some("udp".to_string()));
    assert_eq!(build_protocol_filter(&names(&["http"])), None);
    assert_eq!(build_protocol_filter(&[]), None);
}

#[test]
fn single_clauses() {
    assert_eq!(protocol_clause("icmp"), Some("icmp or icmp6".to_string()));
    assert_eq!(protocol_clause("ICMP"), None);
}

#[test]
fn filters_are_combined() {
    assert_eq!(
        combine_filters(Some("tcp or udp".to_string()), Some(" port 80 ")),
        Some("tcp or udp and (port 80)".to_string())
    );
    assert_eq!(combine_filters(Some("arp".to_string()), Some("   ")), Some("arp".to_string()));
    assert_eq!(combine_filters(None, Some(" host 10.0.0.1")), Some("host 10.0.0.1".to_string()));
    assert_eq!(combine_filters(None, None), None);
}

#[test]
fn capture_records() {
    let s = parse_capture_line("0.001\t10.0.0.1\t10.0.0.2\t\t\tTCP\t60\t443 -> 51000 [ACK]", "now".to_string());
    assert_eq!(s.time, "0.001");
    assert_eq!(s.src, "10.0.0.1");
    assert_eq!(s.dest, "10.0.0.2");
    assert_eq!(s.protocol, "TCP");
    assert_eq!(s.length, 60);
    assert_eq!(s.info, "443 -> 51000 [ACK]");
    let v6 = parse_capture_line("\t\t\tfe80::1\tff02::1\tICMPv6\tx", "now".to_string());
    assert_eq!(v6.time, "now");
    assert_eq!(v6.src, "fe80::1");
    assert_eq!(v6.dest, "ff02::1");
    assert_eq!(v6.length, 0);
    assert_eq!(v6.info, "No info");
    let empty = parse_tshark_line("");
    assert_eq!(empty.src, "unknown");
    assert_eq!(empty.protocol, "UNKNOWN");
}

#[test]
fn interface_listing() {
    let text = "1. eth0\n2. wlan0 (Wi-Fi)\r\n\n3. \\Device\\NPF_{AB} (Ethernet (wired))\n4. lo (Loopback\nnot a line\n5.  ()\n";
    let list = parse_interface_list(text);
    assert_eq!(list.len(), 4);
    assert_eq!(list[0].name, "eth0");
    assert_eq!(list[0].description, None);
    assert_eq!(list[1].name, "wlan0");
    assert_eq!(list[1].description, Some("Wi-Fi".to_string()));
    assert_eq!(list[2].name, "\\Device\\NPF_{AB} (Ethernet");
    assert_eq!(list[2].description, Some("wired)".to_string()));
    assert_eq!(list[3].name, "lo (Loopback");
}

#[test]
fn tool_candidates() {
    let c = tshark_path_candidates();
    assert_eq!(c.len(), 3);
    assert_eq!(c[0], "tshark");
    assert_eq!(find_tshark(&c, &[false, true, true]), Some(c[1].clone()));
    assert_eq!(find_tshark(&c, &[false, false, false]), None);
    assert!(tshark_available(&[false, false, true]));
    assert!(!tshark_available(&[]));
}

#[test]
fn capture_loop_steps() {
    assert_eq!(capture_action(false, PollOutcome::Frame), CaptureAction::Emit);
    assert_eq!(capture_action(false, PollOutcome::TimedOut), CaptureAction::Poll);
    assert_eq!(capture_action(false, PollOutcome::Failed), CaptureAction::FailAndStop);
    assert_eq!(capture_action(true, PollOutcome::Frame), CaptureAction::Stop);
}

#[test]
fn open_failures() {
    assert!(try_fallback(true));
    assert!(!try_fallback(false));
    assert_eq!(open_failure_message("no device", None), "Unable to open capture: no device");
    assert_eq!(
        open_failure_message("no device", Some("tshark missing")),
        "Unable to open capture: no device. TShark fallback also failed: tshark missing"
    );
}

#[test]
fn capture_record_time_is_kept() {
    let s = parse_tshark_line(" 12.5 \t1.1.1.1\t2.2.2.2\t\t\tDNS\t80\tquery");
    assert_eq!(s.time, "12.5");
}
