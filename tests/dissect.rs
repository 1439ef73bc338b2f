use net_kit::dissect::{local_time_text, format_ipv4, format_ipv6, summarize_frame, summarize_packet};

fn ethernet(ethertype: u16) -> Vec<u8> {
    let mut f = vec![0u8; 12];
    f.push((ethertype >> 8) as u8);
    f.push((ethertype & 0xff) as u8);
    f
}

fn ipv4_tcp_frame(proto: u8, sport: u16, dport: u16) -> Vec<u8> {
    let mut f = ethernet(0x0800);
    let mut ip = vec![0u8; 20];
    ip[0] = 0x45;
    ip[9] = proto;
    ip[12..16].copy_from_slice(&[192, 168, 1, 10]);
    ip[16..20].copy_from_slice(&[10, 0, 0, 1]);
    f.extend_from_slice(&ip);
    f.extend_from_slice(&sport.to_be_bytes());
    f.extend_from_slice(&dport.to_be_bytes());
    f
}

#[test]
fn tcp_frame_reports_ports() {
    let f = ipv4_tcp_frame(6, 51000, 443);
    let s = summarize_frame(&f, "12:00:00.000".to_string());
    assert_eq!(s.protocol, "TCP");
    assert_eq!(s.info, "51000 -> 443");
    assert_eq!(s.src, "192.168.1.10");
    assert_eq!(s.dest, "10.0.0.1");
    assert_eq!(s.length, 38);
    assert_eq!(s.time, "12:00:00.000");
}

#[test]
fn udp_and_sctp_frames_report_ports() {
    let s = summarize_frame(&ipv4_tcp_frame(17, 53, 5353), String::new());
    assert_eq!((s.protocol.as_str(), s.info.as_str()), ("UDP", "53 -> 5353"));
    let s = summarize_frame(&ipv4_tcp_frame(132, 1, 2), String::new());
    assert_eq!((s.protocol.as_str(), s.info.as_str()), ("SCTP", "1 -> 2"));
}

#[test]
fn other_ipv4_protocols() {
    let s = summarize_frame(&ipv4_tcp_frame(1, 0, 0), String::new());
    assert_eq!((s.protocol.as_str(), s.info.as_str()), ("ICMP", "ICMP"));
    let s = summarize_frame(&ipv4_tcp_frame(50, 0, 0), String::new());
    assert_eq!((s.protocol.as_str(), s.info.as_str()), ("ESP", "ESP"));
    let s = summarize_frame(&ipv4_tcp_frame(51, 0, 0), String::new());
    assert_eq!((s.protocol.as_str(), s.info.as_str()), ("AH", "AH"));
    let s = summarize_frame(&ipv4_tcp_frame(89, 0, 0), String::new());
    assert_eq!((s.protocol.as_str(), s.info.as_str()), ("IPv4", "Protocol 89"));
}

#[test]
fn truncated_tcp_frame_has_no_ports() {
    let mut f = ipv4_tcp_frame(6, 1, 2);
    f.truncate(36);
    let s = summarize_frame(&f, String::new());
    assert_eq!((s.protocol.as_str(), s.info.as_str()), ("TCP", "TCP"));
    let mut g = ipv4_tcp_frame(6, 1, 2);
    g.truncate(28);
    let s = summarize_frame(&g, String::new());
    assert_eq!(s.src, "unknown");
    assert_eq!(s.dest, "unknown");
}

#[test]
fn bare_ipv4_ethernet_header_does_not_crash() {
    let s = summarize_frame(&ethernet(0x0800), String::new());
    assert_eq!(s.protocol, "IPv4");
    assert_eq!(s.info, "Protocol 0");
    assert_eq!(s.src, "unknown");
}

#[test]
fn short_frame_is_raw() {
    let s = summarize_frame(&[0u8; 10], "t".to_string());
    assert_eq!(s.protocol, "RAW");
    assert_eq!(s.info, "Frame too short");
    assert_eq!(s.src, "unknown");
    assert_eq!(s.dest, "unknown");
    assert_eq!(s.length, 10);
    let e = summarize_frame(&[], String::new());
    assert_eq!(e.protocol, "RAW");
}

#[test]
fn ipv6_frames() {
    let mut f = ethernet(0x86DD);
    let mut h = vec![0u8; 40];
    h[6] = 58;
    h[8] = 0xfe;
    h[9] = 0x80;
    h[23] = 1;
    h[24..40].copy_from_slice(&[0x20, 0x01, 0x0d, 0xb8, 0, 0, 0, 0, 0, 1, 0, 0, 0, 0, 0, 2]);
    f.extend_from_slice(&h);
    let s = summarize_frame(&f, String::new());
    assert_eq!(s.protocol, "ICMPv6");
    assert_eq!(s.info, "ICMPv6");
    assert_eq!(s.src, "fe80::1");
    assert_eq!(s.dest, "2001:db8::1:0:0:2");
    f[20] = 99;
    let s = summarize_frame(&f, String::new());
    assert_eq!((s.protocol.as_str(), s.info.as_str()), ("IPv6", "Next header 99"));
    f[20] = 6;
    assert_eq!(summarize_frame(&f, String::new()).protocol, "TCP");
    f[20] = 17;
    assert_eq!(summarize_frame(&f, String::new()).info, "UDP");
}

#[test]
fn ipv6_text_forms() {
    let zero = [0u8; 16];
    assert_eq!(format_ipv6(&zero, 0), "::");
    let mut one = [0u8; 16];
    one[15] = 1;
    assert_eq!(format_ipv6(&one, 0), "::1");
    let mapped = [0, 0, 0, 0, 0, 0, 0, 0, 0, 0, 0xff, 0xff, 192, 0, 2, 1];
    assert_eq!(format_ipv6(&mapped, 0), "::ffff:192.0.2.1");
    let single = [0x20, 0x01, 0x0d, 0xb8, 0, 0, 0, 1, 0, 1, 0, 1, 0, 1, 0, 1];
    assert_eq!(format_ipv6(&single, 0), "2001:db8:0:1:1:1:1:1");
    let first_longest = [0, 1, 0, 0, 0, 0, 0, 2, 0, 3, 0, 0, 0, 0, 0, 4];
    assert_eq!(format_ipv6(&first_longest, 0), "1::2:3:0:0:4");
    assert_eq!(format_ipv6(&[0u8; 15], 0), "unknown");
}

#[test]
fn ipv6_text_common_forms() {
    let samples: [[u8; 16]; 4] = [
        [0xfe, 0x80, 0, 0, 0, 0, 0, 0, 0x02, 0x1a, 0x2b, 0xff, 0xfe, 0x3c, 0x4d, 0x5e],
        [0, 0, 0, 0, 0, 0, 0, 0, 0, 0, 0, 0, 10, 0, 0, 1],
        [0xff, 0x02, 0, 0, 0, 0, 0, 0, 0, 0, 0, 0, 0, 0, 0, 0xfb],
        [0x12, 0x34, 0x56, 0x78, 0x9a, 0xbc, 0xde, 0xf0, 0x12, 0x34, 0x56, 0x78, 0x9a, 0xbc, 0xde, 0xf0],
    ];
    let expected = ["fe80::21a:2bff:fe3c:4d5e", "::a00:1", "ff02::fb", "1234:5678:9abc:def0:1234:5678:9abc:def0"];
    for (b, e) in samples.iter().zip(expected.iter()) {
        assert_eq!(format_ipv6(b, 0), *e);
    }
}

#[test]
fn ipv4_text_at_offset() {
    assert_eq!(format_ipv4(&[9, 9, 10, 0, 0, 255], 2), "10.0.0.255");
    assert_eq!(format_ipv4(&[1, 2, 3], 0), "unknown");
}

#[test]
fn arp_frames() {
    let mut f = ethernet(0x0806);
    let mut a = vec![0u8; 28];
    a[7] = 1;
    a[14..18].copy_from_slice(&[192, 168, 1, 1]);
    a[24..28].copy_from_slice(&[192, 168, 1, 20]);
    f.extend_from_slice(&a);
    let s = summarize_frame(&f, String::new());
    assert_eq!(s.protocol, "ARP");
    assert_eq!(s.info, "Who has? (request)");
    assert_eq!(s.src, "192.168.1.1");
    assert_eq!(s.dest, "192.168.1.20");
    f[21] = 2;
    assert_eq!(summarize_frame(&f, String::new()).info, "Reply");
    f[21] = 9;
    assert_eq!(summarize_frame(&f, String::new()).info, "ARP");
}

#[test]
fn unknown_ethertype() {
    let mut f = ethernet(0x88cc);
    f.extend_from_slice(&[0u8; 10]);
    let s = summarize_frame(&f, String::new());
    assert_eq!(s.protocol, "0x88cc");
    assert_eq!(s.info, "Unrecognized EtherType");
    assert_eq!(s.src, "unknown");
    let s = summarize_frame(&ethernet(0x0042), String::new());
    assert_eq!(s.protocol, "0x0042");
}

#[test]
fn packet_summary_is_stamped() {
    let s = summarize_packet(&ipv4_tcp_frame(6, 80, 8080));
    assert_eq!(s.info, "80 -> 8080");
    assert_eq!(s.time.len(), 12);
}

#[test]
fn local_time_has_clock_shape() {
    let t = local_time_text();
    assert_eq!(t.len(), 12);
    assert_eq!(&t[2..3], ":");
    assert_eq!(&t[8..9], ".");
}
