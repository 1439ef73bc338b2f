use net_kit::addr::parse_ipv4;
use net_kit::ports::PortError;
use net_kit::discovery::HostRecord;
use net_kit::scan::{
    needs_port_probe, unlisted_record, wants_hostname, with_hostname, percent, probe_timeout_ms, start_host_scan, start_port_scan, worker_count, HostScanStart, HostUnit,
    Lifecycle, ScanEnd, ScanError,
};

#[test]
fn stop_on_idle_engine_is_harmless() {
    let mut e = Lifecycle::new();
    assert_eq!(e.stop(), ScanEnd::Stopped);
    assert!(!e.running);
    assert_eq!(e.start(), Ok(()));
    assert!(!e.cancel_requested);
}

#[test]
fn start_then_stop_ends_stopped_and_releases() {
    let mut e = Lifecycle::new();
    assert_eq!(e.start(), Ok(()));
    assert_eq!(e.start(), Err(ScanError::AlreadyRunning));
    e.request_cancel();
    assert!(e.running);
    assert!(!e.should_continue());
    assert_eq!(e.finish(3), ScanEnd::Stopped);
    assert_eq!(e.stop(), ScanEnd::Stopped);
    assert!(!e.running);
    assert_eq!(e.start(), Ok(()));
    assert!(e.should_continue());
    assert_eq!(e.finish(3), ScanEnd::Done { count: 3 });
}

#[test]
fn stop_leaves_engine_idle_and_restartable() {
    let mut e = Lifecycle::new();
    assert!(matches!(start_host_scan(&mut e, "192.168.1.0/24"), Ok(HostScanStart::Probe(_))));
    assert_eq!(e.stop(), ScanEnd::Stopped);
    assert!(!e.running);
    assert!(matches!(start_host_scan(&mut e, "192.168.1.0/24"), Ok(HostScanStart::Probe(_))));
    assert_eq!(e.stop(), ScanEnd::Stopped);
    assert!(start_port_scan(&mut e, "22").is_ok());
}

#[test]
fn slash_24_hands_out_one_unit_per_address() {
    let mut e = Lifecycle::new();
    let mut s = match start_host_scan(&mut e, "10.9.8.0/24") {
        Ok(HostScanStart::Probe(s)) => s,
        _ => panic!("a /24 must be probed"),
    };
    assert_eq!(s.unit_count(), 256);
    let mut probed = 0;
    while let HostUnit::Probe(_) = s.next_unit(false) {
        probed += 1;
        s.unit_done();
    }
    assert_eq!(probed, 256);
}

#[test]
fn unit_steps_for_unlisted_hosts() {
    let listed = HostRecord::neighbor("10.0.0.2".to_string(), "aa:bb:cc:dd:ee:ff".to_string(), String::new());
    assert!(wants_hostname(&listed));
    let named = with_hostname(listed, Some("nas".to_string()));
    assert_eq!(named.hostname, "nas");
    assert!(!wants_hostname(&named));
    assert_eq!(with_hostname(named, Some("other".to_string())).hostname, "nas");
    assert!(needs_port_probe(true, &None));
    assert!(!needs_port_probe(true, &Some("pc".to_string())));
    assert!(!needs_port_probe(false, &None));
    let r = unlisted_record("10.0.0.3".to_string(), true, None, true).unwrap();
    assert_eq!(r.mac, "unknown");
    assert_eq!(r.hostname, "");
    assert_eq!(unlisted_record("10.0.0.3".to_string(), true, Some("pc".to_string()), false).unwrap().hostname, "pc");
    assert!(unlisted_record("10.0.0.3".to_string(), true, None, false).is_none());
    assert!(unlisted_record("10.0.0.3".to_string(), false, Some("pc".to_string()), true).is_none());
}

#[test]
fn host_scan_of_slash_24_proceeds() {
    let mut e = Lifecycle::new();
    match start_host_scan(&mut e, "192.168.1.0/24") {
        Ok(HostScanStart::Probe(mut s)) => {
            assert!(e.running);
            assert_eq!(s.next_unit(false), HostUnit::Probe(parse_ipv4("192.168.1.0").unwrap()));
            assert_eq!(s.unit_done(), 0);
            assert_eq!(s.next_unit(false), HostUnit::Probe(parse_ipv4("192.168.1.1").unwrap()));
            assert_eq!(s.unit_done(), 0);
            assert_eq!(s.next_unit(true), HostUnit::Finished);
        }
        _ => panic!("a /24 must be probed"),
    }
}

#[test]
fn host_scan_of_slash_16_is_refused_before_probing() {
    let mut e = Lifecycle::new();
    assert!(matches!(start_host_scan(&mut e, "10.1.0.0/16"), Ok(HostScanStart::TooLarge)));
    assert!(!e.running);
    assert!(matches!(start_host_scan(&mut e, "10.1.0.0/23"), Ok(HostScanStart::Probe(_))));
}

#[test]
fn host_scan_validation_comes_first() {
    let mut e = Lifecycle::new();
    assert!(matches!(start_host_scan(&mut e, "10.1.0.0/31"), Err(ScanError::InvalidSubnet(_))));
    assert!(!e.running);
    e.start().unwrap();
    assert!(matches!(start_host_scan(&mut e, "10.1.0.0/24"), Err(ScanError::AlreadyRunning)));
}

#[test]
fn hosts_are_reported_once() {
    let mut e = Lifecycle::new();
    let mut s = match start_host_scan(&mut e, "192.168.1.10/30") {
        Ok(HostScanStart::Probe(s)) => s,
        _ => panic!("a /30 must be probed"),
    };
    assert!(s.offer("192.168.1.9"));
    assert!(!s.offer("192.168.1.9"));
    assert!(s.offer("192.168.1.11"));
    assert!(!s.offer("192.168.1.12"));
    assert!(!s.offer("192.168.1.7"));
    assert!(!s.offer("garbage"));
    assert!(s.offer("192.168.1.8"));
    assert_eq!(s.found_count(), 3);
    let mut units = Vec::new();
    let mut last = 0;
    loop {
        match s.next_unit(false) {
            HostUnit::Probe(ip) => {
                units.push(ip);
                last = s.unit_done();
            }
            HostUnit::Skip(_) => {}
            HostUnit::Finished => break,
        }
    }
    assert_eq!(units.len(), 4);
    assert_eq!(last, 100);
    assert_eq!(e.finish(s.found_count()), ScanEnd::Done { count: 3 });
}

#[test]
fn special_addresses_are_skipped() {
    let mut e = Lifecycle::new();
    let mut s = match start_host_scan(&mut e, "224.0.0.0/30") {
        Ok(HostScanStart::Probe(s)) => s,
        _ => panic!("a /30 must be probed"),
    };
    assert!(matches!(s.next_unit(false), HostUnit::Skip(_)));
    assert!(!s.offer("224.0.0.1"));
}

#[test]
fn port_scan_reports_each_port_once() {
    let mut e = Lifecycle::new();
    let mut s = start_port_scan(&mut e, "80,22,443").unwrap();
    assert_eq!(s.next_port(false), Some((0, 22)));
    assert!(s.record_open(0));
    assert!(!s.record_open(0));
    assert_eq!(s.unit_done(), 33);
    assert_eq!(s.next_port(false), Some((1, 80)));
    assert_eq!(s.unit_done(), 66);
    assert_eq!(s.next_port(false), Some((2, 443)));
    assert!(s.record_open(2));
    assert_eq!(s.unit_done(), 100);
    assert_eq!(s.next_port(false), None);
    assert_eq!(s.found_count(), 2);
    assert_eq!(e.finish(s.found_count()), ScanEnd::Done { count: 2 });
}

#[test]
fn port_scan_cancelled_hands_out_nothing() {
    let mut e = Lifecycle::new();
    let mut s = start_port_scan(&mut e, "1-10").unwrap();
    e.request_cancel();
    assert_eq!(s.next_port(!e.should_continue()), None);
    assert_eq!(e.finish(s.found_count()), ScanEnd::Stopped);
    assert!(start_port_scan(&mut e, "1").is_ok());
}

#[test]
fn port_scan_validation() {
    let mut e = Lifecycle::new();
    assert!(matches!(start_port_scan(&mut e, "0"), Err(ScanError::InvalidPorts(PortError::InvalidPort))));
    assert!(!e.running);
    e.start().unwrap();
    assert!(matches!(start_port_scan(&mut e, "22"), Err(ScanError::AlreadyRunning)));
    assert_eq!(e.release(), ScanEnd::Stopped);
    assert!(!e.running);
}

#[test]
fn timeouts_and_workers() {
    assert_eq!(probe_timeout_ms(None), 200);
    assert_eq!(probe_timeout_ms(Some(10)), 50);
    assert_eq!(probe_timeout_ms(Some(5000)), 2000);
    assert_eq!(probe_timeout_ms(Some(750)), 750);
    assert_eq!(worker_count(0), 1);
    assert_eq!(worker_count(4), 4);
    assert_eq!(worker_count(256), 64);
    assert_eq!(percent(1, 3), 33);
    assert_eq!(percent(2, 3), 66);
    assert_eq!(percent(3, 3), 100);
}
