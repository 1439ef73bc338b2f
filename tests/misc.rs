use net_kit::terminal::combine_command_output;
use net_kit::config::FirebaseConfigData;
use net_kit::honey::{honey_banner, honey_profile_label};
use net_kit::wifi::{channel_to_frequency, frequency_to_channel, is_bssid, unix_timestamp};

#[test]
fn channel_frequency_conversions() {
    assert_eq!(channel_to_frequency(0), None);
    assert_eq!(channel_to_frequency(1), Some(2412));
    assert_eq!(channel_to_frequency(14), Some(2477));
    assert_eq!(channel_to_frequency(36), Some(5180));
    assert_eq!(frequency_to_channel(2484), Some(14));
    assert_eq!(frequency_to_channel(2412), Some(1));
    assert_eq!(frequency_to_channel(2472), Some(13));
    assert_eq!(frequency_to_channel(5180), Some(36));
    assert_eq!(frequency_to_channel(6000), None);
}

#[test]
fn bssid_tokens() {
    assert!(is_bssid("aa:bb:cc:dd:ee:ff"));
    assert!(!is_bssid("aa-bb-cc-dd-ee-ff"));
    assert!(!is_bssid("aa:bb:cc:dd:ee"));
}

#[test]
fn timestamp_is_after_2020() {
    assert!(unix_timestamp() > 1_577_836_800);
}

#[test]
fn honeypot_profiles() {
    assert_eq!(honey_banner("SSH"), b"SSH-2.0-OpenSSH_8.9p1\r\n".to_vec());
    assert_eq!(honey_banner("rdp"), b"\x03\x00\x00\x0b\x06\xd0\x00\x00\x12\x34\x00".to_vec());
    assert_eq!(honey_banner("Database"), b"-ERR invalid protocol\r\n".to_vec());
    assert!(honey_banner("anything").starts_with(b"HTTP/1.1 200 OK\r\n"));
    assert_eq!(honey_profile_label("Telnet"), "TELNET");
    assert_eq!(honey_profile_label("FTP"), "FTP");
    assert_eq!(honey_profile_label("database"), "DB");
    assert_eq!(honey_profile_label("web"), "WEB");
}

fn cfg(api: Option<&str>, domain: Option<&str>, project: Option<&str>, app: Option<&str>) -> FirebaseConfigData {
    let mut c = FirebaseConfigData::empty();
    c.api_key = api.map(|s| s.to_string());
    c.auth_domain = domain.map(|s| s.to_string());
    c.project_id = project.map(|s| s.to_string());
    c.app_id = app.map(|s| s.to_string());
    c
}

#[test]
fn config_values_are_normalized() {
    assert_eq!(FirebaseConfigData::normalize(Some("  key \n".to_string())), Some("key".to_string()));
    assert_eq!(FirebaseConfigData::normalize(Some("   ".to_string())), None);
    assert_eq!(FirebaseConfigData::normalize(None), None);
}

#[test]
fn config_merge_prefers_first() {
    let a = cfg(Some(" a "), Some(""), None, None);
    let b = cfg(Some("b"), Some("d"), Some(" p "), None);
    let m = a.merge(b);
    assert_eq!(m.api_key, Some("a".to_string()));
    assert_eq!(m.auth_domain, Some("d".to_string()));
    assert_eq!(m.project_id, Some("p".to_string()));
    assert_eq!(m.app_id, None);
    assert_eq!(m.missing_required(), vec!["appId"]);
}

#[test]
fn config_missing_required() {
    assert_eq!(cfg(None, None, None, None).missing_required(), vec!["apiKey", "authDomain", "projectId", "appId"]);
    assert_eq!(cfg(Some(""), Some("x"), Some("y"), Some("z")).missing_required(), vec!["apiKey"]);
    assert!(cfg(Some("k"), Some("x"), Some("y"), Some("z")).missing_required().is_empty());
}

#[test]
fn command_reports() {
    assert_eq!(combine_command_output("hello\n", "", true), "hello");
    assert_eq!(combine_command_output("  out  \n", "err\n", true), "  out\nerr");
    assert_eq!(combine_command_output(" \n", "boom\n", false), "boom\n\n(non-zero exit; command may require admin or flags)");
    assert_eq!(combine_command_output("", " ", false), "(no output; command may require admin or produced nothing)");
}
