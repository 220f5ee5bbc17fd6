//! NetworkManager: settings, access points, devices, and the steps of a connect.

use breadcrumbs::config::NetworkDef;
use breadcrumbs::dict::Dict;
use breadcrumbs::nm::{
    access_points, active_ssid, delete_connections_for_ssid, device_connected, device_path,
    first_profile_for_ssid, ipv4_address, is_path, new_uuid, pin_dns, profile_info, scan_list,
    security_string, signal_rank, updated_settings_for, value_bytes, visible_signals,
    visible_ssids, wait_limit, wifi_device_paths, wifi_interface, wifi_interface_preferred,
    wifi_settings, wireless_profiles, AccessPoint, Ask, Call, Connect, Device, Poll, ProfileInfo,
    RawAccessPoint, Reply, ScanEntry, Setting, SettingsMap, AP_FLAG_PRIVACY, DEV_STATE_ACTIVATED,
    SEC_802_1X, SEC_PSK, SEC_SAE,
};

fn net(ssid: &str, password: Option<&str>) -> NetworkDef {
    NetworkDef {
        ssid: ssid.to_string(),
        password: password.map(str::to_string),
        dns: None,
        eap: None,
        identity: None,
        ca_cert: None,
        hidden: false,
    }
}

fn text(s: &str) -> Setting {
    Setting::Text(s.to_string())
}

fn bytes(b: &[u8]) -> Setting {
    Setting::Array(b.iter().map(|x| Setting::U8(*x)).collect())
}

fn at<'a>(s: &'a SettingsMap, section: &str, key: &str) -> Option<&'a Setting> {
    s.get(section).and_then(|m| m.get(key))
}

fn info(id: Option<&str>, kind: &str, ssid: Option<&str>) -> ProfileInfo {
    ProfileInfo {
        id: id.map(str::to_string),
        kind: Some(kind.to_string()),
        ssid: ssid.map(str::to_string),
    }
}

fn ap(ssid: &str, strength: u8, rsn: u32) -> AccessPoint {
    AccessPoint { ssid: ssid.to_string(), strength, flags: AP_FLAG_PRIVACY, wpa: 0, rsn }
}

fn device(path: &str, kind: Option<u32>, interface: Option<&str>) -> Device {
    Device { path: path.to_string(), kind, interface: interface.map(str::to_string) }
}

#[test]
fn security_string_derivation() {
    // Open AP: no privacy bit, no WPA/RSN.
    assert_eq!(security_string(0, 0, 0), "--");
    // WPA2-PSK (RSN PSK set).
    assert_eq!(security_string(AP_FLAG_PRIVACY, 0, SEC_PSK), "WPA2");
    // WPA1+WPA2 (both flag sets carry PSK).
    assert_eq!(security_string(AP_FLAG_PRIVACY, SEC_PSK, SEC_PSK), "WPA1 WPA2");
    // WPA3 (SAE).
    assert_eq!(security_string(AP_FLAG_PRIVACY, 0, SEC_SAE), "WPA3");
    // Enterprise (802.1x key management).
    assert_eq!(security_string(AP_FLAG_PRIVACY, SEC_802_1X, SEC_802_1X), "802.1X");
    // WEP: privacy bit but no WPA/RSN.
    assert_eq!(security_string(AP_FLAG_PRIVACY, 0, 0), "WEP");
}

#[test]
fn signal_rank_handles_percent_suffix() {
    assert_eq!(signal_rank("90 %"), 90);
    assert_eq!(signal_rank("80"), 80);
    assert_eq!(signal_rank("garbage"), -100);
}

#[test]
fn uuid_v4_is_shape_valid() {
    for random in [[0u8; 16], [0xff; 16], [0x5a; 16]] {
        let u = new_uuid(&random);
        let bytes = u.as_bytes();
        assert_eq!(bytes.len(), 36);
        assert_eq!(bytes[8], b'-');
        assert_eq!(bytes[13], b'-');
        assert_eq!(bytes[18], b'-');
        assert_eq!(bytes[23], b'-');
        // Version nibble is 4.
        assert_eq!(bytes[14], b'4');
    }
}

#[test]
fn an_identifier_shows_its_bytes() {
    let random = [
        0x00, 0x11, 0x22, 0x33, 0x44, 0x55, 0x66, 0x77, 0x88, 0x99, 0xaa, 0xbb, 0xcc, 0xdd, 0xee,
        0xff,
    ];
    assert_eq!(new_uuid(&random), "00112233-4455-4677-8899-aabbccddeeff");
    assert_eq!(new_uuid(&[0xff; 16]), "ffffffff-ffff-4fff-bfff-ffffffffffff");
}

#[test]
fn bytes_of_a_value() {
    assert_eq!(value_bytes(&bytes(b"Cafe")), Some(b"Cafe".to_vec()));
    assert_eq!(value_bytes(&bytes(b"")), Some(Vec::new()));
    assert_eq!(value_bytes(&text("Cafe")), None);
    assert_eq!(value_bytes(&Setting::Array(vec![Setting::U8(1), Setting::Bool(true)])), None);
}

#[test]
fn a_new_connection_carries_its_secret() {
    let s = wifi_settings(&net("Café", Some("pw")), "u-u-i-d");
    assert_eq!(at(&s, "connection", "id"), Some(&text("Café")));
    assert_eq!(at(&s, "connection", "type"), Some(&text("802-11-wireless")));
    assert_eq!(at(&s, "connection", "uuid"), Some(&text("u-u-i-d")));
    assert_eq!(at(&s, "802-11-wireless", "ssid"), Some(&bytes("Café".as_bytes())));
    assert_eq!(at(&s, "802-11-wireless", "mode"), Some(&text("infrastructure")));
    assert_eq!(at(&s, "802-11-wireless", "hidden"), Some(&Setting::Bool(false)));
    assert_eq!(at(&s, "802-11-wireless-security", "key-mgmt"), Some(&text("wpa-psk")));
    assert_eq!(at(&s, "802-11-wireless-security", "psk"), Some(&text("pw")));
    assert_eq!(at(&s, "ipv4", "method"), Some(&text("auto")));
    assert_eq!(at(&s, "ipv6", "method"), Some(&text("auto")));
    let i = profile_info(&s);
    assert_eq!(i, info(Some("Café"), "802-11-wireless", Some("Café")));
}

#[test]
fn an_open_connection_has_no_security() {
    let s = wifi_settings(&net("Open", None), "u");
    assert!(s.get("802-11-wireless-security").is_none());
    assert!(s.get("802-1x").is_none());
}

#[test]
fn an_enterprise_connection_without_the_rest() {
    let def = NetworkDef { eap: Some("ttls".into()), ..net("Corp", None) };
    let s = wifi_settings(&def, "u");
    assert_eq!(at(&s, "802-11-wireless-security", "key-mgmt"), Some(&text("wpa-eap")));
    assert_eq!(at(&s, "802-1x", "eap"), Some(&Setting::Array(vec![text("ttls")])));
    assert_eq!(at(&s, "802-1x", "identity"), None);
    assert_eq!(at(&s, "802-1x", "ca-cert"), None);
    assert_eq!(at(&s, "802-1x", "password"), None);
}

#[test]
fn an_update_touches_the_secret_and_the_flag_only() {
    let mut s = wifi_settings(&net("Cafe", Some("old")), "u");
    s.get_or("ipv4", Dict::new()).insert("route-metric", Setting::Other(7));
    let def = NetworkDef { hidden: true, ..net("Cafe", Some("new")) };
    updated_settings_for(&def, &mut s);
    assert_eq!(at(&s, "802-11-wireless-security", "psk"), Some(&text("new")));
    assert_eq!(at(&s, "802-11-wireless", "hidden"), Some(&Setting::Bool(true)));
    assert_eq!(at(&s, "ipv4", "route-metric"), Some(&Setting::Other(7)));
    assert_eq!(at(&s, "connection", "uuid"), Some(&text("u")));
    // Without a password the saved secret stays.
    updated_settings_for(&net("Cafe", None), &mut s);
    assert_eq!(at(&s, "802-11-wireless-security", "psk"), Some(&text("new")));
    // For an enterprise network the password goes elsewhere.
    let corp = NetworkDef { eap: Some("peap".into()), ..net("Cafe", Some("secret")) };
    updated_settings_for(&corp, &mut s);
    assert_eq!(at(&s, "802-1x", "password"), Some(&text("secret")));
    assert_eq!(at(&s, "802-11-wireless-security", "key-mgmt"), Some(&text("wpa-eap")));
}

#[test]
fn an_update_carries_the_enterprise_properties() {
    let corp = NetworkDef {
        eap: Some("peap".into()),
        identity: Some("user@corp".into()),
        ca_cert: Some("/etc/ca.pem".into()),
        ..net("Corp", Some("secret"))
    };
    let mut s = wifi_settings(&net("Corp", Some("psk")), "u");
    updated_settings_for(&corp, &mut s);
    let fresh = wifi_settings(&corp, "v");
    for key in ["eap", "identity", "ca-cert", "password"] {
        assert!(at(&s, "802-1x", key).is_some());
        assert_eq!(at(&s, "802-1x", key), at(&fresh, "802-1x", key));
    }
    // Without a password to send, the saved one stays.
    updated_settings_for(&NetworkDef { password: None, ..corp }, &mut s);
    assert_eq!(at(&s, "802-1x", "password"), Some(&text("secret")));
    assert_eq!(at(&s, "802-1x", "ca-cert"), Some(&bytes(b"file:///etc/ca.pem")));
}

#[test]
fn an_update_for_an_open_network_sets_the_flag_only() {
    let mut s = wifi_settings(&net("Open", None), "u");
    updated_settings_for(&NetworkDef { hidden: true, ..net("Open", None) }, &mut s);
    assert_eq!(at(&s, "802-11-wireless", "hidden"), Some(&Setting::Bool(true)));
    // The section for security is there afterwards, and empty.
    assert!(s.get("802-11-wireless-security").unwrap().entries().is_empty());
    assert!(s.get("802-1x").is_none());
}

#[test]
fn dns_is_pinned_to_one_server() {
    let mut s = wifi_settings(&net("Cafe", None), "u");
    pin_dns(&mut s, "9.9.9.9");
    assert_eq!(at(&s, "ipv4", "dns"), Some(&Setting::Array(vec![text("9.9.9.9")])));
    assert_eq!(at(&s, "ipv4", "ignore-auto-dns"), Some(&Setting::Bool(true)));
    assert_eq!(at(&s, "ipv4", "method"), Some(&text("auto")));
}

#[test]
fn the_profile_for_an_ssid() {
    let wifi = "802-11-wireless";
    let list = vec![
        ("/a".to_string(), None),
        ("/b".to_string(), Some(info(Some("Cafe 2"), wifi, None))),
        ("/c".to_string(), Some(info(Some("other"), wifi, Some("Cafe")))),
        ("/d".to_string(), Some(info(Some("Cafe"), wifi, None))),
    ];
    assert_eq!(first_profile_for_ssid(&list, "Cafe").as_deref(), Some("/c"));
    assert_eq!(first_profile_for_ssid(&list, "Caf"), None);
    let numbered = vec![
        ("/x".to_string(), Some(info(Some("Cafe two"), wifi, None))),
        ("/y".to_string(), Some(info(Some("Cafe 2"), wifi, None))),
        ("/z".to_string(), Some(info(Some("Cafe 3"), wifi, None))),
    ];
    assert_eq!(first_profile_for_ssid(&numbered, "Cafe").as_deref(), Some("/y"));
    assert_eq!(first_profile_for_ssid(&Vec::new(), "Cafe"), None);
    // A number without a space is another name.
    for other in ["Home2", "Home  2", "Home ", "Home 2 ", "Home x"] {
        let list = vec![("/h".to_string(), Some(info(Some(other), wifi, Some(other))))];
        assert_eq!(first_profile_for_ssid(&list, "Home"), None, "{other}");
    }
}

#[test]
fn wireless_profiles_by_name_and_ssid() {
    let list = vec![
        Some(info(Some("Home"), "802-11-wireless", Some("HomeWifi"))),
        None,
        Some(info(Some("Wired"), "802-3-ethernet", None)),
        Some(info(Some("Bare"), "802-11-wireless", None)),
    ];
    assert_eq!(
        wireless_profiles(&list),
        vec![
            ("Home".to_string(), "HomeWifi".to_string()),
            ("Bare".to_string(), "Bare".to_string())
        ]
    );
    assert_eq!(delete_connections_for_ssid(&list, "HomeWifi"), vec![0]);
    assert_eq!(delete_connections_for_ssid(&list, "Bare"), vec![3]);
    assert!(delete_connections_for_ssid(&list, "Nowhere").is_empty());
}

#[test]
fn ssids_are_decoded_and_empty_ones_are_not_visible() {
    let raw = |ssid: &[u8]| RawAccessPoint {
        ssid: ssid.to_vec(),
        strength: 50,
        flags: 0,
        wpa: 0,
        rsn: 0,
    };
    let aps = access_points(&vec![raw("Café".as_bytes()), raw(b""), raw(b"bad\xff"), raw("Café".as_bytes())]);
    let names: Vec<&str> = aps.iter().map(|a| a.ssid.as_str()).collect();
    assert_eq!(names, vec!["Café", "", "bad\u{fffd}", "Café"]);
    assert_eq!(visible_ssids(&aps), vec!["Café".to_string(), "bad\u{fffd}".to_string()]);
    assert_eq!(active_ssid(&b"Cafe".to_vec()).as_deref(), Some("Cafe"));
    assert_eq!(active_ssid(&b"\xff".to_vec()).as_deref(), Some("\u{fffd}"));
    assert_eq!(active_ssid(&Vec::new()), None);
}

#[test]
fn the_strongest_signal_counts() {
    let aps = vec![ap("A", 10, SEC_PSK), ap("B", 50, SEC_SAE), ap("A", 30, SEC_SAE), ap("A", 20, 0)];
    let mut signals = visible_signals(&aps);
    signals.sort();
    assert_eq!(signals, vec![("A".to_string(), 30), ("B".to_string(), 50)]);
    let entry = |ssid: &str, signal: &str, security: &str| ScanEntry {
        ssid: ssid.to_string(),
        signal: signal.to_string(),
        security: security.to_string(),
    };
    assert_eq!(scan_list(&aps), vec![entry("A", "30", "WPA3"), entry("B", "50", "WPA3")]);
}

#[test]
fn devices_are_found_by_kind_and_name() {
    let list = vec![
        device("/0", Some(1), Some("eth0")),
        device("/1", Some(2), None),
        device("/2", Some(2), Some("wlan0")),
        device("/3", None, Some("odd0")),
        device("/4", Some(2), Some("wlan1")),
    ];
    assert_eq!(device_path(&list, "eth0").as_deref(), Some("/0"));
    assert_eq!(device_path(&list, "none"), None);
    // The search by name ends at a device whose name cannot be read.
    assert_eq!(device_path(&list, "wlan0"), None);
    assert_eq!(wifi_device_paths(&list), vec!["/1", "/2", "/4"]);
    // So does the choice of an interface.
    assert_eq!(wifi_interface(&list), None);
    let named = vec![
        device("/0", Some(1), None),
        device("/2", Some(2), Some("wlan0")),
        device("/4", Some(2), Some("wlan1")),
    ];
    assert_eq!(wifi_interface(&named).as_deref(), Some("wlan0"));
    assert_eq!(wifi_interface_preferred(&named, Some("wlan1")).as_deref(), Some("wlan1"));
    assert_eq!(wifi_interface(&vec![device("/0", Some(1), Some("eth0"))]), None);
    assert!(device_connected(Some(DEV_STATE_ACTIVATED)));
    assert!(!device_connected(Some(30)));
    assert!(!device_connected(None));
    assert!(is_path("/org/x"));
    assert!(!is_path("/"));
}

#[test]
fn addresses_and_waits() {
    assert_eq!(ipv4_address(&vec![(0x0a00_0102, 24, 0), (1, 2, 3)]).as_deref(), Some("10.0.1.2"));
    assert_eq!(ipv4_address(&Vec::new()), None);
    assert_eq!(wait_limit(0), 1);
    assert_eq!(wait_limit(8), 8);
}

// ---- Connecting ----

fn wlan() -> Vec<Device> {
    vec![device("/dev/1", Some(2), Some("wlan0"))]
}

/// A connect that has got as far as the list of saved profiles.
fn connecting(def: &NetworkDef, dns: &str) -> Connect {
    let (mut c, first) = Connect::new("wlan0", def, 8, dns, [7; 16]);
    assert!(matches!(first, Ask::OpenBus));
    assert!(matches!(c.next(Reply::Bus(true)), Ask::ListDevices));
    assert!(matches!(c.next(Reply::Devices(wlan())), Ask::ListProfiles));
    c
}

fn saved(ssid: &str) -> Reply {
    Reply::Profiles(vec![("/p".to_string(), Some(info(Some(ssid), "802-11-wireless", None)))])
}

fn error(ask: Ask) -> String {
    match ask {
        Ask::Finish(Err(e)) => e,
        other => panic!("expected an error, got {other:?}"),
    }
}

fn succeeded(ask: Ask) -> bool {
    matches!(ask, Ask::Finish(Ok(())))
}

#[test]
fn a_connect_needs_the_bus_and_the_device() {
    let def = net("Cafe", Some("pw"));
    let (mut c, _) = Connect::new("wlan0", &def, 8, "", [0; 16]);
    assert_eq!(error(c.next(Reply::Bus(false))), "cannot connect to the D-Bus system bus");
    let (mut c, _) = Connect::new("wlan9", &def, 8, "", [0; 16]);
    let _ = c.next(Reply::Bus(true));
    assert_eq!(
        error(c.next(Reply::Devices(wlan()))),
        "no NetworkManager device named 'wlan9'"
    );
}

#[test]
fn a_new_network_is_added_with_its_settings() {
    let mut c = connecting(&net("Cafe", Some("pw")), "");
    let ask = c.next(Reply::Profiles(Vec::new()));
    assert!(matches!(ask, Ask::AddAndActivate { device } if device == "/dev/1"));
    assert_eq!(at(c.settings(), "802-11-wireless-security", "psk"), Some(&text("pw")));
    assert_eq!(at(c.settings(), "connection", "uuid"), Some(&text(&new_uuid(&[7; 16]))));
    assert!(matches!(c.next(Reply::Called(Call::Done)), Ask::PollDevice(d) if d == "/dev/1"));
    assert!(matches!(c.next(Reply::Polled(Poll::State(50), false)), Ask::PollDevice(_)));
    assert!(succeeded(c.next(Reply::Polled(Poll::State(DEV_STATE_ACTIVATED), true))));
}

#[test]
fn a_saved_profile_is_used_again() {
    // Without a secret to send it is activated as it is.
    let mut c = connecting(&net("Cafe", None), "");
    let ask = c.next(saved("Cafe"));
    assert!(matches!(ask, Ask::Activate { profile, device } if profile == "/p" && device == "/dev/1"));
    assert!(matches!(c.next(Reply::Called(Call::Done)), Ask::PollDevice(_)));

    // With one it is brought up to date first.
    let mut c = connecting(&net("Cafe", Some("new")), "");
    assert!(matches!(c.next(saved("Cafe")), Ask::ReadSettings(p) if p == "/p"));
    let old = wifi_settings(&net("Cafe", Some("old")), "u");
    assert!(matches!(c.next(Reply::Settings(Some(old))), Ask::Update(p) if p == "/p"));
    assert_eq!(at(c.settings(), "802-11-wireless-security", "psk"), Some(&text("new")));
    assert!(matches!(c.next(Reply::Called(Call::Done)), Ask::Activate { .. }));
}

#[test]
fn dns_is_pinned_once_the_device_is_up() {
    let mut c = connecting(&net("Cafe", None), "9.9.9.9");
    let _ = c.next(saved("Cafe"));
    let _ = c.next(Reply::Called(Call::Done));
    let ask = c.next(Reply::Polled(Poll::State(DEV_STATE_ACTIVATED), false));
    assert!(matches!(ask, Ask::FindActive(i) if i == "wlan0"));
    assert!(matches!(c.next(Reply::Path(Some("/p".into()))), Ask::ReadSettings(_)));
    let s = wifi_settings(&net("Cafe", None), "u");
    assert!(matches!(c.next(Reply::Settings(Some(s))), Ask::Update(p) if p == "/p"));
    assert_eq!(
        at(c.settings(), "ipv4", "dns"),
        Some(&Setting::Array(vec![text("9.9.9.9")]))
    );
    assert!(matches!(c.next(Reply::Called(Call::Done)), Ask::ListDevices));
    assert!(matches!(c.next(Reply::Devices(wlan())), Ask::Reapply(d) if d == "/dev/1"));
    assert!(succeeded(c.next(Reply::Called(Call::Failed("busy".into())))));
}

#[test]
fn dns_that_cannot_be_pinned_is_no_failure() {
    let up = |dns: &str| {
        let mut c = connecting(&net("Cafe", None), dns);
        let _ = c.next(saved("Cafe"));
        let _ = c.next(Reply::Called(Call::Done));
        let ask = c.next(Reply::Polled(Poll::State(DEV_STATE_ACTIVATED), false));
        (c, ask)
    };
    let (_, ask) = up("  ");
    assert!(succeeded(ask));
    let (mut c, _) = up("9.9.9.9");
    assert!(succeeded(c.next(Reply::Path(None))));
    let (mut c, _) = up("9.9.9.9");
    let _ = c.next(Reply::Path(Some("/p".into())));
    assert!(succeeded(c.next(Reply::Settings(None))));
    let (mut c, _) = up("9.9.9.9");
    let _ = c.next(Reply::Path(Some("/p".into())));
    let _ = c.next(Reply::Settings(Some(Dict::new())));
    assert!(succeeded(c.next(Reply::Called(Call::Unavailable))));
    let (mut c, _) = up("9.9.9.9");
    let _ = c.next(Reply::Path(Some("/p".into())));
    let _ = c.next(Reply::Settings(Some(Dict::new())));
    let _ = c.next(Reply::Called(Call::Failed("denied".into())));
    assert!(succeeded(c.next(Reply::Devices(Vec::new()))));
}

#[test]
fn what_may_go_wrong_in_a_connect() {
    let mut c = connecting(&net("Cafe", Some("pw")), "");
    let _ = c.next(saved("Cafe"));
    assert_eq!(
        error(c.next(Reply::Settings(None))),
        "failed to read saved profile settings"
    );

    let mut c = connecting(&net("Cafe", Some("pw")), "");
    let _ = c.next(saved("Cafe"));
    let _ = c.next(Reply::Settings(Some(Dict::new())));
    assert_eq!(
        error(c.next(Reply::Called(Call::Unavailable))),
        "NetworkManager Settings.Connection unavailable"
    );

    let mut c = connecting(&net("Cafe", None), "");
    let _ = c.next(saved("Cafe"));
    assert_eq!(error(c.next(Reply::Called(Call::Unavailable))), "NetworkManager unavailable");

    let mut c = connecting(&net("Cafe", None), "");
    let _ = c.next(Reply::Profiles(Vec::new()));
    assert_eq!(error(c.next(Reply::Called(Call::Failed("denied".into())))), "D-Bus: denied");

    let waiting = || {
        let mut c = connecting(&net("Cafe", None), "");
        let _ = c.next(saved("Cafe"));
        let _ = c.next(Reply::Called(Call::Done));
        c
    };
    assert_eq!(
        error(waiting().next(Reply::Polled(Poll::State(50), true))),
        "timed out waiting for device /dev/1 to activate after 8s"
    );
    assert_eq!(
        error(waiting().next(Reply::Polled(Poll::Gone, false))),
        "device disappeared while waiting for activation"
    );
    assert_eq!(
        error(waiting().next(Reply::Polled(Poll::Failed("lost".into()), false))),
        "D-Bus: lost"
    );
}

#[test]
fn entries_by_name() {
    let mut d: Dict<Setting> = Dict::new();
    assert!(d.get("a").is_none());
    d.insert("a", Setting::U8(1));
    d.insert("b", Setting::U8(2));
    d.insert("a", Setting::U8(3));
    assert_eq!(d.entries(), &vec![("a".to_string(), Setting::U8(3)), ("b".to_string(), Setting::U8(2))]);
    *d.get_or("c", Setting::U8(4)) = Setting::Bool(true);
    assert_eq!(d.get("c"), Some(&Setting::Bool(true)));
    let e = Dict::from_entries(vec![("x".to_string(), Setting::U8(1)), ("x".to_string(), Setting::U8(2))]);
    assert_eq!(e.get("x"), Some(&Setting::U8(1)));
}
