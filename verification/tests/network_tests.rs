use cos_niri_bar::network::{parse_terse_line, NetworkService, NetworkState, WifiNetwork};

#[test]
fn terse_lines_unescape_colons_and_backslashes() {
    assert_eq!(parse_terse_line("yes:My\\:Net:80"), vec!["yes", "My:Net", "80"]);
    assert_eq!(parse_terse_line("a\\\\:b"), vec!["a\\", "b"]);
    assert_eq!(parse_terse_line("x\\y"), vec!["x\\y"]);
    assert_eq!(parse_terse_line(""), vec![""]);
    assert_eq!(parse_terse_line("a::"), vec!["a", "", ""]);
}

#[test]
fn radio_state() {
    assert!(NetworkService::wifi_enabled_from_output(" Enabled\n"));
    assert!(!NetworkService::wifi_enabled_from_output("disabled\n"));
}

#[test]
fn saved_wifi_connections() {
    let out = "Home:802-11-wireless\nWired connection 1:802-3-ethernet\nCafe\\:Free:802-11-wireless\n";
    let ssids = NetworkService::known_ssids_from_output(out);
    assert_eq!(ssids, vec!["Home"]);
}

#[test]
fn state_from_the_access_point_list() {
    let listing = "no:Other:40\nyes:Home:72\n*:Second:90\n";
    let s = NetworkService::state_from_output(true, listing);
    assert!(s.is_enabled);
    assert_eq!(s.ssid.as_deref(), Some("Home"));
    assert_eq!(s.signal, Some(72));
    assert_eq!(NetworkService::get_active_ssid(&s).as_deref(), Some("Home"));
    assert_eq!(NetworkService::get_active_signal(&s), Some(72));
    let off = NetworkService::state_from_output(false, listing);
    assert!(!off.is_enabled && off.ssid.is_none() && off.signal.is_none());
}

#[test]
fn scanned_networks_merge_and_rank() {
    let listing = "no:Cafe:40\nyes:Home:55\nno:Cafe:80\nno: :99\nno:Lab:70\n";
    let known = vec!["Lab".to_string()];
    let nets: Vec<WifiNetwork> = NetworkService::networks_from_listing(listing, &known);
    assert_eq!(nets.len(), 3);
    assert_eq!(nets[0].ssid, "Home");
    assert!(nets[0].is_connected);
    assert_eq!(nets[1].ssid, "Cafe");
    assert_eq!(nets[1].signal, 80);
    assert_eq!(nets[2].ssid, "Lab");
    assert!(nets[2].is_known);
    assert!(!nets[1].is_known);
}

#[test]
fn no_networks_are_listed_while_the_radio_is_off() {
    let listing = "yes:Home:55\n";
    let known = vec!["Home".to_string()];
    assert!(NetworkService::get_scanned_networks(false, listing, &known).is_empty());
    let nets = NetworkService::get_scanned_networks(true, listing, &known);
    assert_eq!(nets.len(), 1);
    assert_eq!(nets[0].ssid, "Home");
    assert!(nets[0].is_connected && nets[0].is_known);
}

#[test]
fn scan_networks_is_the_scanned_list() {
    let listing = "no:B:60\nno:A:60\nno:C:90\nno:B:10\n";
    let known: Vec<String> = Vec::new();
    let a = NetworkService::scan_networks(true, listing, &known);
    let b = NetworkService::get_scanned_networks(true, listing, &known);
    let names: Vec<&str> = a.iter().map(|n| n.ssid.as_str()).collect();
    assert_eq!(names, vec!["C", "B", "A"]);
    let key = |v: &Vec<WifiNetwork>| -> Vec<(String, u32, bool, bool)> {
        v.iter().map(|n| (n.ssid.clone(), n.signal, n.is_connected, n.is_known)).collect()
    };
    assert_eq!(key(&a), key(&b));
    assert!(NetworkService::scan_networks(false, listing, &known).is_empty());
}

#[test]
fn wifi_device_and_command_arguments() {
    assert_eq!(NetworkService::wifi_device_from_output("eth0:ethernet\nwlan0:wifi\n").as_deref(), Some("wlan0"));
    assert_eq!(NetworkService::wifi_device_from_output("eth0:ethernet\n"), None);
    assert_eq!(NetworkService::connect_network("Home", Some("pw")), vec!["dev", "wifi", "connect", "Home", "password", "pw"]);
    assert_eq!(NetworkService::connect_network("Home", Some("")), vec!["dev", "wifi", "connect", "Home"]);
    assert_eq!(NetworkService::disconnect_args(Some("Home"), None).unwrap(), vec!["connection", "down", "id", "Home"]);
    assert_eq!(NetworkService::disconnect_args(None, Some("wlan0".to_string())).unwrap(), vec!["dev", "disconnect", "wlan0"]);
    assert!(NetworkService::disconnect_args(None, None).is_none());
    assert_eq!(NetworkService::radio_args(false), vec!["radio", "wifi", "off"]);
    assert_eq!(NetworkService::rescan_args(), vec!["dev", "wifi", "rescan"]);
}

#[test]
fn wifi_glyphs() {
    assert_eq!(NetworkService::signal_icon_code(80), "\u{e1d8}");
    assert_eq!(NetworkService::signal_icon_code(60), "\u{ebe1}");
    assert_eq!(NetworkService::signal_icon_code(30), "\u{ebd6}");
    assert_eq!(NetworkService::signal_icon_code(10), "\u{ebe4}");
    let off = NetworkState { is_enabled: false, ssid: None, signal: None };
    assert_eq!(NetworkService::wifi_icon_code(&off), "\u{e648}");
    let no_signal = NetworkState { is_enabled: true, ssid: Some("Home".to_string()), signal: None };
    assert_eq!(NetworkService::wifi_icon_code(&no_signal), "\u{e1d8}");
    let idle = NetworkState { is_enabled: true, ssid: None, signal: None };
    assert_eq!(NetworkService::wifi_icon_code(&idle), "\u{e648}");
}
