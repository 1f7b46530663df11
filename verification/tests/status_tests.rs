use cos_niri_bar::battery::{BatteryInfo, BatteryService};
use cos_niri_bar::bluetooth::{BluetoothDevice, BluetoothService};
use cos_niri_bar::brightness::BrightnessService;
use cos_niri_bar::night_light::NightLightService;
use cos_niri_bar::power_profile::{PowerProfile, PowerProfileService};

#[test]
fn battery_from_sysfs() {
    let b = BatteryService::info_from_sysfs(" 87\n", Some("Charging\n")).unwrap();
    assert_eq!(b.capacity, 87);
    assert_eq!(b.status, "Charging");
    assert!(b.is_present);
    let full = BatteryService::info_from_sysfs("150", None).unwrap();
    assert_eq!(full.capacity, 100);
    assert_eq!(full.status, "Discharging");
    assert!(BatteryService::info_from_sysfs("abc", Some("Full")).is_none());
    assert!(BatteryService::info_from_sysfs("-5", None).is_none());
}

#[test]
fn battery_from_upower() {
    let out = "  native-path:          BAT0\n  state:               discharging\n  percentage:          64%\n";
    let b = BatteryService::info_from_upower(out).unwrap();
    assert_eq!(b.capacity, 64);
    assert_eq!(b.status, "discharging");
    let odd = BatteryService::info_from_upower("percentage: n/a\n").unwrap();
    assert_eq!(odd.capacity, 100);
    assert!(BatteryService::info_from_upower("state: charging\n").is_none());
}

#[test]
fn battery_choice_and_glyphs() {
    let none = BatteryService::get_info(None, None);
    assert_eq!(none.capacity, 100);
    assert_eq!(none.status, "Full");
    assert!(!none.is_present);
    assert_eq!(BatteryService::battery_icon_code(&none), "\u{ebd2}");
    let up = BatteryInfo { capacity: 3, status: "Discharging".to_string(), is_present: true };
    let chosen = BatteryService::get_info(None, Some(up));
    assert_eq!(BatteryService::battery_icon_code(&chosen), "\u{e19c}");
    let charging = BatteryInfo { capacity: 3, status: "charging".to_string(), is_present: true };
    assert_eq!(BatteryService::battery_icon_code(&charging), "\u{e2ae}");
    let half = BatteryInfo { capacity: 50, status: "Discharging".to_string(), is_present: true };
    assert_eq!(BatteryService::battery_icon_code(&half), "\u{ebdd}");
    let files = BatteryService::supply_files();
    assert_eq!(files[1].0, "/sys/class/power_supply/BAT1/capacity");
}

#[test]
fn bluetooth_state_and_devices() {
    assert!(BluetoothService::is_bluetooth_enabled(Some("Controller X\n\tPowered: yes\n")));
    assert!(!BluetoothService::is_bluetooth_enabled(Some("\tPowered: no\n")));
    assert!(!BluetoothService::is_bluetooth_enabled(None));
    assert!(BluetoothService::check_is_connected(Some("\tConnected: yes\n")));
    let devs = BluetoothService::device_entries("Device AA:BB My  Head Phones\nController X\nDevice CC:DD\n");
    assert_eq!(devs, vec![("AA:BB".to_string(), "My Head Phones".to_string())]);
    assert_eq!(BluetoothService::power_args(true), vec!["power", "on"]);
    assert_eq!(BluetoothService::connection_args("AA:BB", true), vec!["disconnect", "AA:BB"]);
    let off = vec![BluetoothDevice { mac: "a".to_string(), name: "A".to_string(), is_connected: false }];
    let on = vec![BluetoothDevice { mac: "a".to_string(), name: "A".to_string(), is_connected: true }];
    assert_eq!(BluetoothService::bt_icon(true, &off), None);
    assert_eq!(BluetoothService::bt_icon(true, &on), Some("\u{e1aa}"));
    assert_eq!(BluetoothService::bt_icon(false, &on), None);
    assert!(BluetoothService::should_refresh(1000));
    assert!(!BluetoothService::should_refresh(999));
}

#[test]
fn night_light_processes() {
    assert!(NightLightService::is_pid_dir("1234"));
    assert!(!NightLightService::is_pid_dir("self"));
    assert!(NightLightService::is_enabled(&vec!["bash\n".to_string(), "wlsunset\n".to_string()]));
    assert!(!NightLightService::is_enabled(&vec!["gammastep-indicator\n".to_string()]));
    assert!(!NightLightService::toggle(true));
    assert_eq!(NightLightService::stop_targets(), vec!["gammastep", "wlsunset", "hyprshade"]);
    assert_eq!(NightLightService::start_command(), "(gammastep -O 4500 || wlsunset -t 4500) >/dev/null 2>&1 &");
}

#[test]
fn brightness_commands() {
    assert_eq!(BrightnessService::set_brightness_args(40), vec!["set", "40%"]);
    assert_eq!(BrightnessService::fallback_brightness(), 100);
}

#[test]
fn power_profiles() {
    assert_eq!(PowerProfileService::profile_from_output("  PERFORMANCE\n"), PowerProfile::Performance);
    assert_eq!(PowerProfileService::profile_from_output("power-saver"), PowerProfile::PowerSaver);
    assert_eq!(PowerProfileService::profile_from_output("balanced"), PowerProfile::Balanced);
    assert_eq!(PowerProfileService::get_profile(None), PowerProfile::Balanced);
    assert_eq!(PowerProfileService::cycle_profile(PowerProfile::Balanced), PowerProfile::Performance);
    assert_eq!(PowerProfileService::cycle_profile(PowerProfile::Performance), PowerProfile::PowerSaver);
    assert_eq!(PowerProfileService::cycle_profile(PowerProfile::PowerSaver), PowerProfile::Balanced);
    assert_eq!(PowerProfileService::set_profile_args(PowerProfile::PowerSaver), vec!["set", "power-saver"]);
    assert_eq!(PowerProfile::PowerSaver.display_name(), "Battery saver");
    assert_eq!(PowerProfile::Balanced.gnome_icon_name(), "power-profile-balanced-symbolic");
    assert_eq!(PowerProfile::Performance.icon_code(), "\u{e80e}");
    assert_eq!(PowerProfile::Balanced.to_cmd_str(), "balanced");
}

#[test]
fn a_printed_profile_name_reads_back_as_that_profile() {
    for p in [PowerProfile::Performance, PowerProfile::Balanced, PowerProfile::PowerSaver] {
        let out = format!("  {}\n", p.to_cmd_str());
        assert_eq!(PowerProfileService::get_profile(Some(&out)), p);
        assert_eq!(PowerProfileService::get_profile(Some(p.to_cmd_str())), p);
    }
    assert_eq!(PowerProfileService::get_profile(Some("PERFORMANCE")), PowerProfile::Performance);
    assert_eq!(PowerProfileService::get_profile(Some("unknown")), PowerProfile::Balanced);
}

#[test]
fn the_first_supply_with_a_numeric_capacity_is_read() {
    let reads = vec![
        (None, Some("Charging".to_string())),
        (Some("n/a\n".to_string()), Some("Full".to_string())),
        (Some("150\n".to_string()), None),
    ];
    let info = BatteryService::first_sysfs_info(&reads).unwrap();
    assert_eq!(info.capacity, 100);
    assert_eq!(info.status, "Discharging");
    assert!(info.is_present);
    let none: Vec<(Option<String>, Option<String>)> = vec![(None, None), (Some("x".to_string()), None)];
    assert!(BatteryService::first_sysfs_info(&none).is_none());
}
