use cos_niri_bar::dock::DesktopEntry;
use cos_niri_bar::launcher::{LauncherPopup, PinnedAppsPage};
use cos_niri_bar::network::{NetworkState, WifiNetwork};
use cos_niri_bar::power_profile::PowerProfile;
use cos_niri_bar::quick_settings::{QuickSettings, WifiRow};
use cos_niri_bar::settings::{Settings, SettingsService};
use cos_niri_bar::tray::{MenuProps, PixmapCandidate, TrayItem, TrayRegistry, TrayService};
use cos_niri_bar::wallpaper::WallpaperService;

fn entry(name: &str, exec: &str, id: &str, cats: &[&str]) -> DesktopEntry {
    DesktopEntry {
        name: name.to_string(),
        icon: format!("{}-icon", id),
        exec_cmd: exec.to_string(),
        desktop_id: id.to_string(),
        categories: cats.iter().map(|c| c.to_string()).collect(),
    }
}

fn entries() -> Vec<DesktopEntry> {
    vec![
        entry("zeta", "zeta", "zeta.desktop", &["Utility"]),
        entry("Alpha", "alpha --x", "alpha.desktop", &["Development"]),
        entry("Display panel", "panel", "display.desktop", &["Settings"]),
        entry("beta", "beta", "beta.desktop", &["Game"]),
        entry("Settings", "gnome-control-center", "gnome-control-center.desktop", &["Settings"]),
    ]
}

#[test]
fn launcher_lists_by_name() {
    let es = entries();
    assert_eq!(LauncherPopup::refresh_grid(&es, "All Applications", ""), vec![1, 3, 4, 0]);
    assert_eq!(LauncherPopup::refresh_grid(&es, "Development", ""), vec![1, 0]);
    assert_eq!(LauncherPopup::refresh_grid(&es, "Utilities", ""), vec![0]);
    assert_eq!(LauncherPopup::refresh_grid(&es, "UTILITY", ""), vec![0]);
    assert!(LauncherPopup::refresh_grid(&es, "utilities", "").is_empty());
    assert_eq!(LauncherPopup::refresh_grid(&es, "All Applications", "ALP"), vec![1]);
    assert_eq!(LauncherPopup::refresh_grid(&es, "All Applications", "--x"), vec![1]);
    assert!(LauncherPopup::refresh_grid(&es, "Office", "").is_empty());
    assert_eq!(LauncherPopup::categories().len(), 10);
    assert!(LauncherPopup::pill_active("Games", "Games"));
}

#[test]
fn pin_page_offers_unpinned_apps() {
    let es = entries();
    let pinned = vec!["zeta.desktop".to_string()];
    assert_eq!(PinnedAppsPage::available_apps(&es, &pinned, ""), vec![1, 3, 2, 4]);
    assert_eq!(PinnedAppsPage::available_apps(&es, &pinned, "beta.desk"), vec![3]);
    assert_eq!(PinnedAppsPage::pinned_icon(&es, "beta.desktop"), "beta.desktop-icon");
    assert_eq!(PinnedAppsPage::pinned_icon(&es, "none.desktop"), "");
}

#[test]
fn quick_settings_tiles() {
    let on = NetworkState { is_enabled: true, ssid: Some("Home".to_string()), signal: Some(50) };
    let t = QuickSettings::wifi_tile(&on);
    assert!(t.active);
    assert_eq!(t.title, "Home");
    assert_eq!(t.subtitle, "Connected");
    let off = NetworkState { is_enabled: false, ssid: None, signal: None };
    let t2 = QuickSettings::wifi_tile(&off);
    assert_eq!((t2.active, t2.title.as_str(), t2.subtitle.as_str()), (false, "Wi-Fi", "Off"));
    assert_eq!(QuickSettings::switch_subtitle(true), "On");
    assert_eq!(QuickSettings::power_tile(PowerProfile::Balanced), ("\u{e429}", "Balanced", false));
    assert_eq!(QuickSettings::get_sink_icon("bluez", "WH Headphones"), "\u{e30c}");
    assert_eq!(QuickSettings::get_sink_icon("alsa.HDMI", "x"), "\u{e333}");
    assert_eq!(QuickSettings::get_sink_icon("alsa", "Speakers"), "\u{e050}");
}

#[test]
fn quick_settings_lists() {
    let saved = WifiNetwork { ssid: "A".to_string(), signal: 10, is_connected: false, is_known: true };
    assert_eq!(QuickSettings::wifi_row(&saved), WifiRow::Saved);
    assert_eq!(QuickSettings::password_option(""), None);
    assert_eq!(QuickSettings::password_option("pw").as_deref(), Some("pw"));
    assert_eq!(QuickSettings::wifi_list_message(false, None), Some("Wi-Fi is turned off"));
    assert_eq!(QuickSettings::wifi_list_message(true, None), Some("Scanning networks..."));
    assert_eq!(QuickSettings::wifi_list_message(true, Some(0)), Some("No networks found"));
    assert_eq!(QuickSettings::wifi_list_message(true, Some(3)), None);
    assert_eq!(QuickSettings::bt_list_message(true, Some(0)), Some("No Bluetooth devices found"));
    assert_eq!(QuickSettings::bt_action_labels(true), ("Disconnect", "Disconnecting..."));
}

#[test]
fn tray_items_and_menus() {
    let (b, p) = TrayService::split_service(":1.5", "/StatusNotifierItem");
    assert_eq!((b.as_str(), p.as_str()), (":1.5", "/StatusNotifierItem"));
    let (b, p) = TrayService::split_service(":1.5", "org.kde.A/Item/1");
    assert_eq!((b.as_str(), p.as_str()), ("org.kde.A", "/Item/1"));
    let (b, p) = TrayService::split_service(":1.5", "org.kde.B");
    assert_eq!((b.as_str(), p.as_str()), ("org.kde.B", "/StatusNotifierItem"));
    assert_eq!(TrayService::identifier("org.kde.B", "/StatusNotifierItem"), "org.kde.B/StatusNotifierItem");
    assert_eq!(TrayService::clean_label("_File__Name_"), "File_Name");
    assert_eq!(TrayService::clean_label("a___b"), "a_b");
    let sep = MenuProps { visible: None, kind: Some("separator".to_string()), label: Some("x".to_string()), enabled: None };
    let e = TrayService::menu_entry(3, &sep, Vec::new()).unwrap();
    assert!(e.is_separator && e.label.is_empty() && !e.enabled);
    let item = MenuProps { visible: Some(true), kind: None, label: Some("_Quit".to_string()), enabled: Some(false) };
    let e2 = TrayService::menu_entry(4, &item, Vec::new()).unwrap();
    assert_eq!(e2.label, "Quit");
    assert!(!e2.enabled);
    let hidden = MenuProps { visible: Some(false), kind: None, label: None, enabled: None };
    assert!(TrayService::menu_entry(5, &hidden, Vec::new()).is_none());
}

#[test]
fn tray_icons() {
    let c = vec![
        PixmapCandidate { width: 16, height: 16, data_len: 1024 },
        PixmapCandidate { width: 32, height: 32, data_len: 100 },
        PixmapCandidate { width: 32, height: 32, data_len: 4096 },
        PixmapCandidate { width: 24, height: 24, data_len: 99999 },
        PixmapCandidate { width: 32, height: 32, data_len: 4096 },
    ];
    assert_eq!(TrayService::best_pixmap(&c), Some(2));
    assert_eq!(TrayService::best_pixmap(&vec![PixmapCandidate { width: 0, height: 4, data_len: 64 }]), None);
    assert_eq!(TrayService::argb_to_rgba(&[255, 1, 2, 3, 9]), vec![1, 2, 3, 255]);
    assert_eq!(TrayService::cache_key(1, 0, &[2]), 1 ^ (1u64 << 32) ^ (2u64 << 8) ^ (2u64 << 24) ^ (2u64 << 40));
    assert!(TrayService::cache_needs_clear(51));
    assert!(!TrayService::cache_needs_clear(50));
}

#[test]
fn wallpaper_paths_and_command() {
    let svc = SettingsService::new(Settings::with_home(Some("/home/u".to_string())));
    assert_eq!(WallpaperService::get_current_path(&svc), "/home/u/.config/background");
    assert_eq!(WallpaperService::background_path(&Some("/h/".to_string())), "/h/.config/background");
    assert_eq!(WallpaperService::swaybg_args("/img.png"), vec!["-i", "/img.png", "-m", "fill"]);
}

fn tray_item(identifier: &str, status: &str) -> TrayItem {
    TrayItem {
        identifier: identifier.to_string(),
        bus_name: ":1.5".to_string(),
        object_path: "/StatusNotifierItem".to_string(),
        title: identifier.to_string(),
        status: status.to_string(),
        icon_name: None,
        menu_path: Some("/MenuBar".to_string()),
    }
}

#[test]
fn tray_items_come_in_identifier_order() {
    let items = vec![tray_item(":1.9/b", "Active"), tray_item(":1.10/a", "Passive"), tray_item(":1.9/a", "NeedsAttention")];
    let sorted = TrayService::get_items(&items);
    let ids: Vec<&str> = sorted.iter().map(|t| t.identifier.as_str()).collect();
    assert_eq!(ids, vec![":1.10/a", ":1.9/a", ":1.9/b"]);
    let mut expected: Vec<String> = items.iter().map(|t| t.identifier.clone()).collect();
    expected.sort();
    assert_eq!(ids, expected);
}

#[test]
fn passive_tray_items_are_hidden() {
    let items = vec![tray_item("a", "Passive"), tray_item("b", "Active"), tray_item("c", "Passive")];
    let shown = TrayService::shown_items(&items);
    assert_eq!(shown.len(), 1);
    assert_eq!(shown[0].identifier, "b");
    assert!(TrayService::tray_visible(&items));
    let idle = vec![tray_item("a", "Passive")];
    assert!(!TrayService::tray_visible(&idle));
    assert!(TrayService::shown_items(&idle).is_empty());
    assert!(!TrayService::tray_visible(&Vec::new()));
}

#[test]
fn the_tray_registry_files_each_item_once() {
    let mut reg = TrayRegistry::new();
    assert_eq!(reg.register(":1.7", "/org/ayatana/NotificationItem/x").as_deref(), Some(":1.7/org/ayatana/NotificationItem/x"));
    assert_eq!(reg.register(":1.9", "org.kde.StatusNotifierItem-5-1"), Some("org.kde.StatusNotifierItem-5-1/StatusNotifierItem".to_string()));
    assert_eq!(reg.register(":1.7", "/org/ayatana/NotificationItem/x"), None);
    assert_eq!(reg.registered().len(), 2);
    reg.update_item(tray_item("b", "Active"));
    reg.update_item(tray_item("a", "Passive"));
    reg.update_item(tray_item("b", "NeedsAttention"));
    let items = reg.get_items();
    assert_eq!(items.len(), 2);
    assert_eq!(items[0].identifier, "a");
    assert_eq!(items[1].status, "NeedsAttention");
    reg.remove_item(":1.7/org/ayatana/NotificationItem/x");
    reg.remove_item("b");
    assert_eq!(reg.registered(), vec!["org.kde.StatusNotifierItem-5-1/StatusNotifierItem".to_string()]);
    assert_eq!(reg.get_items().len(), 1);
}
