use cos_niri_bar::settings::{join_path_str, BlurSettings, Settings, SettingsService};

fn service() -> SettingsService {
    SettingsService::new(Settings::with_home(Some("/home/u".to_string())))
}

#[test]
fn factory_settings_for_a_home() {
    let s = Settings::with_home(Some("/home/u".to_string()));
    assert_eq!(s.wallpaper_path, "/home/u/.config/background");
    assert_eq!(s.pinned_apps.len(), 6);
    assert_eq!(s.pinned_apps[0].desktop_id, "com.google.Chrome.desktop");
    assert_eq!(s.pinned_apps[5].name, "Terminal");
    assert_eq!(s.theme.scheme_type, "scheme-tonal-spot");
    assert!(s.theme.dark_mode);
    assert_eq!(s.theme.opacity, 78);
    assert_eq!(s.performance.renderer, "vulkan");
    assert_eq!(s.performance.launcher_backend, "builtin");
    assert!(s.blur.bar_xray);
    assert!(!s.blur.tray_xray);
    assert!(s.blur.fuzzel_blur);
}

#[test]
fn factory_settings_without_home() {
    let s = Settings::with_home(None);
    assert_eq!(s.wallpaper_path, ".config/background");
}

#[test]
fn default_settings_use_the_home_directory() {
    let s = Settings::default();
    assert!(s.wallpaper_path.ends_with(".config/background"));
    assert_eq!(s.pinned_apps.len(), 6);
}

#[test]
fn blur_defaults() {
    let b = BlurSettings::default();
    assert!(b.bar_blur && b.quick_settings_blur && b.calendar_blur && b.launcher_blur && b.tray_blur);
    assert!(b.bar_xray && !b.quick_settings_xray && !b.launcher_xray);
}

#[test]
fn pin_then_pin_again_and_unpin() {
    let mut svc = service();
    assert!(svc.pin_app("org.gnome.Calculator.desktop", "Calculator"));
    assert_eq!(svc.get_pinned_apps().len(), 7);
    assert!(!svc.pin_app("org.gnome.Calculator.desktop", "Other name"));
    assert_eq!(svc.get_pinned_apps().len(), 7);
    assert_eq!(svc.get_pinned_apps()[6].name, "Calculator");
    svc.unpin_app("org.gnome.Calculator.desktop");
    assert_eq!(svc.get_pinned_apps().len(), 6);
    assert!(svc.get_pinned_apps().iter().all(|p| p.desktop_id != "org.gnome.Calculator.desktop"));
}

#[test]
fn unpin_keeps_the_order_of_the_rest() {
    let mut svc = service();
    svc.unpin_app("org.mozilla.firefox.desktop");
    let ids: Vec<String> = svc.get_pinned_apps().iter().map(|p| p.desktop_id.clone()).collect();
    assert_eq!(
        ids,
        vec![
            "com.google.Chrome.desktop",
            "org.gnome.Nautilus.desktop",
            "code.desktop",
            "org.telegram.desktop.desktop",
            "Alacritty.desktop"
        ]
    );
}

#[test]
fn blur_and_xray_read_back() {
    let mut svc = service();
    assert!(svc.set_blur("calendar", false));
    assert!(!svc.get_blur().calendar_blur);
    assert!(svc.get_blur().bar_blur);
    assert!(svc.set_xray("tray", true));
    assert!(svc.get_blur().tray_xray);
    assert!(svc.set_blur("fuzzel", false));
    assert!(!svc.get_blur().fuzzel_blur);
}

#[test]
fn unknown_module_is_not_written() {
    let mut svc = service();
    let before = svc.get_blur();
    assert!(!svc.set_blur("dock", false));
    assert!(!svc.set_xray("dock", true));
    assert_eq!(svc.get_blur(), before);
}

#[test]
fn opacity_is_clamped() {
    let mut svc = service();
    svc.set_opacity(5);
    assert_eq!(svc.get_theme().opacity, 10);
    svc.set_opacity(150);
    assert_eq!(svc.get_theme().opacity, 100);
    svc.set_opacity(45);
    assert_eq!(svc.get_theme().opacity, 45);
}

#[test]
fn theme_and_performance_setters() {
    let mut svc = service();
    svc.set_scheme_type("scheme-vibrant");
    svc.set_dark_mode(false);
    svc.set_renderer("gl");
    svc.set_launcher_backend("fuzzel");
    svc.set_wallpaper_path("/pics/a.png");
    assert_eq!(svc.get_theme().scheme_type, "scheme-vibrant");
    assert!(!svc.get_theme().dark_mode);
    assert_eq!(svc.get_performance().renderer, "gl");
    assert_eq!(svc.get_performance().launcher_backend, "fuzzel");
    assert_eq!(svc.get_wallpaper_path(), "/pics/a.png");
    assert_eq!(svc.get().wallpaper_path, "/pics/a.png");
}

#[test]
fn reset_keeps_pins_and_wallpaper() {
    let mut svc = service();
    svc.pin_app("x.desktop", "X");
    svc.set_wallpaper_path("/pics/b.png");
    svc.set_opacity(30);
    svc.set_blur("bar", false);
    svc.set_renderer("cairo");
    svc.reset_to_defaults();
    assert_eq!(svc.get_pinned_apps().len(), 7);
    assert_eq!(svc.get_wallpaper_path(), "/pics/b.png");
    assert_eq!(svc.get_theme().opacity, 78);
    assert!(svc.get_blur().bar_blur);
    assert_eq!(svc.get_performance().renderer, "vulkan");
    svc.reset_to_defaults();
    assert_eq!(svc.get_theme().opacity, 78);
}

#[test]
fn join_paths() {
    assert_eq!(join_path_str("", "a/b"), "a/b");
    assert_eq!(join_path_str("/root/", "a"), "/root/a");
    assert_eq!(join_path_str("/root", "a"), "/root/a");
}
