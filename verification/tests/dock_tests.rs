use cos_niri_bar::dock::{
    click_focus, find_entry_for_app, find_entry_for_pinned, launch_app, load_pinned_configs, parse_desktop_file,
    pinned_button_class, pinned_dot_class, unpinned_button_class, unpinned_icon, update_dock, DesktopEntry, DockWindow,
    PinnedDockState,
};
use cos_niri_bar::settings::{PinnedApp, Settings, SettingsService};

fn entry(name: &str, icon: &str, exec: &str, id: &str, cats: &[&str]) -> DesktopEntry {
    DesktopEntry {
        name: name.to_string(),
        icon: icon.to_string(),
        exec_cmd: exec.to_string(),
        desktop_id: id.to_string(),
        categories: cats.iter().map(|c| c.to_string()).collect(),
    }
}

fn window(id: u64, app: Option<&str>, title: Option<&str>, focused: bool) -> DockWindow {
    DockWindow { id, app_id: app.map(|s| s.to_string()), title: title.map(|s| s.to_string()), is_focused: focused }
}

#[test]
fn desktop_file_is_read_from_its_main_group() {
    let text = "[Desktop Entry]\nName=Firefox\nIcon=firefox\nExec=firefox %u --new-window\nCategories=Network; WebBrowser;;\n\n[Desktop Action new]\nName=New Window\nExec=other\n";
    let e = parse_desktop_file(text, "firefox.desktop").unwrap();
    assert_eq!(e.name, "Firefox");
    assert_eq!(e.icon, "firefox");
    assert_eq!(e.exec_cmd, "firefox --new-window");
    assert_eq!(e.desktop_id, "firefox.desktop");
    assert_eq!(e.categories, vec!["Network", "WebBrowser"]);
}

#[test]
fn hidden_or_incomplete_desktop_files_give_nothing() {
    let hidden = "[Desktop Entry]\nName=A\nIcon=a\nExec=a\nNoDisplay= TRUE \n";
    assert!(parse_desktop_file(hidden, "a.desktop").is_none());
    let no_icon = "[Desktop Entry]\nName=A\nExec=a\n";
    assert!(parse_desktop_file(no_icon, "a.desktop").is_none());
    let outside = "Name=A\nIcon=a\nExec=a\n";
    assert!(parse_desktop_file(outside, "a.desktop").is_none());
}

#[test]
fn first_name_wins_and_last_categories_win() {
    let text = "[Desktop Entry]\nName=One\nName=Two\nIcon=i\nExec=e\nCategories=A;\nCategories=B;C\n";
    let e = parse_desktop_file(text, "x.desktop").unwrap();
    assert_eq!(e.name, "One");
    assert_eq!(e.categories, vec!["B", "C"]);
}

#[test]
fn command_lines_split_like_a_shell() {
    assert_eq!(launch_app("sh -c \"echo hi\" %f 'a b' x\\ y"), vec!["sh", "-c", "echo hi", "a b", "x y"]);
    assert_eq!(launch_app("  firefox   %U "), vec!["firefox"]);
    assert!(launch_app("%u").is_empty());
    assert_eq!(launch_app("a 'it\\'s'"), vec!["a", "it\\s"]);
}

#[test]
fn dock_states_for_open_windows() {
    let pins = vec![vec!["firefox".to_string()], vec!["code".to_string(), "vscode".to_string()], vec!["kitty".to_string()]];
    let wins = vec![
        window(1, Some("org.mozilla.Firefox"), Some("Mozilla"), false),
        window(2, Some("Code"), Some("main.rs"), true),
        window(3, None, Some("Untitled"), false),
        window(4, Some("foot"), Some("shell 1"), false),
        window(5, Some("foot"), None, true),
    ];
    let plan = update_dock(&pins, &wins);
    assert_eq!(plan.pinned.len(), 3);
    assert!(plan.pinned[0].running && !plan.pinned[0].focused);
    assert_eq!(plan.pinned[0].focus_id, Some(1));
    assert!(plan.pinned[1].running && plan.pinned[1].focused);
    assert_eq!(plan.pinned[1].focus_id, Some(2));
    assert!(!plan.pinned[2].running && !plan.pinned[2].focused);
    assert_eq!(plan.pinned[2].focus_id, None);
    assert_eq!(plan.unpinned.len(), 2);
    assert_eq!(plan.unpinned[0].app_id, "application-x-executable");
    assert_eq!(plan.unpinned[0].title, "Untitled");
    assert!(!plan.unpinned[0].focused);
    assert_eq!(plan.unpinned[0].focus_id, Some(3));
    assert_eq!(plan.unpinned[1].app_id, "foot");
    assert_eq!(plan.unpinned[1].title, "shell 1");
    assert!(plan.unpinned[1].focused);
    assert_eq!(plan.unpinned[1].focus_id, Some(5));
}

#[test]
fn claimed_ids_hide_every_window_with_that_id() {
    let pins = vec![vec!["firefox".to_string()]];
    let wins = vec![window(7, Some("firefox"), None, false), window(7, Some("other"), None, false)];
    let plan = update_dock(&pins, &wins);
    assert!(plan.unpinned.is_empty());
}

#[test]
fn entries_for_pinned_apps_and_windows() {
    let es = vec![
        entry("Terminal", "utilities-terminal", "gnome-terminal", "org.gnome.Terminal.desktop", &[]),
        entry("Firefox", "firefox", "firefox %u", "firefox.desktop", &[]),
    ];
    assert_eq!(find_entry_for_pinned(&es, &vec!["mozilla".to_string(), "firefox".to_string()]), Some(1));
    assert_eq!(find_entry_for_pinned(&es, &vec!["chrome".to_string()]), None);
    assert_eq!(find_entry_for_app(&es, "Org.Gnome.Terminal"), Some(0));
    assert_eq!(unpinned_icon(&es, "FIREFOX"), "firefox");
    assert_eq!(unpinned_icon(&es, "steam"), "steam");
}

#[test]
fn button_styles_and_clicks() {
    let focused = PinnedDockState { running: true, focused: true, focus_id: Some(1) };
    let running = PinnedDockState { running: true, focused: false, focus_id: Some(1) };
    let idle = PinnedDockState { running: false, focused: false, focus_id: None };
    assert_eq!(pinned_button_class(focused), Some("focused"));
    assert_eq!(pinned_button_class(running), Some("running"));
    assert_eq!(pinned_button_class(idle), None);
    assert_eq!(pinned_dot_class(focused), "dot-active");
    assert_eq!(pinned_dot_class(running), "dot-running");
    assert_eq!(pinned_dot_class(idle), "dot-hidden");
    assert_eq!(unpinned_button_class(false), "running");
    assert_eq!(click_focus(Some(4), &vec![1, 4]), Some(4));
    assert_eq!(click_focus(Some(9), &vec![1, 4]), None);
    assert_eq!(click_focus(None, &vec![1]), None);
}

#[test]
fn pinned_app_table() {
    let settings = Settings::with_home(Some("/home/u".to_string()));
    let cfgs = load_pinned_configs(&settings.pinned_apps);
    assert_eq!(cfgs.len(), 6);
    assert_eq!(cfgs[0].display_title, "Google Chrome");
    assert_eq!(cfgs[0].desktop_file, "com.google.Chrome.desktop");
    assert_eq!(cfgs[5].match_ids.len(), 7);
    assert_eq!(cfgs[3].fallback_candidates, vec!["code", "codium", "flatpak run com.visualstudio.code"]);
}

#[test]
fn the_dock_follows_the_pinned_apps() {
    let mut svc = SettingsService::new(Settings::with_home(Some("/home/u".to_string())));
    svc.unpin_app("com.google.Chrome.desktop");
    svc.unpin_app("org.telegram.desktop.desktop");
    assert!(svc.pin_app("org.gnome.Calculator.desktop", "Calculator"));
    let cfgs = load_pinned_configs(&svc.get_pinned_apps());
    let files: Vec<&str> = cfgs.iter().map(|c| c.desktop_file.as_str()).collect();
    assert_eq!(
        files,
        vec!["org.mozilla.firefox.desktop", "org.gnome.Nautilus.desktop", "code.desktop", "Alacritty.desktop", "org.gnome.Calculator.desktop"]
    );
    assert_eq!(cfgs[1].match_ids, vec!["org.gnome.nautilus", "nautilus"]);
    let calc = &cfgs[4];
    assert_eq!(calc.display_title, "Calculator");
    assert_eq!(calc.fixed_icon, "org.gnome.Calculator");
    assert_eq!(calc.fallback_candidates, vec!["org.gnome.Calculator"]);
    assert_eq!(calc.match_ids, vec!["org.gnome.calculator"]);
}

#[test]
fn nothing_pinned_gives_an_empty_dock() {
    assert!(load_pinned_configs(&Vec::new()).is_empty());
    let one = vec![PinnedApp { desktop_id: "firefox".to_string(), name: "Web".to_string() }];
    let cfgs = load_pinned_configs(&one);
    assert_eq!(cfgs[0].display_title, "Web");
    assert_eq!(cfgs[0].fixed_icon, "firefox");
    assert_eq!(cfgs[0].match_ids, vec!["firefox"]);
}
