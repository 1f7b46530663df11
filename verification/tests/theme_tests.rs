use cos_niri_bar::settings::ThemeSettings;
use cos_niri_bar::theme::{strip_hex, MatugenColorEntry, MatugenColorValue, MatugenColors, ThemeAlphas, ThemeService};

fn value(c: &str) -> Option<MatugenColorValue> {
    Some(MatugenColorValue { color: c.to_string() })
}

fn entry(c: &str) -> MatugenColorEntry {
    MatugenColorEntry { default: None, dark: value(c), light: None }
}

fn colors() -> MatugenColors {
    MatugenColors {
        primary: entry("#aabbcc"),
        on_primary: entry("#102030"),
        primary_container: entry("#ff0080"),
        on_primary_container: entry("#eeeeee"),
        surface: entry("#123456"),
        surface_container: entry("#+f+f+f"),
        outline: entry("#12345"),
        on_surface: entry("#ffffff"),
        on_surface_variant: entry("#cccccc"),
    }
}

fn alphas() -> ThemeAlphas {
    ThemeAlphas {
        surface: "0.72".to_string(),
        surface_opaque: "0.828".to_string(),
        surface_variant: "0.0864".to_string(),
        outline: "0.108".to_string(),
        primary_container: "0.14".to_string(),
    }
}

#[test]
fn resolve_prefers_the_scheme_variant() {
    let e = MatugenColorEntry { default: value("#000001"), dark: value("#000002"), light: value("#000003") };
    assert_eq!(e.resolve(true), "#000002");
    assert_eq!(e.resolve(false), "#000003");
    let d = MatugenColorEntry { default: value("#000001"), dark: None, light: None };
    assert_eq!(d.resolve(true), "#000001");
    let l = MatugenColorEntry { default: None, dark: None, light: value("#000003") };
    assert_eq!(l.resolve(true), "#000003");
    let none = MatugenColorEntry { default: None, dark: None, light: None };
    assert_eq!(none.resolve(true), "#b4c5ff");
    assert_eq!(none.resolve(false), "#1a1b38");
}

#[test]
fn strip_hex_drops_all_leading_hashes() {
    assert_eq!(strip_hex("##abc"), "abc");
    assert_eq!(strip_hex("abc#"), "abc#");
}

#[test]
fn css_document_of_a_dark_theme() {
    let c = colors();
    assert!(ThemeService::can_render(&c, true));
    let css = ThemeService::css_document(&c, true, &alphas());
    let expected = "@define-color primary #aabbcc;\n\
@define-color on-primary #102030;\n\
@define-color primary-container rgba(255, 0, 128, 0.14);\n\
@define-color on-primary-container #eeeeee;\n\
@define-color surface rgba(18, 52, 86, 0.72);\n\
@define-color surface-opaque rgba(18, 52, 86, 0.828);\n\
@define-color surface-variant rgba(15, 15, 15, 0.0864);\n\
@define-color outline rgba(18, 19, 26, 0.108);\n\
@define-color text-primary #ffffff;\n\
@define-color text-secondary #cccccc;\n\
@define-color text-muted #12345;\n\
@define-color card-bg rgba(255, 255, 255, 0.05);\n\
@define-color card-bg-hover rgba(255, 255, 255, 0.10);\n\
@define-color bubble-bg rgba(255, 255, 255, 0.10);\n\
@define-color bubble-bg-hover rgba(255, 255, 255, 0.18);\n\
@define-color trough-bg rgba(255, 255, 255, 0.12);\n\
@define-color sep-color rgba(255, 255, 255, 0.08);\n\
@define-color sidebar-bg rgba(255, 255, 255, 0.03);\n";
    assert_eq!(css, expected);
}

#[test]
fn light_theme_uses_the_light_palette() {
    let c = colors();
    let css = ThemeService::css_document(&c, false, &alphas());
    assert!(css.contains("@define-color primary #aabbcc;\n"));
    assert!(css.contains("@define-color card-bg rgba(0, 0, 0, 0.05);\n"));
    assert!(css.contains("@define-color sidebar-bg rgba(0, 0, 0, 0.03);\n"));
}

#[test]
fn niri_and_fuzzel_files() {
    assert_eq!(
        ThemeService::niri_kdl("#aabbcc"),
        "layout {\n\tfocus-ring {\n\t\tactive-color \"#aabbcc\"\n\t}\n\tborder {\n\t\tactive-color \"#aabbcc\"\n\t}\n}"
    );
    assert_eq!(
        ThemeService::fuzzel_ini("#111111", "#222222", "#333333", "#444444"),
        "[colors]\nbackground=111111fa\ntext=333333ff\nmatch=222222ff\nselection=222222ff\nselection-text=444444ff\nselection-match=444444ff\nborder=222222ff\n"
    );
}

#[test]
fn theme_files_together() {
    let f = ThemeService::theme_files(&colors(), true, &alphas());
    assert_eq!(f.niri_kdl, ThemeService::niri_kdl("#aabbcc"));
    assert_eq!(f.fuzzel_ini, ThemeService::fuzzel_ini("#123456", "#aabbcc", "#ffffff", "#102030"));
    assert!(f.css.starts_with("@define-color primary #aabbcc;\n"));
}

#[test]
fn matugen_arguments() {
    let t = ThemeSettings { scheme_type: "scheme-neutral".to_string(), dark_mode: false, opacity: 50 };
    let args = ThemeService::matugen_args(&t, "/home/u/.config/background");
    assert_eq!(
        args,
        vec!["--source-color-index", "0", "-t", "scheme-neutral", "-m", "light", "-j", "hex", "image", "/home/u/.config/background"]
    );
}

#[test]
fn opacity_percent_is_held_in_range() {
    assert_eq!(ThemeService::opacity_percent(0), 10);
    assert_eq!(ThemeService::opacity_percent(78), 78);
    assert_eq!(ThemeService::opacity_percent(300), 100);
}

#[test]
fn paths_and_wallpaper_choice() {
    let home = Some("/home/u".to_string());
    assert_eq!(ThemeService::get_colors_css_path(&home), "/home/u/.config/cos-niri/colors.css");
    assert_eq!(ThemeService::niri_colors_path(&home), "/home/u/.config/cos-niri/colors-niri.kdl");
    assert_eq!(ThemeService::fuzzel_colors_path(&None), ".config/cos-niri/fuzzel-colors.ini");
    assert_eq!(ThemeService::config_dir(&home), "/home/u/.config/cos-niri");
    assert_eq!(ThemeService::wallpaper_image_path(Some("/w.png".to_string()), &home), "/w.png");
    assert_eq!(ThemeService::wallpaper_image_path(None, &home), "/home/u/.config/background");
}

#[test]
fn fallback_stylesheet() {
    let css = ThemeService::fallback_css();
    assert!(css.starts_with("@define-color primary #b4c5ff;\n"));
    assert!(css.ends_with("@define-color text-muted #938f99;\n"));
    assert_eq!(css.lines().count(), 10);
}

#[test]
fn a_colour_that_would_split_a_character_is_refused() {
    let mut c = colors();
    c.surface = entry("#a\u{e9}bcd");
    assert!(!ThemeService::can_render(&c, true));
}
