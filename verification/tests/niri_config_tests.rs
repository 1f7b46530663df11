use cos_niri_bar::niri_config::{EffectOutcome, NiriConfigService};
use cos_niri_bar::settings::{Settings, SettingsService};

const RULES: &str = "// shelf\nlayer-rule {\n    match namespace=\"cos-bar\"\n    background-effect {\n        blur true\n        xray false\n    }\n}\n\nlayer-rule {\n    match namespace=\"cos-quick-settings\"\n    match namespace=\"cos-calendar\"\n    background-effect {\n        blur true\n    }\n}\n";

#[test]
fn namespaces_of_modules() {
    assert_eq!(NiriConfigService::namespace_for_module("bar").as_deref(), Some("cos-bar"));
    assert_eq!(NiriConfigService::namespace_for_module("quick_settings").as_deref(), Some("cos-quick-settings"));
    assert_eq!(NiriConfigService::namespace_for_module("tray").as_deref(), Some("cos-tray-menu"));
    assert_eq!(NiriConfigService::namespace_for_module("fuzzel"), None);
}

#[test]
fn patch_replaces_an_existing_property() {
    assert!(NiriConfigService::can_patch_layer_rule(RULES, "cos-bar", "blur", false));
    let out = NiriConfigService::patch_layer_rule(RULES, "cos-bar", "blur", false).unwrap();
    let expected = RULES.replacen("        blur true\n        xray false", "        blur false\n        xray false", 1);
    assert_eq!(out, expected);
}

#[test]
fn patch_inserts_a_missing_property() {
    let out = NiriConfigService::patch_layer_rule(RULES, "cos-calendar", "xray", true).unwrap();
    let expected = RULES.replacen(
        "    match namespace=\"cos-calendar\"\n    background-effect {\n        blur true\n    }",
        "    match namespace=\"cos-calendar\"\n    background-effect {\n        blur true\n        xray true\n    }",
        1,
    );
    assert_eq!(out, expected);
}

#[test]
fn patch_without_rule_is_an_error() {
    let r = NiriConfigService::patch_layer_rule(RULES, "cos-launcher", "blur", true);
    assert_eq!(r, Err("No layer-rule found for namespace 'cos-launcher'".to_string()));
}

#[test]
fn patch_keeps_a_missing_final_newline_missing() {
    let text = "layer-rule {\n    match namespace=\"cos-bar\"\n    background-effect {\n        xray true\n    }\n}";
    let out = NiriConfigService::patch_layer_rule(text, "cos-bar", "xray", false).unwrap();
    assert_eq!(out, "layer-rule {\n    match namespace=\"cos-bar\"\n    background-effect {\n        xray false\n    }\n}");
}

#[test]
fn patch_background_effect_block() {
    let block: Vec<String> = vec![
        "layer-rule {".to_string(),
        "  background-effect {".to_string(),
        "    noise 0.03".to_string(),
        "  }".to_string(),
        "}".to_string(),
    ];
    assert!(NiriConfigService::can_patch_background_effect(&block, "blur", "true"));
    let out = NiriConfigService::patch_background_effect(&block, "blur", "true");
    assert_eq!(out, vec!["layer-rule {", "  background-effect {", "    noise 0.03", "      blur true", "  }", "}"]);
}

#[test]
fn indentation_that_would_split_a_character_is_refused() {
    let block: Vec<String> = vec!["background-effect {".to_string(), "  }\u{e9}\u{a0}".to_string()];
    assert!(!NiriConfigService::can_patch_background_effect(&block, "xray", "false"));
}

#[test]
fn reset_sets_blur_on_and_xray_off() {
    let text = "layer-rule {\n    match namespace=\"cos-bar\"\n    background-effect {\n        blur false\n        xray true\n    }\n}\n";
    assert!(NiriConfigService::can_reset_rules(text));
    let out = NiriConfigService::reset_rules(text);
    assert_eq!(out, "layer-rule {\n    match namespace=\"cos-bar\"\n    background-effect {\n        blur true\n        xray false\n    }\n}\n");
}

fn service() -> SettingsService {
    SettingsService::new(Settings::with_home(Some("/home/u".to_string())))
}

#[test]
fn switching_blur_changes_the_settings_and_patches_the_rules() {
    let mut svc = service();
    let out = NiriConfigService::set_blur(&mut svc, "bar", false, Ok(RULES.to_string()));
    let expected = RULES.replacen("        blur true\n        xray false", "        blur false\n        xray false", 1);
    match out {
        EffectOutcome::Patched(t) => assert_eq!(t, expected),
        other => panic!("unexpected {:?}", other),
    }
    assert!(!svc.get_blur().bar_blur);
}

#[test]
fn switching_xray_without_a_rule_fails_after_the_settings_change() {
    let mut svc = service();
    let out = NiriConfigService::set_xray(&mut svc, "launcher", true, Ok(RULES.to_string()));
    match out {
        EffectOutcome::Failed(e) => assert_eq!(e, "No layer-rule found for namespace 'cos-launcher'"),
        other => panic!("unexpected {:?}", other),
    }
    assert!(svc.get_blur().launcher_xray);
    let read_err = NiriConfigService::set_xray(&mut svc, "bar", true, Err("Failed to read rules.kdl: gone".to_string()));
    assert!(matches!(read_err, EffectOutcome::Failed(ref e) if e == "Failed to read rules.kdl: gone"));
    assert!(svc.get_blur().bar_xray);
}

#[test]
fn switching_an_unknown_module_changes_nothing() {
    let mut svc = service();
    let before = svc.get_blur();
    let out = NiriConfigService::set_blur(&mut svc, "fuzzel", false, Ok(RULES.to_string()));
    assert!(matches!(out, EffectOutcome::UnknownModule));
    assert_eq!(svc.get_blur(), before);
    assert!(NiriConfigService::can_switch("bar", false, true, &Ok(RULES.to_string())));
}
