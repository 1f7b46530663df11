use cos_niri_bar::audio::{AudioService, AudioSink};

#[test]
fn device_names_are_cleaned() {
    assert_eq!(AudioService::clean_device_name("Built-in Audio Analog Stereo"), "Analog Stereo");
    assert_eq!(AudioService::clean_device_name(" HD Audio Controller Speaker Output "), "Speakers");
    assert_eq!(AudioService::clean_device_name("Intel Corporation Family HD Audio Controller HDMI"), "Family HD Audio Controller HDMI");
    assert_eq!(AudioService::clean_device_name("Audio Controller  Output"), "Audio Controller  Output");
    assert_eq!(AudioService::clean_device_name("USB Headset"), "USB Headset");
}

const SINKS: &str = "Sink #1\n\tState: SUSPENDED\n\tName: alsa_output.pci.analog\n\tDescription: Built-in Audio Analog Stereo\nSink #2\n\tName: bluez_output.headset\n\tState: RUNNING\n\tDescription: WH-1000XM4\n";

#[test]
fn sinks_are_listed_with_the_running_one_default() {
    let sinks = AudioService::parse_sinks(SINKS);
    assert_eq!(sinks.len(), 2);
    assert_eq!(sinks[0].name, "alsa_output.pci.analog");
    assert_eq!(sinks[0].description, "Analog Stereo");
    assert!(!sinks[0].is_default);
    assert_eq!(sinks[1].name, "bluez_output.headset");
    assert_eq!(sinks[1].description, "WH-1000XM4");
    assert!(sinks[1].is_default);
    assert!(!AudioService::needs_default_lookup(&sinks));
}

#[test]
fn a_running_sink_stays_default_whichever_line_comes_first() {
    let text = "Sink #1\n\tState: RUNNING\n\tName: a\n\tDescription: A\nSink #2\n\tState: SUSPENDED\n\tName: b\n\tDescription: B\n";
    let sinks = AudioService::parse_sinks(text);
    assert_eq!(sinks.len(), 2);
    assert!(sinks[0].is_default);
    assert!(!sinks[1].is_default);
    assert!(!AudioService::needs_default_lookup(&sinks));
}

#[test]
fn a_new_sink_header_clears_the_running_state() {
    let text = "Sink #1\n\tState: RUNNING\n\tName: a\n\tDescription: A\nSink #2\n\tName: b\n\tDescription: B\n";
    let sinks = AudioService::parse_sinks(text);
    assert!(sinks[0].is_default);
    assert!(!sinks[1].is_default);
}

#[test]
fn get_sinks_prefers_the_running_sink_over_the_default_name() {
    let text = "Sink #1\n\tState: RUNNING\n\tName: a\n\tDescription: A\nSink #2\n\tState: SUSPENDED\n\tName: b\n\tDescription: B\n";
    let sinks = AudioService::get_sinks(Some(text), Some("b"));
    assert_eq!(sinks.len(), 2);
    assert_eq!(sinks[0].name, "a");
    assert_eq!(sinks[0].description, "A");
    assert!(sinks[0].is_default);
    assert_eq!(sinks[1].name, "b");
    assert!(!sinks[1].is_default);
}

#[test]
fn get_sinks_falls_back_to_the_default_name_then_the_speakers() {
    let text = "Sink #1\n\tState: IDLE\n\tName: a\n\tDescription: A\nSink #2\n\tState: SUSPENDED\n\tName: b\n\tDescription: B\n";
    let sinks = AudioService::get_sinks(Some(text), Some("b"));
    assert!(!sinks[0].is_default);
    assert!(sinks[1].is_default);
    let none = AudioService::get_sinks(None, None);
    assert_eq!(none.len(), 1);
    assert_eq!(none[0].name, "default");
    assert!(none[0].is_default);
}

#[test]
fn default_sink_marked_by_name() {
    let mut sinks = vec![
        AudioSink { name: "a".to_string(), description: "A".to_string(), is_default: false },
        AudioSink { name: "b".to_string(), description: "B".to_string(), is_default: false },
    ];
    assert!(AudioService::needs_default_lookup(&sinks));
    let name = AudioService::default_sink_name_from_output("b\n");
    AudioService::mark_default_sink(&mut sinks, &name);
    assert!(!sinks[0].is_default);
    assert!(sinks[1].is_default);
}

#[test]
fn no_sink_gives_the_built_in_speakers() {
    let sinks = AudioService::sinks_or_fallback(Vec::new());
    assert_eq!(sinks.len(), 1);
    assert_eq!(sinks[0].name, "default");
    assert_eq!(sinks[0].description, "Built-in Speakers");
    assert!(sinks[0].is_default);
    assert!(!AudioService::needs_default_lookup(&Vec::new()));
}

#[test]
fn volume_and_mute() {
    assert!(AudioService::is_muted(Some("Volume: 0.40 [MUTED]\n")));
    assert!(!AudioService::is_muted(Some("Volume: 0.40\n")));
    assert!(!AudioService::is_muted(None));
    assert_eq!(AudioService::get_volume(Some(40)), 40);
    assert_eq!(AudioService::get_volume(None), 50);
    assert_eq!(AudioService::get_volume(Some(150)), 100);
    assert_eq!(AudioService::get_volume(Some(100)), 100);
    assert_eq!(AudioService::get_volume_and_mute(Some("Volume: 0.40 [MUTED]"), Some(40)), (40, true));
    assert_eq!(AudioService::get_volume_and_mute(None, Some(40)), (50, false));
}

#[test]
fn audio_commands() {
    assert_eq!(AudioService::volume_arg(35), "35%");
    assert_eq!(AudioService::set_volume_args(7), vec!["set-volume", "@DEFAULT_AUDIO_SINK@", "7%"]);
    assert_eq!(AudioService::toggle_mute_args(), vec!["set-mute", "@DEFAULT_AUDIO_SINK@", "toggle"]);
    let (a, b) = AudioService::set_default_sink_args("x");
    assert_eq!(a, vec!["set-default-sink", "x"]);
    assert_eq!(b, vec!["set-default", "x"]);
    assert!(AudioService::is_sink_event("Event 'change' on sink #52"));
    assert!(AudioService::is_sink_event("Event 'change' on server #0"));
    assert!(!AudioService::is_sink_event("Event 'new' on client #9"));
}

#[test]
fn cleaned_names_are_empty_only_for_empty_descriptions() {
    assert_eq!(AudioService::clean_device_name(""), "");
    assert_eq!(AudioService::clean_device_name("   "), "   ");
    assert_eq!(AudioService::clean_device_name(" Output"), "Output");
    assert_eq!(AudioService::clean_device_name("  NVIDIA Corporation HDMI 2 Output "), "HDMI 2");
}
