//! The quick settings panel: what its tiles and lists show.
use vstd::prelude::*;
use crate::network::{NetworkState, WifiNetwork};
use crate::power_profile::{spec_display_name, spec_icon_code, PowerProfile};
use crate::text::{
    append_chars, chars_of, contains, contains_chars, lowercase, string_of, to_lowercase,
};

verus! {

/// A tile of the grid: highlighted or not, its title and its subtitle.
pub struct TileState {
    pub active: bool,
    pub title: String,
    pub subtitle: String,
}

/// How a Wi-Fi network's row is offered.
#[derive(Debug, Clone, Copy, PartialEq, Eq, Structural)]
pub enum WifiRow {
    /// The connected network, with a disconnect button.
    Connected,
    /// A saved network, connected to with a click.
    Saved,
    /// An unknown network, connected to with a password.
    NeedsPassword,
}

/// The glyph of an audio output, by its lower-cased name and description.
pub open spec fn spec_sink_icon(name: Seq<char>, desc: Seq<char>) -> Seq<char> {
    let c = lowercase(name + " "@ + desc);
    if contains(c, "headphone"@) || contains(c, "headset"@) || contains(c, "earphone"@) {
        "\u{e30c}"@
    } else if contains(c, "hdmi"@) || contains(c, "displayport"@) || contains(c, "tv"@) {
        "\u{e333}"@
    } else {
        "\u{e050}"@
    }
}

fn lit(s: &str) -> (r: String)
    ensures
        r@ == s@,
{
    string_of(chars_of(s).as_slice())
}

fn has(c: &Vec<char>, p: &str) -> (r: bool)
    ensures
        r == contains(c@, p@),
{
    contains_chars(c.as_slice(), chars_of(p).as_slice())
}

/// The quick settings panel.
pub struct QuickSettings;

impl QuickSettings {
    /// The Wi-Fi tile: highlighted while the radio is on, titled by the
    /// connected network.
    pub fn wifi_tile(state: &NetworkState) -> (r: TileState)
        ensures
            r.active == state.is_enabled,
            r.title@ == (if state.is_enabled && state@.ssid is Some { state@.ssid->0 } else { "Wi-Fi"@ }),
            r.subtitle@ == (if !state.is_enabled {
                "Off"@
            } else if state@.ssid is Some {
                "Connected"@
            } else {
                "Disconnected"@
            }),
    {
        if state.is_enabled {
            match &state.ssid {
                Some(s) => TileState { active: true, title: s.clone(), subtitle: lit("Connected") },
                None => TileState { active: true, title: lit("Wi-Fi"), subtitle: lit("Disconnected") },
            }
        } else {
            TileState { active: false, title: lit("Wi-Fi"), subtitle: lit("Off") }
        }
    }

    /// The subtitle of an on/off tile.
    pub fn switch_subtitle(on: bool) -> (r: &'static str)
        ensures
            r@ == if on { "On"@ } else { "Off"@ },
    {
        if on {
            "On"
        } else {
            "Off"
        }
    }

    /// The power tile: the profile's glyph and name, highlighted unless balanced.
    pub fn power_tile(profile: PowerProfile) -> (r: (&'static str, &'static str, bool))
        ensures
            r.0@ == spec_icon_code(profile),
            r.1@ == spec_display_name(profile),
            r.2 == (profile != PowerProfile::Balanced),
    {
        (profile.icon_code(), profile.display_name(), profile != PowerProfile::Balanced)
    }

    /// The glyph of an audio output: headphones, a display, or a speaker.
    pub fn get_sink_icon(name: &str, desc: &str) -> (r: &'static str)
        ensures
            r@ == spec_sink_icon(name@, desc@),
    {
        let mut comb = chars_of(name);
        append_chars(&mut comb, chars_of(" ").as_slice());
        append_chars(&mut comb, chars_of(desc).as_slice());
        let c = to_lowercase(comb.as_slice());
        if has(&c, "headphone") || has(&c, "headset") || has(&c, "earphone") {
            "\u{e30c}"
        } else if has(&c, "hdmi") || has(&c, "displayport") || has(&c, "tv") {
            "\u{e333}"
        } else {
            "\u{e050}"
        }
    }

    /// How a network's row is offered.
    pub fn wifi_row(net: &WifiNetwork) -> (r: WifiRow)
        ensures
            r == if net.is_connected {
                WifiRow::Connected
            } else if net.is_known {
                WifiRow::Saved
            } else {
                WifiRow::NeedsPassword
            },
    {
        if net.is_connected {
            WifiRow::Connected
        } else if net.is_known {
            WifiRow::Saved
        } else {
            WifiRow::NeedsPassword
        }
    }

    /// The password typed for a network: none when the field is empty.
    pub fn password_option(text: &str) -> (r: Option<String>)
        ensures
            match r {
                Some(p) => text@.len() > 0 && p@ == text@,
                None => text@.len() == 0,
            },
    {
        if text.unicode_len() == 0 {
            None
        } else {
            Some(lit(text))
        }
    }

    /// The message of the Wi-Fi list: off, scanning (no result yet), or no
    /// network found; none when there are networks to list.
    pub fn wifi_list_message(is_on: bool, found: Option<usize>) -> (r: Option<&'static str>)
        ensures
            match r {
                Some(m) => (!is_on && m@ == "Wi-Fi is turned off"@) || (is_on && found is None
                    && m@ == "Scanning networks..."@) || (is_on && found == Some(0usize) && m@ == "No networks found"@),
                None => is_on && (found matches Some(n) && n > 0),
            },
    {
        if !is_on {
            Some("Wi-Fi is turned off")
        } else {
            match found {
                None => Some("Scanning networks..."),
                Some(n) => if n == 0 {
                    Some("No networks found")
                } else {
                    None
                },
            }
        }
    }

    /// The message of the Bluetooth list, as for Wi-Fi.
    pub fn bt_list_message(is_on: bool, found: Option<usize>) -> (r: Option<&'static str>)
        ensures
            match r {
                Some(m) => (!is_on && m@ == "Bluetooth is turned off"@) || (is_on && found is None
                    && m@ == "Searching Bluetooth devices..."@) || (is_on && found == Some(0usize)
                    && m@ == "No Bluetooth devices found"@),
                None => is_on && (found matches Some(n) && n > 0),
            },
    {
        if !is_on {
            Some("Bluetooth is turned off")
        } else {
            match found {
                None => Some("Searching Bluetooth devices..."),
                Some(n) => if n == 0 {
                    Some("No Bluetooth devices found")
                } else {
                    None
                },
            }
        }
    }

    /// The label of a device's button, and the label while the action runs.
    pub fn bt_action_labels(is_connected: bool) -> (r: (&'static str, &'static str))
        ensures
            r.0@ == if is_connected { "Disconnect"@ } else { "Connect"@ },
            r.1@ == if is_connected { "Disconnecting..."@ } else { "Connecting..."@ },
    {
        if is_connected {
            ("Disconnect", "Disconnecting...")
        } else {
            ("Connect", "Connecting...")
        }
    }
}

} // verus!
