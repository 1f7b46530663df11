//! The night light: whether a colour-temperature daemon runs, and what
//! toggling it does.
use vstd::prelude::*;
use crate::text::{chars_of, eq_chars, string_of, string_views, trim, trim_chars};

verus! {

/// A daemon that provides the night light.
pub open spec fn is_night_light_name(n: Seq<char>) -> bool {
    n == "gammastep"@ || n == "wlsunset"@ || n == "hyprshade"@
}

/// A `/proc` entry names a process when it is all ASCII digits.
pub open spec fn is_pid_name(name: Seq<char>) -> bool {
    forall|i: int| 0 <= i < name.len() ==> '0' <= #[trigger] name[i] && name[i] <= '9'
}

/// The night light, driven by gammastep or wlsunset.
pub struct NightLightService;

fn lit(s: &str) -> (r: String)
    ensures
        r@ == s@,
{
    string_of(chars_of(s).as_slice())
}

impl NightLightService {
    /// Whether a `/proc` entry is a process directory.
    pub fn is_pid_dir(name: &str) -> (r: bool)
        ensures
            r == is_pid_name(name@),
    {
        let cs = chars_of(name);
        let mut i: usize = 0;
        while i < cs.len()
            invariant
                i <= cs.len(),
                cs@ == name@,
                forall|k: int| 0 <= k < i ==> '0' <= #[trigger] cs@[k] && cs@[k] <= '9',
            decreases cs.len() - i,
        {
            if !('0' <= cs[i] && cs[i] <= '9') {
                return false;
            }
            i = i + 1;
        }
        true
    }

    /// Whether one of the running processes, by the text of their `comm`
    /// files, is a night light daemon.
    pub fn is_enabled(process_names: &Vec<String>) -> (r: bool)
        ensures
            r == exists|k: int| 0 <= k < process_names@.len() && is_night_light_name(trim(#[trigger] process_names@[k]@)),
    {
        let a = chars_of("gammastep");
        let b = chars_of("wlsunset");
        let c = chars_of("hyprshade");
        let mut i: usize = 0;
        while i < process_names.len()
            invariant
                i <= process_names.len(),
                a@ == "gammastep"@,
                b@ == "wlsunset"@,
                c@ == "hyprshade"@,
                forall|k: int| 0 <= k < i ==> !is_night_light_name(trim(#[trigger] process_names@[k]@)),
            decreases process_names.len() - i,
        {
            let t = trim_chars(chars_of(process_names[i].as_str()).as_slice());
            if eq_chars(t.as_slice(), a.as_slice()) || eq_chars(t.as_slice(), b.as_slice())
                || eq_chars(t.as_slice(), c.as_slice()) {
                return true;
            }
            i = i + 1;
        }
        false
    }

    /// The state after a toggle: on becomes off, off becomes on.
    pub fn toggle(currently_on: bool) -> (r: bool)
        ensures
            r == !currently_on,
    {
        !currently_on
    }

    /// The daemons stopped when the night light goes off.
    pub fn stop_targets() -> (r: Vec<String>)
        ensures
            string_views(r@) == seq!["gammastep"@, "wlsunset"@, "hyprshade"@],
    {
        let mut r: Vec<String> = Vec::new();
        r.push(lit("gammastep"));
        r.push(lit("wlsunset"));
        r.push(lit("hyprshade"));
        assert(string_views(r@) =~= seq!["gammastep"@, "wlsunset"@, "hyprshade"@]);
        r
    }

    /// The shell command that starts the night light at 4500 K.
    pub fn start_command() -> (r: String)
        ensures
            r@ == "(gammastep -O 4500 || wlsunset -t 4500) >/dev/null 2>&1 &"@,
    {
        lit("(gammastep -O 4500 || wlsunset -t 4500) >/dev/null 2>&1 &")
    }
}

} // verus!
