//! Screen brightness through `brightnessctl`.
use vstd::prelude::*;
use crate::text::{append_chars, chars_of, decimal, decimal_chars, string_of, string_views};

verus! {

/// Backlight control.
pub struct BrightnessService;

impl BrightnessService {
    /// The `brightnessctl` arguments that set a percentage: "set", "<pct>%".
    pub fn set_brightness_args(pct: u32) -> (r: Vec<String>)
        ensures
            string_views(r@) == seq!["set"@, decimal(pct as nat) + "%"@],
    {
        let mut v = decimal_chars(pct as u64);
        append_chars(&mut v, chars_of("%").as_slice());
        let mut r: Vec<String> = Vec::new();
        r.push(string_of(chars_of("set").as_slice()));
        r.push(string_of(v.as_slice()));
        assert(string_views(r@) =~= seq!["set"@, decimal(pct as nat) + "%"@]);
        r
    }

    /// The brightness shown when neither sysfs nor `brightnessctl` gives one.
    pub fn fallback_brightness() -> (r: u32)
        ensures
            r == 100,
    {
        100
    }
}

} // verus!
