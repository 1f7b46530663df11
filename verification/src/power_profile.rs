//! Power profiles of power-profiles-daemon: names, icons, the cycling order
//! and the reading of `powerprofilesctl get`.
use vstd::prelude::*;
use crate::text::{
    ascii_lower, chars_of, contains, contains_chars, is_ws, lowercase, occurs_at, to_lowercase, trim,
    trim_chars, trim_end, trim_start,
};

verus! {

/// Power profiles offered by power-profiles-daemon.
#[derive(Debug, Clone, Copy, PartialEq, Eq, Structural)]
pub enum PowerProfile {
    Performance,
    Balanced,
    PowerSaver,
}

/// The profile that follows `p` when cycling:
/// Balanced -> Performance -> PowerSaver -> Balanced.
pub open spec fn spec_next_profile(p: PowerProfile) -> PowerProfile {
    match p {
        PowerProfile::Balanced => PowerProfile::Performance,
        PowerProfile::Performance => PowerProfile::PowerSaver,
        PowerProfile::PowerSaver => PowerProfile::Balanced,
    }
}

/// The name shown to the user.
pub open spec fn spec_display_name(p: PowerProfile) -> Seq<char> {
    match p {
        PowerProfile::Performance => "Performance"@,
        PowerProfile::Balanced => "Balanced"@,
        PowerProfile::PowerSaver => "Battery saver"@,
    }
}

/// The GNOME symbolic icon name.
pub open spec fn spec_gnome_icon_name(p: PowerProfile) -> Seq<char> {
    match p {
        PowerProfile::Performance => "power-profile-performance-symbolic"@,
        PowerProfile::Balanced => "power-profile-balanced-symbolic"@,
        PowerProfile::PowerSaver => "power-profile-power-saver-symbolic"@,
    }
}

/// The Material Symbols glyph: speed gauge, dial, leaf.
pub open spec fn spec_icon_code(p: PowerProfile) -> Seq<char> {
    match p {
        PowerProfile::Performance => "\u{e80e}"@,
        PowerProfile::Balanced => "\u{e429}"@,
        PowerProfile::PowerSaver => "\u{e80d}"@,
    }
}

/// The argument of `powerprofilesctl set`.
pub open spec fn spec_cmd_str(p: PowerProfile) -> Seq<char> {
    match p {
        PowerProfile::Performance => "performance"@,
        PowerProfile::Balanced => "balanced"@,
        PowerProfile::PowerSaver => "power-saver"@,
    }
}

impl PowerProfile {
    /// The name shown to the user.
    pub fn display_name(&self) -> (r: &'static str)
        ensures
            r@ == spec_display_name(*self),
    {
        match self {
            PowerProfile::Performance => "Performance",
            PowerProfile::Balanced => "Balanced",
            PowerProfile::PowerSaver => "Battery saver",
        }
    }

    /// The GNOME symbolic icon name.
    pub fn gnome_icon_name(&self) -> (r: &'static str)
        ensures
            r@ == spec_gnome_icon_name(*self),
    {
        match self {
            PowerProfile::Performance => "power-profile-performance-symbolic",
            PowerProfile::Balanced => "power-profile-balanced-symbolic",
            PowerProfile::PowerSaver => "power-profile-power-saver-symbolic",
        }
    }

    /// The Material Symbols glyph.
    pub fn icon_code(&self) -> (r: &'static str)
        ensures
            r@ == spec_icon_code(*self),
    {
        match self {
            PowerProfile::Performance => "\u{e80e}",
            PowerProfile::Balanced => "\u{e429}",
            PowerProfile::PowerSaver => "\u{e80d}",
        }
    }

    /// The argument of `powerprofilesctl set`.
    pub fn to_cmd_str(&self) -> (r: &'static str)
        ensures
            r@ == spec_cmd_str(*self),
    {
        match self {
            PowerProfile::Performance => "performance",
            PowerProfile::Balanced => "balanced",
            PowerProfile::PowerSaver => "power-saver",
        }
    }

    /// The profile that follows this one in the cycle.
    pub fn next(&self) -> (r: PowerProfile)
        ensures
            r == spec_next_profile(*self),
    {
        match self {
            PowerProfile::Balanced => PowerProfile::Performance,
            PowerProfile::Performance => PowerProfile::PowerSaver,
            PowerProfile::PowerSaver => PowerProfile::Balanced,
        }
    }
}

/// The profile that `powerprofilesctl get` reports in `stdout`: the trimmed,
/// lower-cased output names "performance" or else "power-saver"; anything
/// else counts as balanced.
pub open spec fn spec_profile_from_output(stdout: Seq<char>) -> PowerProfile {
    let t = lowercase(trim(stdout));
    if contains(t, "performance"@) {
        PowerProfile::Performance
    } else if contains(t, "power-saver"@) {
        PowerProfile::PowerSaver
    } else {
        PowerProfile::Balanced
    }
}

/// `stdout` is the name of profile `p` (as `powerprofilesctl get` prints
/// it) with nothing but whitespace before and after it.
pub open spec fn names_profile(stdout: Seq<char>, p: PowerProfile) -> bool {
    exists|i: int, j: int|
        #![trigger stdout.subrange(i, j)]
        0 <= i <= j <= stdout.len() && stdout.subrange(i, j) == spec_cmd_str(p) && (forall|k: int|
            0 <= k < i ==> is_ws(#[trigger] stdout[k])) && (forall|k: int|
            j <= k < stdout.len() ==> is_ws(#[trigger] stdout[k]))
}

proof fn lemma_trim_start_ws(s: Seq<char>, i: int)
    requires
        0 <= i <= s.len(),
        forall|k: int| 0 <= k < i ==> is_ws(#[trigger] s[k]),
        i < s.len() ==> !is_ws(s[i]),
    ensures
        trim_start(s) == s.skip(i),
    decreases i,
{
    if i == 0 {
        assert(s.skip(0) =~= s);
    } else {
        let d = s.drop_first();
        assert forall|k: int| 0 <= k < i - 1 implies is_ws(#[trigger] d[k]) by {
            assert(d[k] == s[k + 1]);
        }
        if i < s.len() {
            assert(d[i - 1] == s[i]);
        }
        lemma_trim_start_ws(d, i - 1);
        assert(d.skip(i - 1) =~= s.skip(i));
    }
}

proof fn lemma_trim_end_ws(s: Seq<char>, j: int)
    requires
        0 <= j <= s.len(),
        forall|k: int| j <= k < s.len() ==> is_ws(#[trigger] s[k]),
        j > 0 ==> !is_ws(s[j - 1]),
    ensures
        trim_end(s) == s.take(j),
    decreases s.len() - j,
{
    if j == s.len() {
        assert(s.take(j) =~= s);
    } else {
        let d = s.drop_last();
        assert forall|k: int| j <= k < d.len() implies is_ws(#[trigger] d[k]) by {
            assert(d[k] == s[k]);
        }
        if j > 0 {
            assert(d[j - 1] == s[j - 1]);
        }
        assert(is_ws(s[s.len() - 1]));
        lemma_trim_end_ws(d, j);
        assert(d.take(j) =~= s.take(j));
    }
}

/// A profile name neither starts nor ends with whitespace.
proof fn lemma_name_edges(p: PowerProfile)
    ensures
        spec_cmd_str(p).len() > 0,
        !is_ws(spec_cmd_str(p)[0]),
        !is_ws(spec_cmd_str(p).last()),
{
    reveal_strlit("performance");
    reveal_strlit("power-saver");
    reveal_strlit("balanced");
}

/// A profile name alone, lower-cased, picks out that profile.
proof fn lemma_profile_of_name(p: PowerProfile)
    ensures
        forall|i: int| 0 <= i < spec_cmd_str(p).len() ==> (#[trigger] spec_cmd_str(p)[i] as u32) < 128,
        spec_cmd_str(p).map_values(|c: char| ascii_lower(c)) == spec_cmd_str(p),
        (if contains(spec_cmd_str(p), "performance"@) {
            PowerProfile::Performance
        } else if contains(spec_cmd_str(p), "power-saver"@) {
            PowerProfile::PowerSaver
        } else {
            PowerProfile::Balanced
        }) == p,
{
    reveal_strlit("performance");
    reveal_strlit("power-saver");
    reveal_strlit("balanced");
    let t = spec_cmd_str(p);
    assert(t.map_values(|c: char| ascii_lower(c)) =~= t);
    match p {
        PowerProfile::Performance => {
            assert(occurs_at(t, "performance"@, 0)) by {
                assert(t.subrange(0, 11) =~= t);
            }
        },
        PowerProfile::PowerSaver => {
            assert(occurs_at(t, "power-saver"@, 0)) by {
                assert(t.subrange(0, 11) =~= t);
            }
            assert forall|i: int| !occurs_at(t, "performance"@, i) by {
                if occurs_at(t, "performance"@, i) {
                    assert(i == 0);
                    assert(t.subrange(0, 11)[2] == t[2]);
                }
            }
        },
        PowerProfile::Balanced => {
            assert forall|i: int| !occurs_at(t, "performance"@, i) by {}
            assert forall|i: int| !occurs_at(t, "power-saver"@, i) by {}
        },
    }
}

proof fn lemma_trim_named(s0: Seq<char>, p: PowerProfile)
    requires
        names_profile(s0, p),
    ensures
        trim(s0) == spec_cmd_str(p),
{
    let (i, j) = choose|i: int, j: int|
        #![trigger s0.subrange(i, j)]
        0 <= i <= j <= s0.len() && s0.subrange(i, j) == spec_cmd_str(p) && (forall|k: int|
            0 <= k < i ==> is_ws(#[trigger] s0[k])) && (forall|k: int|
            j <= k < s0.len() ==> is_ws(#[trigger] s0[k]));
    let c = spec_cmd_str(p);
    lemma_name_edges(p);
    assert(c[0] == s0.subrange(i, j)[0]);
    assert(c.last() == s0.subrange(i, j)[j - i - 1]);
    lemma_trim_start_ws(s0, i);
    let s1 = s0.skip(i);
    assert forall|k: int| j - i <= k < s1.len() implies is_ws(#[trigger] s1[k]) by {
        assert(s1[k] == s0[k + i]);
    }
    assert(s1[j - i - 1] == s0[j - 1]);
    lemma_trim_end_ws(s1, j - i);
    assert(s1.take(j - i) =~= c);
}

/// Reading and setting the active power profile.
pub struct PowerProfileService;

impl PowerProfileService {
    /// The profile named by the output of `powerprofilesctl get`.
    pub fn profile_from_output(stdout: &str) -> (r: PowerProfile)
        ensures
            r == spec_profile_from_output(stdout@),
            forall|p: PowerProfile| #[trigger] names_profile(stdout@, p) ==> r == p,
    {
        let raw = chars_of(stdout);
        let t = trim_chars(raw.as_slice());
        let low = to_lowercase(t.as_slice());
        proof {
            assert forall|p: PowerProfile| #[trigger] names_profile(stdout@, p) implies (if contains(low@, "performance"@) {
                PowerProfile::Performance
            } else if contains(low@, "power-saver"@) {
                PowerProfile::PowerSaver
            } else {
                PowerProfile::Balanced
            }) == p by {
                lemma_trim_named(stdout@, p);
                lemma_profile_of_name(p);
            }
        }
        let perf = chars_of("performance");
        let saver = chars_of("power-saver");
        if contains_chars(low.as_slice(), perf.as_slice()) {
            PowerProfile::Performance
        } else if contains_chars(low.as_slice(), saver.as_slice()) {
            PowerProfile::PowerSaver
        } else {
            PowerProfile::Balanced
        }
    }

    /// The active profile: read from `powerprofilesctl get` output,
    /// balanced when the command could not run.
    pub fn get_profile(output: Option<&str>) -> (r: PowerProfile)
        ensures
            r == match output {
                Some(s) => spec_profile_from_output(s@),
                None => PowerProfile::Balanced,
            },
            output is Some ==> forall|p: PowerProfile| #[trigger] names_profile(output.unwrap()@, p) ==> r == p,
    {
        match output {
            Some(s) => Self::profile_from_output(s),
            None => PowerProfile::Balanced,
        }
    }

    /// The `powerprofilesctl` arguments that activate a profile.
    pub fn set_profile_args(profile: PowerProfile) -> (r: Vec<String>)
        ensures
            r@.len() == 2,
            r@[0]@ == "set"@,
            r@[1]@ == spec_cmd_str(profile),
    {
        let mut r: Vec<String> = Vec::new();
        r.push(crate::text::string_of(chars_of("set").as_slice()));
        r.push(crate::text::string_of(chars_of(profile.to_cmd_str()).as_slice()));
        r
    }

    /// The profile that cycling moves to from `current`.
    pub fn cycle_profile(current: PowerProfile) -> (r: PowerProfile)
        ensures
            r == spec_next_profile(current),
    {
        current.next()
    }
}

/// Cycling visits the three profiles in turn: three steps lead back to the
/// start and no step stays in place.
pub proof fn lemma_cycle_period_three(p: PowerProfile)
    ensures
        spec_next_profile(spec_next_profile(spec_next_profile(p))) == p,
        spec_next_profile(p) != p,
        spec_next_profile(spec_next_profile(p)) != p,
{
}

} // verus!
