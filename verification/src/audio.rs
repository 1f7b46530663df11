//! PipeWire / PulseAudio outputs: reading `pactl list sinks`, cleaning up
//! device names, and the choices around the default sink.
use vstd::prelude::*;
use crate::text::{
    after, append_chars, chars_of, contains, contains_chars, ends_with, ends_with_chars,
    eq_ignore_ascii_case, eq_ignore_ascii_case_chars, lines, lines_of, starts_with,
    starts_with_chars, string_of, string_views, sub_chars, trim, trim_chars, views,
};

verus! {

/// An audio output device.
#[derive(Debug, Clone)]
pub struct AudioSink {
    pub name: String,
    pub description: String,
    pub is_default: bool,
}

/// The content of an `AudioSink`.
#[verifier::ext_equal]
pub struct AudioSinkView {
    pub name: Seq<char>,
    pub description: Seq<char>,
    pub is_default: bool,
}

impl View for AudioSink {
    type V = AudioSinkView;

    open spec fn view(&self) -> AudioSinkView {
        AudioSinkView { name: self.name@, description: self.description@, is_default: self.is_default }
    }
}

/// The views of a list of sinks.
pub open spec fn sink_views(v: Seq<AudioSink>) -> Seq<AudioSinkView> {
    v.map_values(|s: AudioSink| s@)
}

/// Chipset and vendor prefixes that device descriptions are cleaned of, in
/// the order they are tried.
pub open spec fn chipset_prefixes() -> Seq<Seq<char>> {
    seq![
        "700 Series Chipset Family HD Audio Controller "@,
        "600 Series Chipset Family HD Audio Controller "@,
        "500 Series Chipset Family HD Audio Controller "@,
        "400 Series Chipset Family HD Audio Controller "@,
        "300 Series Chipset Family HD Audio Controller "@,
        "200 Series Chipset Family HD Audio Controller "@,
        "100 Series Chipset Family HD Audio Controller "@,
        "Family HD Audio Controller "@,
        "High Definition Audio Controller "@,
        "HD Audio Controller "@,
        "Built-in Audio "@,
        "Intel Corporation "@,
        "Advanced Micro Devices, Inc. [AMD] "@,
        "NVIDIA Corporation "@,
        "Audio Controller "@,
    ]
}

/// `d` without the first prefix of `ps` that it starts with.
pub open spec fn strip_first_prefix(d: Seq<char>, ps: Seq<Seq<char>>) -> Seq<char>
    decreases ps.len(),
{
    if ps.len() == 0 {
        d
    } else if starts_with(d, ps[0]) {
        after(d, ps[0])
    } else {
        strip_first_prefix(d, ps.drop_first())
    }
}

/// The cleaned-up device name: trimmed, without its first chipset prefix and
/// a final " Output"; "speaker" in any case becomes "Speakers", and the raw
/// description is kept when nothing is left.
pub open spec fn spec_clean_device_name(raw: Seq<char>) -> Seq<char> {
    let d1 = strip_first_prefix(trim(raw), chipset_prefixes());
    let d2 = if ends_with(d1, " Output"@) { d1.take(d1.len() - " Output"@.len()) } else { d1 };
    if eq_ignore_ascii_case(d2, "speaker"@) {
        "Speakers"@
    } else if d2.len() == 0 {
        raw
    } else {
        d2
    }
}

/// Reading `pactl list sinks`: a "Sink #" header starts a new sink (not yet
/// known to be running), "Name: " names it, "State: " tells whether it is
/// running, whichever of the two comes first, and "Description: " completes
/// it (falling back to the name when empty).
pub open spec fn sinks_go(ls: Seq<Seq<char>>, name: Seq<char>, running: bool, acc: Seq<AudioSinkView>) -> Seq<AudioSinkView>
    decreases ls.len(),
{
    if ls.len() == 0 {
        acc
    } else {
        let t = trim(ls[0]);
        let rest = ls.drop_first();
        if starts_with(t, "Sink #"@) {
            sinks_go(rest, name, false, acc)
        } else if starts_with(t, "Name: "@) {
            sinks_go(rest, after(t, "Name: "@), running, acc)
        } else if starts_with(t, "State: "@) {
            sinks_go(rest, name, contains(t, "RUNNING"@), acc)
        } else if starts_with(t, "Description: "@) {
            let raw = after(t, "Description: "@);
            let d = spec_clean_device_name(if raw.len() == 0 { name } else { raw });
            sinks_go(rest, name, running, acc.push(AudioSinkView { name: name, description: d, is_default: running }))
        } else {
            sinks_go(rest, name, running, acc)
        }
    }
}

/// The sinks listed in `pactl list sinks` output, the running ones marked default.
pub open spec fn spec_parse_sinks(text: Seq<char>) -> Seq<AudioSinkView> {
    sinks_go(lines(text), seq![], false, seq![])
}

/// Some sink is marked default.
pub open spec fn has_default(s: Seq<AudioSinkView>) -> bool {
    exists|i: int| 0 <= i < s.len() && (#[trigger] s[i]).is_default
}

/// The index of the first sink with the name, if any.
pub open spec fn first_named(s: Seq<AudioSinkView>, name: Seq<char>) -> Option<int>
    decreases s.len(),
{
    if s.len() == 0 {
        None
    } else if s[0].name == name {
        Some(0)
    } else {
        match first_named(s.drop_first(), name) {
            Some(k) => Some(k + 1),
            None => None,
        }
    }
}

/// The sinks with the first one named `name` marked default.
pub open spec fn spec_mark_default(s: Seq<AudioSinkView>, name: Seq<char>) -> Seq<AudioSinkView> {
    match first_named(s, name) {
        Some(k) => s.update(k, AudioSinkView { is_default: true, ..s[k] }),
        None => s,
    }
}

/// The built-in speakers entry shown when no sink is listed.
pub open spec fn fallback_sink() -> AudioSinkView {
    AudioSinkView { name: "default"@, description: "Built-in Speakers"@, is_default: true }
}

/// The sink list shown to the user: the parsed `pactl list sinks` output
/// (nothing when it could not run); when sinks are listed but none is
/// running, the one named by `pactl get-default-sink` is marked; the
/// built-in speakers entry when nothing is listed.
pub open spec fn spec_get_sinks(list_output: Option<Seq<char>>, default_name: Option<Seq<char>>) -> Seq<AudioSinkView> {
    let parsed = match list_output {
        Some(t) => spec_parse_sinks(t),
        None => seq![],
    };
    let marked = if parsed.len() > 0 && !has_default(parsed) {
        match default_name {
            Some(n) => spec_mark_default(parsed, n),
            None => parsed,
        }
    } else {
        parsed
    };
    if marked.len() == 0 { seq![fallback_sink()] } else { marked }
}

/// PipeWire / PulseAudio output control.
pub struct AudioService;

fn prefix_at(i: usize) -> (r: &'static str)
    requires
        i < 15,
    ensures
        r@ == chipset_prefixes()[i as int],
{
    if i == 0 { "700 Series Chipset Family HD Audio Controller " }
    else if i == 1 { "600 Series Chipset Family HD Audio Controller " }
    else if i == 2 { "500 Series Chipset Family HD Audio Controller " }
    else if i == 3 { "400 Series Chipset Family HD Audio Controller " }
    else if i == 4 { "300 Series Chipset Family HD Audio Controller " }
    else if i == 5 { "200 Series Chipset Family HD Audio Controller " }
    else if i == 6 { "100 Series Chipset Family HD Audio Controller " }
    else if i == 7 { "Family HD Audio Controller " }
    else if i == 8 { "High Definition Audio Controller " }
    else if i == 9 { "HD Audio Controller " }
    else if i == 10 { "Built-in Audio " }
    else if i == 11 { "Intel Corporation " }
    else if i == 12 { "Advanced Micro Devices, Inc. [AMD] " }
    else if i == 13 { "NVIDIA Corporation " }
    else { "Audio Controller " }
}

fn clean_chars(raw: &Vec<char>) -> (r: Vec<char>)
    ensures
        r@ == spec_clean_device_name(raw@),
{
    let d0 = trim_chars(raw.as_slice());
    let mut d1 = d0.clone();
    let mut i: usize = 0;
    let ghost ps = chipset_prefixes();
    assert(ps.skip(0) =~= ps);
    while i < 15
        invariant_except_break
            i <= 15,
            d1@ == d0@,
        invariant
            ps == chipset_prefixes(),
            ps.len() == 15,
            strip_first_prefix(d0@, ps.skip(i as int)) == strip_first_prefix(d0@, ps),
        ensures
            d1@ == strip_first_prefix(d0@, ps),
        decreases 15 - i,
    {
        let p = chars_of(prefix_at(i));
        assert(ps.skip(i as int)[0] == ps[i as int]);
        assert(ps.skip(i as int).drop_first() =~= ps.skip(i + 1));
        if starts_with_chars(d0.as_slice(), p.as_slice()) {
            d1 = sub_chars(d0.as_slice(), p.len(), d0.len());
            assert(d1@ =~= after(d0@, p@));
            break;
        }
        i = i + 1;
        proof {
            if i == 15 {
                assert(ps.skip(15) =~= Seq::<Seq<char>>::empty());
            }
        }
    }
    let out_suffix = chars_of(" Output");
    let d2 = if ends_with_chars(d1.as_slice(), out_suffix.as_slice()) {
        sub_chars(d1.as_slice(), 0, d1.len() - out_suffix.len())
    } else {
        d1
    };
    let speaker = chars_of("speaker");
    if eq_ignore_ascii_case_chars(d2.as_slice(), speaker.as_slice()) {
        chars_of("Speakers")
    } else if d2.len() == 0 {
        raw.clone()
    } else {
        d2
    }
}

fn lit(s: &str) -> (r: Vec<char>)
    ensures
        r@ == s@,
{
    chars_of(s)
}

impl AudioService {
    /// The cleaned-up name of a device description.
    pub fn clean_device_name(raw_desc: &str) -> (r: String)
        ensures
            r@ == spec_clean_device_name(raw_desc@),
    {
        let raw = chars_of(raw_desc);
        let c = clean_chars(&raw);
        string_of(c.as_slice())
    }

    /// The sinks listed in `pactl list sinks` output.
    pub fn parse_sinks(stdout: &str) -> (r: Vec<AudioSink>)
        ensures
            sink_views(r@) == spec_parse_sinks(stdout@),
    {
        let cs = chars_of(stdout);
        let ls = lines_of(cs.as_slice());
        let sink_p = lit("Sink #");
        let name_p = lit("Name: ");
        let state_p = lit("State: ");
        let desc_p = lit("Description: ");
        let running_p = lit("RUNNING");
        let mut name: Vec<char> = Vec::new();
        let mut running = false;
        let mut acc: Vec<AudioSink> = Vec::new();
        let mut i: usize = 0;
        assert(views(ls@).skip(0) =~= views(ls@));
        assert(sink_views(acc@) =~= Seq::<AudioSinkView>::empty());
        while i < ls.len()
            invariant
                i <= ls.len(),
                sink_p@ == "Sink #"@,
                name_p@ == "Name: "@,
                state_p@ == "State: "@,
                desc_p@ == "Description: "@,
                running_p@ == "RUNNING"@,
                sinks_go(views(ls@).skip(i as int), name@, running, sink_views(acc@)) == sinks_go(lines(stdout@), seq![], false, seq![]),
                views(ls@) == lines(stdout@),
            decreases ls.len() - i,
        {
            let ghost rest = views(ls@).skip(i as int);
            assert(rest[0] == ls@[i as int]@);
            assert(rest.drop_first() =~= views(ls@).skip(i + 1));
            let t = trim_chars(ls[i].as_slice());
            if starts_with_chars(t.as_slice(), sink_p.as_slice()) {
                running = false;
            } else if starts_with_chars(t.as_slice(), name_p.as_slice()) {
                name = sub_chars(t.as_slice(), name_p.len(), t.len());
                assert(name@ =~= after(t@, "Name: "@));
            } else if starts_with_chars(t.as_slice(), state_p.as_slice()) {
                running = contains_chars(t.as_slice(), running_p.as_slice());
            } else if starts_with_chars(t.as_slice(), desc_p.as_slice()) {
                let raw = sub_chars(t.as_slice(), desc_p.len(), t.len());
                assert(raw@ =~= after(t@, "Description: "@));
                let src = if raw.len() == 0 { name.clone() } else { raw };
                let d = clean_chars(&src);
                let sink = AudioSink {
                    name: string_of(name.as_slice()),
                    description: string_of(d.as_slice()),
                    is_default: running,
                };
                let ghost old_acc = sink_views(acc@);
                acc.push(sink);
                assert(sink_views(acc@) =~= old_acc.push(sink@));
            }
            i = i + 1;
        }
        assert(views(ls@).skip(i as int) =~= Seq::<Seq<char>>::empty());
        acc
    }

    /// The sinks to show, from the `pactl list sinks` output (`None` when it
    /// could not run) and the `pactl get-default-sink` name (`None` when it
    /// was not asked for or could not be had; it is asked for only when
    /// `needs_default_lookup` holds of the parsed list).
    pub fn get_sinks(list_output: Option<&str>, default_name: Option<&str>) -> (r: Vec<AudioSink>)
        ensures
            sink_views(r@) == spec_get_sinks(
                match list_output { Some(t) => Some(t@), None => None },
                match default_name { Some(n) => Some(n@), None => None },
            ),
            r@.len() > 0,
    {
        let mut sinks: Vec<AudioSink> = match list_output {
            Some(t) => Self::parse_sinks(t),
            None => Vec::new(),
        };
        proof {
            if list_output is None {
                assert(sink_views(sinks@) =~= Seq::<AudioSinkView>::empty());
            }
        }
        if Self::needs_default_lookup(&sinks) {
            match default_name {
                Some(n) => Self::mark_default_sink(&mut sinks, n),
                None => {},
            }
        }
        let r = Self::sinks_or_fallback(sinks);
        assert(sink_views(r@).len() == r@.len());
        r
    }

    /// No sink is marked default though some are listed: the default sink
    /// name has to be asked for.
    pub fn needs_default_lookup(sinks: &Vec<AudioSink>) -> (r: bool)
        ensures
            r == (sinks@.len() > 0 && !has_default(sink_views(sinks@))),
    {
        let mut i: usize = 0;
        while i < sinks.len()
            invariant
                i <= sinks.len(),
                forall|k: int| 0 <= k < i ==> !sinks@[k].is_default,
            decreases sinks.len() - i,
        {
            if sinks[i].is_default {
                assert(sink_views(sinks@)[i as int].is_default);
                return false;
            }
            i = i + 1;
        }
        assert forall|k: int| 0 <= k < sink_views(sinks@).len() implies !(#[trigger] sink_views(sinks@)[k]).is_default by {
            assert(sink_views(sinks@)[k] == sinks@[k]@);
        }
        sinks.len() > 0
    }

    /// Marks the first sink named `default_name` as the default.
    pub fn mark_default_sink(sinks: &mut Vec<AudioSink>, default_name: &str)
        ensures
            sink_views(final(sinks)@) == spec_mark_default(sink_views(old(sinks)@), default_name@),
    {
        let target = chars_of(default_name);
        let ghost s0 = sink_views(sinks@);
        let mut i: usize = 0;
        assert(s0.skip(0) =~= s0);
        while i < sinks.len()
            invariant
                i <= sinks.len(),
                sinks@ == old(sinks)@,
                s0 == sink_views(old(sinks)@),
                target@ == default_name@,
                first_named(s0, default_name@) == match first_named(s0.skip(i as int), default_name@) {
                    Some(k) => Some(k + i),
                    None => None,
                },
            decreases sinks.len() - i,
        {
            let ghost rest = s0.skip(i as int);
            assert(rest[0] == sinks@[i as int]@);
            assert(rest.drop_first() =~= s0.skip(i + 1));
            let n = chars_of(sinks[i].name.as_str());
            if crate::text::eq_chars(n.as_slice(), target.as_slice()) {
                let updated = AudioSink {
                    name: sinks[i].name.clone(),
                    description: sinks[i].description.clone(),
                    is_default: true,
                };
                sinks.set(i, updated);
                assert(sink_views(sinks@) =~= s0.update(i as int, AudioSinkView { is_default: true, ..s0[i as int] }));
                return;
            }
            i = i + 1;
        }
        assert(s0.skip(i as int) =~= Seq::<AudioSinkView>::empty());
    }

    /// The sinks, or the built-in speakers entry when none is listed.
    pub fn sinks_or_fallback(sinks: Vec<AudioSink>) -> (r: Vec<AudioSink>)
        ensures
            sink_views(r@) == if sinks@.len() == 0 {
                seq![fallback_sink()]
            } else {
                sink_views(sinks@)
            },
    {
        if sinks.len() == 0 {
            let mut r: Vec<AudioSink> = Vec::new();
            r.push(AudioSink {
                name: String::from_str("default"),
                description: String::from_str("Built-in Speakers"),
                is_default: true,
            });
            assert(sink_views(r@) =~= seq![fallback_sink()]);
            r
        } else {
            sinks
        }
    }

    /// The default sink name in `pactl get-default-sink` output: the trimmed text.
    pub fn default_sink_name_from_output(stdout: &str) -> (r: String)
        ensures
            r@ == trim(stdout@),
    {
        let cs = chars_of(stdout);
        let t = trim_chars(cs.as_slice());
        string_of(t.as_slice())
    }

    /// Whether the default sink is muted: `wpctl get-volume` output says
    /// "[MUTED]"; not when the command could not run.
    pub fn is_muted(output: Option<&str>) -> (r: bool)
        ensures
            r == match output {
                Some(s) => contains(s@, "[MUTED]"@),
                None => false,
            },
    {
        match output {
            Some(s) => {
                let cs = chars_of(s);
                let m = lit("[MUTED]");
                contains_chars(cs.as_slice(), m.as_slice())
            },
            None => false,
        }
    }

    /// The volume in percent, 0 to 100: the first number of `wpctl get-volume`
    /// output scaled to percent and capped at 100 (a boosted sink reads
    /// above 1.00), else 50.
    pub fn get_volume(first_level: Option<u32>) -> (r: u32)
        ensures
            r <= 100,
            r == match first_level {
                Some(v) => if v > 100 { 100 } else { v },
                None => 50,
            },
    {
        match first_level {
            Some(v) => if v > 100 { 100 } else { v },
            None => 50,
        }
    }

    /// Volume and mute from one `wpctl get-volume` run (`None` when it could
    /// not run) and the percentage read from its first number.
    pub fn get_volume_and_mute(output: Option<&str>, first_level: Option<u32>) -> (r: (u32, bool))
        ensures
            r == match output {
                Some(s) => (
                    match first_level {
                        Some(v) => v,
                        None => 50u32,
                    },
                    contains(s@, "[MUTED]"@),
                ),
                None => (50u32, false),
            },
    {
        match output {
            Some(_) => {
                let v: u32 = match first_level {
                    Some(v) => v,
                    None => 50,
                };
                (v, Self::is_muted(output))
            },
            None => (50, false),
        }
    }

    /// The `wpctl` arguments that set the default sink's volume.
    pub fn set_volume_args(pct: u32) -> (r: Vec<String>)
        ensures
            string_views(r@) == seq!["set-volume"@, "@DEFAULT_AUDIO_SINK@"@, crate::text::decimal(pct as nat) + "%"@],
    {
        let mut r: Vec<String> = Vec::new();
        r.push(string_of(lit("set-volume").as_slice()));
        r.push(string_of(lit("@DEFAULT_AUDIO_SINK@").as_slice()));
        r.push(Self::volume_arg(pct));
        assert(string_views(r@) =~= seq!["set-volume"@, "@DEFAULT_AUDIO_SINK@"@, crate::text::decimal(pct as nat) + "%"@]);
        r
    }

    /// The `wpctl` arguments that toggle the default sink's mute.
    pub fn toggle_mute_args() -> (r: Vec<String>)
        ensures
            string_views(r@) == seq!["set-mute"@, "@DEFAULT_AUDIO_SINK@"@, "toggle"@],
    {
        let mut r: Vec<String> = Vec::new();
        r.push(string_of(lit("set-mute").as_slice()));
        r.push(string_of(lit("@DEFAULT_AUDIO_SINK@").as_slice()));
        r.push(string_of(lit("toggle").as_slice()));
        assert(string_views(r@) =~= seq!["set-mute"@, "@DEFAULT_AUDIO_SINK@"@, "toggle"@]);
        r
    }

    /// The two commands that make a sink the default: `pactl` arguments,
    /// then `wpctl` arguments.
    pub fn set_default_sink_args(sink_name: &str) -> (r: (Vec<String>, Vec<String>))
        ensures
            string_views(r.0@) == seq!["set-default-sink"@, sink_name@],
            string_views(r.1@) == seq!["set-default"@, sink_name@],
    {
        let mut a: Vec<String> = Vec::new();
        a.push(string_of(lit("set-default-sink").as_slice()));
        a.push(string_of(lit(sink_name).as_slice()));
        let mut b: Vec<String> = Vec::new();
        b.push(string_of(lit("set-default").as_slice()));
        b.push(string_of(lit(sink_name).as_slice()));
        assert(string_views(a@) =~= seq!["set-default-sink"@, sink_name@]);
        assert(string_views(b@) =~= seq!["set-default"@, sink_name@]);
        (a, b)
    }

    /// Whether a `pactl subscribe` line concerns a sink or the server.
    pub fn is_sink_event(line: &str) -> (r: bool)
        ensures
            r == (contains(line@, "sink"@) || contains(line@, "server"@)),
    {
        let cs = chars_of(line);
        let a = lit("sink");
        let b = lit("server");
        contains_chars(cs.as_slice(), a.as_slice()) || contains_chars(cs.as_slice(), b.as_slice())
    }

    /// The `wpctl set-volume` argument for a percentage: "<pct>%".
    pub fn volume_arg(pct: u32) -> (r: String)
        ensures
            r@ == crate::text::decimal(pct as nat) + "%"@,
    {
        let mut v = crate::text::decimal_chars(pct as u64);
        let pc = lit("%");
        append_chars(&mut v, pc.as_slice());
        string_of(v.as_slice())
    }
}


proof fn lemma_strip_is_suffix(d: Seq<char>, ps: Seq<Seq<char>>)
    ensures
        exists|n: int| 0 <= n <= d.len() && strip_first_prefix(d, ps) == #[trigger] d.skip(n),
    decreases ps.len(),
{
    if ps.len() == 0 {
        assert(d.skip(0) =~= d);
    } else if starts_with(d, ps[0]) {
        assert(after(d, ps[0]) == d.skip(ps[0].len() as int));
    } else {
        lemma_strip_is_suffix(d, ps.drop_first());
    }
}

/// A cleaned device name is empty exactly when the description is, and it
/// is "Speakers", the description itself, or a stretch of the trimmed
/// description.
pub proof fn lemma_clean_device_name(raw: Seq<char>)
    ensures
        (spec_clean_device_name(raw).len() == 0) == (raw.len() == 0),
        spec_clean_device_name(raw) == "Speakers"@ || spec_clean_device_name(raw) == raw || exists|i: int, j: int|
            0 <= i <= j <= trim(raw).len() && spec_clean_device_name(raw) == #[trigger] trim(raw).subrange(i, j),
{
    reveal_strlit("Speakers");
    reveal_strlit("speaker");
    reveal_strlit(" Output");
    let t = trim(raw);
    lemma_strip_is_suffix(t, chipset_prefixes());
    let d1 = strip_first_prefix(t, chipset_prefixes());
    let n = choose|n: int| 0 <= n <= t.len() && d1 == #[trigger] t.skip(n);
    let d2 = if ends_with(d1, " Output"@) { d1.take(d1.len() - " Output"@.len()) } else { d1 };
    let m = if ends_with(d1, " Output"@) { t.len() - " Output"@.len() } else { t.len() as int };
    assert(d2 =~= t.subrange(n, m));
    lemma_trim_empty(raw);
    if raw.len() == 0 {
        assert(d1.len() == 0);
        assert(d2.len() == 0);
        assert(!eq_ignore_ascii_case(d2, "speaker"@));
    }
}

proof fn lemma_trim_empty(raw: Seq<char>)
    ensures
        raw.len() == 0 ==> trim(raw).len() == 0,
{
    if raw.len() == 0 {
        assert(crate::text::trim_start(raw) == raw);
        assert(crate::text::trim_end(raw) == raw);
    }
}

proof fn lemma_first_named(s: Seq<AudioSinkView>, name: Seq<char>, i: int)
    requires
        0 <= i < s.len(),
        s[i].name == name,
    ensures
        first_named(s, name) matches Some(k) && 0 <= k <= i && s[k].name == name,
    decreases s.len(),
{
    if s[0].name != name {
        let d = s.drop_first();
        assert(d[i - 1] == s[i]);
        lemma_first_named(d, name, i - 1);
        let k = first_named(d, name)->0;
        assert(d[k] == s[k + 1]);
    }
}

/// Marking a listed sink as the default leaves some sink marked and the
/// list otherwise as it was: the same sinks, names and descriptions.
pub proof fn lemma_mark_default(s: Seq<AudioSinkView>, name: Seq<char>, i: int)
    requires
        0 <= i < s.len(),
        s[i].name == name,
    ensures
        has_default(spec_mark_default(s, name)),
        spec_mark_default(s, name).len() == s.len(),
        forall|j: int| 0 <= j < s.len() ==> (#[trigger] spec_mark_default(s, name)[j]).name == s[j].name
            && spec_mark_default(s, name)[j].description == s[j].description,
{
    lemma_first_named(s, name, i);
    let k = first_named(s, name)->0;
    assert(spec_mark_default(s, name)[k].is_default);
}

} // verus!
