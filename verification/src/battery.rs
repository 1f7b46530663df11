//! The battery: reading its charge from sysfs or `upower`, and its glyph.
use vstd::prelude::*;
use crate::text::{
    chars_of, eq_ignore_ascii_case, eq_ignore_ascii_case_chars, lines, lines_of, parse_u32,
    parse_u32_spec, starts_with, starts_with_chars, string_of, sub_chars, trim, trim_chars, views,
    words, words_of,
};

verus! {

/// The battery's charge in percent, its status, and whether there is one.
#[derive(Debug, Clone)]
pub struct BatteryInfo {
    pub capacity: u32,
    pub status: String,
    pub is_present: bool,
}

/// The content of a `BatteryInfo`.
pub struct BatteryView {
    pub capacity: u32,
    pub status: Seq<char>,
    pub is_present: bool,
}

impl View for BatteryInfo {
    type V = BatteryView;

    open spec fn view(&self) -> BatteryView {
        BatteryView { capacity: self.capacity, status: self.status@, is_present: self.is_present }
    }
}

/// What was read of one power supply: its `capacity` file and its
/// `status` file, each if it could be read.
pub open spec fn supply_view(r: (Option<String>, Option<String>)) -> (Option<Seq<char>>, Option<Seq<char>>) {
    (
        match r.0 { Some(c) => Some(c@), None => None },
        match r.1 { Some(t) => Some(t@), None => None },
    )
}

/// The battery of the first power supply, in order, whose capacity file
/// was read and holds a number.
pub open spec fn first_sysfs(rs: Seq<(Option<Seq<char>>, Option<Seq<char>>)>) -> Option<BatteryView>
    decreases rs.len(),
{
    if rs.len() == 0 {
        None
    } else {
        match rs[0].0 {
            Some(c) => match spec_sysfs_info(c, rs[0].1) {
                Some(b) => Some(b),
                None => first_sysfs(rs.drop_first()),
            },
            None => first_sysfs(rs.drop_first()),
        }
    }
}

/// The view of an optional battery reading.
pub open spec fn opt_battery(o: Option<BatteryInfo>) -> Option<BatteryView> {
    match o {
        Some(b) => Some(b@),
        None => None,
    }
}

/// A charge held at 100 percent at most.
pub open spec fn capped(c: u32) -> u32 {
    if c < 100 {
        c
    } else {
        100
    }
}

/// A battery read from sysfs: the trimmed `capacity` file as a number, and
/// the trimmed `status` file ("Discharging" when it cannot be read).
pub open spec fn spec_sysfs_info(capacity: Seq<char>, status: Option<Seq<char>>) -> Option<BatteryView> {
    match parse_u32_spec(trim(capacity)) {
        None => None,
        Some(c) => Some(BatteryView {
            capacity: capped(c),
            status: trim(
                match status {
                    Some(s) => s,
                    None => "Discharging"@,
                },
            ),
            is_present: true,
        }),
    }
}

/// `s` without its trailing `%` characters.
pub open spec fn trim_percent(s: Seq<char>) -> Seq<char>
    decreases s.len(),
{
    if s.len() > 0 && s.last() == '%' {
        trim_percent(s.drop_last())
    } else {
        s
    }
}

/// What reading `upower -i` output has found: the percentage and the state.
pub open spec fn upower_go(ls: Seq<Seq<char>>, cap: Option<u32>, stat: Seq<char>) -> (Option<u32>, Seq<char>)
    decreases ls.len(),
{
    if ls.len() == 0 {
        (cap, stat)
    } else {
        let t = trim(ls[0]);
        let ws = words(t);
        if starts_with(t, "percentage:"@) {
            let c = if ws.len() >= 2 {
                Some(
                    match parse_u32_spec(trim_percent(ws[1])) {
                        Some(v) => v,
                        None => 100u32,
                    },
                )
            } else {
                cap
            };
            upower_go(ls.drop_first(), c, stat)
        } else if starts_with(t, "state:"@) {
            upower_go(ls.drop_first(), cap, if ws.len() >= 2 { ws[1] } else { stat })
        } else {
            upower_go(ls.drop_first(), cap, stat)
        }
    }
}

/// A battery read from `upower -i` output: present when it reports a
/// percentage (100 where the number cannot be read).
pub open spec fn spec_upower_info(stdout: Seq<char>) -> Option<BatteryView> {
    let r = upower_go(lines(stdout), None, "Discharging"@);
    match r.0 {
        Some(c) => Some(BatteryView { capacity: capped(c), status: r.1, is_present: true }),
        None => None,
    }
}

/// The battery glyph: a full battery where there is none, the charger while
/// charging, else one of eight charge levels.
pub open spec fn spec_battery_icon(b: BatteryView) -> Seq<char> {
    if !b.is_present {
        "\u{ebd2}"@
    } else if eq_ignore_ascii_case(b.status, "Charging"@) {
        "\u{e2ae}"@
    } else if b.capacity <= 5 {
        "\u{e19c}"@
    } else if b.capacity <= 14 {
        "\u{ebdc}"@
    } else if b.capacity <= 28 {
        "\u{ebd9}"@
    } else if b.capacity <= 42 {
        "\u{ebe0}"@
    } else if b.capacity <= 56 {
        "\u{ebdd}"@
    } else if b.capacity <= 70 {
        "\u{ebe2}"@
    } else if b.capacity <= 84 {
        "\u{ebd4}"@
    } else {
        "\u{ebd2}"@
    }
}

/// Battery state from the kernel and `upower`.
pub struct BatteryService;

fn lit(s: &str) -> (r: String)
    ensures
        r@ == s@,
{
    string_of(chars_of(s).as_slice())
}

fn trim_percent_chars(s: &[char]) -> (r: Vec<char>)
    ensures
        r@ == trim_percent(s@),
{
    let mut n: usize = s.len();
    assert(s@.take(n as int) =~= s@);
    while n > 0 && s[n - 1] == '%'
        invariant
            n <= s.len(),
            trim_percent(s@) == trim_percent(s@.take(n as int)),
        decreases n,
    {
        assert(s@.take(n as int).drop_last() =~= s@.take(n - 1));
        n = n - 1;
    }
    sub_chars(s, 0, n)
}

impl BatteryService {
    /// The sysfs directories tried, in order, each with its `capacity` and
    /// `status` files.
    pub fn supply_files() -> (r: Vec<(String, String)>)
        ensures
            r@.len() == 3,
            r@[0].0@ == "/sys/class/power_supply/BAT0/capacity"@,
            r@[0].1@ == "/sys/class/power_supply/BAT0/status"@,
            r@[1].0@ == "/sys/class/power_supply/BAT1/capacity"@,
            r@[1].1@ == "/sys/class/power_supply/BAT1/status"@,
            r@[2].0@ == "/sys/class/power_supply/battery/capacity"@,
            r@[2].1@ == "/sys/class/power_supply/battery/status"@,
    {
        let mut r: Vec<(String, String)> = Vec::new();
        r.push((lit("/sys/class/power_supply/BAT0/capacity"), lit("/sys/class/power_supply/BAT0/status")));
        r.push((lit("/sys/class/power_supply/BAT1/capacity"), lit("/sys/class/power_supply/BAT1/status")));
        r.push((lit("/sys/class/power_supply/battery/capacity"), lit("/sys/class/power_supply/battery/status")));
        r
    }

    /// The battery read from the power supplies' files, in the order of
    /// `supply_files`: the first whose capacity was read and is a number.
    pub fn first_sysfs_info(reads: &Vec<(Option<String>, Option<String>)>) -> (r: Option<BatteryInfo>)
        ensures
            opt_battery(r) == first_sysfs(reads@.map_values(|x: (Option<String>, Option<String>)| supply_view(x))),
    {
        let ghost all = reads@.map_values(|x: (Option<String>, Option<String>)| supply_view(x));
        let mut i: usize = 0;
        assert(all.skip(0) =~= all);
        while i < reads.len()
            invariant
                i <= reads.len(),
                all == reads@.map_values(|x: (Option<String>, Option<String>)| supply_view(x)),
                first_sysfs(all) == first_sysfs(all.skip(i as int)),
            decreases reads.len() - i,
        {
            let ghost rest = all.skip(i as int);
            assert(rest[0] == supply_view(reads@[i as int]));
            assert(rest.drop_first() =~= all.skip(i + 1));
            if let Some(cap) = &reads[i].0 {
                let status: Option<&str> = match &reads[i].1 {
                    Some(t) => Some(t.as_str()),
                    None => None,
                };
                match Self::info_from_sysfs(cap.as_str(), status) {
                    Some(b) => return Some(b),
                    None => {},
                }
            }
            i = i + 1;
        }
        assert(all.skip(i as int) =~= Seq::<(Option<Seq<char>>, Option<Seq<char>>)>::empty());
        None
    }

    /// The battery read from sysfs files, if the capacity is a number.
    pub fn info_from_sysfs(capacity: &str, status: Option<&str>) -> (r: Option<BatteryInfo>)
        ensures
            opt_battery(r) == spec_sysfs_info(capacity@, match status {
                Some(s) => Some(s@),
                None => None,
            }),
    {
        let c = trim_chars(chars_of(capacity).as_slice());
        match parse_u32(c.as_slice()) {
            None => None,
            Some(v) => {
                let st = match status {
                    Some(s) => trim_chars(chars_of(s).as_slice()),
                    None => trim_chars(chars_of("Discharging").as_slice()),
                };
                Some(BatteryInfo { capacity: if v < 100 { v } else { 100 }, status: string_of(st.as_slice()), is_present: true })
            },
        }
    }

    /// The battery read from `upower -i` output, if it reports a percentage.
    pub fn info_from_upower(stdout: &str) -> (r: Option<BatteryInfo>)
        ensures
            opt_battery(r) == spec_upower_info(stdout@),
    {
        let cs = chars_of(stdout);
        let ls = lines_of(cs.as_slice());
        let ghost l = views(ls@);
        let mut cap: Option<u32> = None;
        let mut stat: Vec<char> = chars_of("Discharging");
        let pct = chars_of("percentage:");
        let state = chars_of("state:");
        let mut i: usize = 0;
        assert(l.skip(0) =~= l);
        while i < ls.len()
            invariant
                i <= ls.len(),
                l == views(ls@),
                l == lines(stdout@),
                pct@ == "percentage:"@,
                state@ == "state:"@,
                upower_go(l, None, "Discharging"@) == upower_go(l.skip(i as int), cap, stat@),
            decreases ls.len() - i,
        {
            assert(l.skip(i as int)[0] == l[i as int]);
            assert(l.skip(i as int).drop_first() =~= l.skip(i + 1));
            let t = trim_chars(ls[i].as_slice());
            let ws = words_of(t.as_slice());
            if starts_with_chars(t.as_slice(), pct.as_slice()) {
                if ws.len() >= 2 {
                    let v = trim_percent_chars(ws[1].as_slice());
                    cap = Some(match parse_u32(v.as_slice()) {
                        Some(n) => n,
                        None => 100,
                    });
                }
            } else if starts_with_chars(t.as_slice(), state.as_slice()) {
                if ws.len() >= 2 {
                    stat = ws[1].clone();
                    assert(stat@ =~= views(ws@)[1]);
                }
            }
            i = i + 1;
        }
        assert(l.skip(i as int) =~= Seq::<Seq<char>>::empty());
        match cap {
            Some(c) => Some(BatteryInfo { capacity: if c < 100 { c } else { 100 }, status: string_of(stat.as_slice()), is_present: true }),
            None => None,
        }
    }

    /// What a machine without a battery reports: full, not present.
    pub fn absent_info() -> (r: BatteryInfo)
        ensures
            r@ == (BatteryView { capacity: 100, status: "Full"@, is_present: false }),
    {
        BatteryInfo { capacity: 100, status: lit("Full"), is_present: false }
    }

    /// The battery: from sysfs when readable, else from `upower`, else none.
    pub fn get_info(sysfs: Option<BatteryInfo>, upower: Option<BatteryInfo>) -> (r: BatteryInfo)
        ensures
            r@ == match sysfs {
                Some(b) => b@,
                None => match upower {
                    Some(b) => b@,
                    None => BatteryView { capacity: 100, status: "Full"@, is_present: false },
                },
            },
    {
        match sysfs {
            Some(b) => b,
            None => match upower {
                Some(b) => b,
                None => Self::absent_info(),
            },
        }
    }

    /// The shelf glyph for the battery.
    pub fn battery_icon_code(info: &BatteryInfo) -> (r: &'static str)
        ensures
            r@ == spec_battery_icon(info@),
    {
        if !info.is_present {
            return "\u{ebd2}";
        }
        let ch = chars_of("Charging");
        if eq_ignore_ascii_case_chars(chars_of(info.status.as_str()).as_slice(), ch.as_slice()) {
            return "\u{e2ae}";
        }
        let c = info.capacity;
        if c <= 5 {
            "\u{e19c}"
        } else if c <= 14 {
            "\u{ebdc}"
        } else if c <= 28 {
            "\u{ebd9}"
        } else if c <= 42 {
            "\u{ebe0}"
        } else if c <= 56 {
            "\u{ebdd}"
        } else if c <= 70 {
            "\u{ebe2}"
        } else if c <= 84 {
            "\u{ebd4}"
        } else {
            "\u{ebd2}"
        }
    }
}


/// The bars a battery glyph of Material Symbols shows: `battery_alert` none
/// (-1), `battery_0_bar` to `battery_6_bar` 0 to 6; other glyphs none (-2).
pub open spec fn glyph_bars(g: Seq<char>) -> int {
    if g == "\u{e19c}"@ { -1 }
    else if g == "\u{ebdc}"@ { 0 }
    else if g == "\u{ebd9}"@ { 1 }
    else if g == "\u{ebe0}"@ { 2 }
    else if g == "\u{ebdd}"@ { 3 }
    else if g == "\u{ebe2}"@ { 4 }
    else if g == "\u{ebd4}"@ { 5 }
    else if g == "\u{ebd2}"@ { 6 }
    else { -2 }
}

/// A battery that is there and not charging.
pub open spec fn discharging(b: BatteryView) -> bool {
    b.is_present && !eq_ignore_ascii_case(b.status, "Charging"@)
}

/// The glyph of a battery that is there and not charging shows its charge:
/// more charge never shows fewer bars; five percent or less is the alert, 6
/// to 14 percent the empty battery, and the full battery only from 85
/// percent; each bar stands for about a seventh of the charge. A battery
/// that charges shows the charger, and no battery shows the full glyph.
pub proof fn lemma_battery_glyph(b1: BatteryView, b2: BatteryView)
    ensures
        discharging(b1) && discharging(b2) && b1.capacity <= b2.capacity ==> glyph_bars(spec_battery_icon(b1))
            <= glyph_bars(spec_battery_icon(b2)),
        discharging(b1) ==> (glyph_bars(spec_battery_icon(b1)) == -1 <==> b1.capacity <= 5),
        discharging(b1) && 6 <= b1.capacity <= 14 ==> spec_battery_icon(b1) == "\u{ebdc}"@,
        discharging(b1) && spec_battery_icon(b1) == "\u{ebd2}"@ ==> b1.capacity >= 85,
        discharging(b1) && b1.capacity > 5 ==> 0 <= glyph_bars(spec_battery_icon(b1)) <= 6 && (glyph_bars(
            spec_battery_icon(b1),
        ) == 6 || b1.capacity <= 14 * (glyph_bars(spec_battery_icon(b1)) + 1)) && (glyph_bars(spec_battery_icon(b1))
            == 0 || b1.capacity > 14 * glyph_bars(spec_battery_icon(b1))),
        b1.is_present && eq_ignore_ascii_case(b1.status, "Charging"@) ==> spec_battery_icon(b1) == "\u{e2ae}"@,
        !b1.is_present ==> spec_battery_icon(b1) == "\u{ebd2}"@,
{
    lemma_glyph_bounds(b1);
    lemma_glyph_bounds(b2);
    lemma_glyph_literals();
}

proof fn lemma_glyph_literals()
    ensures
        "\u{e19c}"@.len() == 1 && "\u{e19c}"@[0] == '\u{e19c}',
        "\u{ebdc}"@.len() == 1 && "\u{ebdc}"@[0] == '\u{ebdc}',
        "\u{ebd9}"@.len() == 1 && "\u{ebd9}"@[0] == '\u{ebd9}',
        "\u{ebe0}"@.len() == 1 && "\u{ebe0}"@[0] == '\u{ebe0}',
        "\u{ebdd}"@.len() == 1 && "\u{ebdd}"@[0] == '\u{ebdd}',
        "\u{ebe2}"@.len() == 1 && "\u{ebe2}"@[0] == '\u{ebe2}',
        "\u{ebd4}"@.len() == 1 && "\u{ebd4}"@[0] == '\u{ebd4}',
        "\u{ebd2}"@.len() == 1 && "\u{ebd2}"@[0] == '\u{ebd2}',
{
    reveal_strlit("\u{e19c}");
    reveal_strlit("\u{ebdc}");
    reveal_strlit("\u{ebd9}");
    reveal_strlit("\u{ebe0}");
    reveal_strlit("\u{ebdd}");
    reveal_strlit("\u{ebe2}");
    reveal_strlit("\u{ebd4}");
    reveal_strlit("\u{ebd2}");
}

proof fn lemma_glyph_bounds(b: BatteryView)
    ensures
        discharging(b) ==> (glyph_bars(spec_battery_icon(b)) == -1 <==> b.capacity <= 5),
        discharging(b) && b.capacity > 5 ==> 0 <= glyph_bars(spec_battery_icon(b)) <= 6 && (glyph_bars(
            spec_battery_icon(b),
        ) == 6 || b.capacity <= 14 * (glyph_bars(spec_battery_icon(b)) + 1)) && (glyph_bars(spec_battery_icon(b))
            == 0 || b.capacity > 14 * glyph_bars(spec_battery_icon(b))),
{
    lemma_glyph_literals();
    let g = spec_battery_icon(b);
    if discharging(b) {
        if b.capacity <= 5 {
            assert(glyph_bars(g) == -1);
        } else if b.capacity <= 14 {
            assert(glyph_bars(g) == 0);
        } else if b.capacity <= 28 {
            assert(glyph_bars(g) == 1);
        } else if b.capacity <= 42 {
            assert(glyph_bars(g) == 2);
        } else if b.capacity <= 56 {
            assert(glyph_bars(g) == 3);
        } else if b.capacity <= 70 {
            assert(glyph_bars(g) == 4);
        } else if b.capacity <= 84 {
            assert(glyph_bars(g) == 5);
        } else {
            assert(glyph_bars(g) == 6);
        }
    }
}

} // verus!
