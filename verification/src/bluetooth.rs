//! Bluetooth through `bluetoothctl`: the adapter's power, the paired
//! devices and their connections, and the shelf glyph.
use vstd::prelude::*;
use crate::text::{
    chars_of, contains, contains_chars, eq_chars, join, join_chars, lines, lines_of, string_of,
    string_views, views, words, words_of,
};

verus! {

/// A paired device.
#[derive(Debug, Clone)]
pub struct BluetoothDevice {
    pub mac: String,
    pub name: String,
    pub is_connected: bool,
}

/// A device line of `bluetoothctl devices`: its address and name.
pub open spec fn device_of_line(line: Seq<char>) -> Option<(Seq<char>, Seq<char>)> {
    let ws = words(line);
    if ws.len() >= 3 && ws[0] == "Device"@ {
        Some((ws[1], join(ws.skip(2), " "@)))
    } else {
        None
    }
}

/// The devices listed by `bluetoothctl devices`, in order.
pub open spec fn devices_of(ls: Seq<Seq<char>>) -> Seq<(Seq<char>, Seq<char>)>
    decreases ls.len(),
{
    if ls.len() == 0 {
        seq![]
    } else {
        let r = devices_of(ls.drop_last());
        match device_of_line(ls.last()) {
            Some(d) => r.push(d),
            None => r,
        }
    }
}

/// The views of a list of address and name pairs.
pub open spec fn pair_views(v: Seq<(String, String)>) -> Seq<(Seq<char>, Seq<char>)> {
    v.map_values(|p: (String, String)| (p.0@, p.1@))
}

/// Bluetooth control through `bluetoothctl`.
pub struct BluetoothService;

fn lit(s: &str) -> (r: String)
    ensures
        r@ == s@,
{
    string_of(chars_of(s).as_slice())
}

impl BluetoothService {
    /// Whether `bluetoothctl show` reports the adapter powered; off when the
    /// command could not run.
    pub fn is_bluetooth_enabled(show_output: Option<&str>) -> (r: bool)
        ensures
            r == match show_output {
                Some(s) => contains(s@, "Powered: yes"@),
                None => false,
            },
    {
        match show_output {
            Some(s) => contains_chars(chars_of(s).as_slice(), chars_of("Powered: yes").as_slice()),
            None => false,
        }
    }

    /// Whether `bluetoothctl info` reports the device connected; not when
    /// the command could not run.
    pub fn check_is_connected(info_output: Option<&str>) -> (r: bool)
        ensures
            r == match info_output {
                Some(s) => contains(s@, "Connected: yes"@),
                None => false,
            },
    {
        match info_output {
            Some(s) => contains_chars(chars_of(s).as_slice(), chars_of("Connected: yes").as_slice()),
            None => false,
        }
    }

    /// The arguments that turn the adapter on or off.
    pub fn power_args(enabled: bool) -> (r: Vec<String>)
        ensures
            string_views(r@) == seq!["power"@, if enabled { "on"@ } else { "off"@ }],
    {
        let mut r: Vec<String> = Vec::new();
        r.push(lit("power"));
        r.push(if enabled { lit("on") } else { lit("off") });
        assert(string_views(r@) =~= seq!["power"@, if enabled { "on"@ } else { "off"@ }]);
        r
    }

    /// The arguments that disconnect a connected device, or connect it.
    pub fn connection_args(mac: &str, current_connected: bool) -> (r: Vec<String>)
        ensures
            string_views(r@) == seq![if current_connected { "disconnect"@ } else { "connect"@ }, mac@],
    {
        let mut r: Vec<String> = Vec::new();
        r.push(if current_connected { lit("disconnect") } else { lit("connect") });
        r.push(lit(mac));
        assert(string_views(r@) =~= seq![if current_connected { "disconnect"@ } else { "connect"@ }, mac@]);
        r
    }

    /// The address and name of each device in `bluetoothctl devices`
    /// output: lines of at least three words that start with "Device".
    pub fn device_entries(listing: &str) -> (r: Vec<(String, String)>)
        ensures
            pair_views(r@) == devices_of(lines(listing@)),
    {
        let cs = chars_of(listing);
        let ls = lines_of(cs.as_slice());
        let ghost l = views(ls@);
        let dev = chars_of("Device");
        let sp = chars_of(" ");
        let mut r: Vec<(String, String)> = Vec::new();
        let mut i: usize = 0;
        assert(pair_views(r@) =~= devices_of(l.take(0)));
        while i < ls.len()
            invariant
                i <= ls.len(),
                l == views(ls@),
                dev@ == "Device"@,
                sp@ == " "@,
                pair_views(r@) == devices_of(l.take(i as int)),
            decreases ls.len() - i,
        {
            assert(l.take(i + 1).drop_last() =~= l.take(i as int));
            assert(l.take(i + 1).last() == ls@[i as int]@);
            let ws = words_of(ls[i].as_slice());
            let ghost wv = views(ws@);
            if ws.len() >= 3 && eq_chars(ws[0].as_slice(), dev.as_slice()) {
                let mut rest: Vec<Vec<char>> = Vec::new();
                let mut k: usize = 2;
                while k < ws.len()
                    invariant
                        2 <= k <= ws.len(),
                        wv == views(ws@),
                        views(rest@) == wv.subrange(2, k as int),
                    decreases ws.len() - k,
                {
                    let ghost orr = rest@;
                    rest.push(ws[k].clone());
                    assert(views(rest@) =~= views(orr).push(ws@[k as int]@));
                    assert(views(rest@) =~= wv.subrange(2, k + 1));
                    k = k + 1;
                }
                assert(wv.skip(2) =~= wv.subrange(2, ws.len() as int));
                let name = join_chars(&rest, sp.as_slice());
                let ghost or = pair_views(r@);
                r.push((string_of(ws[1].as_slice()), string_of(name.as_slice())));
                assert(pair_views(r@) =~= or.push((wv[1], join(wv.skip(2), " "@))));
            }
            i = i + 1;
        }
        assert(l.take(ls.len() as int) =~= l);
        r
    }

    /// The shelf Bluetooth glyph: shown only while the adapter is on and a
    /// device is connected.
    pub fn bt_icon(enabled: bool, devices: &Vec<BluetoothDevice>) -> (r: Option<&'static str>)
        ensures
            match r {
                Some(g) => enabled && (exists|k: int| 0 <= k < devices@.len() && (#[trigger] devices@[k]).is_connected)
                    && g@ == "\u{e1aa}"@,
                None => !enabled || forall|k: int| 0 <= k < devices@.len() ==> !(#[trigger] devices@[k]).is_connected,
            },
    {
        if !enabled {
            return None;
        }
        let mut i: usize = 0;
        while i < devices.len()
            invariant
                i <= devices.len(),
                enabled,
                forall|k: int| 0 <= k < i ==> !(#[trigger] devices@[k]).is_connected,
            decreases devices.len() - i,
        {
            if devices[i].is_connected {
                return Some("\u{e1aa}");
            }
            i = i + 1;
        }
        None
    }

    /// Whether a line of the event stream refreshes the state: not within a
    /// second of the last refresh.
    pub fn should_refresh(ms_since_last: u64) -> (r: bool)
        ensures
            r == (ms_since_last >= 1000),
    {
        ms_since_last >= 1000
    }
}

} // verus!
