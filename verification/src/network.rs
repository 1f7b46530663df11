//! NetworkManager through `nmcli`: reading its terse output (`-t`), the
//! active connection, the scanned access points and the Wi-Fi icons.
use vstd::prelude::*;
use crate::text::{
    chars_of, eq_chars, lines, lines_of, lowercase, parse_u32, parse_u32_spec, split, split_chars,
    string_of, string_views, to_lowercase, trim, trim_chars, views,
};

verus! {

// ---------------------------------------------------------------------------
// Terse lines
// ---------------------------------------------------------------------------

/// Reading an `nmcli -t` line: fields are separated by `:`, and `\:` and
/// `\\` stand for a literal colon and backslash; any other backslash is kept.
pub open spec fn terse_go(s: Seq<char>, cur: Seq<char>, acc: Seq<Seq<char>>) -> Seq<Seq<char>>
    decreases s.len(),
{
    if s.len() == 0 {
        acc.push(cur)
    } else if s[0] == '\\' {
        if s.len() >= 2 && (s[1] == ':' || s[1] == '\\') {
            terse_go(s.skip(2), cur.push(s[1]), acc)
        } else {
            terse_go(s.drop_first(), cur.push('\\'), acc)
        }
    } else if s[0] == ':' {
        terse_go(s.drop_first(), seq![], acc.push(cur))
    } else {
        terse_go(s.drop_first(), cur.push(s[0]), acc)
    }
}

/// The fields of an `nmcli -t` line.
pub open spec fn terse_fields(s: Seq<char>) -> Seq<Seq<char>> {
    terse_go(s, seq![], seq![])
}

/// How `nmcli -t` writes one field: `:` and `\` get a backslash in front.
pub open spec fn escape_field(f: Seq<char>) -> Seq<char>
    decreases f.len(),
{
    if f.len() == 0 {
        seq![]
    } else {
        (if f[0] == ':' || f[0] == '\\' {
            seq!['\\', f[0]]
        } else {
            seq![f[0]]
        }) + escape_field(f.drop_first())
    }
}

/// How `nmcli -t` writes a line: the escaped fields, separated by `:`.
pub open spec fn escape_join(fs: Seq<Seq<char>>) -> Seq<char>
    decreases fs.len(),
{
    if fs.len() <= 1 {
        if fs.len() == 0 {
            seq![]
        } else {
            escape_field(fs[0])
        }
    } else {
        escape_field(fs[0]) + seq![':'] + escape_join(fs.drop_first())
    }
}

proof fn lemma_terse_escaped_field(f: Seq<char>, rest: Seq<char>, cur: Seq<char>, acc: Seq<Seq<char>>)
    ensures
        terse_go(escape_field(f) + rest, cur, acc) == terse_go(rest, cur + f, acc),
    decreases f.len(),
{
    if f.len() == 0 {
        assert(escape_field(f) + rest =~= rest);
        assert(cur + f =~= cur);
    } else {
        let c = f[0];
        let tail = f.drop_first();
        lemma_terse_escaped_field(tail, rest, cur.push(c), acc);
        assert(cur.push(c) + tail =~= cur + f);
        let s = escape_field(f) + rest;
        if c == ':' || c == '\\' {
            assert(s =~= seq!['\\', c] + (escape_field(tail) + rest));
            assert(s.skip(2) =~= escape_field(tail) + rest);
        } else {
            assert(s =~= seq![c] + (escape_field(tail) + rest));
            assert(s.drop_first() =~= escape_field(tail) + rest);
        }
    }
}

proof fn lemma_terse_escaped_line(fs: Seq<Seq<char>>, acc: Seq<Seq<char>>)
    requires
        fs.len() >= 1,
    ensures
        terse_go(escape_join(fs), seq![], acc) == acc + fs,
    decreases fs.len(),
{
    let f0 = fs[0];
    assert(Seq::<char>::empty() + f0 =~= f0);
    if fs.len() == 1 {
        lemma_terse_escaped_field(f0, seq![], seq![], acc);
        assert(escape_field(f0) + Seq::<char>::empty() =~= escape_field(f0));
        assert(acc.push(f0) =~= acc + fs);
    } else {
        let rest = seq![':'] + escape_join(fs.drop_first());
        lemma_terse_escaped_field(f0, rest, seq![], acc);
        assert(escape_join(fs) =~= escape_field(f0) + rest);
        assert(rest.drop_first() =~= escape_join(fs.drop_first()));
        lemma_terse_escaped_line(fs.drop_first(), acc.push(f0));
        assert(acc.push(f0) + fs.drop_first() =~= acc + fs);
    }
}

/// Reading a line that `nmcli -t` wrote gives back its fields: escaping and
/// `parse_terse_line` undo each other, whatever colons and backslashes the
/// fields hold.
pub proof fn lemma_terse_roundtrip(fs: Seq<Seq<char>>)
    requires
        fs.len() >= 1,
    ensures
        terse_fields(escape_join(fs)) == fs,
{
    lemma_terse_escaped_line(fs, seq![]);
    assert(Seq::<Seq<char>>::empty() + fs =~= fs);
}

fn terse_of(s: &[char]) -> (r: Vec<Vec<char>>)
    ensures
        views(r@) == terse_fields(s@),
{
    let mut acc: Vec<Vec<char>> = Vec::new();
    let mut cur: Vec<char> = Vec::new();
    let mut i: usize = 0;
    assert(s@.skip(0) =~= s@);
    assert(views(acc@) =~= Seq::<Seq<char>>::empty());
    while i < s.len()
        invariant
            i <= s.len(),
            terse_go(s@.skip(i as int), cur@, views(acc@)) == terse_fields(s@),
        decreases s.len() - i,
    {
        let c = s[i];
        let ghost rest = s@.skip(i as int);
        assert(rest.drop_first() =~= s@.skip(i + 1));
        if c == '\\' {
            if i + 1 < s.len() && (s[i + 1] == ':' || s[i + 1] == '\\') {
                assert(rest.skip(2) =~= s@.skip(i + 2));
                cur.push(s[i + 1]);
                i = i + 2;
            } else {
                cur.push('\\');
                i = i + 1;
            }
        } else if c == ':' {
            let ghost old_views = views(acc@);
            let ghost piece = cur@;
            acc.push(cur);
            cur = Vec::new();
            assert(views(acc@) =~= old_views.push(piece));
            i = i + 1;
        } else {
            cur.push(c);
            i = i + 1;
        }
    }
    let ghost last_views = views(acc@);
    let ghost last = cur@;
    acc.push(cur);
    assert(views(acc@) =~= last_views.push(last));
    acc
}

/// The fields of an `nmcli -t` line, with `\:` and `\\` unescaped.
pub fn parse_terse_line(line: &str) -> (r: Vec<String>)
    ensures
        string_views(r@) == terse_fields(line@),
{
    let cs = chars_of(line);
    let f = terse_of(cs.as_slice());
    crate::text::strings_of(&f)
}

// ---------------------------------------------------------------------------
// Types
// ---------------------------------------------------------------------------

/// A Wi-Fi access point as the network page lists it.
#[derive(Debug, Clone)]
pub struct WifiNetwork {
    pub ssid: String,
    pub signal: u32,
    pub is_connected: bool,
    pub is_known: bool,
}

/// The content of a `WifiNetwork`.
#[verifier::ext_equal]
pub struct WifiNetworkView {
    pub ssid: Seq<char>,
    pub signal: u32,
    pub is_connected: bool,
    pub is_known: bool,
}

impl View for WifiNetwork {
    type V = WifiNetworkView;

    open spec fn view(&self) -> WifiNetworkView {
        WifiNetworkView {
            ssid: self.ssid@,
            signal: self.signal,
            is_connected: self.is_connected,
            is_known: self.is_known,
        }
    }
}

/// The views of a list of networks.
pub open spec fn net_views(v: Seq<WifiNetwork>) -> Seq<WifiNetworkView> {
    v.map_values(|n: WifiNetwork| n@)
}

/// Radio state and active connection.
#[derive(Debug, Clone)]
pub struct NetworkState {
    pub is_enabled: bool,
    pub ssid: Option<String>,
    pub signal: Option<u32>,
}

/// The content of a `NetworkState`.
#[verifier::ext_equal]
pub struct NetworkStateView {
    pub is_enabled: bool,
    pub ssid: Option<Seq<char>>,
    pub signal: Option<u32>,
}

impl View for NetworkState {
    type V = NetworkStateView;

    open spec fn view(&self) -> NetworkStateView {
        NetworkStateView {
            is_enabled: self.is_enabled,
            ssid: match self.ssid {
                Some(s) => Some(s@),
                None => None,
            },
            signal: self.signal,
        }
    }
}

impl Default for NetworkState {
    fn default() -> (r: NetworkState)
        ensures
            r@ == (NetworkStateView { is_enabled: false, ssid: None, signal: None }),
    {
        NetworkState { is_enabled: false, ssid: None, signal: None }
    }
}

// ---------------------------------------------------------------------------
// Specifications of the readings
// ---------------------------------------------------------------------------

/// A signal field: its value as `u32`, or 0 where it is not a number.
pub open spec fn signal_of(f: Seq<char>) -> u32 {
    match parse_u32_spec(f) {
        Some(v) => v,
        None => 0,
    }
}

/// The ACTIVE field says that the access point is the connected one.
pub open spec fn is_active_field(f: Seq<char>) -> bool {
    f == "yes"@ || f == "*"@
}

/// The first line of `ACTIVE,SSID,SIGNAL` output that is active and names an
/// SSID: the SSID and the signal.
pub open spec fn active_entry(ls: Seq<Seq<char>>) -> Option<(Seq<char>, u32)>
    decreases ls.len(),
{
    if ls.len() == 0 {
        None
    } else {
        let f = terse_fields(ls[0]);
        if f.len() >= 3 && is_active_field(f[0]) && f[1].len() > 0 {
            Some((f[1], signal_of(f[2])))
        } else {
            active_entry(ls.drop_first())
        }
    }
}

/// The network state for a radio state and the `ACTIVE,SSID,SIGNAL` listing.
pub open spec fn spec_state(enabled: bool, listing: Seq<char>) -> NetworkStateView {
    if !enabled {
        NetworkStateView { is_enabled: false, ssid: None, signal: None }
    } else {
        match active_entry(lines(listing)) {
            Some((s, g)) => NetworkStateView { is_enabled: true, ssid: Some(s), signal: Some(g) },
            None => NetworkStateView { is_enabled: true, ssid: None, signal: None },
        }
    }
}

/// The saved connection names of Wi-Fi type in `NAME,TYPE` output lines.
pub open spec fn known_ssids(ls: Seq<Seq<char>>) -> Seq<Seq<char>>
    decreases ls.len(),
{
    if ls.len() == 0 {
        seq![]
    } else {
        let parts = split(ls.last(), ':');
        let prev = known_ssids(ls.drop_last());
        if parts.len() >= 2 && parts[1] == "802-11-wireless"@ {
            prev.push(parts[0])
        } else {
            prev
        }
    }
}

/// One access point line of the scan: trimmed SSID, signal, active.
pub open spec fn scan_entry(line: Seq<char>) -> Option<(Seq<char>, u32, bool)> {
    let f = terse_fields(line);
    if f.len() >= 3 && trim(f[1]).len() > 0 {
        Some((trim(f[1]), signal_of(f[2]), is_active_field(f[0])))
    } else {
        None
    }
}

/// The access point entries of the scan lines, in order.
pub open spec fn scan_entries(ls: Seq<Seq<char>>) -> Seq<(Seq<char>, u32, bool)>
    decreases ls.len(),
{
    if ls.len() == 0 {
        seq![]
    } else {
        let prev = scan_entries(ls.drop_last());
        match scan_entry(ls.last()) {
            Some(e) => prev.push(e),
            None => prev,
        }
    }
}

/// Some entry has the SSID.
pub open spec fn has_ssid(es: Seq<(Seq<char>, u32, bool)>, x: Seq<char>) -> bool {
    exists|j: int| 0 <= j < es.len() && (#[trigger] es[j]).0 == x
}

/// The strongest signal among the entries with the SSID.
pub open spec fn max_signal(es: Seq<(Seq<char>, u32, bool)>, x: Seq<char>) -> u32
    decreases es.len(),
{
    if es.len() == 0 {
        0
    } else {
        let m = max_signal(es.drop_last(), x);
        if es.last().0 == x && es.last().1 > m {
            es.last().1
        } else {
            m
        }
    }
}

/// Some entry with the SSID is the active one.
pub open spec fn any_active(es: Seq<(Seq<char>, u32, bool)>, x: Seq<char>) -> bool
    decreases es.len(),
{
    if es.len() == 0 {
        false
    } else {
        any_active(es.drop_last(), x) || (es.last().0 == x && es.last().2)
    }
}

/// `a` may stand before `b` in the list: connected first, then by signal,
/// strongest first.
pub open spec fn ranks_before(a: WifiNetworkView, b: WifiNetworkView) -> bool {
    (a.is_connected && !b.is_connected) || (a.is_connected == b.is_connected && a.signal >= b.signal)
}

/// The networks list for the scan entries and the saved SSIDs: one network
/// per SSID with its strongest signal, connected if any of its access
/// points is, known if saved, ordered by `ranks_before`.
pub open spec fn is_network_list(
    r: Seq<WifiNetworkView>,
    es: Seq<(Seq<char>, u32, bool)>,
    known: Seq<Seq<char>>,
) -> bool {
    &&& forall|i: int, j: int|
        0 <= i < r.len() && 0 <= j < r.len() && i != j ==> (#[trigger] r[i]).ssid != (#[trigger] r[j]).ssid
    &&& forall|x: Seq<char>| has_ssid(es, x) <==> exists|i: int| 0 <= i < r.len() && (#[trigger] r[i]).ssid == x
    &&& forall|i: int|
        0 <= i < r.len() ==> {
            &&& (#[trigger] r[i]).signal == max_signal(es, r[i].ssid)
            &&& r[i].is_connected == any_active(es, r[i].ssid)
            &&& r[i].is_known == known.contains(r[i].ssid)
        }
    &&& forall|i: int, j: int| 0 <= i < j < r.len() ==> ranks_before(#[trigger] r[i], #[trigger] r[j])
}

/// The device of Wi-Fi type in `DEVICE,TYPE` output lines: the first.
pub open spec fn wifi_device(ls: Seq<Seq<char>>) -> Option<Seq<char>>
    decreases ls.len(),
{
    if ls.len() == 0 {
        None
    } else {
        let parts = split(ls[0], ':');
        if parts.len() >= 2 && parts[1] == "wifi"@ {
            Some(parts[0])
        } else {
            wifi_device(ls.drop_first())
        }
    }
}

/// The Material Symbols Wi-Fi glyph for a signal strength: full, three,
/// two or one bar.
pub open spec fn spec_signal_icon(signal: u32) -> Seq<char> {
    if 75 <= signal <= 100 {
        "\u{e1d8}"@
    } else if 50 <= signal <= 74 {
        "\u{ebe1}"@
    } else if 25 <= signal <= 49 {
        "\u{ebd6}"@
    } else {
        "\u{ebe4}"@
    }
}

/// The shelf Wi-Fi glyph for a network state: off, the signal glyph, or full
/// when connected without a known signal.
pub open spec fn spec_wifi_icon(s: NetworkStateView) -> Seq<char> {
    if !s.is_enabled {
        "\u{e648}"@
    } else if s.signal is Some {
        spec_signal_icon(s.signal->0)
    } else if s.ssid is Some {
        "\u{e1d8}"@
    } else {
        "\u{e648}"@
    }
}

// ---------------------------------------------------------------------------
// The service
// ---------------------------------------------------------------------------

/// Reading NetworkManager's state from `nmcli` output.
pub struct NetworkService;

fn field_is(f: &Vec<char>, lit: &str) -> (r: bool)
    ensures
        r == (f@ == lit@),
{
    let l = chars_of(lit);
    eq_chars(f.as_slice(), l.as_slice())
}

fn active_field(f: &Vec<char>) -> (r: bool)
    ensures
        r == is_active_field(f@),
{
    field_is(f, "yes") || field_is(f, "*")
}

fn signal_value(f: &Vec<char>) -> (r: u32)
    ensures
        r == signal_of(f@),
{
    match parse_u32(f.as_slice()) {
        Some(v) => v,
        None => 0,
    }
}

fn copy_chars(v: &Vec<char>) -> (r: Vec<char>)
    ensures
        r@ == v@,
{
    v.clone()
}

struct Entry {
    ssid: Vec<char>,
    signal: u32,
    active: bool,
}

spec fn entry_views(v: Seq<Entry>) -> Seq<(Seq<char>, u32, bool)> {
    v.map_values(|e: Entry| (e.ssid@, e.signal, e.active))
}

fn contains_string(list: &[String], x: &Vec<char>) -> (r: bool)
    ensures
        r == string_views(list@).contains(x@),
{
    let mut i: usize = 0;
    while i < list.len()
        invariant
            i <= list.len(),
            forall|k: int| 0 <= k < i ==> list@[k]@ != x@,
        decreases list.len() - i,
    {
        let c = chars_of(list[i].as_str());
        if eq_chars(c.as_slice(), x.as_slice()) {
            assert(string_views(list@)[i as int] == x@);
            return true;
        }
        i = i + 1;
    }
    assert forall|k: int| 0 <= k < string_views(list@).len() implies string_views(list@)[k] != x@ by {
        assert(string_views(list@)[k] == list@[k]@);
    }
    false
}


/// The aggregated list before ordering: distinct SSIDs, exactly those of the
/// entries, each with its strongest signal, active flag and saved flag.
pub open spec fn is_aggregate(
    r: Seq<WifiNetworkView>,
    es: Seq<(Seq<char>, u32, bool)>,
    known: Seq<Seq<char>>,
) -> bool {
    &&& distinct_ssids(r)
    &&& forall|x: Seq<char>| has_ssid(es, x) <==> exists|i: int| 0 <= i < r.len() && (#[trigger] r[i]).ssid == x
    &&& forall|i: int|
        0 <= i < r.len() ==> {
            &&& (#[trigger] r[i]).signal == max_signal(es, r[i].ssid)
            &&& r[i].is_connected == any_active(es, r[i].ssid)
            &&& r[i].is_known == known.contains(r[i].ssid)
        }
}

/// No two networks share an SSID.
pub open spec fn distinct_ssids(r: Seq<WifiNetworkView>) -> bool {
    forall|i: int, j: int|
        0 <= i < r.len() && 0 <= j < r.len() && i != j ==> (#[trigger] r[i]).ssid != (#[trigger] r[j]).ssid
}

/// Every element of `s` is one of the first `n` of `a`, and each of those is in `s`.
pub open spec fn covers(s: Seq<WifiNetworkView>, a: Seq<WifiNetworkView>, n: int) -> bool {
    &&& forall|i: int| 0 <= i < s.len() ==> exists|k: int| 0 <= k < n && a[k] == #[trigger] s[i]
    &&& forall|k: int| 0 <= k < n ==> exists|i: int| 0 <= i < s.len() && s[i] == #[trigger] a[k]
}

/// `s` holds the elements of `a`, the same number of them.
pub open spec fn same_elements(s: Seq<WifiNetworkView>, a: Seq<WifiNetworkView>) -> bool {
    &&& s.len() == a.len()
    &&& covers(s, a, a.len() as int)
}

/// `s` is ordered by `ranks_before`.
pub open spec fn is_ranked(s: Seq<WifiNetworkView>) -> bool {
    forall|i: int, j: int| 0 <= i < j < s.len() ==> ranks_before(#[trigger] s[i], #[trigger] s[j])
}

proof fn lemma_absent(es: Seq<(Seq<char>, u32, bool)>, x: Seq<char>)
    requires
        !has_ssid(es, x),
    ensures
        max_signal(es, x) == 0,
        !any_active(es, x),
    decreases es.len(),
{
    if es.len() > 0 {
        let pre = es.drop_last();
        assert(!has_ssid(pre, x)) by {
            if has_ssid(pre, x) {
                let j = choose|j: int| 0 <= j < pre.len() && (#[trigger] pre[j]).0 == x;
                assert(es[j] == pre[j]);
            }
        }
        lemma_absent(pre, x);
        assert(es[es.len() - 1].0 != x);
    }
}

proof fn lemma_has_ssid_push(es: Seq<(Seq<char>, u32, bool)>, e: (Seq<char>, u32, bool), x: Seq<char>)
    ensures
        has_ssid(es.push(e), x) <==> (has_ssid(es, x) || e.0 == x),
{
    let p = es.push(e);
    if has_ssid(es, x) {
        let j = choose|j: int| 0 <= j < es.len() && (#[trigger] es[j]).0 == x;
        assert(p[j] == es[j]);
    }
    if e.0 == x {
        assert(p[es.len() as int] == e);
    }
    if has_ssid(p, x) {
        let j = choose|j: int| 0 <= j < p.len() && (#[trigger] p[j]).0 == x;
        if j < es.len() {
            assert(p[j] == es[j]);
        }
    }
}

proof fn lemma_list_from_parts(
    s: Seq<WifiNetworkView>,
    a: Seq<WifiNetworkView>,
    es: Seq<(Seq<char>, u32, bool)>,
    known: Seq<Seq<char>>,
)
    requires
        is_aggregate(a, es, known),
        same_elements(s, a),
        distinct_ssids(s),
        is_ranked(s),
    ensures
        is_network_list(s, es, known),
{
    assert forall|x: Seq<char>| has_ssid(es, x) <==> exists|i: int| 0 <= i < s.len() && (#[trigger] s[i]).ssid == x by {
        if has_ssid(es, x) {
            let k = choose|k: int| 0 <= k < a.len() && (#[trigger] a[k]).ssid == x;
            let i = choose|i: int| 0 <= i < s.len() && s[i] == #[trigger] a[k];
            assert(s[i].ssid == x);
        }
        if exists|i: int| 0 <= i < s.len() && (#[trigger] s[i]).ssid == x {
            let i = choose|i: int| 0 <= i < s.len() && (#[trigger] s[i]).ssid == x;
            let k = choose|k: int| 0 <= k < a.len() && a[k] == #[trigger] s[i];
            assert(a[k].ssid == x);
        }
    }
    assert forall|i: int| 0 <= i < s.len() implies {
        &&& (#[trigger] s[i]).signal == max_signal(es, s[i].ssid)
        &&& s[i].is_connected == any_active(es, s[i].ssid)
        &&& s[i].is_known == known.contains(s[i].ssid)
    } by {
        let k = choose|k: int| 0 <= k < a.len() && a[k] == #[trigger] s[i];
        assert(a[k] == s[i]);
    }
}

/// The index of a network with the SSID in a list without repeated SSIDs.
pub open spec fn ssid_index(a: Seq<WifiNetworkView>, x: Seq<char>) -> Option<int> {
    if exists|k: int| 0 <= k < a.len() && (#[trigger] a[k]).ssid == x {
        Some(choose|k: int| 0 <= k < a.len() && (#[trigger] a[k]).ssid == x)
    } else {
        None
    }
}

/// Merging the scan entries in order: an SSID seen for the first time is
/// appended (known if saved), a later access point of it raises the signal
/// to the strongest and marks it connected if active.
pub open spec fn spec_aggregate(es: Seq<(Seq<char>, u32, bool)>, known: Seq<Seq<char>>) -> Seq<WifiNetworkView>
    decreases es.len(),
{
    if es.len() == 0 {
        seq![]
    } else {
        let a = spec_aggregate(es.drop_last(), known);
        let e = es.last();
        match ssid_index(a, e.0) {
            Some(k) => a.update(k, WifiNetworkView {
                signal: if e.1 > a[k].signal { e.1 } else { a[k].signal },
                is_connected: a[k].is_connected || e.2,
                ..a[k]
            }),
            None => a.push(WifiNetworkView { ssid: e.0, signal: e.1, is_connected: e.2, is_known: known.contains(e.0) }),
        }
    }
}

/// `a` ranks strictly before `b`: connected first, then stronger.
pub open spec fn strictly_ranks_before(a: WifiNetworkView, b: WifiNetworkView) -> bool {
    (a.is_connected && !b.is_connected) || (a.is_connected == b.is_connected && a.signal > b.signal)
}

/// Where a network goes in a ranked list: before the first network it
/// ranks strictly before, so networks that rank equally keep their order.
pub open spec fn rank_position(s: Seq<WifiNetworkView>, v: WifiNetworkView) -> int
    decreases s.len(),
{
    if s.len() == 0 || strictly_ranks_before(v, s[0]) {
        0
    } else {
        1 + rank_position(s.drop_first(), v)
    }
}

/// The networks ranked one after the other in their merged order.
pub open spec fn spec_rank(a: Seq<WifiNetworkView>) -> Seq<WifiNetworkView>
    decreases a.len(),
{
    if a.len() == 0 {
        seq![]
    } else {
        let s = spec_rank(a.drop_last());
        s.insert(rank_position(s, a.last()), a.last())
    }
}

/// The networks listed for a Wi-Fi listing and the saved names.
pub open spec fn spec_networks(listing: Seq<char>, known: Seq<Seq<char>>) -> Seq<WifiNetworkView> {
    spec_rank(spec_aggregate(scan_entries(lines(listing)), known))
}

/// The networks the Wi-Fi page lists: none while the radio is off.
pub open spec fn spec_scanned(wifi_enabled: bool, listing: Seq<char>, known: Seq<Seq<char>>) -> Seq<WifiNetworkView> {
    if wifi_enabled { spec_networks(listing, known) } else { seq![] }
}

proof fn lemma_rank_position(s: Seq<WifiNetworkView>, v: WifiNetworkView, p: int)
    requires
        0 <= p <= s.len(),
        forall|x: int| 0 <= x < p ==> !strictly_ranks_before(v, #[trigger] s[x]),
        p < s.len() ==> strictly_ranks_before(v, s[p]),
    ensures
        rank_position(s, v) == p,
    decreases s.len(),
{
    if s.len() > 0 && p > 0 {
        let d = s.drop_first();
        assert forall|x: int| 0 <= x < p - 1 implies !strictly_ranks_before(v, #[trigger] d[x]) by {
            assert(d[x] == s[x + 1]);
        }
        if p < s.len() {
            assert(d[p - 1] == s[p]);
        }
        assert(!strictly_ranks_before(v, s[0]));
        lemma_rank_position(d, v, p - 1);
    }
}

fn entries_of(ls: &Vec<Vec<char>>) -> (r: Vec<Entry>)
    ensures
        entry_views(r@) == scan_entries(views(ls@)),
{
    let mut out: Vec<Entry> = Vec::new();
    let mut i: usize = 0;
    assert(views(ls@).take(0) =~= Seq::<Seq<char>>::empty());
    assert(entry_views(out@) =~= Seq::<(Seq<char>, u32, bool)>::empty());
    while i < ls.len()
        invariant
            i <= ls.len(),
            entry_views(out@) == scan_entries(views(ls@).take(i as int)),
        decreases ls.len() - i,
    {
        let f = terse_of(ls[i].as_slice());
        let ghost pre = views(ls@).take(i as int);
        assert(views(ls@).take(i + 1).drop_last() =~= pre);
        assert(views(ls@).take(i + 1).last() == ls@[i as int]@);
        if f.len() >= 3 {
            assert(views(f@)[0] == f@[0]@ && views(f@)[1] == f@[1]@ && views(f@)[2] == f@[2]@);
            let t = trim_chars(f[1].as_slice());
            if t.len() > 0 {
                let e = Entry { ssid: t, signal: signal_value(&f[2]), active: active_field(&f[0]) };
                let ghost old_out = entry_views(out@);
                out.push(e);
                assert(entry_views(out@) =~= old_out.push(scan_entry(ls@[i as int]@)->0));
            }
        }
        i = i + 1;
    }
    assert(views(ls@).take(ls.len() as int) =~= views(ls@));
    out
}

fn find_ssid(agg: &Vec<WifiNetwork>, x: &Vec<char>) -> (r: Option<usize>)
    ensures
        r matches Some(k) ==> k < agg.len() && agg@[k as int].ssid@ == x@,
        r is None ==> forall|i: int| 0 <= i < agg.len() ==> agg@[i].ssid@ != x@,
{
    let mut i: usize = 0;
    while i < agg.len()
        invariant
            i <= agg.len(),
            forall|k: int| 0 <= k < i ==> agg@[k].ssid@ != x@,
        decreases agg.len() - i,
    {
        let c = chars_of(agg[i].ssid.as_str());
        if eq_chars(c.as_slice(), x.as_slice()) {
            return Some(i);
        }
        i = i + 1;
    }
    None
}

fn aggregate(es: &Vec<Entry>, known: &[String]) -> (r: Vec<WifiNetwork>)
    ensures
        is_aggregate(net_views(r@), entry_views(es@), string_views(known@)),
        net_views(r@) == spec_aggregate(entry_views(es@), string_views(known@)),
{
    let mut agg: Vec<WifiNetwork> = Vec::new();
    let mut t: usize = 0;
    let ghost kn = string_views(known@);
    assert(entry_views(es@).take(0) =~= Seq::<(Seq<char>, u32, bool)>::empty());
    while t < es.len()
        invariant
            t <= es.len(),
            kn == string_views(known@),
            is_aggregate(net_views(agg@), entry_views(es@).take(t as int), kn),
            net_views(agg@) == spec_aggregate(entry_views(es@).take(t as int), kn),
        decreases es.len() - t,
    {
        let ghost e_all = entry_views(es@);
        let ghost pre = e_all.take(t as int);
        let ghost post = e_all.take(t + 1);
        let ghost e = e_all[t as int];
        assert(post =~= pre.push(e));
        assert(post.drop_last() =~= pre);
        let ghost a0 = net_views(agg@);
        let e_ssid = &es[t].ssid;
        let e_signal = es[t].signal;
        let e_active = es[t].active;
        assert(e == (e_ssid@, e_signal, e_active));
        match find_ssid(&agg, e_ssid) {
            Some(k) => {
                assert(a0[k as int] == agg@[k as int]@);
                assert(a0[k as int].ssid == e.0);
                let old_n = &agg[k];
                let n = WifiNetwork {
                    ssid: old_n.ssid.clone(),
                    signal: if e_signal > old_n.signal { e_signal } else { old_n.signal },
                    is_connected: old_n.is_connected || e_active,
                    is_known: old_n.is_known,
                };
                agg.set(k, n);
                let ghost a1 = net_views(agg@);
                assert(a1 =~= a0.update(k as int, n@));
                proof {
                    assert(a0[k as int].ssid == e.0);
                    let kk = ssid_index(a0, e.0)->0;
                    assert(ssid_index(a0, e.0) is Some);
                    assert(a0[kk].ssid == e.0);
                    assert(kk == k);
                    assert(spec_aggregate(post, kn) == a1);
                }
                assert forall|x: Seq<char>| has_ssid(post, x) <==> exists|i: int| 0 <= i < a1.len() && (#[trigger] a1[i]).ssid == x by {
                    lemma_has_ssid_push(pre, e, x);
                    if exists|i: int| 0 <= i < a0.len() && (#[trigger] a0[i]).ssid == x {
                        let i = choose|i: int| 0 <= i < a0.len() && (#[trigger] a0[i]).ssid == x;
                        assert(a1[i].ssid == x);
                    }
                    if exists|i: int| 0 <= i < a1.len() && (#[trigger] a1[i]).ssid == x {
                        let i = choose|i: int| 0 <= i < a1.len() && (#[trigger] a1[i]).ssid == x;
                        assert(a0[i].ssid == x);
                    }
                    if e.0 == x {
                        assert(a1[k as int].ssid == x);
                    }
                }
                assert forall|i: int| 0 <= i < a1.len() implies {
                    &&& (#[trigger] a1[i]).signal == max_signal(post, a1[i].ssid)
                    &&& a1[i].is_connected == any_active(post, a1[i].ssid)
                    &&& a1[i].is_known == kn.contains(a1[i].ssid)
                } by {
                    if i != k {
                        assert(a1[i] == a0[i]);
                        assert(a0[i].ssid != a0[k as int].ssid);
                    } else {
                        assert(a1[i].ssid == e.0);
                        assert(max_signal(post, e.0) == (if e.1 > max_signal(pre, e.0) { e.1 } else { max_signal(pre, e.0) }));
                        assert(any_active(post, e.0) == (any_active(pre, e.0) || e.2));
                    }
                }
                assert(distinct_ssids(a1)) by {
                    assert forall|i: int, j: int| 0 <= i < a1.len() && 0 <= j < a1.len() && i != j implies (#[trigger] a1[i]).ssid != (#[trigger] a1[j]).ssid by {
                        assert(a1[i].ssid == a0[i].ssid && a1[j].ssid == a0[j].ssid);
                    }
                }
            },
            None => {
                let known_here = contains_string(known, e_ssid);
                let n = WifiNetwork {
                    ssid: string_of(e_ssid.as_slice()),
                    signal: e_signal,
                    is_connected: e_active,
                    is_known: known_here,
                };
                agg.push(n);
                let ghost a1 = net_views(agg@);
                assert(a1 =~= a0.push(n@));
                assert(!has_ssid(pre, e.0)) by {
                    if has_ssid(pre, e.0) {
                        let i = choose|i: int| 0 <= i < a0.len() && (#[trigger] a0[i]).ssid == e.0;
                        assert(agg@[i].ssid@ == a0[i].ssid);
                    }
                }
                proof {
                    lemma_absent(pre, e.0);
                    assert(ssid_index(a0, e.0) is None) by {
                        if exists|k: int| 0 <= k < a0.len() && (#[trigger] a0[k]).ssid == e.0 {
                            let k = choose|k: int| 0 <= k < a0.len() && (#[trigger] a0[k]).ssid == e.0;
                            assert(agg@[k].ssid@ == a0[k].ssid);
                        }
                    }
                    assert(spec_aggregate(post, kn) == a1);
                }
                assert forall|x: Seq<char>| has_ssid(post, x) <==> exists|i: int| 0 <= i < a1.len() && (#[trigger] a1[i]).ssid == x by {
                    lemma_has_ssid_push(pre, e, x);
                    if exists|i: int| 0 <= i < a0.len() && (#[trigger] a0[i]).ssid == x {
                        let i = choose|i: int| 0 <= i < a0.len() && (#[trigger] a0[i]).ssid == x;
                        assert(a1[i].ssid == x);
                    }
                    if exists|i: int| 0 <= i < a1.len() && (#[trigger] a1[i]).ssid == x {
                        let i = choose|i: int| 0 <= i < a1.len() && (#[trigger] a1[i]).ssid == x;
                        if i < a0.len() {
                            assert(a0[i].ssid == x);
                        }
                    }
                    if e.0 == x {
                        assert(a1[a0.len() as int].ssid == x);
                    }
                }
                assert forall|i: int| 0 <= i < a1.len() implies {
                    &&& (#[trigger] a1[i]).signal == max_signal(post, a1[i].ssid)
                    &&& a1[i].is_connected == any_active(post, a1[i].ssid)
                    &&& a1[i].is_known == kn.contains(a1[i].ssid)
                } by {
                    if i < a0.len() {
                        assert(a1[i] == a0[i]);
                        assert(a0[i].ssid != e.0) by {
                            assert(agg@[i].ssid@ == a0[i].ssid);
                        }
                    }
                }
                assert(distinct_ssids(a1)) by {
                    assert forall|i: int, j: int| 0 <= i < a1.len() && 0 <= j < a1.len() && i != j implies (#[trigger] a1[i]).ssid != (#[trigger] a1[j]).ssid by {
                        if i < a0.len() && j < a0.len() {
                            assert(a1[i] == a0[i] && a1[j] == a0[j]);
                        } else if i < a0.len() {
                            assert(agg@[i].ssid@ == a0[i].ssid);
                        } else if j < a0.len() {
                            assert(agg@[j].ssid@ == a0[j].ssid);
                        }
                    }
                }
            },
        }
        t = t + 1;
    }
    assert(entry_views(es@).take(es.len() as int) =~= entry_views(es@));
    agg
}

fn strictly_before(a: &WifiNetwork, b: &WifiNetwork) -> (r: bool)
    ensures
        r == ((a.is_connected && !b.is_connected) || (a.is_connected == b.is_connected && a.signal > b.signal)),
{
    (a.is_connected && !b.is_connected) || (a.is_connected == b.is_connected && a.signal > b.signal)
}

fn copy_network(n: &WifiNetwork) -> (r: WifiNetwork)
    ensures
        r@ == n@,
{
    WifiNetwork { ssid: n.ssid.clone(), signal: n.signal, is_connected: n.is_connected, is_known: n.is_known }
}

/// The loop state of `rank_networks`: the first `i` networks of `a`, ranked.
spec fn ranked_prefix(s: Seq<WifiNetworkView>, a: Seq<WifiNetworkView>, i: int) -> bool {
    &&& s.len() == i
    &&& covers(s, a, i)
    &&& is_ranked(s)
    &&& distinct_ssids(s)
}

proof fn lemma_ranks_before_trans(a: WifiNetworkView, b: WifiNetworkView, c: WifiNetworkView)
    requires
        ranks_before(a, b),
        ranks_before(b, c),
    ensures
        ranks_before(a, c),
{
}

proof fn lemma_insert_elements(s0: Seq<WifiNetworkView>, p: int, a: Seq<WifiNetworkView>, i: int)
    requires
        0 <= i < a.len(),
        ranked_prefix(s0, a, i),
        0 <= p <= s0.len(),
    ensures
        covers(s0.insert(p, a[i]), a, i + 1),
{
    let s1 = s0.insert(p, a[i]);
    assert forall|x: int| 0 <= x < s1.len() implies exists|k: int| 0 <= k < i + 1 && a[k] == #[trigger] s1[x] by {
        if x < p {
            assert(s1[x] == s0[x]);
        } else if x == p {
            assert(a[i] == s1[x]);
        } else {
            assert(s1[x] == s0[x - 1]);
        }
    }
    assert forall|k: int| 0 <= k < i + 1 implies exists|x: int| 0 <= x < s1.len() && s1[x] == #[trigger] a[k] by {
        if k == i {
            assert(s1[p] == a[k]);
        } else {
            let x = choose|x: int| 0 <= x < s0.len() && s0[x] == #[trigger] a[k];
            if x < p {
                assert(s1[x] == a[k]);
            } else {
                assert(s1[x + 1] == a[k]);
            }
        }
    }
}

proof fn lemma_insert_distinct(s0: Seq<WifiNetworkView>, p: int, a: Seq<WifiNetworkView>, i: int)
    requires
        0 <= i < a.len(),
        distinct_ssids(a),
        ranked_prefix(s0, a, i),
        0 <= p <= s0.len(),
    ensures
        distinct_ssids(s0.insert(p, a[i])),
{
    let s1 = s0.insert(p, a[i]);
    assert forall|z: int| 0 <= z < s0.len() implies (#[trigger] s0[z]).ssid != a[i].ssid by {
        let k = choose|k: int| 0 <= k < i && a[k] == #[trigger] s0[z];
        assert(a[k].ssid != a[i].ssid);
    }
    assert forall|x: int, y: int| 0 <= x < s1.len() && 0 <= y < s1.len() && x != y implies (#[trigger] s1[x]).ssid != (#[trigger] s1[y]).ssid by {
        if x != p && y != p {
            let ix = if x < p { x } else { x - 1 };
            let iy = if y < p { y } else { y - 1 };
            assert(s1[x] == s0[ix] && s1[y] == s0[iy]);
            assert(s0[ix].ssid != s0[iy].ssid);
        } else if x == p {
            let iy = if y < p { y } else { y - 1 };
            assert(s1[y] == s0[iy]);
        } else {
            let ix = if x < p { x } else { x - 1 };
            assert(s1[x] == s0[ix]);
        }
    }
}

proof fn lemma_insert_ranked(s0: Seq<WifiNetworkView>, p: int, v: WifiNetworkView)
    requires
        is_ranked(s0),
        0 <= p <= s0.len(),
        forall|x: int| 0 <= x < p ==> ranks_before(#[trigger] s0[x], v),
        p < s0.len() ==> ranks_before(v, s0[p]),
    ensures
        is_ranked(s0.insert(p, v)),
{
    let s1 = s0.insert(p, v);
    assert forall|x: int, y: int| 0 <= x < y < s1.len() implies ranks_before(#[trigger] s1[x], #[trigger] s1[y]) by {
        if y < p {
            assert(s1[x] == s0[x] && s1[y] == s0[y]);
        } else if y == p {
            assert(s1[x] == s0[x]);
        } else if x == p {
            assert(s1[y] == s0[y - 1]);
            if y - 1 > p {
                lemma_ranks_before_trans(v, s0[p], s0[y - 1]);
            }
        } else if x < p {
            assert(s1[x] == s0[x] && s1[y] == s0[y - 1]);
        } else {
            assert(s1[x] == s0[x - 1] && s1[y] == s0[y - 1]);
        }
    }
}

#[verifier::rlimit(50)]
#[verifier::spinoff_prover]
fn rank_networks(agg: &Vec<WifiNetwork>) -> (r: Vec<WifiNetwork>)
    requires
        distinct_ssids(net_views(agg@)),
    ensures
        net_views(r@) == spec_rank(net_views(agg@)),
        same_elements(net_views(r@), net_views(agg@)),
        distinct_ssids(net_views(r@)),
        is_ranked(net_views(r@)),
{
    let ghost a = net_views(agg@);
    let mut out: Vec<WifiNetwork> = Vec::new();
    let mut i: usize = 0;
    assert(net_views(out@) =~= Seq::<WifiNetworkView>::empty());
    assert(a.take(0) =~= Seq::<WifiNetworkView>::empty());
    while i < agg.len()
        invariant
            i <= agg.len(),
            a == net_views(agg@),
            distinct_ssids(a),
            ranked_prefix(net_views(out@), a, i as int),
            net_views(out@) == spec_rank(a.take(i as int)),
        decreases agg.len() - i,
    {
        let ghost s0 = net_views(out@);
        assert(a[i as int] == agg@[i as int]@);
        let mut p: usize = 0;
        while p < out.len() && !strictly_before(&agg[i], &out[p])
            invariant
                p <= out.len(),
                s0 == net_views(out@),
                i < agg.len(),
                a == net_views(agg@),
                forall|x: int| 0 <= x < p ==> ranks_before(#[trigger] s0[x], a[i as int]),
                forall|x: int| 0 <= x < p ==> !strictly_ranks_before(a[i as int], #[trigger] s0[x]),
            decreases out.len() - p,
        {
            assert(s0[p as int] == out@[p as int]@);
            assert(a[i as int] == agg@[i as int]@);
            p = p + 1;
        }
        proof {
            if p < out.len() {
                assert(s0[p as int] == out@[p as int]@);
            }
            lemma_insert_elements(s0, p as int, a, i as int);
            lemma_insert_distinct(s0, p as int, a, i as int);
            lemma_insert_ranked(s0, p as int, a[i as int]);
            lemma_rank_position(s0, a[i as int], p as int);
            assert(a.take(i + 1).drop_last() =~= a.take(i as int));
            assert(a.take(i + 1).last() == a[i as int]);
        }
        let n = copy_network(&agg[i]);
        out.insert(p, n);
        assert(net_views(out@) =~= s0.insert(p as int, a[i as int]));
        i = i + 1;
    }
    let ghost sv = net_views(out@);
    assert(same_elements(sv, a));
    assert(a.take(i as int) =~= a);
    out
}

impl NetworkService {
    /// Whether `nmcli radio wifi` printed "enabled" (trimmed, any case).
    pub fn wifi_enabled_from_output(stdout: &str) -> (r: bool)
        ensures
            r == (lowercase(trim(stdout@)) == "enabled"@),
    {
        let cs = chars_of(stdout);
        let t = trim_chars(cs.as_slice());
        let low = to_lowercase(t.as_slice());
        field_is(&low, "enabled")
    }

    /// The saved Wi-Fi connection names in `nmcli -t -f NAME,TYPE connection
    /// show` output.
    pub fn known_ssids_from_output(stdout: &str) -> (r: Vec<String>)
        ensures
            string_views(r@) == known_ssids(lines(stdout@)),
    {
        let cs = chars_of(stdout);
        let ls = lines_of(cs.as_slice());
        let mut out: Vec<Vec<char>> = Vec::new();
        let mut i: usize = 0;
        assert(views(ls@).take(0) =~= Seq::<Seq<char>>::empty());
        while i < ls.len()
            invariant
                i <= ls.len(),
                views(ls@) == lines(stdout@),
                views(out@) == known_ssids(views(ls@).take(i as int)),
            decreases ls.len() - i,
        {
            let parts = split_chars(ls[i].as_slice(), ':');
            let ghost pre = views(ls@).take(i as int);
            assert(views(ls@).take(i + 1).drop_last() =~= pre);
            assert(views(ls@).take(i + 1).last() == ls@[i as int]@);
            if parts.len() >= 2 && field_is(&parts[1], "802-11-wireless") {
                let ghost old_out = views(out@);
                out.push(copy_chars(&parts[0]));
                assert(views(out@) =~= old_out.push(views(parts@)[0]));
            }
            i = i + 1;
        }
        assert(views(ls@).take(ls.len() as int) =~= views(ls@));
        crate::text::strings_of(&out)
    }

    /// The network state from the radio state and the `nmcli -t -f
    /// ACTIVE,SSID,SIGNAL dev wifi list` output: the first active line with
    /// an SSID gives the connection.
    pub fn state_from_output(is_enabled: bool, listing: &str) -> (r: NetworkState)
        ensures
            r@ == spec_state(is_enabled, listing@),
    {
        if !is_enabled {
            return NetworkState { is_enabled: false, ssid: None, signal: None };
        }
        let cs = chars_of(listing);
        let ls = lines_of(cs.as_slice());
        let mut i: usize = 0;
        assert(views(ls@).skip(0) =~= views(ls@));
        while i < ls.len()
            invariant
                i <= ls.len(),
                is_enabled,
                views(ls@) == lines(listing@),
                active_entry(views(ls@).skip(i as int)) == active_entry(lines(listing@)),
            decreases ls.len() - i,
        {
            let f = terse_of(ls[i].as_slice());
            let ghost rest = views(ls@).skip(i as int);
            assert(rest[0] == ls@[i as int]@);
            assert(rest.drop_first() =~= views(ls@).skip(i + 1));
            assert(views(f@) == terse_fields(rest[0]));
            if f.len() >= 3 && active_field(&f[0]) && f[1].len() > 0 {
                assert(views(f@)[0] == f@[0]@ && views(f@)[1] == f@[1]@ && views(f@)[2] == f@[2]@);
                assert(active_entry(rest) == Some((f@[1]@, signal_of(f@[2]@))));
                let ssid = string_of(f[1].as_slice());
                let sig = signal_value(&f[2]);
                let r = NetworkState { is_enabled: true, ssid: Some(ssid), signal: Some(sig) };

                return r;
            }
            i = i + 1;
        }
        assert(views(ls@).skip(i as int) =~= Seq::<Seq<char>>::empty());
        NetworkState { is_enabled: true, ssid: None, signal: None }
    }

    /// The networks the Wi-Fi page lists: none while the radio is off,
    /// else those of `networks_from_listing` over the listing and the saved
    /// names.
    pub fn get_scanned_networks(wifi_enabled: bool, listing: &str, known: &[String]) -> (r: Vec<WifiNetwork>)
        ensures
            net_views(r@) == spec_scanned(wifi_enabled, listing@, string_views(known@)),
            !wifi_enabled ==> r@.len() == 0,
            wifi_enabled ==> is_network_list(net_views(r@), scan_entries(lines(listing@)), string_views(known@)),
    {
        if !wifi_enabled {
            let r: Vec<WifiNetwork> = Vec::new();
            assert(net_views(r@) =~= Seq::<WifiNetworkView>::empty());
            return r;
        }
        Self::networks_from_listing(listing, known)
    }

    /// The same list as `get_scanned_networks` for the same `nmcli` outputs:
    /// none while the radio is off.
    pub fn scan_networks(wifi_enabled: bool, listing: &str, known: &[String]) -> (r: Vec<WifiNetwork>)
        ensures
            net_views(r@) == spec_scanned(wifi_enabled, listing@, string_views(known@)),
            !wifi_enabled ==> r@.len() == 0,
            wifi_enabled ==> is_network_list(net_views(r@), scan_entries(lines(listing@)), string_views(known@)),
    {
        Self::get_scanned_networks(wifi_enabled, listing, known)
    }

    /// The access points in `nmcli -t -f ACTIVE,SSID,SIGNAL dev wifi list`
    /// output, one per SSID (trimmed, not empty) with its strongest signal,
    /// connected if any of its access points is active, known if among the
    /// saved connection names; connected first, then strongest first, and
    /// networks that rank equally in the order their SSIDs first appear.
    pub fn networks_from_listing(listing: &str, known: &[String]) -> (r: Vec<WifiNetwork>)
        ensures
            net_views(r@) == spec_networks(listing@, string_views(known@)),
            is_network_list(net_views(r@), scan_entries(lines(listing@)), string_views(known@)),
    {
        let cs = chars_of(listing);
        let ls = lines_of(cs.as_slice());
        let es = entries_of(&ls);
        let agg = aggregate(&es, known);
        let r = rank_networks(&agg);
        proof {
            lemma_list_from_parts(net_views(r@), net_views(agg@), entry_views(es@), string_views(known@));
        }
        r
    }

    /// The active SSID of a network state.
    pub fn get_active_ssid(state: &NetworkState) -> (r: Option<String>)
        ensures
            r matches Some(s) ==> state@.ssid == Some(s@),
            r is None ==> state@.ssid is None,
    {
        match &state.ssid {
            Some(s) => Some(s.clone()),
            None => None,
        }
    }

    /// The active signal of a network state.
    pub fn get_active_signal(state: &NetworkState) -> (r: Option<u32>)
        ensures
            r == state@.signal,
    {
        state.signal
    }

    /// The Wi-Fi device in `nmcli -t -f DEVICE,TYPE dev` output: the first
    /// device of type "wifi".
    pub fn wifi_device_from_output(stdout: &str) -> (r: Option<String>)
        ensures
            r matches Some(d) ==> wifi_device(lines(stdout@)) == Some(d@),
            r is None ==> wifi_device(lines(stdout@)) is None,
    {
        let cs = chars_of(stdout);
        let ls = lines_of(cs.as_slice());
        let mut i: usize = 0;
        assert(views(ls@).skip(0) =~= views(ls@));
        while i < ls.len()
            invariant
                i <= ls.len(),
                views(ls@) == lines(stdout@),
                wifi_device(views(ls@).skip(i as int)) == wifi_device(lines(stdout@)),
            decreases ls.len() - i,
        {
            let parts = split_chars(ls[i].as_slice(), ':');
            let ghost rest = views(ls@).skip(i as int);
            assert(rest[0] == ls@[i as int]@);
            assert(rest.drop_first() =~= views(ls@).skip(i + 1));
            if parts.len() >= 2 && field_is(&parts[1], "wifi") {
                return Some(string_of(parts[0].as_slice()));
            }
            i = i + 1;
        }
        assert(views(ls@).skip(i as int) =~= Seq::<Seq<char>>::empty());
        None
    }

    /// The arguments of `nmcli` that connect to `ssid`; a password is passed
    /// only when given and not empty.
    pub fn connect_network(ssid: &str, password: Option<&str>) -> (r: Vec<String>)
        ensures
            string_views(r@) == (match password {
                Some(p) if p@.len() > 0 => seq!["dev"@, "wifi"@, "connect"@, ssid@, "password"@, p@],
                _ => seq!["dev"@, "wifi"@, "connect"@, ssid@],
            }),
    {
        let mut r: Vec<String> = Vec::new();
        r.push(String::from_str("dev"));
        r.push(String::from_str("wifi"));
        r.push(String::from_str("connect"));
        r.push(String::from_str(ssid));
        match password {
            Some(p) => {
                if p.unicode_len() > 0 {
                    r.push(String::from_str("password"));
                    r.push(String::from_str(p));
                }
            },
            None => {},
        }
        proof {
            match password {
                Some(p) => {
                    if p@.len() > 0 {
                        assert(string_views(r@) =~= seq!["dev"@, "wifi"@, "connect"@, ssid@, "password"@, p@]);
                    } else {
                        assert(string_views(r@) =~= seq!["dev"@, "wifi"@, "connect"@, ssid@]);
                    }
                },
                None => {
                    assert(string_views(r@) =~= seq!["dev"@, "wifi"@, "connect"@, ssid@]);
                },
            }
        }
        r
    }

    /// The `nmcli` arguments that take a connection down: by name when
    /// given, else the Wi-Fi device disconnected (nothing when there is no
    /// Wi-Fi device).
    pub fn disconnect_args(ssid: Option<&str>, wifi_device: Option<String>) -> (r: Option<Vec<String>>)
        ensures
            match ssid {
                Some(n) => r matches Some(v) && string_views(v@) == seq!["connection"@, "down"@, "id"@, n@],
                None => match wifi_device {
                    Some(d) => r matches Some(v) && string_views(v@) == seq!["dev"@, "disconnect"@, d@],
                    None => r is None,
                },
            },
    {
        match ssid {
            Some(n) => {
                let mut r: Vec<String> = Vec::new();
                r.push(String::from_str("connection"));
                r.push(String::from_str("down"));
                r.push(String::from_str("id"));
                r.push(String::from_str(n));
                assert(string_views(r@) =~= seq!["connection"@, "down"@, "id"@, n@]);
                Some(r)
            },
            None => match wifi_device {
                Some(d) => {
                    let mut r: Vec<String> = Vec::new();
                    r.push(String::from_str("dev"));
                    r.push(String::from_str("disconnect"));
                    let dd = d.clone();
                    r.push(dd);
                    assert(string_views(r@) =~= seq!["dev"@, "disconnect"@, d@]);
                    Some(r)
                },
                None => None,
            },
        }
    }

    /// The `nmcli` arguments that turn the Wi-Fi radio on or off; turning it
    /// on is followed by a rescan (`rescan_args`).
    pub fn radio_args(enable: bool) -> (r: Vec<String>)
        ensures
            string_views(r@) == seq!["radio"@, "wifi"@, if enable { "on"@ } else { "off"@ }],
    {
        let mut r: Vec<String> = Vec::new();
        r.push(String::from_str("radio"));
        r.push(String::from_str("wifi"));
        r.push(if enable { String::from_str("on") } else { String::from_str("off") });
        assert(string_views(r@) =~= seq!["radio"@, "wifi"@, if enable { "on"@ } else { "off"@ }]);
        r
    }

    /// The `nmcli` arguments of a Wi-Fi rescan.
    pub fn rescan_args() -> (r: Vec<String>)
        ensures
            string_views(r@) == seq!["dev"@, "wifi"@, "rescan"@],
    {
        let mut r: Vec<String> = Vec::new();
        r.push(String::from_str("dev"));
        r.push(String::from_str("wifi"));
        r.push(String::from_str("rescan"));
        assert(string_views(r@) =~= seq!["dev"@, "wifi"@, "rescan"@]);
        r
    }

    /// The Wi-Fi glyph for a signal strength.
    pub fn signal_icon_code(signal: u32) -> (r: &'static str)
        ensures
            r@ == spec_signal_icon(signal),
    {
        if 75 <= signal && signal <= 100 {
            "\u{e1d8}"
        } else if 50 <= signal && signal <= 74 {
            "\u{ebe1}"
        } else if 25 <= signal && signal <= 49 {
            "\u{ebd6}"
        } else {
            "\u{ebe4}"
        }
    }

    /// The shelf Wi-Fi glyph for a network state.
    pub fn wifi_icon_code(state: &NetworkState) -> (r: &'static str)
        ensures
            r@ == spec_wifi_icon(state@),
    {
        if !state.is_enabled {
            return "\u{e648}";
        }
        match state.signal {
            Some(s) => Self::signal_icon_code(s),
            None => {
                if state.ssid.is_some() {
                    "\u{e1d8}"
                } else {
                    "\u{e648}"
                }
            },
        }
    }
}

} // verus!
