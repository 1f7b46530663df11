//! The dock: desktop entries, the command a launcher runs, and which dock
//! buttons show running or focused windows.
use vstd::prelude::*;
use crate::text::{
    chars_of, contains, contains_chars, eq_chars, join, join_chars, lines, lines_of, lowercase,
    split, split_chars, starts_with, starts_with_chars, string_of, string_views, strings_of,
    sub_chars, to_lowercase, trim, trim_chars, views, words, words_of, is_ws, is_whitespace,
    ends_with, ends_with_chars,
};
use crate::settings::{
    PinnedApp, PinnedAppView, SettingsView, is_pinned, pinned, pinned_views, spec_pin, spec_unpin,
};

verus! {

// ---------------------------------------------------------------------------
// Desktop entries
// ---------------------------------------------------------------------------

/// An application from a `.desktop` file.
#[derive(Debug, Clone)]
pub struct DesktopEntry {
    pub name: String,
    pub icon: String,
    pub exec_cmd: String,
    pub desktop_id: String,
    pub categories: Vec<String>,
}

/// The content of a `DesktopEntry`.
#[verifier::ext_equal]
pub struct DesktopEntryView {
    pub name: Seq<char>,
    pub icon: Seq<char>,
    pub exec_cmd: Seq<char>,
    pub desktop_id: Seq<char>,
    pub categories: Seq<Seq<char>>,
}

impl View for DesktopEntry {
    type V = DesktopEntryView;

    open spec fn view(&self) -> DesktopEntryView {
        DesktopEntryView {
            name: self.name@,
            icon: self.icon@,
            exec_cmd: self.exec_cmd@,
            desktop_id: self.desktop_id@,
            categories: string_views(self.categories@),
        }
    }
}

/// The views of a list of entries.
pub open spec fn entry_views(v: Seq<DesktopEntry>) -> Seq<DesktopEntryView> {
    v.map_values(|e: DesktopEntry| e@)
}

/// The words that are not field codes (`%f`, `%U`, ...).
pub open spec fn drop_field_codes(ws: Seq<Seq<char>>) -> Seq<Seq<char>>
    decreases ws.len(),
{
    if ws.len() == 0 {
        seq![]
    } else {
        let rest = drop_field_codes(ws.drop_last());
        if starts_with(ws.last(), "%"@) {
            rest
        } else {
            rest.push(ws.last())
        }
    }
}

/// The trimmed pieces that are not empty.
pub open spec fn nonempty_trimmed(ps: Seq<Seq<char>>) -> Seq<Seq<char>>
    decreases ps.len(),
{
    if ps.len() == 0 {
        seq![]
    } else {
        let rest = nonempty_trimmed(ps.drop_last());
        let t = trim(ps.last());
        if t.len() == 0 {
            rest
        } else {
            rest.push(t)
        }
    }
}

/// What reading a `.desktop` file has gathered so far.
pub struct DesktopScan {
    pub in_entry: bool,
    pub name: Option<Seq<char>>,
    pub icon: Option<Seq<char>>,
    pub exec_cmd: Option<Seq<char>>,
    pub categories: Seq<Seq<char>>,
    pub no_display: bool,
}

/// The text after a key prefix.
pub open spec fn value_after(l: Seq<char>, key: Seq<char>) -> Seq<char> {
    l.skip(key.len() as int)
}

/// A line in square brackets starts a group.
pub open spec fn is_group_header(l: Seq<char>) -> bool {
    l.len() > 0 && l[0] == '[' && l.last() == ']'
}

/// Reading one line of a `.desktop` file: only the `[Desktop Entry]` group
/// counts; the first `Name=`, `Icon=` and `Exec=` are kept (field codes
/// dropped from `Exec=`), the last `Categories=`, and `NoDisplay=true` in any
/// case hides the entry.
pub open spec fn desktop_step(st: DesktopScan, raw: Seq<char>) -> DesktopScan {
    let l = trim(raw);
    if l == "[Desktop Entry]"@ {
        DesktopScan { in_entry: true, ..st }
    } else {
        let in_entry = if is_group_header(l) { false } else { st.in_entry };
        let st1 = DesktopScan { in_entry: in_entry, ..st };
        if !in_entry {
            st1
        } else if starts_with(l, "Name="@) && st.name is None {
            DesktopScan { name: Some(value_after(l, "Name="@)), ..st1 }
        } else if starts_with(l, "Icon="@) && st.icon is None {
            DesktopScan { icon: Some(value_after(l, "Icon="@)), ..st1 }
        } else if starts_with(l, "Exec="@) && st.exec_cmd is None {
            DesktopScan { exec_cmd: Some(join(drop_field_codes(words(value_after(l, "Exec="@))), " "@)), ..st1 }
        } else if starts_with(l, "Categories="@) {
            DesktopScan { categories: nonempty_trimmed(split(value_after(l, "Categories="@), ';')), ..st1 }
        } else if starts_with(l, "NoDisplay="@) {
            if lowercase(trim(value_after(l, "NoDisplay="@))) == "true"@ {
                DesktopScan { no_display: true, ..st1 }
            } else {
                st1
            }
        } else {
            st1
        }
    }
}

/// Reading the lines in turn.
pub open spec fn desktop_go(ls: Seq<Seq<char>>, st: DesktopScan) -> DesktopScan
    decreases ls.len(),
{
    if ls.len() == 0 {
        st
    } else {
        desktop_go(ls.drop_first(), desktop_step(st, ls[0]))
    }
}

/// The state before the first line.
pub open spec fn desktop_start() -> DesktopScan {
    DesktopScan { in_entry: false, name: None, icon: None, exec_cmd: None, categories: seq![], no_display: false }
}

/// The entry of a `.desktop` file: none when hidden or when it lacks a
/// name, an icon or a command.
pub open spec fn spec_parse_desktop(content: Seq<char>, desktop_id: Seq<char>) -> Option<DesktopEntryView> {
    let st = desktop_go(lines(content), desktop_start());
    if st.no_display {
        None
    } else {
        match (st.name, st.icon, st.exec_cmd) {
            (Some(n), Some(i), Some(e)) => Some(
                DesktopEntryView { name: n, icon: i, exec_cmd: e, desktop_id: desktop_id, categories: st.categories },
            ),
            _ => None,
        }
    }
}

// ---------------------------------------------------------------------------
// Splitting a command line
// ---------------------------------------------------------------------------

/// The state of splitting a command line into words.
pub struct Tokens {
    pub parts: Seq<Seq<char>>,
    pub cur: Seq<char>,
    pub in_double: bool,
    pub in_single: bool,
    pub escaped: bool,
}

/// A finished word is kept unless it is a field code.
pub open spec fn flush(parts: Seq<Seq<char>>, cur: Seq<char>) -> Seq<Seq<char>> {
    if cur.len() > 0 && cur[0] != '%' {
        parts.push(cur)
    } else {
        parts
    }
}

/// One character of a command line: a backslash escapes the next character
/// outside single quotes, quotes group, unquoted whitespace ends a word.
pub open spec fn token_step(t: Tokens, c: char) -> Tokens {
    if t.escaped {
        Tokens { cur: t.cur.push(c), escaped: false, ..t }
    } else if c == '\\' && !t.in_single {
        Tokens { escaped: true, ..t }
    } else if c == '"' && !t.in_single {
        Tokens { in_double: !t.in_double, ..t }
    } else if c == '\'' && !t.in_double {
        Tokens { in_single: !t.in_single, ..t }
    } else if is_ws(c) && !t.in_double && !t.in_single {
        if t.cur.len() > 0 {
            Tokens { parts: flush(t.parts, t.cur), cur: seq![], ..t }
        } else {
            t
        }
    } else {
        Tokens { cur: t.cur.push(c), ..t }
    }
}

/// Splitting the characters in turn.
pub open spec fn token_go(s: Seq<char>, t: Tokens) -> Tokens
    decreases s.len(),
{
    if s.len() == 0 {
        t
    } else {
        token_go(s.drop_first(), token_step(t, s[0]))
    }
}

/// The program and arguments of a command line.
pub open spec fn spec_command_words(cmd: Seq<char>) -> Seq<Seq<char>> {
    let t = token_go(cmd, Tokens { parts: seq![], cur: seq![], in_double: false, in_single: false, escaped: false });
    flush(t.parts, t.cur)
}

// ---------------------------------------------------------------------------
// Executable code
// ---------------------------------------------------------------------------

fn eq_lit(a: &[char], s: &str) -> (r: bool)
    ensures
        r == (a@ == s@),
{
    let b = chars_of(s);
    eq_chars(a, b.as_slice())
}

fn starts_lit(a: &[char], s: &str) -> (r: bool)
    ensures
        r == starts_with(a@, s@),
{
    let b = chars_of(s);
    starts_with_chars(a, b.as_slice())
}

fn strip_key(line: &[char], key: &str) -> (r: Option<Vec<char>>)
    ensures
        r is Some == starts_with(line@, key@),
        r matches Some(v) ==> v@ == value_after(line@, key@),
{
    let k = chars_of(key);
    if starts_with_chars(line, k.as_slice()) {
        let v = sub_chars(line, k.len(), line.len());
        assert(v@ =~= value_after(line@, key@));
        Some(v)
    } else {
        None
    }
}

fn clean_exec(v: &[char]) -> (r: Vec<char>)
    ensures
        r@ == join(drop_field_codes(words(v@)), " "@),
{
    let ws = words_of(v);
    let mut kept: Vec<Vec<char>> = Vec::new();
    let mut i: usize = 0;
    while i < ws.len()
        invariant
            i <= ws.len(),
            views(kept@) == drop_field_codes(views(ws@).take(i as int)),
        decreases ws.len() - i,
    {
        assert(views(ws@).take(i + 1).drop_last() =~= views(ws@).take(i as int));
        let ghost ok = views(kept@);
        if !starts_lit(ws[i].as_slice(), "%") {
            kept.push(ws[i].clone());
            assert(views(kept@) =~= ok.push(ws@[i as int]@));
        }
        i = i + 1;
    }
    assert(views(ws@).take(ws.len() as int) =~= views(ws@));
    let sp = chars_of(" ");
    join_chars(&kept, sp.as_slice())
}

fn clean_categories(v: &[char]) -> (r: Vec<String>)
    ensures
        string_views(r@) == nonempty_trimmed(split(v@, ';')),
{
    let ps = split_chars(v, ';');
    let mut out: Vec<String> = Vec::new();
    let mut i: usize = 0;
    while i < ps.len()
        invariant
            i <= ps.len(),
            string_views(out@) == nonempty_trimmed(views(ps@).take(i as int)),
        decreases ps.len() - i,
    {
        assert(views(ps@).take(i + 1).drop_last() =~= views(ps@).take(i as int));
        let t = trim_chars(ps[i].as_slice());
        let ghost oo = string_views(out@);
        if t.len() > 0 {
            out.push(string_of(t.as_slice()));
            assert(string_views(out@) =~= oo.push(t@));
        }
        i = i + 1;
    }
    assert(views(ps@).take(ps.len() as int) =~= views(ps@));
    out
}

/// The entry of a `.desktop` file with the given text and file name.
pub fn parse_desktop_file(content: &str, desktop_id: &str) -> (r: Option<DesktopEntry>)
    ensures
        match r {
            Some(e) => spec_parse_desktop(content@, desktop_id@) == Some(e@),
            None => spec_parse_desktop(content@, desktop_id@) is None,
        },
{
    let cs = chars_of(content);
    let ls = lines_of(cs.as_slice());
    let ghost l = views(ls@);
    let mut in_entry = false;
    let mut name: Option<Vec<char>> = None;
    let mut icon: Option<Vec<char>> = None;
    let mut exec_cmd: Option<Vec<char>> = None;
    let mut categories: Vec<String> = Vec::new();
    let mut no_display = false;
    let mut i: usize = 0;
    assert(l.skip(0) =~= l);
    assert(string_views(categories@) =~= Seq::<Seq<char>>::empty());
    while i < ls.len()
        invariant
            i <= ls.len(),
            l == views(ls@),
            l == lines(content@),
            desktop_go(l, desktop_start()) == desktop_go(
                l.skip(i as int),
                DesktopScan {
                    in_entry: in_entry,
                    name: match name { Some(v) => Some(v@), None => None },
                    icon: match icon { Some(v) => Some(v@), None => None },
                    exec_cmd: match exec_cmd { Some(v) => Some(v@), None => None },
                    categories: string_views(categories@),
                    no_display: no_display,
                },
            ),
        decreases ls.len() - i,
    {
        assert(l.skip(i as int)[0] == l[i as int]);
        assert(l.skip(i as int).drop_first() =~= l.skip(i + 1));
        let line = trim_chars(ls[i].as_slice());
        if eq_lit(line.as_slice(), "[Desktop Entry]") {
            in_entry = true;
        } else {
            if line.len() > 0 && line[0] == '[' && line[line.len() - 1] == ']' {
                in_entry = false;
            }
            if in_entry {
                let name_v = strip_key(line.as_slice(), "Name=");
                let icon_v = strip_key(line.as_slice(), "Icon=");
                let exec_v = strip_key(line.as_slice(), "Exec=");
                let cat_v = strip_key(line.as_slice(), "Categories=");
                let nd_v = strip_key(line.as_slice(), "NoDisplay=");
                if name_v.is_some() && name.is_none() {
                    name = name_v;
                } else if icon_v.is_some() && icon.is_none() {
                    icon = icon_v;
                } else if exec_v.is_some() && exec_cmd.is_none() {
                    match exec_v {
                        Some(raw) => {
                            exec_cmd = Some(clean_exec(raw.as_slice()));
                        },
                        None => {},
                    }
                } else if cat_v.is_some() {
                    match cat_v {
                        Some(raw) => {
                            categories = clean_categories(raw.as_slice());
                        },
                        None => {},
                    }
                } else if nd_v.is_some() {
                    match nd_v {
                        Some(raw) => {
                            let t = trim_chars(raw.as_slice());
                            let low = to_lowercase(t.as_slice());
                            if eq_lit(low.as_slice(), "true") {
                                no_display = true;
                            }
                        },
                        None => {},
                    }
                }
            }
        }
        i = i + 1;
    }
    assert(l.skip(i as int) =~= Seq::<Seq<char>>::empty());
    if no_display {
        return None;
    }
    match (name, icon, exec_cmd) {
        (Some(n), Some(ic), Some(e)) => Some(DesktopEntry {
            name: string_of(n.as_slice()),
            icon: string_of(ic.as_slice()),
            exec_cmd: string_of(e.as_slice()),
            desktop_id: string_of(chars_of(desktop_id).as_slice()),
            categories: categories,
        }),
        _ => None,
    }
}

/// The program and arguments that launching a command line runs: words
/// split as a shell would (quotes and backslashes), field codes dropped.
pub fn launch_app(exec_cmd: &str) -> (r: Vec<String>)
    ensures
        string_views(r@) == spec_command_words(exec_cmd@),
{
    let cs = chars_of(exec_cmd);
    let mut parts: Vec<Vec<char>> = Vec::new();
    let mut cur: Vec<char> = Vec::new();
    let mut in_double = false;
    let mut in_single = false;
    let mut escaped = false;
    let mut i: usize = 0;
    let ghost start = Tokens { parts: seq![], cur: seq![], in_double: false, in_single: false, escaped: false };
    assert(cs@.skip(0) =~= cs@);
    assert(views(parts@) =~= Seq::<Seq<char>>::empty());
    while i < cs.len()
        invariant
            i <= cs.len(),
            cs@ == exec_cmd@,
            token_go(cs@, start) == token_go(
                cs@.skip(i as int),
                Tokens { parts: views(parts@), cur: cur@, in_double, in_single, escaped },
            ),
        decreases cs.len() - i,
    {
        let c = cs[i];
        assert(cs@.skip(i as int)[0] == c);
        assert(cs@.skip(i as int).drop_first() =~= cs@.skip(i + 1));
        if escaped {
            cur.push(c);
            escaped = false;
        } else if c == '\\' && !in_single {
            escaped = true;
        } else if c == '"' && !in_single {
            in_double = !in_double;
        } else if c == '\'' && !in_double {
            in_single = !in_single;
        } else if is_whitespace(c) && !in_double && !in_single {
            if cur.len() > 0 {
                let ghost op = views(parts@);
                if cur[0] != '%' {
                    parts.push(cur);
                    assert(views(parts@) =~= op.push(cur@));
                }
                cur = Vec::new();
            }
        } else {
            cur.push(c);
        }
        i = i + 1;
    }
    assert(cs@.skip(i as int) =~= Seq::<char>::empty());
    let ghost op = views(parts@);
    if cur.len() > 0 && cur[0] != '%' {
        parts.push(cur);
        assert(views(parts@) =~= op.push(cur@));
    }
    strings_of(&parts)
}


// ---------------------------------------------------------------------------
// Windows on the dock
// ---------------------------------------------------------------------------

/// A window as the dock sees it.
#[derive(Debug, Clone)]
pub struct DockWindow {
    pub id: u64,
    pub app_id: Option<String>,
    pub title: Option<String>,
    pub is_focused: bool,
}

/// The content of a `DockWindow`.
pub struct DockWindowView {
    pub id: u64,
    pub app_id: Option<Seq<char>>,
    pub title: Option<Seq<char>>,
    pub is_focused: bool,
}

/// The view of an optional string.
pub open spec fn opt_text(o: Option<String>) -> Option<Seq<char>> {
    match o {
        Some(s) => Some(s@),
        None => None,
    }
}

impl View for DockWindow {
    type V = DockWindowView;

    open spec fn view(&self) -> DockWindowView {
        DockWindowView {
            id: self.id,
            app_id: opt_text(self.app_id),
            title: opt_text(self.title),
            is_focused: self.is_focused,
        }
    }
}

/// The views of a list of windows.
pub open spec fn window_views(v: Seq<DockWindow>) -> Seq<DockWindowView> {
    v.map_values(|w: DockWindow| w@)
}

/// The state of a pinned app's button.
#[derive(Debug, Clone, Copy)]
pub struct PinnedDockState {
    pub running: bool,
    pub focused: bool,
    pub focus_id: Option<u64>,
}

/// A button for the windows of an app that is not pinned.
#[derive(Debug, Clone)]
pub struct UnpinnedDockGroup {
    pub app_id: String,
    pub title: String,
    pub focused: bool,
    pub focus_id: Option<u64>,
}

/// The content of an `UnpinnedDockGroup`.
pub struct UnpinnedView {
    pub app_id: Seq<char>,
    pub title: Seq<char>,
    pub focused: bool,
    pub focus_id: Option<u64>,
}

impl View for UnpinnedDockGroup {
    type V = UnpinnedView;

    open spec fn view(&self) -> UnpinnedView {
        UnpinnedView { app_id: self.app_id@, title: self.title@, focused: self.focused, focus_id: self.focus_id }
    }
}

/// The views of a list of groups.
pub open spec fn group_views(v: Seq<UnpinnedDockGroup>) -> Seq<UnpinnedView> {
    v.map_values(|g: UnpinnedDockGroup| g@)
}

/// What the dock shows: one state per pinned app, in order, then the
/// other apps with open windows.
pub struct DockPlan {
    pub pinned: Vec<PinnedDockState>,
    pub unpinned: Vec<UnpinnedDockGroup>,
}

/// A window belongs to a pinned app when its lower-cased app id contains
/// one of the app's match ids.
pub open spec fn app_matches(w: DockWindowView, ids: Seq<Seq<char>>) -> bool {
    match w.app_id {
        Some(a) => exists|k: int| 0 <= k < ids.len() && contains(lowercase(a), #[trigger] ids[k]),
        None => false,
    }
}

/// The windows that belong to a pinned app, in order.
pub open spec fn matching(ws: Seq<DockWindowView>, ids: Seq<Seq<char>>) -> Seq<DockWindowView>
    decreases ws.len(),
{
    if ws.len() == 0 {
        seq![]
    } else {
        let r = matching(ws.drop_last(), ids);
        if app_matches(ws.last(), ids) {
            r.push(ws.last())
        } else {
            r
        }
    }
}

/// The id of the first focused window.
pub open spec fn first_focused(ws: Seq<DockWindowView>) -> Option<u64>
    decreases ws.len(),
{
    if ws.len() == 0 {
        None
    } else {
        match first_focused(ws.drop_last()) {
            Some(x) => Some(x),
            None => if ws.last().is_focused {
                Some(ws.last().id)
            } else {
                None
            },
        }
    }
}

/// The window a click brings forward: the focused one, else the first.
pub open spec fn focus_target(ws: Seq<DockWindowView>) -> Option<u64> {
    match first_focused(ws) {
        Some(x) => Some(x),
        None => if ws.len() > 0 {
            Some(ws[0].id)
        } else {
            None
        },
    }
}

/// The button state of a pinned app.
pub open spec fn pinned_state(ws: Seq<DockWindowView>, ids: Seq<Seq<char>>) -> PinnedDockState {
    let m = matching(ws, ids);
    PinnedDockState { running: m.len() > 0, focused: first_focused(m) is Some, focus_id: focus_target(m) }
}

/// The window belongs to some pinned app.
pub open spec fn pinned_window(w: DockWindowView, cfgs: Seq<Seq<Seq<char>>>) -> bool {
    exists|c: int| 0 <= c < cfgs.len() && app_matches(w, #[trigger] cfgs[c])
}

/// Some window with this id belongs to a pinned app.
pub open spec fn claimed(ws: Seq<DockWindowView>, cfgs: Seq<Seq<Seq<char>>>, id: u64) -> bool {
    exists|j: int| 0 <= j < ws.len() && pinned_window(#[trigger] ws[j], cfgs) && ws[j].id == id
}

/// The windows of `part` whose id no pinned app claims in `all`.
pub open spec fn unclaimed(all: Seq<DockWindowView>, cfgs: Seq<Seq<Seq<char>>>, part: Seq<DockWindowView>) -> Seq<DockWindowView>
    decreases part.len(),
{
    if part.len() == 0 {
        seq![]
    } else {
        let r = unclaimed(all, cfgs, part.drop_last());
        if claimed(all, cfgs, part.last().id) {
            r
        } else {
            r.push(part.last())
        }
    }
}

/// The app a window is grouped under.
pub open spec fn window_key(w: DockWindowView) -> Seq<char> {
    match w.app_id {
        Some(a) => a,
        None => "application-x-executable"@,
    }
}

/// Windows grouped by app.
pub struct WindowGroup {
    pub key: Seq<char>,
    pub windows: Seq<DockWindowView>,
}

/// The index of the first group with the key.
pub open spec fn group_index(gs: Seq<WindowGroup>, key: Seq<char>) -> Option<int>
    decreases gs.len(),
{
    if gs.len() == 0 {
        None
    } else {
        match group_index(gs.drop_last(), key) {
            Some(i) => Some(i),
            None => if gs.last().key == key {
                Some(gs.len() - 1)
            } else {
                None
            },
        }
    }
}

/// Adding a window to its group, or to a new group at the end.
pub open spec fn add_to_groups(gs: Seq<WindowGroup>, w: DockWindowView) -> Seq<WindowGroup> {
    let k = window_key(w);
    match group_index(gs, k) {
        Some(i) => gs.update(i, WindowGroup { key: k, windows: gs[i].windows.push(w) }),
        None => gs.push(WindowGroup { key: k, windows: seq![w] }),
    }
}

/// The windows grouped by app, groups in the order their apps first appear.
pub open spec fn groups_of(ws: Seq<DockWindowView>) -> Seq<WindowGroup>
    decreases ws.len(),
{
    if ws.len() == 0 {
        seq![]
    } else {
        add_to_groups(groups_of(ws.drop_last()), ws.last())
    }
}

/// The button of a group: titled by its first window (else its app id).
pub open spec fn summarize(g: WindowGroup) -> UnpinnedView {
    UnpinnedView {
        app_id: g.key,
        title: match g.windows[0].title {
            Some(t) => t,
            None => g.key,
        },
        focused: first_focused(g.windows) is Some,
        focus_id: focus_target(g.windows),
    }
}

/// The buttons of the apps that are not pinned.
pub open spec fn spec_unpinned(cfgs: Seq<Seq<Seq<char>>>, ws: Seq<DockWindowView>) -> Seq<UnpinnedView> {
    summaries(groups_of(unclaimed(ws, cfgs, ws)))
}

/// The buttons of the groups.
pub open spec fn summaries(gs: Seq<WindowGroup>) -> Seq<UnpinnedView> {
    gs.map_values(|g: WindowGroup| summarize(g))
}

/// The match ids of each pinned app.
pub open spec fn config_ids(cfgs: Seq<Vec<String>>) -> Seq<Seq<Seq<char>>> {
    cfgs.map_values(|v: Vec<String>| string_views(v@))
}

proof fn lemma_groups_nonempty(ws: Seq<DockWindowView>)
    ensures
        forall|i: int| 0 <= i < groups_of(ws).len() ==> (#[trigger] groups_of(ws)[i]).windows.len() > 0,
    decreases ws.len(),
{
    if ws.len() > 0 {
        lemma_groups_nonempty(ws.drop_last());
        lemma_group_index(groups_of(ws.drop_last()), window_key(ws.last()));
    }
}

proof fn lemma_group_index(gs: Seq<WindowGroup>, key: Seq<char>)
    ensures
        match group_index(gs, key) {
            Some(i) => 0 <= i < gs.len() && gs[i].key == key && forall|k: int| 0 <= k < i ==> (#[trigger] gs[k]).key != key,
            None => forall|k: int| 0 <= k < gs.len() ==> (#[trigger] gs[k]).key != key,
        },
    decreases gs.len(),
{
    if gs.len() > 0 {
        let d = gs.drop_last();
        lemma_group_index(d, key);
        assert(forall|k: int| 0 <= k < d.len() ==> d[k] == gs[k]);
    }
}

proof fn lemma_group_index_unique(gs: Seq<WindowGroup>, key: Seq<char>, i: int)
    requires
        0 <= i < gs.len(),
        gs[i].key == key,
        forall|k: int| 0 <= k < i ==> (#[trigger] gs[k]).key != key,
    ensures
        group_index(gs, key) == Some(i),
{
    lemma_group_index(gs, key);
}

fn lower_ids(ws: &Vec<DockWindow>) -> (r: Vec<Option<Vec<char>>>)
    ensures
        r@.len() == ws@.len(),
        forall|j: int| 0 <= j < ws@.len() ==> match (#[trigger] ws@[j]).app_id {
            Some(a) => r@[j] matches Some(l) && l@ == lowercase(a@),
            None => r@[j] is None,
        },
{
    let mut r: Vec<Option<Vec<char>>> = Vec::new();
    let mut j: usize = 0;
    while j < ws.len()
        invariant
            j <= ws.len(),
            r@.len() == j,
            forall|k: int| 0 <= k < j ==> match (#[trigger] ws@[k]).app_id {
                Some(a) => r@[k] matches Some(l) && l@ == lowercase(a@),
                None => r@[k] is None,
            },
        decreases ws.len() - j,
    {
        let v = match &ws[j].app_id {
            Some(a) => Some(to_lowercase(chars_of(a.as_str()).as_slice())),
            None => None,
        };
        r.push(v);
        j = j + 1;
    }
    r
}

/// Whether a lower-cased app id contains one of the ids.
fn matches_ids(l: &Vec<char>, ids: &Vec<String>) -> (r: bool)
    ensures
        r == exists|k: int| 0 <= k < ids@.len() && contains(l@, #[trigger] string_views(ids@)[k]),
{
    let mut k: usize = 0;
    while k < ids.len()
        invariant
            k <= ids.len(),
            forall|x: int| 0 <= x < k ==> !contains(l@, #[trigger] string_views(ids@)[x]),
        decreases ids.len() - k,
    {
        let m = chars_of(ids[k].as_str());
        assert(string_views(ids@)[k as int] == ids@[k as int]@);
        if contains_chars(l.as_slice(), m.as_slice()) {
            return true;
        }
        k = k + 1;
    }
    false
}

/// Whether a window with this lower-cased app id belongs to a pinned app.
fn window_matches(low: &Option<Vec<char>>, ids: &Vec<String>) -> (r: bool)
    ensures
        r == match low {
            Some(l) => exists|k: int| 0 <= k < ids@.len() && contains(l@, #[trigger] string_views(ids@)[k]),
            None => false,
        },
{
    match low {
        Some(l) => matches_ids(l, ids),
        None => false,
    }
}

/// The buttons of the dock for the open windows: each pinned app (given
/// by its match ids) is running when a window's lower-cased app id contains
/// one of them, and focused when such a window is; the other windows, by
/// id, are grouped by app id in order of appearance.
pub fn update_dock(pinned_match_ids: &Vec<Vec<String>>, windows: &Vec<DockWindow>) -> (r: DockPlan)
    ensures
        r.pinned@.len() == pinned_match_ids@.len(),
        forall|c: int| 0 <= c < pinned_match_ids@.len() ==> (#[trigger] r.pinned@[c]) == pinned_state(
            window_views(windows@),
            config_ids(pinned_match_ids@)[c],
        ),
        group_views(r.unpinned@) == spec_unpinned(config_ids(pinned_match_ids@), window_views(windows@)),
{
    let ghost wv = window_views(windows@);
    let ghost cfgs = config_ids(pinned_match_ids@);
    let lows = lower_ids(windows);
    // Which windows belong to some pinned app, and each pinned app's state.
    let mut matched: Vec<bool> = Vec::new();
    let mut j: usize = 0;
    while j < windows.len()
        invariant
            j <= windows.len(),
            matched@.len() == j,
            wv == window_views(windows@),
            cfgs == config_ids(pinned_match_ids@),
            lows@.len() == windows@.len(),
            forall|x: int| 0 <= x < windows@.len() ==> match (#[trigger] windows@[x]).app_id {
                Some(a) => lows@[x] matches Some(l) && l@ == lowercase(a@),
                None => lows@[x] is None,
            },
            forall|x: int| 0 <= x < j ==> (#[trigger] matched@[x]) == pinned_window(wv[x], cfgs),
        decreases windows.len() - j,
    {
        let mut any = false;
        let mut c: usize = 0;
        let ghost w = wv[j as int];
        assert(w == windows@[j as int]@);
        while c < pinned_match_ids.len()
            invariant
                c <= pinned_match_ids.len(),
                j < windows.len(),
                lows@.len() == windows@.len(),
                wv == window_views(windows@),
                cfgs == config_ids(pinned_match_ids@),
                w == wv[j as int],
                w == windows@[j as int]@,
                match windows@[j as int].app_id {
                    Some(a) => lows@[j as int] matches Some(l) && l@ == lowercase(a@),
                    None => lows@[j as int] is None,
                },
                any == exists|x: int| 0 <= x < c && app_matches(w, #[trigger] cfgs[x]),
            decreases pinned_match_ids.len() - c,
        {
            let m = window_matches(&lows[j], &pinned_match_ids[c]);
            assert(cfgs[c as int] == string_views(pinned_match_ids@[c as int]@));
            assert(m == app_matches(w, cfgs[c as int]));
            any = any || m;
            c = c + 1;
        }
        matched.push(any);
        j = j + 1;
    }
    let mut pinned: Vec<PinnedDockState> = Vec::new();
    let mut c: usize = 0;
    while c < pinned_match_ids.len()
        invariant
            c <= pinned_match_ids.len(),
            pinned@.len() == c,
            wv == window_views(windows@),
            cfgs == config_ids(pinned_match_ids@),
            lows@.len() == windows@.len(),
            forall|x: int| 0 <= x < windows@.len() ==> match (#[trigger] windows@[x]).app_id {
                Some(a) => lows@[x] matches Some(l) && l@ == lowercase(a@),
                None => lows@[x] is None,
            },
            forall|x: int| 0 <= x < c ==> (#[trigger] pinned@[x]) == pinned_state(wv, cfgs[x]),
        decreases pinned_match_ids.len() - c,
    {
        let ghost ids = cfgs[c as int];
        assert(ids == string_views(pinned_match_ids@[c as int]@));
        let mut running = false;
        let mut ff: Option<u64> = None;
        let mut first: Option<u64> = None;
        let mut k: usize = 0;
        while k < windows.len()
            invariant
                k <= windows.len(),
                c < pinned_match_ids.len(),
                wv == window_views(windows@),
                ids == string_views(pinned_match_ids@[c as int]@),
                lows@.len() == windows@.len(),
                forall|x: int| 0 <= x < windows@.len() ==> match (#[trigger] windows@[x]).app_id {
                    Some(a) => lows@[x] matches Some(l) && l@ == lowercase(a@),
                    None => lows@[x] is None,
                },
                running == (matching(wv.take(k as int), ids).len() > 0),
                ff == first_focused(matching(wv.take(k as int), ids)),
                first == (if matching(wv.take(k as int), ids).len() > 0 {
                    Some(matching(wv.take(k as int), ids)[0].id)
                } else {
                    None::<u64>
                }),
            decreases windows.len() - k,
        {
            assert(wv.take(k + 1).drop_last() =~= wv.take(k as int));
            assert(wv.take(k + 1).last() == wv[k as int]);
            assert(wv[k as int] == windows@[k as int]@);
            let m = window_matches(&lows[k], &pinned_match_ids[c]);
            assert(m == app_matches(wv[k as int], ids));
            if m {
                let ghost old_m = matching(wv.take(k as int), ids);
                assert(matching(wv.take(k + 1), ids) == old_m.push(wv[k as int]));
                assert(old_m.push(wv[k as int]).drop_last() =~= old_m);
                if !running {
                    first = Some(windows[k].id);
                }
                if ff.is_none() && windows[k].is_focused {
                    ff = Some(windows[k].id);
                }
                running = true;
            }
            k = k + 1;
        }
        assert(wv.take(windows.len() as int) =~= wv);
        let focus_id = match ff {
            Some(x) => Some(x),
            None => first,
        };
        pinned.push(PinnedDockState { running, focused: ff.is_some(), focus_id });
        c = c + 1;
    }
    // The other windows, grouped by app.
    let mut groups: Vec<UnpinnedDockGroup> = Vec::new();
    let mut keys: Vec<Vec<char>> = Vec::new();
    let ghost mut gs: Seq<WindowGroup> = seq![];
    let mut j: usize = 0;
    while j < windows.len()
        invariant
            j <= windows.len(),
            wv == window_views(windows@),
            cfgs == config_ids(pinned_match_ids@),
            matched@.len() == windows@.len(),
            forall|x: int| 0 <= x < windows@.len() ==> (#[trigger] matched@[x]) == pinned_window(wv[x], cfgs),
            gs == groups_of(unclaimed(wv, cfgs, wv.take(j as int))),
            keys@.len() == gs.len(),
            groups@.len() == gs.len(),
            forall|i: int| 0 <= i < gs.len() ==> (#[trigger] keys@[i])@ == gs[i].key,
            group_views(groups@) == summaries(gs),
        decreases windows.len() - j,
    {
        let ghost w = wv[j as int];
        assert(w == windows@[j as int]@);
        assert(wv.take(j + 1).drop_last() =~= wv.take(j as int));
        assert(wv.take(j + 1).last() == w);
        // Is the id claimed by a window of a pinned app?
        let id = windows[j].id;
        let mut is_claimed = false;
        let mut x: usize = 0;
        while x < windows.len()
            invariant
                x <= windows.len(),
                wv == window_views(windows@),
                matched@.len() == windows@.len(),
                forall|y: int| 0 <= y < windows@.len() ==> (#[trigger] matched@[y]) == pinned_window(wv[y], cfgs),
                is_claimed == exists|y: int| 0 <= y < x && pinned_window(#[trigger] wv[y], cfgs) && wv[y].id == id,
            decreases windows.len() - x,
        {
            assert(wv[x as int] == windows@[x as int]@);
            if matched[x] && windows[x].id == id {
                is_claimed = true;
            }
            x = x + 1;
        }
        assert(is_claimed == claimed(wv, cfgs, id));
        if !is_claimed {
            let ghost old_gs = gs;
            proof {
                lemma_groups_nonempty(unclaimed(wv, cfgs, wv.take(j as int)));
                lemma_group_index(gs, window_key(w));
            }
            let key: Vec<char> = match &windows[j].app_id {
                Some(a) => chars_of(a.as_str()),
                None => chars_of("application-x-executable"),
            };
            assert(key@ == window_key(w));
            // Find the group of this app.
            let mut gi: usize = 0;
            while gi < keys.len() && !eq_chars(keys[gi].as_slice(), key.as_slice())
                invariant
                    gi <= keys.len(),
                    keys@.len() == gs.len(),
                    forall|i: int| 0 <= i < gs.len() ==> (#[trigger] keys@[i])@ == gs[i].key,
                    forall|i: int| 0 <= i < gi ==> (#[trigger] gs[i]).key != key@,
                decreases keys.len() - gi,
            {
                gi = gi + 1;
            }
            if gi < keys.len() {
                proof {
                    lemma_group_index_unique(gs, key@, gi as int);
                }
                let ghost g = gs[gi as int];
                assert(g.windows.len() > 0);
                let ghost ng = WindowGroup { key: key@, windows: g.windows.push(w) };
                assert(ng.windows.drop_last() =~= g.windows);
                assert(ng.windows[0] == g.windows[0]);
                let old = &groups[gi];
                assert(group_views(groups@)[gi as int] == summarize(g));
                let newly = !old.focused && windows[j].is_focused;
                let upd = UnpinnedDockGroup {
                    app_id: old.app_id.clone(),
                    title: old.title.clone(),
                    focused: old.focused || windows[j].is_focused,
                    focus_id: if newly { Some(id) } else { old.focus_id },
                };
                assert(upd@ == summarize(ng));
                let ghost og = groups@;
                assert(group_views(og) == summaries(old_gs));
                groups.set(gi, upd);
                proof {
                    gs = old_gs.update(gi as int, ng);
                    assert forall|i: int| 0 <= i < gs.len() implies #[trigger] group_views(groups@)[i] == summaries(gs)[i] by {
                        if i != gi {
                            assert(group_views(og)[i] == summaries(old_gs)[i]);
                        }
                    }
                    assert(group_views(groups@) =~= summaries(gs));
                }
            } else {
                let ghost ng = WindowGroup { key: key@, windows: seq![w] };
                let title: String = match &windows[j].title {
                    Some(t) => t.clone(),
                    None => string_of(key.as_slice()),
                };
                let newg = UnpinnedDockGroup {
                    app_id: string_of(key.as_slice()),
                    title,
                    focused: windows[j].is_focused,
                    focus_id: Some(id),
                };
                assert(seq![w].drop_last() =~= Seq::<DockWindowView>::empty());
                assert(first_focused(Seq::<DockWindowView>::empty()) is None);
                assert(seq![w].last() == w);
                assert(first_focused(ng.windows) == (if w.is_focused { Some(w.id) } else { None::<u64> }));
                assert(newg.title@ == summarize(ng).title);
                assert(newg@ == summarize(ng));
                let ghost og = groups@;
                assert(group_views(og) == summaries(old_gs));
                groups.push(newg);
                keys.push(key);
                proof {
                    gs = old_gs.push(ng);
                    assert forall|i: int| 0 <= i < gs.len() implies #[trigger] group_views(groups@)[i] == summaries(gs)[i] by {
                        if i < old_gs.len() {
                            assert(group_views(og)[i] == summaries(old_gs)[i]);
                        }
                    }
                    assert(group_views(groups@) =~= summaries(gs));
                }
            }
            proof {
                let u = unclaimed(wv, cfgs, wv.take(j as int));
                assert(unclaimed(wv, cfgs, wv.take(j + 1)) == u.push(w));
                assert(u.push(w).drop_last() =~= u);
                assert(groups_of(u.push(w)) == add_to_groups(groups_of(u), w));
            }
        } else {
            assert(unclaimed(wv, cfgs, wv.take(j + 1)) == unclaimed(wv, cfgs, wv.take(j as int)));
        }
        j = j + 1;
    }
    assert(wv.take(windows.len() as int) =~= wv);
    DockPlan { pinned, unpinned: groups }
}


// ---------------------------------------------------------------------------
// Finding desktop entries, button styles and clicks
// ---------------------------------------------------------------------------

/// A desktop entry belongs to a pinned app when its lower-cased file name,
/// name or command contains one of the app's match ids.
pub open spec fn entry_matches_ids(e: DesktopEntryView, ids: Seq<Seq<char>>) -> bool {
    exists|k: int| 0 <= k < ids.len() && (contains(lowercase(e.desktop_id), #[trigger] ids[k])
        || contains(lowercase(e.name), ids[k]) || contains(lowercase(e.exec_cmd), ids[k]))
}

/// A desktop entry belongs to an app when its lower-cased file name, name or
/// command contains the lower-cased app id.
pub open spec fn entry_matches_app(e: DesktopEntryView, app_id: Seq<char>) -> bool {
    let a = lowercase(app_id);
    contains(lowercase(e.desktop_id), a) || contains(lowercase(e.name), a) || contains(lowercase(e.exec_cmd), a)
}

/// The first entry of the list that belongs to the pinned app.
pub fn find_entry_for_pinned(entries: &Vec<DesktopEntry>, match_ids: &Vec<String>) -> (r: Option<usize>)
    ensures
        match r {
            Some(i) => i < entries@.len() && entry_matches_ids(entries@[i as int]@, string_views(match_ids@))
                && forall|k: int| 0 <= k < i ==> !entry_matches_ids(#[trigger] entries@[k]@, string_views(match_ids@)),
            None => forall|k: int| 0 <= k < entries@.len() ==> !entry_matches_ids(#[trigger] entries@[k]@, string_views(match_ids@)),
        },
{
    let ghost ids = string_views(match_ids@);
    let mut i: usize = 0;
    while i < entries.len()
        invariant
            i <= entries.len(),
            ids == string_views(match_ids@),
            forall|k: int| 0 <= k < i ==> !entry_matches_ids(#[trigger] entries@[k]@, ids),
        decreases entries.len() - i,
    {
        let e = &entries[i];
        let id_l = to_lowercase(chars_of(e.desktop_id.as_str()).as_slice());
        let name_l = to_lowercase(chars_of(e.name.as_str()).as_slice());
        let exec_l = to_lowercase(chars_of(e.exec_cmd.as_str()).as_slice());
        let mut found = false;
        let mut k: usize = 0;
        while k < match_ids.len()
            invariant
                k <= match_ids.len(),
                ids == string_views(match_ids@),
                id_l@ == lowercase(e.desktop_id@),
                name_l@ == lowercase(e.name@),
                exec_l@ == lowercase(e.exec_cmd@),
                found == exists|x: int| 0 <= x < k && (contains(id_l@, #[trigger] ids[x]) || contains(name_l@, ids[x])
                    || contains(exec_l@, ids[x])),
            decreases match_ids.len() - k,
        {
            let m = chars_of(match_ids[k].as_str());
            assert(ids[k as int] == match_ids@[k as int]@);
            let hit = contains_chars(id_l.as_slice(), m.as_slice()) || contains_chars(name_l.as_slice(), m.as_slice())
                || contains_chars(exec_l.as_slice(), m.as_slice());
            found = found || hit;
            k = k + 1;
        }
        assert(found == entry_matches_ids(entries@[i as int]@, ids));
        if found {
            return Some(i);
        }
        i = i + 1;
    }
    None
}

/// The first entry of the list that belongs to the app.
pub fn find_entry_for_app(entries: &Vec<DesktopEntry>, app_id: &str) -> (r: Option<usize>)
    ensures
        match r {
            Some(i) => i < entries@.len() && entry_matches_app(entries@[i as int]@, app_id@)
                && forall|k: int| 0 <= k < i ==> !entry_matches_app(#[trigger] entries@[k]@, app_id@),
            None => forall|k: int| 0 <= k < entries@.len() ==> !entry_matches_app(#[trigger] entries@[k]@, app_id@),
        },
{
    let a = to_lowercase(chars_of(app_id).as_slice());
    let mut i: usize = 0;
    while i < entries.len()
        invariant
            i <= entries.len(),
            a@ == lowercase(app_id@),
            forall|k: int| 0 <= k < i ==> !entry_matches_app(#[trigger] entries@[k]@, app_id@),
        decreases entries.len() - i,
    {
        let e = &entries[i];
        let id_l = to_lowercase(chars_of(e.desktop_id.as_str()).as_slice());
        let name_l = to_lowercase(chars_of(e.name.as_str()).as_slice());
        let exec_l = to_lowercase(chars_of(e.exec_cmd.as_str()).as_slice());
        if contains_chars(id_l.as_slice(), a.as_slice()) || contains_chars(name_l.as_slice(), a.as_slice())
            || contains_chars(exec_l.as_slice(), a.as_slice()) {
            return Some(i);
        }
        i = i + 1;
    }
    None
}

/// The icon of an unpinned app's button: its desktop entry's icon, else its app id.
pub fn unpinned_icon(entries: &Vec<DesktopEntry>, app_id: &str) -> (r: String)
    ensures
        match find_first_app_entry(entry_views(entries@), app_id@) {
            Some(i) => r@ == entries@[i].icon@,
            None => r@ == app_id@,
        },
{
    match find_entry_for_app(entries, app_id) {
        Some(i) => {
            proof {
                lemma_first_app_entry(entry_views(entries@), app_id@, i as int);
            }
            entries[i].icon.clone()
        },
        None => {
            proof {
                lemma_no_app_entry(entry_views(entries@), app_id@);
            }
            string_of(chars_of(app_id).as_slice())
        },
    }
}

/// The index of the first entry that belongs to the app.
pub open spec fn find_first_app_entry(es: Seq<DesktopEntryView>, app_id: Seq<char>) -> Option<int>
    decreases es.len(),
{
    if es.len() == 0 {
        None
    } else {
        match find_first_app_entry(es.drop_last(), app_id) {
            Some(i) => Some(i),
            None => if entry_matches_app(es.last(), app_id) {
                Some(es.len() - 1)
            } else {
                None
            },
        }
    }
}

proof fn lemma_first_app_entry(es: Seq<DesktopEntryView>, app_id: Seq<char>, i: int)
    requires
        0 <= i < es.len(),
        entry_matches_app(es[i], app_id),
        forall|k: int| 0 <= k < i ==> !entry_matches_app(#[trigger] es[k], app_id),
    ensures
        find_first_app_entry(es, app_id) == Some(i),
    decreases es.len(),
{
    if i < es.len() - 1 {
        let d = es.drop_last();
        assert(forall|k: int| 0 <= k < d.len() ==> d[k] == es[k]);
        lemma_first_app_entry(d, app_id, i);
    } else {
        lemma_no_app_entry(es.drop_last(), app_id);
    }
}

proof fn lemma_no_app_entry(es: Seq<DesktopEntryView>, app_id: Seq<char>)
    requires
        forall|k: int| 0 <= k < es.len() ==> !entry_matches_app(#[trigger] es[k], app_id),
    ensures
        find_first_app_entry(es, app_id) is None,
    decreases es.len(),
{
    if es.len() > 0 {
        let d = es.drop_last();
        assert(forall|k: int| 0 <= k < d.len() ==> d[k] == es[k]);
        lemma_no_app_entry(d, app_id);
    }
}

/// The style class of a pinned app's button.
pub fn pinned_button_class(s: PinnedDockState) -> (r: Option<&'static str>)
    ensures
        match r {
            Some(c) => (s.focused && c@ == "focused"@) || (!s.focused && s.running && c@ == "running"@),
            None => !s.focused && !s.running,
        },
{
    if s.focused {
        Some("focused")
    } else if s.running {
        Some("running")
    } else {
        None
    }
}

/// The style class of a pinned app's indicator dot.
pub fn pinned_dot_class(s: PinnedDockState) -> (r: &'static str)
    ensures
        r@ == if s.focused { "dot-active"@ } else if s.running { "dot-running"@ } else { "dot-hidden"@ },
{
    if s.focused {
        "dot-active"
    } else if s.running {
        "dot-running"
    } else {
        "dot-hidden"
    }
}

/// The style class of an unpinned app's button.
pub fn unpinned_button_class(focused: bool) -> (r: &'static str)
    ensures
        r@ == if focused { "focused"@ } else { "running"@ },
{
    if focused {
        "focused"
    } else {
        "running"
    }
}

/// The window a click on a dock button focuses: its target, if a window
/// with that id is still open. A pinned app whose click focuses nothing is
/// launched instead.
pub fn click_focus(target: Option<u64>, open_ids: &Vec<u64>) -> (r: Option<u64>)
    ensures
        r == match target {
            Some(id) => if open_ids@.contains(id) { Some(id) } else { None },
            None => None,
        },
{
    match target {
        None => None,
        Some(id) => {
            let mut i: usize = 0;
            while i < open_ids.len()
                invariant
                    i <= open_ids.len(),
                    target == Some(id),
                    forall|k: int| 0 <= k < i ==> open_ids@[k] != id,
                decreases open_ids.len() - i,
            {
                if open_ids[i] == id {
                    assert(open_ids@.contains(id));
                    return Some(id);
                }
                i = i + 1;
            }
            None
        },
    }
}


// ---------------------------------------------------------------------------
// The pinned apps
// ---------------------------------------------------------------------------

/// A pinned app: its title and icon, its desktop file, the commands tried
/// when no desktop entry is found, and the ids its windows are matched by.
#[derive(Debug, Clone)]
pub struct PinnedAppConfig {
    pub display_title: String,
    pub fixed_icon: String,
    pub desktop_file: String,
    pub fallback_candidates: Vec<String>,
    pub match_ids: Vec<String>,
}

/// The content of a `PinnedAppConfig`.
pub struct PinnedConfigView {
    pub display_title: Seq<char>,
    pub fixed_icon: Seq<char>,
    pub desktop_file: Seq<char>,
    pub fallback_candidates: Seq<Seq<char>>,
    pub match_ids: Seq<Seq<char>>,
}

impl View for PinnedAppConfig {
    type V = PinnedConfigView;

    open spec fn view(&self) -> PinnedConfigView {
        PinnedConfigView {
            display_title: self.display_title@,
            fixed_icon: self.fixed_icon@,
            desktop_file: self.desktop_file@,
            fallback_candidates: string_views(self.fallback_candidates@),
            match_ids: string_views(self.match_ids@),
        }
    }
}

/// A pinned app's content.
pub open spec fn pinned_config(
    t: Seq<char>,
    i: Seq<char>,
    d: Seq<char>,
    f: Seq<Seq<char>>,
    m: Seq<Seq<char>>,
) -> PinnedConfigView {
    PinnedConfigView { display_title: t, fixed_icon: i, desktop_file: d, fallback_candidates: f, match_ids: m }
}

/// The apps pinned to the dock, in order.
pub open spec fn spec_pinned_configs() -> Seq<PinnedConfigView> {
    seq![
        pinned_config("Google Chrome"@, "com.google.Chrome"@, "com.google.Chrome.desktop"@, seq!["google-chrome-stable"@, "google-chrome"@, "flatpak run com.google.Chrome"@], seq!["com.google.chrome"@, "google-chrome"@, "chrome"@]),
        pinned_config("Firefox"@, "org.mozilla.firefox"@, "org.mozilla.firefox.desktop"@, seq!["firefox"@, "flatpak run org.mozilla.firefox"@], seq!["org.mozilla.firefox"@, "firefox"@, "mozilla-firefox"@]),
        pinned_config("Files"@, "org.gnome.Nautilus"@, "org.gnome.Nautilus.desktop"@, seq!["nautilus"@, "org.gnome.Nautilus"@], seq!["org.gnome.nautilus"@, "nautilus"@]),
        pinned_config("VS Code"@, "vscode"@, "code.desktop"@, seq!["code"@, "codium"@, "flatpak run com.visualstudio.code"@], seq!["code"@, "vscode"@, "com.visualstudio.code"@]),
        pinned_config("Telegram"@, "org.telegram.desktop"@, "org.telegram.desktop.desktop"@, seq!["telegram-desktop"@, "telegram"@, "flatpak run org.telegram.desktop"@], seq!["org.telegram.desktop"@, "telegramdesktop"@, "telegram"@]),
        pinned_config("Terminal"@, "Alacritty"@, "Alacritty.desktop"@, seq!["alacritty"@, "foot"@, "kitty"@, "ptyxis"@], seq!["alacritty"@, "foot"@, "kitty"@, "org.gnome.terminal"@, "org.gnome.ptyxis"@, "ptyxis"@, "console"@]),
    ]
}

/// The views of a list of pinned apps.
pub open spec fn config_views(v: Seq<PinnedAppConfig>) -> Seq<PinnedConfigView> {
    v.map_values(|c: PinnedAppConfig| c@)
}

fn lit_strings(xs: &[&str]) -> (r: Vec<String>)
    ensures
        r@.len() == xs@.len(),
        forall|k: int| 0 <= k < xs@.len() ==> (#[trigger] r@[k])@ == xs@[k]@,
{
    let mut r: Vec<String> = Vec::new();
    let mut i: usize = 0;
    while i < xs.len()
        invariant
            i <= xs.len(),
            r@.len() == i,
            forall|k: int| 0 <= k < i ==> (#[trigger] r@[k])@ == xs@[k]@,
        decreases xs.len() - i,
    {
        r.push(string_of(chars_of(xs[i]).as_slice()));
        i = i + 1;
    }
    r
}

fn make_config(t: &str, i: &str, d: &str, f: &[&str], m: &[&str]) -> (r: PinnedAppConfig)
    ensures
        r.display_title@ == t@,
        r.fixed_icon@ == i@,
        r.desktop_file@ == d@,
        r.fallback_candidates@.len() == f@.len(),
        forall|k: int| 0 <= k < f@.len() ==> (#[trigger] r.fallback_candidates@[k])@ == f@[k]@,
        r.match_ids@.len() == m@.len(),
        forall|k: int| 0 <= k < m@.len() ==> (#[trigger] r.match_ids@[k])@ == m@[k]@,
{
    PinnedAppConfig {
        display_title: string_of(chars_of(t).as_slice()),
        fixed_icon: string_of(chars_of(i).as_slice()),
        desktop_file: string_of(chars_of(d).as_slice()),
        fallback_candidates: lit_strings(f),
        match_ids: lit_strings(m),
    }
}

/// The built-in pinned-app table, in order.
fn default_pinned_configs() -> (r: Vec<PinnedAppConfig>)
    ensures
        config_views(r@) == spec_pinned_configs(),
{
    let mut r: Vec<PinnedAppConfig> = Vec::new();
    r.push(make_config("Google Chrome", "com.google.Chrome", "com.google.Chrome.desktop", &["google-chrome-stable", "google-chrome", "flatpak run com.google.Chrome"], &["com.google.chrome", "google-chrome", "chrome"]));
    r.push(make_config("Firefox", "org.mozilla.firefox", "org.mozilla.firefox.desktop", &["firefox", "flatpak run org.mozilla.firefox"], &["org.mozilla.firefox", "firefox", "mozilla-firefox"]));
    r.push(make_config("Files", "org.gnome.Nautilus", "org.gnome.Nautilus.desktop", &["nautilus", "org.gnome.Nautilus"], &["org.gnome.nautilus", "nautilus"]));
    r.push(make_config("VS Code", "vscode", "code.desktop", &["code", "codium", "flatpak run com.visualstudio.code"], &["code", "vscode", "com.visualstudio.code"]));
    r.push(make_config("Telegram", "org.telegram.desktop", "org.telegram.desktop.desktop", &["telegram-desktop", "telegram", "flatpak run org.telegram.desktop"], &["org.telegram.desktop", "telegramdesktop", "telegram"]));
    r.push(make_config("Terminal", "Alacritty", "Alacritty.desktop", &["alacritty", "foot", "kitty", "ptyxis"], &["alacritty", "foot", "kitty", "org.gnome.terminal", "org.gnome.ptyxis", "ptyxis", "console"]));
    proof {
        assert forall|k: int| 0 <= k < r@.len() implies (#[trigger] r@[k])@ == spec_pinned_configs()[k] by {
            assert(r@[k].fallback_candidates@.len() == spec_pinned_configs()[k].fallback_candidates.len());
            assert(string_views(r@[k].fallback_candidates@) =~= spec_pinned_configs()[k].fallback_candidates);
            assert(string_views(r@[k].match_ids@) =~= spec_pinned_configs()[k].match_ids);
        }
        assert(config_views(r@) =~= spec_pinned_configs());
    }
    r
}

/// The index of the first built-in app whose desktop file is `id`.
pub open spec fn first_known(cs: Seq<PinnedConfigView>, id: Seq<char>) -> Option<int>
    decreases cs.len(),
{
    if cs.len() == 0 {
        None
    } else if cs[0].desktop_file == id {
        Some(0)
    } else {
        match first_known(cs.drop_first(), id) {
            Some(k) => Some(k + 1),
            None => None,
        }
    }
}

/// A desktop id without its ".desktop" suffix.
pub open spec fn desktop_stem(id: Seq<char>) -> Seq<char> {
    if ends_with(id, ".desktop"@) { id.take(id.len() - ".desktop"@.len()) } else { id }
}

/// The dock button of a pinned app: a built-in app keeps its icon, launch
/// commands and window ids under the pinned name; any other app shows the
/// icon named by its desktop id, launches the command of that name, and
/// matches windows by the lower-cased id.
pub open spec fn spec_config_for(p: PinnedAppView) -> PinnedConfigView {
    match first_known(spec_pinned_configs(), p.desktop_id) {
        Some(k) => PinnedConfigView { display_title: p.name, ..spec_pinned_configs()[k] },
        None => pinned_config(
            p.name,
            desktop_stem(p.desktop_id),
            p.desktop_id,
            seq![desktop_stem(p.desktop_id)],
            seq![lowercase(desktop_stem(p.desktop_id))],
        ),
    }
}

/// The dock buttons for the pinned apps, one each, in order.
pub open spec fn spec_dock_configs(ps: Seq<PinnedAppView>) -> Seq<PinnedConfigView> {
    ps.map_values(|p: PinnedAppView| spec_config_for(p))
}

fn copy_strings(v: &Vec<String>) -> (r: Vec<String>)
    ensures
        string_views(r@) == string_views(v@),
{
    let mut r: Vec<String> = Vec::new();
    let mut i: usize = 0;
    while i < v.len()
        invariant
            i <= v.len(),
            string_views(r@) == string_views(v@).take(i as int),
        decreases v.len() - i,
    {
        let ghost old_r = r@;
        r.push(v[i].clone());
        assert(string_views(r@) =~= string_views(old_r).push(v@[i as int]@));
        assert(string_views(v@).take(i + 1) =~= string_views(v@).take(i as int).push(v@[i as int]@));
        i = i + 1;
    }
    assert(string_views(v@).take(v.len() as int) =~= string_views(v@));
    r
}

fn find_known(defaults: &Vec<PinnedAppConfig>, id: &Vec<char>) -> (r: Option<usize>)
    ensures
        match r {
            Some(i) => i < defaults@.len() && first_known(config_views(defaults@), id@) == Some(i as int),
            None => first_known(config_views(defaults@), id@) is None,
        },
{
    let ghost cs = config_views(defaults@);
    let mut i: usize = 0;
    assert(cs.skip(0) =~= cs);
    while i < defaults.len()
        invariant
            i <= defaults.len(),
            cs == config_views(defaults@),
            first_known(cs, id@) == match first_known(cs.skip(i as int), id@) {
                Some(k) => Some(k + i),
                None => None,
            },
        decreases defaults.len() - i,
    {
        let ghost rest = cs.skip(i as int);
        assert(rest[0] == defaults@[i as int]@);
        assert(rest.drop_first() =~= cs.skip(i + 1));
        let f = chars_of(defaults[i].desktop_file.as_str());
        if eq_chars(f.as_slice(), id.as_slice()) {
            return Some(i);
        }
        i = i + 1;
    }
    assert(cs.skip(i as int) =~= Seq::<PinnedConfigView>::empty());
    None
}

fn config_for(defaults: &Vec<PinnedAppConfig>, p: &PinnedApp) -> (r: PinnedAppConfig)
    requires
        config_views(defaults@) == spec_pinned_configs(),
    ensures
        r@ == spec_config_for(p@),
{
    let id = chars_of(p.desktop_id.as_str());
    match find_known(defaults, &id) {
        Some(k) => {
            let c = &defaults[k];
            assert(c@ == spec_pinned_configs()[k as int]);
            PinnedAppConfig {
                display_title: p.name.clone(),
                fixed_icon: c.fixed_icon.clone(),
                desktop_file: c.desktop_file.clone(),
                fallback_candidates: copy_strings(&c.fallback_candidates),
                match_ids: copy_strings(&c.match_ids),
            }
        },
        None => {
            let suffix = chars_of(".desktop");
            let stem = if ends_with_chars(id.as_slice(), suffix.as_slice()) {
                sub_chars(id.as_slice(), 0, id.len() - suffix.len())
            } else {
                id.clone()
            };
            assert(stem@ =~= desktop_stem(p.desktop_id@));
            let low = to_lowercase(stem.as_slice());
            let mut fallbacks: Vec<String> = Vec::new();
            fallbacks.push(string_of(stem.as_slice()));
            let mut ids: Vec<String> = Vec::new();
            ids.push(string_of(low.as_slice()));
            let r = PinnedAppConfig {
                display_title: p.name.clone(),
                fixed_icon: string_of(stem.as_slice()),
                desktop_file: p.desktop_id.clone(),
                fallback_candidates: fallbacks,
                match_ids: ids,
            };
            assert(string_views(r.fallback_candidates@) =~= seq![desktop_stem(p.desktop_id@)]);
            assert(string_views(r.match_ids@) =~= seq![lowercase(desktop_stem(p.desktop_id@))]);
            r
        },
    }
}

/// The dock buttons for the apps pinned in the settings: one per pinned app,
/// in the same order, each for the pinned desktop file.
pub fn load_pinned_configs(pinned_apps: &Vec<PinnedApp>) -> (r: Vec<PinnedAppConfig>)
    ensures
        config_views(r@) == spec_dock_configs(pinned_views(pinned_apps@)),
        r@.len() == pinned_apps@.len(),
        forall|k: int| 0 <= k < r@.len() ==> (#[trigger] r@[k]).desktop_file@ == pinned_apps@[k].desktop_id@,
{
    let defaults = default_pinned_configs();
    let ghost ps = pinned_views(pinned_apps@);
    let mut r: Vec<PinnedAppConfig> = Vec::new();
    let mut i: usize = 0;
    while i < pinned_apps.len()
        invariant
            i <= pinned_apps.len(),
            ps == pinned_views(pinned_apps@),
            config_views(defaults@) == spec_pinned_configs(),
            config_views(r@) == spec_dock_configs(ps).take(i as int),
        decreases pinned_apps.len() - i,
    {
        let ghost old_r = r@;
        let c = config_for(&defaults, &pinned_apps[i]);
        r.push(c);
        assert(config_views(r@) =~= config_views(old_r).push(c@));
        assert(ps[i as int] == pinned_apps@[i as int]@);
        assert(spec_dock_configs(ps).take(i + 1) =~= spec_dock_configs(ps).take(i as int).push(spec_config_for(ps[i as int])));
        i = i + 1;
    }
    assert(spec_dock_configs(ps).take(i as int) =~= spec_dock_configs(ps));
    proof {
        assert forall|k: int| 0 <= k < r@.len() implies (#[trigger] r@[k]).desktop_file@ == pinned_apps@[k].desktop_id@ by {
            assert(config_views(r@)[k] == r@[k]@);
            assert(ps[k] == pinned_apps@[k]@);
            lemma_config_file(ps[k]);
        }
    }
    r
}

proof fn lemma_first_known_file(cs: Seq<PinnedConfigView>, id: Seq<char>)
    ensures
        first_known(cs, id) matches Some(k) ==> 0 <= k < cs.len() && cs[k].desktop_file == id,
    decreases cs.len(),
{
    if cs.len() > 0 && cs[0].desktop_file != id {
        let d = cs.drop_first();
        lemma_first_known_file(d, id);
        if let Some(k) = first_known(d, id) {
            assert(d[k] == cs[k + 1]);
        }
    }
}

proof fn lemma_config_file(p: PinnedAppView)
    ensures
        spec_config_for(p).desktop_file == p.desktop_id,
{
    lemma_first_known_file(spec_pinned_configs(), p.desktop_id);
}


/// A line that hides an entry: `NoDisplay=` with the value "true" (trimmed,
/// in any case).
pub open spec fn hides_entry(raw: Seq<char>) -> bool {
    starts_with(trim(raw), "NoDisplay="@) && lowercase(trim(value_after(trim(raw), "NoDisplay="@))) == "true"@
}

proof fn lemma_nodisplay_step(st: DesktopScan, raw: Seq<char>)
    requires
        starts_with(trim(raw), "NoDisplay="@),
        !hides_entry(raw),
    ensures
        desktop_step(st, raw) == st,
{
    reveal_strlit("NoDisplay=");
    reveal_strlit("[Desktop Entry]");
    reveal_strlit("Name=");
    reveal_strlit("Icon=");
    reveal_strlit("Exec=");
    reveal_strlit("Categories=");
    let l = trim(raw);
    assert(l.subrange(0, 10) == "NoDisplay="@);
    assert(l[0] == l.subrange(0, 10)[0]);
    assert(l[1] == l.subrange(0, 10)[1]);
    assert(l != "[Desktop Entry]"@) by {
        if l == "[Desktop Entry]"@ {
            assert(l[0] == '[');
        }
    }
    assert(!is_group_header(l));
    assert(!starts_with(l, "Name="@)) by {
        if starts_with(l, "Name="@) {
            assert(l.subrange(0, 5)[1] == l[1]);
        }
    }
    assert(!starts_with(l, "Icon="@)) by {
        if starts_with(l, "Icon="@) {
            assert(l.subrange(0, 5)[0] == l[0]);
        }
    }
    assert(!starts_with(l, "Exec="@)) by {
        if starts_with(l, "Exec="@) {
            assert(l.subrange(0, 5)[0] == l[0]);
        }
    }
    assert(!starts_with(l, "Categories="@)) by {
        if starts_with(l, "Categories="@) {
            assert(l.subrange(0, 11)[0] == l[0]);
        }
    }
}

/// Only a `NoDisplay=true` line hides an entry: a `NoDisplay=` line with any
/// other value changes nothing, wherever it stands in the file.
pub proof fn lemma_other_nodisplay_values_ignored(ls: Seq<Seq<char>>, k: int, l: Seq<char>, st: DesktopScan)
    requires
        0 <= k <= ls.len(),
        starts_with(trim(l), "NoDisplay="@),
        !hides_entry(l),
    ensures
        desktop_go(ls.insert(k, l), st) == desktop_go(ls, st),
    decreases k,
{
    if k == 0 {
        lemma_nodisplay_step(st, l);
        assert(ls.insert(0, l).drop_first() =~= ls);
        assert(ls.insert(0, l)[0] == l);
    } else {
        let t = ls.insert(k, l);
        assert(t[0] == ls[0]);
        assert(t.drop_first() =~= ls.drop_first().insert(k - 1, l));
        lemma_other_nodisplay_values_ignored(ls.drop_first(), k - 1, l, desktop_step(st, ls[0]));
    }
}

/// An entry is hidden only by one of its lines saying `NoDisplay=true`: a
/// file without such a line gives its entry whenever it has a name, an icon
/// and a command.
pub proof fn lemma_hidden_only_by_nodisplay_true(ls: Seq<Seq<char>>, st: DesktopScan)
    ensures
        desktop_go(ls, st).no_display ==> st.no_display || exists|k: int| 0 <= k < ls.len() && hides_entry(#[trigger] ls[k]),
    decreases ls.len(),
{
    if ls.len() > 0 {
        let st1 = desktop_step(st, ls[0]);
        lemma_hidden_only_by_nodisplay_true(ls.drop_first(), st1);
        if desktop_go(ls, st).no_display && !st.no_display {
            if st1.no_display {
                assert(hides_entry(ls[0]));
            } else {
                let k = choose|k: int| 0 <= k < ls.drop_first().len() && hides_entry(#[trigger] ls.drop_first()[k]);
                assert(ls[k + 1] == ls.drop_first()[k]);
            }
        }
    }
}

/// Parsing a file: when no line says `NoDisplay=true`, the entry is given
/// exactly when the file names it, its icon and its command.
pub proof fn lemma_shown_unless_nodisplay_true(content: Seq<char>, id: Seq<char>)
    ensures
        (forall|k: int| 0 <= k < lines(content).len() ==> !hides_entry(#[trigger] lines(content)[k])) ==> (
        spec_parse_desktop(content, id) is Some <==> {
            let st = desktop_go(lines(content), desktop_start());
            st.name is Some && st.icon is Some && st.exec_cmd is Some
        }),
{
    lemma_hidden_only_by_nodisplay_true(lines(content), desktop_start());
}

// ---------------------------------------------------------------------------
// Laws
// ---------------------------------------------------------------------------

/// The dock follows the pinned apps of the settings: one button per pinned
/// app, in order, each for that app's desktop file; pinning an app that is
/// not pinned yet adds its button at the end, pinning it again changes
/// nothing, and after unpinning no button is left for it.
pub proof fn lemma_dock_follows_pinned(s: SettingsView, id: Seq<char>, name: Seq<char>)
    ensures
        spec_dock_configs(s.pinned_apps).len() == s.pinned_apps.len(),
        forall|k: int| 0 <= k < s.pinned_apps.len() ==> (#[trigger] spec_dock_configs(s.pinned_apps)[k]).desktop_file
            == s.pinned_apps[k].desktop_id,
        !is_pinned(s.pinned_apps, id) ==> spec_dock_configs(spec_pin(s, id, name).pinned_apps)
            == spec_dock_configs(s.pinned_apps).push(spec_config_for(pinned(id, name))),
        is_pinned(s.pinned_apps, id) ==> spec_dock_configs(spec_pin(s, id, name).pinned_apps)
            == spec_dock_configs(s.pinned_apps),
        forall|k: int| 0 <= k < spec_dock_configs(spec_unpin(s, id).pinned_apps).len() ==> (
        #[trigger] spec_dock_configs(spec_unpin(s, id).pinned_apps)[k]).desktop_file != id,
{
    let ps = s.pinned_apps;
    assert forall|k: int| 0 <= k < ps.len() implies (#[trigger] spec_dock_configs(ps)[k]).desktop_file
        == ps[k].desktop_id by {
        lemma_config_file(ps[k]);
    }
    if !is_pinned(ps, id) {
        assert(spec_dock_configs(ps.push(pinned(id, name))) =~= spec_dock_configs(ps).push(
            spec_config_for(pinned(id, name)),
        ));
    }
    crate::settings::lemma_unpin_removes(s, id);
    let us = spec_unpin(s, id).pinned_apps;
    assert forall|k: int| 0 <= k < spec_dock_configs(us).len() implies (#[trigger] spec_dock_configs(
        us,
    )[k]).desktop_file != id by {
        lemma_config_file(us[k]);
        if us[k].desktop_id == id {
            assert(is_pinned(us, id));
        }
    }
}

/// No two groups share an app, and each group holds only windows of its app.
pub open spec fn well_grouped(gs: Seq<WindowGroup>) -> bool {
    &&& forall|i: int, j: int| 0 <= i < j < gs.len() ==> (#[trigger] gs[i]).key != (#[trigger] gs[j]).key
    &&& forall|i: int, k: int| 0 <= i < gs.len() && 0 <= k < gs[i].windows.len() ==> window_key(
        #[trigger] gs[i].windows[k],
    ) == gs[i].key
}

/// The dock shows one button per app that is not pinned: grouping gives
/// each app one group, holding only that app's windows, and keeps every
/// window.
pub proof fn lemma_groups_well_formed(ws: Seq<DockWindowView>)
    ensures
        well_grouped(groups_of(ws)),
        total_windows(groups_of(ws)) == ws.len(),
    decreases ws.len(),
{
    if ws.len() > 0 {
        let d = ws.drop_last();
        let w = ws.last();
        lemma_groups_well_formed(d);
        let gs = groups_of(d);
        let k = window_key(w);
        lemma_group_index(gs, k);
        match group_index(gs, k) {
            Some(i) => {
                let ng = gs.update(i, WindowGroup { key: k, windows: gs[i].windows.push(w) });
                assert forall|a: int, b: int| 0 <= a < ng.len() && 0 <= b < ng[a].windows.len() implies window_key(
                    #[trigger] ng[a].windows[b],
                ) == ng[a].key by {
                    if a != i {
                        assert(ng[a] == gs[a]);
                    } else if b < gs[i].windows.len() {
                        assert(ng[a].windows[b] == gs[i].windows[b]);
                    }
                }
                lemma_total_update(gs, i, WindowGroup { key: k, windows: gs[i].windows.push(w) });
            },
            None => {
                let ng = gs.push(WindowGroup { key: k, windows: seq![w] });
                assert forall|a: int, b: int| 0 <= a < ng.len() && 0 <= b < ng[a].windows.len() implies window_key(
                    #[trigger] ng[a].windows[b],
                ) == ng[a].key by {
                    if a < gs.len() {
                        assert(ng[a] == gs[a]);
                    }
                }
                assert(ng.drop_last() =~= gs);
            },
        }
    }
}

/// The number of windows in the groups.
pub open spec fn total_windows(gs: Seq<WindowGroup>) -> nat
    decreases gs.len(),
{
    if gs.len() == 0 {
        0
    } else {
        total_windows(gs.drop_last()) + gs.last().windows.len()
    }
}

proof fn lemma_total_update(gs: Seq<WindowGroup>, i: int, g: WindowGroup)
    requires
        0 <= i < gs.len(),
    ensures
        total_windows(gs.update(i, g)) == total_windows(gs) - gs[i].windows.len() + g.windows.len(),
    decreases gs.len(),
{
    let u = gs.update(i, g);
    if i < gs.len() - 1 {
        assert(u.drop_last() =~= gs.drop_last().update(i, g));
        lemma_total_update(gs.drop_last(), i, g);
    } else {
        assert(u.drop_last() =~= gs.drop_last());
    }
}

} // verus!
