//! The app launcher: which applications a category and a search show, and
//! in what order.
use vstd::prelude::*;
use crate::dock::{entry_views, DesktopEntry, DesktopEntryView};
use crate::text::{
    append_chars, chars_of, contains, contains_chars, eq_chars, eq_ignore_ascii_case,
    eq_ignore_ascii_case_chars, lowercase, string_of, string_views, to_lowercase, ascii_lower,
};

verus! {

/// The launcher's category pills, in order.
pub open spec fn spec_categories() -> Seq<Seq<char>> {
    seq![
        "All Applications"@, "Development"@, "Education"@, "Games"@, "Graphics"@, "Internet"@,
        "Office"@, "Settings"@, "System"@, "Utilities"@,
    ]
}

/// An entry that only opens a settings panel, hidden from the launcher
/// (the settings apps themselves stay).
pub open spec fn is_setting_panel(e: DesktopEntryView) -> bool {
    &&& exists|k: int| 0 <= k < e.categories.len() && (#[trigger] e.categories[k] == "Settings"@
        || e.categories[k] == "X-GNOME-Settings-Panel"@)
    &&& e.desktop_id != "gnome-control-center.desktop"@
    &&& e.desktop_id != "niri-settings.desktop"@
    &&& !contains(lowercase(e.name), "system settings"@)
}

/// A category of an entry matches the selected pill: the same name in any
/// case, or a category the pill gathers.
pub open spec fn category_matches(c: Seq<char>, sel: Seq<char>) -> bool {
    ||| eq_ignore_ascii_case(c, sel)
    ||| (sel == "Development"@ && (c == "Utility"@ || c == "Development"@))
    ||| (sel == "Internet"@ && (c == "Network"@ || c == "WebBrowser"@))
    ||| (sel == "Utilities"@ && c == "Utility"@)
}

/// An entry is shown for the pill and the lower-cased search text.
pub open spec fn is_shown(e: DesktopEntryView, sel: Seq<char>, query: Seq<char>) -> bool {
    &&& !is_setting_panel(e)
    &&& (sel == "All Applications"@ || exists|k: int| 0 <= k < e.categories.len() && category_matches(
        #[trigger] e.categories[k],
        sel,
    ))
    &&& (query.len() == 0 || contains(lowercase(e.name) + " "@ + lowercase(e.exec_cmd), query))
}

/// `a` sorts before `b`: lexicographic order of characters, as strings compare.
pub open spec fn text_lt(a: Seq<char>, b: Seq<char>) -> bool
    decreases a.len(),
{
    if a.len() == 0 {
        b.len() > 0
    } else if b.len() == 0 {
        false
    } else if a[0] != b[0] {
        a[0] < b[0]
    } else {
        text_lt(a.drop_first(), b.drop_first())
    }
}

/// The sort key of an entry: its lower-cased name.
pub open spec fn name_key(es: Seq<DesktopEntryView>, i: int) -> Seq<char> {
    lowercase(es[i].name)
}

/// `i` inserted after the last index whose key does not sort after its own.
pub open spec fn insert_by_name(es: Seq<DesktopEntryView>, s: Seq<int>, i: int) -> Seq<int>
    decreases s.len(),
{
    if s.len() == 0 {
        seq![i]
    } else if !text_lt(name_key(es, i), name_key(es, s.last())) {
        s.push(i)
    } else {
        insert_by_name(es, s.drop_last(), i).push(s.last())
    }
}

/// The indices of the shown entries among the first `n`, sorted by name
/// (a stable sort).
pub open spec fn shown_sorted(es: Seq<DesktopEntryView>, sel: Seq<char>, query: Seq<char>, n: int) -> Seq<int>
    decreases n,
{
    if n <= 0 {
        seq![]
    } else {
        let r = shown_sorted(es, sel, query, n - 1);
        if is_shown(es[n - 1], sel, query) {
            insert_by_name(es, r, n - 1)
        } else {
            r
        }
    }
}

/// The launcher's choices.
pub struct LauncherPopup;

fn text_less(a: &[char], b: &[char]) -> (r: bool)
    ensures
        r == text_lt(a@, b@),
{
    let mut i: usize = 0;
    assert(a@.skip(0) =~= a@);
    assert(b@.skip(0) =~= b@);
    while i < a.len() && i < b.len() && a[i] == b[i]
        invariant
            i <= a.len(),
            i <= b.len(),
            text_lt(a@, b@) == text_lt(a@.skip(i as int), b@.skip(i as int)),
        decreases a.len() - i,
    {
        assert(a@.skip(i as int).drop_first() =~= a@.skip(i + 1));
        assert(b@.skip(i as int).drop_first() =~= b@.skip(i + 1));
        i = i + 1;
    }
    if i == a.len() {
        i < b.len()
    } else if i == b.len() {
        false
    } else {
        a[i] < b[i]
    }
}

fn lit_eq(a: &String, s: &str) -> (r: bool)
    ensures
        r == (a@ == s@),
{
    eq_chars(chars_of(a.as_str()).as_slice(), chars_of(s).as_slice())
}

proof fn lemma_insert_at(es: Seq<DesktopEntryView>, s: Seq<int>, i: int, k: int)
    requires
        0 <= k <= s.len(),
        forall|j: int| k <= j < s.len() ==> text_lt(name_key(es, i), name_key(es, #[trigger] s[j])),
        k == 0 || !text_lt(name_key(es, i), name_key(es, s[k - 1])),
    ensures
        insert_by_name(es, s, i) == s.insert(k, i),
    decreases s.len(),
{
    if s.len() == 0 {
        assert(s.insert(k, i) =~= seq![i]);
    } else if !text_lt(name_key(es, i), name_key(es, s.last())) {
        assert(k == s.len());
        assert(s.insert(k, i) =~= s.push(i));
    } else {
        let d = s.drop_last();
        assert(forall|j: int| 0 <= j < d.len() ==> d[j] == s[j]);
        lemma_insert_at(es, d, i, k);
        assert(d.insert(k, i).push(s.last()) =~= s.insert(k, i));
    }
}

impl LauncherPopup {
    /// The category pills, in order.
    pub fn categories() -> (r: Vec<String>)
        ensures
            string_views(r@) == spec_categories(),
    {
        let mut r: Vec<String> = Vec::new();
        r.push(string_of(chars_of("All Applications").as_slice()));
        r.push(string_of(chars_of("Development").as_slice()));
        r.push(string_of(chars_of("Education").as_slice()));
        r.push(string_of(chars_of("Games").as_slice()));
        r.push(string_of(chars_of("Graphics").as_slice()));
        r.push(string_of(chars_of("Internet").as_slice()));
        r.push(string_of(chars_of("Office").as_slice()));
        r.push(string_of(chars_of("Settings").as_slice()));
        r.push(string_of(chars_of("System").as_slice()));
        r.push(string_of(chars_of("Utilities").as_slice()));
        assert(string_views(r@) =~= spec_categories());
        r
    }

    /// Whether an entry is shown for the selected pill and the lower-cased
    /// search text.
    pub fn is_shown_entry(e: &DesktopEntry, selected: &str, query: &Vec<char>) -> (r: bool)
        ensures
            r == is_shown(e@, selected@, query@),
    {
        // Settings panels.
        let mut settings_cat = false;
        let mut k: usize = 0;
        while k < e.categories.len()
            invariant
                k <= e.categories.len(),
                settings_cat == exists|x: int| 0 <= x < k && (#[trigger] e@.categories[x] == "Settings"@
                    || e@.categories[x] == "X-GNOME-Settings-Panel"@),
            decreases e.categories.len() - k,
        {
            assert(e@.categories[k as int] == e.categories@[k as int]@);
            let c = &e.categories[k];
            settings_cat = settings_cat || lit_eq(c, "Settings") || lit_eq(c, "X-GNOME-Settings-Panel");
            k = k + 1;
        }
        let name_l = to_lowercase(chars_of(e.name.as_str()).as_slice());
        let panel = settings_cat && !lit_eq(&e.desktop_id, "gnome-control-center.desktop")
            && !lit_eq(&e.desktop_id, "niri-settings.desktop")
            && !contains_chars(name_l.as_slice(), chars_of("system settings").as_slice());
        if panel {
            return false;
        }
        // The category pill.
        let sel = chars_of(selected);
        if !eq_chars(sel.as_slice(), chars_of("All Applications").as_slice()) {
            let dev = eq_chars(sel.as_slice(), chars_of("Development").as_slice());
            let net = eq_chars(sel.as_slice(), chars_of("Internet").as_slice());
            let util = eq_chars(sel.as_slice(), chars_of("Utilities").as_slice());
            let mut hit = false;
            let mut k: usize = 0;
            while k < e.categories.len()
                invariant
                    k <= e.categories.len(),
                    sel@ == selected@,
                    dev == (selected@ == "Development"@),
                    net == (selected@ == "Internet"@),
                    util == (selected@ == "Utilities"@),
                    hit == exists|x: int| 0 <= x < k && category_matches(#[trigger] e@.categories[x], selected@),
                decreases e.categories.len() - k,
            {
                assert(e@.categories[k as int] == e.categories@[k as int]@);
                let c = &e.categories[k];
                let cc = chars_of(c.as_str());
                let m = eq_ignore_ascii_case_chars(cc.as_slice(), sel.as_slice())
                    || (dev && (lit_eq(c, "Utility") || lit_eq(c, "Development")))
                    || (net && (lit_eq(c, "Network") || lit_eq(c, "WebBrowser")))
                    || (util && lit_eq(c, "Utility"));
                hit = hit || m;
                k = k + 1;
            }
            if !hit {
                return false;
            }
        }
        // The search text.
        if query.len() > 0 {
            let mut key = name_l;
            append_chars(&mut key, chars_of(" ").as_slice());
            append_chars(&mut key, to_lowercase(chars_of(e.exec_cmd.as_str()).as_slice()).as_slice());
            if !contains_chars(key.as_slice(), query.as_slice()) {
                return false;
            }
        }
        true
    }

    /// The entries the launcher shows, as indices into `entries`: those of
    /// the selected pill that match the search text (lower-cased), in order of
    /// their lower-cased names, equal names in the order given.
    pub fn refresh_grid(entries: &Vec<DesktopEntry>, selected: &str, search_text: &str) -> (r: Vec<usize>)
        ensures
            (forall|i: int| 0 <= i < search_text@.len() ==> (#[trigger] search_text@[i] as u32) < 128) ==> lowercase(
                search_text@,
            ) == search_text@.map_values(|c: char| ascii_lower(c)),
            r@.len() == shown_sorted(entry_views(entries@), selected@, lowercase(search_text@), entries@.len() as int).len(),
            forall|k: int| 0 <= k < r@.len() ==> (#[trigger] r@[k]) as int == shown_sorted(
                entry_views(entries@),
                selected@,
                lowercase(search_text@),
                entries@.len() as int,
            )[k],
    {
        let ghost es = entry_views(entries@);
        let query = to_lowercase(chars_of(search_text).as_slice());
        assert((forall|i: int| 0 <= i < search_text@.len() ==> (#[trigger] search_text@[i] as u32) < 128) ==> lowercase(
            search_text@,
        ) == search_text@.map_values(|c: char| ascii_lower(c)));
        let mut keys: Vec<Vec<char>> = Vec::new();
        let mut out: Vec<usize> = Vec::new();
        let mut i: usize = 0;
        while i < entries.len()
            invariant
                i <= entries.len(),
                es == entry_views(entries@),
                query@ == lowercase(search_text@),
                out@.len() == keys@.len(),
                out@.len() == shown_sorted(es, selected@, query@, i as int).len(),
                forall|k: int| 0 <= k < out@.len() ==> {
                    &&& (#[trigger] out@[k]) as int == shown_sorted(es, selected@, query@, i as int)[k]
                    &&& out@[k] < entries@.len()
                    &&& keys@[k]@ == name_key(es, out@[k] as int)
                },
            decreases entries.len() - i,
        {
            let ghost s = shown_sorted(es, selected@, query@, i as int);
            assert(es[i as int] == entries@[i as int]@);
            if Self::is_shown_entry(&entries[i], selected, &query) {
                let key = to_lowercase(chars_of(entries[i].name.as_str()).as_slice());
                let mut p: usize = out.len();
                while p > 0 && text_less(key.as_slice(), keys[p - 1].as_slice())
                    invariant
                        p <= out@.len(),
                        out@.len() == keys@.len(),
                        out@.len() == s.len(),
                        key@ == name_key(es, i as int),
                        forall|k: int| 0 <= k < out@.len() ==> {
                            &&& (#[trigger] out@[k]) as int == s[k]
                            &&& keys@[k]@ == name_key(es, out@[k] as int)
                        },
                        forall|j: int| p <= j < s.len() ==> text_lt(name_key(es, i as int), name_key(es, #[trigger] s[j])),
                    decreases p,
                {
                    assert(out@[p - 1] as int == s[p - 1]);
                    p = p - 1;
                }
                proof {
                    if p > 0 {
                        assert(out@[p - 1] as int == s[p - 1]);
                        assert(keys@[p - 1]@ == name_key(es, s[p - 1]));
                    }
                    lemma_insert_at(es, s, i as int, p as int);
                }
                let ghost old_out = out@;
                let ghost old_keys = keys@;
                out.insert(p, i);
                keys.insert(p, key);
                proof {
                    let ns = s.insert(p as int, i as int);
                    assert(shown_sorted(es, selected@, query@, i + 1) == ns);
                    assert forall|k: int| 0 <= k < out@.len() implies {
                        &&& (#[trigger] out@[k]) as int == ns[k]
                        &&& out@[k] < entries@.len()
                        &&& keys@[k]@ == name_key(es, out@[k] as int)
                    } by {
                        if k < p {
                            assert(out@[k] == old_out[k]);
                            assert(keys@[k] == old_keys[k]);
                        } else if k > p {
                            assert(out@[k] == old_out[k - 1]);
                            assert(keys@[k] == old_keys[k - 1]);
                        }
                    }
                }
            }
            i = i + 1;
        }
        out
    }

    /// Whether a category pill is highlighted for the selected category.
    pub fn pill_active(name: &str, selected: &str) -> (r: bool)
        ensures
            r == (name@ == selected@),
    {
        eq_chars(chars_of(name).as_slice(), chars_of(selected).as_slice())
    }
}


/// An entry is offered for pinning: not pinned yet, and matching the
/// lower-cased search text by name or file name.
pub open spec fn is_available(e: DesktopEntryView, pinned: Seq<Seq<char>>, query: Seq<char>) -> bool {
    &&& !pinned.contains(e.desktop_id)
    &&& (query.len() == 0 || contains(lowercase(e.name) + " "@ + lowercase(e.desktop_id), query))
}

/// The indices of the offered entries among the first `n`, sorted by name
/// (a stable sort).
pub open spec fn available_sorted(es: Seq<DesktopEntryView>, pinned: Seq<Seq<char>>, query: Seq<char>, n: int) -> Seq<int>
    decreases n,
{
    if n <= 0 {
        seq![]
    } else {
        let r = available_sorted(es, pinned, query, n - 1);
        if is_available(es[n - 1], pinned, query) {
            insert_by_name(es, r, n - 1)
        } else {
            r
        }
    }
}

/// The settings page that pins apps to the dock.
pub struct PinnedAppsPage;

impl PinnedAppsPage {
    /// Whether an entry is offered for pinning.
    pub fn is_available_entry(e: &DesktopEntry, pinned_ids: &Vec<String>, query: &Vec<char>) -> (r: bool)
        ensures
            r == is_available(e@, string_views(pinned_ids@), query@),
    {
        let id = chars_of(e.desktop_id.as_str());
        let mut k: usize = 0;
        while k < pinned_ids.len()
            invariant
                k <= pinned_ids.len(),
                id@ == e.desktop_id@,
                forall|x: int| 0 <= x < k ==> string_views(pinned_ids@)[x] != e.desktop_id@,
            decreases pinned_ids.len() - k,
        {
            assert(string_views(pinned_ids@)[k as int] == pinned_ids@[k as int]@);
            if eq_chars(chars_of(pinned_ids[k].as_str()).as_slice(), id.as_slice()) {
                assert(string_views(pinned_ids@).contains(e.desktop_id@));
                return false;
            }
            k = k + 1;
        }
        if query.len() > 0 {
            let mut key = to_lowercase(chars_of(e.name.as_str()).as_slice());
            append_chars(&mut key, chars_of(" ").as_slice());
            append_chars(&mut key, to_lowercase(id.as_slice()).as_slice());
            if !contains_chars(key.as_slice(), query.as_slice()) {
                return false;
            }
        }
        true
    }

    /// The apps offered for pinning, as indices into `entries`: not pinned,
    /// matching the lower-cased search text, in order of their lower-cased
    /// names, at most thirty.
    pub fn available_apps(entries: &Vec<DesktopEntry>, pinned_ids: &Vec<String>, query: &str) -> (r: Vec<usize>)
        ensures
            ({
                let s = available_sorted(entry_views(entries@), string_views(pinned_ids@), query@, entries@.len() as int);
                &&& r@.len() == if s.len() < 30 { s.len() } else { 30 }
                &&& forall|k: int| 0 <= k < r@.len() ==> (#[trigger] r@[k]) as int == s[k]
            }),
    {
        let ghost es = entry_views(entries@);
        let ghost pv = string_views(pinned_ids@);
        let q = chars_of(query);
        let mut keys: Vec<Vec<char>> = Vec::new();
        let mut out: Vec<usize> = Vec::new();
        let mut i: usize = 0;
        while i < entries.len()
            invariant
                i <= entries.len(),
                es == entry_views(entries@),
                pv == string_views(pinned_ids@),
                q@ == query@,
                out@.len() == keys@.len(),
                out@.len() == available_sorted(es, pv, q@, i as int).len(),
                forall|k: int| 0 <= k < out@.len() ==> {
                    &&& (#[trigger] out@[k]) as int == available_sorted(es, pv, q@, i as int)[k]
                    &&& out@[k] < entries@.len()
                    &&& keys@[k]@ == name_key(es, out@[k] as int)
                },
            decreases entries.len() - i,
        {
            let ghost s = available_sorted(es, pv, q@, i as int);
            assert(es[i as int] == entries@[i as int]@);
            if Self::is_available_entry(&entries[i], pinned_ids, &q) {
                let key = to_lowercase(chars_of(entries[i].name.as_str()).as_slice());
                let mut p: usize = out.len();
                while p > 0 && text_less(key.as_slice(), keys[p - 1].as_slice())
                    invariant
                        p <= out@.len(),
                        out@.len() == keys@.len(),
                        out@.len() == s.len(),
                        key@ == name_key(es, i as int),
                        forall|k: int| 0 <= k < out@.len() ==> {
                            &&& (#[trigger] out@[k]) as int == s[k]
                            &&& keys@[k]@ == name_key(es, out@[k] as int)
                        },
                        forall|j: int| p <= j < s.len() ==> text_lt(name_key(es, i as int), name_key(es, #[trigger] s[j])),
                    decreases p,
                {
                    assert(out@[p - 1] as int == s[p - 1]);
                    p = p - 1;
                }
                proof {
                    if p > 0 {
                        assert(out@[p - 1] as int == s[p - 1]);
                        assert(keys@[p - 1]@ == name_key(es, s[p - 1]));
                    }
                    lemma_insert_at(es, s, i as int, p as int);
                }
                let ghost old_out = out@;
                let ghost old_keys = keys@;
                out.insert(p, i);
                keys.insert(p, key);
                proof {
                    let ns = s.insert(p as int, i as int);
                    assert(available_sorted(es, pv, q@, i + 1) == ns);
                    assert forall|k: int| 0 <= k < out@.len() implies {
                        &&& (#[trigger] out@[k]) as int == ns[k]
                        &&& out@[k] < entries@.len()
                        &&& keys@[k]@ == name_key(es, out@[k] as int)
                    } by {
                        if k < p {
                            assert(out@[k] == old_out[k]);
                            assert(keys@[k] == old_keys[k]);
                        } else if k > p {
                            assert(out@[k] == old_out[k - 1]);
                            assert(keys@[k] == old_keys[k - 1]);
                        }
                    }
                }
            }
            i = i + 1;
        }
        let mut r: Vec<usize> = Vec::new();
        let mut k: usize = 0;
        while k < out.len() && k < 30
            invariant
                k <= out@.len(),
                k <= 30,
                r@ == out@.take(k as int),
            decreases out.len() - k,
        {
            r.push(out[k]);
            assert(r@ =~= out@.take(k + 1));
            k = k + 1;
        }
        r
    }

    /// The icon of a pinned app: that of the first entry with its file
    /// name, else none.
    pub fn pinned_icon(entries: &Vec<DesktopEntry>, desktop_id: &str) -> (r: String)
        ensures
            match first_with_id(entry_views(entries@), desktop_id@) {
                Some(i) => r@ == entries@[i].icon@,
                None => r@.len() == 0,
            },
    {
        let id = chars_of(desktop_id);
        let ghost es = entry_views(entries@);
        let mut i: usize = 0;
        while i < entries.len()
            invariant
                i <= entries.len(),
                es == entry_views(entries@),
                id@ == desktop_id@,
                forall|k: int| 0 <= k < i ==> (#[trigger] es[k]).desktop_id != desktop_id@,
            decreases entries.len() - i,
        {
            assert(es[i as int] == entries@[i as int]@);
            if eq_chars(chars_of(entries[i].desktop_id.as_str()).as_slice(), id.as_slice()) {
                proof {
                    lemma_first_with_id(es, desktop_id@, i as int);
                }
                return entries[i].icon.clone();
            }
            i = i + 1;
        }
        proof {
            lemma_first_with_id(es, desktop_id@, es.len() as int);
        }
        String::new()
    }
}

/// The index of the first entry with the file name.
pub open spec fn first_with_id(es: Seq<DesktopEntryView>, id: Seq<char>) -> Option<int>
    decreases es.len(),
{
    if es.len() == 0 {
        None
    } else {
        match first_with_id(es.drop_last(), id) {
            Some(i) => Some(i),
            None => if es.last().desktop_id == id {
                Some(es.len() - 1)
            } else {
                None
            },
        }
    }
}

proof fn lemma_first_with_id(es: Seq<DesktopEntryView>, id: Seq<char>, i: int)
    requires
        0 <= i <= es.len(),
        forall|k: int| 0 <= k < i ==> (#[trigger] es[k]).desktop_id != id,
        i < es.len() ==> es[i].desktop_id == id,
    ensures
        first_with_id(es, id) == if i < es.len() { Some(i) } else { None::<int> },
    decreases es.len(),
{
    if es.len() > 0 {
        let d = es.drop_last();
        assert(forall|k: int| 0 <= k < d.len() ==> d[k] == es[k]);
        if i < es.len() - 1 {
            lemma_first_with_id(d, id, i);
        } else {
            lemma_first_with_id(d, id, d.len() as int);
        }
    }
}


// ---------------------------------------------------------------------------
// Laws
// ---------------------------------------------------------------------------

proof fn lemma_lt_irreflexive(a: Seq<char>)
    ensures
        !text_lt(a, a),
    decreases a.len(),
{
    if a.len() > 0 {
        lemma_lt_irreflexive(a.drop_first());
    }
}

proof fn lemma_lt_transitive(a: Seq<char>, b: Seq<char>, c: Seq<char>)
    requires
        text_lt(a, b),
        text_lt(b, c),
    ensures
        text_lt(a, c),
    decreases a.len(),
{
    if a.len() > 0 && b.len() > 0 && c.len() > 0 && a[0] == b[0] && b[0] == c[0] {
        lemma_lt_transitive(a.drop_first(), b.drop_first(), c.drop_first());
    }
}

proof fn lemma_lt_total(a: Seq<char>, b: Seq<char>)
    requires
        a != b,
    ensures
        text_lt(a, b) || text_lt(b, a),
    decreases a.len(),
{
    if a.len() > 0 && b.len() > 0 && a[0] == b[0] {
        if a.drop_first() == b.drop_first() {
            assert(a =~= seq![a[0]] + a.drop_first());
            assert(b =~= seq![b[0]] + b.drop_first());
        }
        lemma_lt_total(a.drop_first(), b.drop_first());
    } else if a.len() > 0 && b.len() > 0 {
    } else if a.len() == 0 && b.len() == 0 {
        assert(a =~= b);
    }
}

/// Sorting before is the same as not sorting after, for different texts;
/// not sorting after is transitive.
proof fn lemma_le_transitive(a: Seq<char>, b: Seq<char>, c: Seq<char>)
    requires
        !text_lt(b, a),
        !text_lt(c, b),
    ensures
        !text_lt(c, a),
{
    if text_lt(c, a) {
        if a == b {
        } else {
            lemma_lt_total(a, b);
            lemma_lt_transitive(c, a, b);
        }
    }
}

/// The indices are in name order.
pub open spec fn name_sorted(es: Seq<DesktopEntryView>, s: Seq<int>) -> bool {
    forall|a: int, b: int| 0 <= a < b < s.len() ==> !text_lt(name_key(es, #[trigger] s[b]), name_key(es, #[trigger] s[a]))
}

proof fn lemma_insert_elements(es: Seq<DesktopEntryView>, s: Seq<int>, i: int)
    ensures
        insert_by_name(es, s, i).len() == s.len() + 1,
        forall|k: int| 0 <= k < insert_by_name(es, s, i).len() ==> (#[trigger] insert_by_name(es, s, i)[k]) == i
            || s.contains(insert_by_name(es, s, i)[k]),
    decreases s.len(),
{
    if s.len() > 0 && text_lt(name_key(es, i), name_key(es, s.last())) {
        let d = s.drop_last();
        lemma_insert_elements(es, d, i);
        let r = insert_by_name(es, d, i);
        assert forall|k: int| 0 <= k < r.push(s.last()).len() implies (#[trigger] r.push(s.last())[k]) == i
            || s.contains(r.push(s.last())[k]) by {
            if k < r.len() {
                if r[k] != i {
                    let j = choose|j: int| 0 <= j < d.len() && d[j] == r[k];
                    assert(s[j] == d[j]);
                }
            } else {
                assert(s[s.len() - 1] == s.last());
            }
        }
    } else if s.len() > 0 {
        assert forall|k: int| 0 <= k < s.push(i).len() implies (#[trigger] s.push(i)[k]) == i || s.contains(s.push(i)[k]) by {
            if k < s.len() {
                assert(s[k] == s.push(i)[k]);
            }
        }
    }
}

proof fn lemma_insert_sorted(es: Seq<DesktopEntryView>, s: Seq<int>, i: int)
    requires
        name_sorted(es, s),
    ensures
        name_sorted(es, insert_by_name(es, s, i)),
    decreases s.len(),
{
    if s.len() == 0 {
    } else if !text_lt(name_key(es, i), name_key(es, s.last())) {
        let r = s.push(i);
        assert forall|a: int, b: int| 0 <= a < b < r.len() implies !text_lt(name_key(es, #[trigger] r[b]), name_key(es, #[trigger] r[a])) by {
            if b == s.len() {
                if a < s.len() - 1 {
                    lemma_le_transitive(name_key(es, s[a]), name_key(es, s.last()), name_key(es, i));
                }
            } else {
                assert(r[a] == s[a] && r[b] == s[b]);
            }
        }
    } else {
        let d = s.drop_last();
        let last = s.last();
        assert(name_sorted(es, d)) by {
            assert forall|a: int, b: int| 0 <= a < b < d.len() implies !text_lt(name_key(es, #[trigger] d[b]), name_key(es, #[trigger] d[a])) by {
                assert(d[a] == s[a] && d[b] == s[b]);
            }
        }
        lemma_insert_sorted(es, d, i);
        lemma_insert_elements(es, d, i);
        let r1 = insert_by_name(es, d, i);
        let r = r1.push(last);
        assert forall|a: int, b: int| 0 <= a < b < r.len() implies !text_lt(name_key(es, #[trigger] r[b]), name_key(es, #[trigger] r[a])) by {
            if b == r1.len() {
                assert(r[b] == last);
                assert(r[a] == r1[a]);
                if r1[a] == i {
                    if text_lt(name_key(es, last), name_key(es, i)) {
                        lemma_lt_transitive(name_key(es, i), name_key(es, last), name_key(es, i));
                        lemma_lt_irreflexive(name_key(es, i));
                    }
                } else {
                    let j = choose|j: int| 0 <= j < d.len() && d[j] == r1[a];
                    assert(s[j] == d[j]);
                    assert(s[s.len() - 1] == last);
                }
            } else {
                assert(r[a] == r1[a] && r[b] == r1[b]);
            }
        }
    }
}

proof fn lemma_insert_contains(es: Seq<DesktopEntryView>, s: Seq<int>, i: int, x: int)
    ensures
        insert_by_name(es, s, i).contains(x) <==> (s.contains(x) || x == i),
    decreases s.len(),
{
    if s.len() == 0 {
        assert(seq![i][0] == i);
    } else if !text_lt(name_key(es, i), name_key(es, s.last())) {
        if s.contains(x) {
            let k = choose|k: int| 0 <= k < s.len() && s[k] == x;
            assert(s.push(i)[k] == x);
        }
        if x == i {
            assert(s.push(i)[s.len() as int] == x);
        }
        if s.push(i).contains(x) {
            let k = choose|k: int| 0 <= k < s.push(i).len() && s.push(i)[k] == x;
            if k < s.len() {
                assert(s[k] == x);
            }
        }
    } else {
        let d = s.drop_last();
        lemma_insert_contains(es, d, i, x);
        let r1 = insert_by_name(es, d, i);
        let r = r1.push(s.last());
        if s.contains(x) {
            let k = choose|k: int| 0 <= k < s.len() && s[k] == x;
            if k < d.len() {
                assert(d[k] == x);
                let j = choose|j: int| 0 <= j < r1.len() && r1[j] == x;
                assert(r[j] == x);
            } else {
                assert(r[r1.len() as int] == x);
            }
        }
        if x == i {
            let j = choose|j: int| 0 <= j < r1.len() && r1[j] == x;
            assert(r[j] == x);
        }
        if r.contains(x) {
            let k = choose|k: int| 0 <= k < r.len() && r[k] == x;
            if k < r1.len() {
                assert(r1[k] == x);
                if d.contains(x) {
                    let j = choose|j: int| 0 <= j < d.len() && d[j] == x;
                    assert(s[j] == x);
                }
            } else {
                assert(s[s.len() - 1] == x);
            }
        }
    }
}

/// The grid lists exactly the shown entries: an entry is in it when and
/// only when the selected pill and the search show it.
pub proof fn lemma_grid_lists_shown(es: Seq<DesktopEntryView>, sel: Seq<char>, query: Seq<char>, n: int, i: int)
    requires
        0 <= n <= es.len(),
    ensures
        shown_sorted(es, sel, query, n).contains(i) <==> (0 <= i < n && is_shown(es[i], sel, query)),
    decreases n,
{
    if n > 0 {
        lemma_grid_lists_shown(es, sel, query, n - 1, i);
        if is_shown(es[n - 1], sel, query) {
            lemma_insert_contains(es, shown_sorted(es, sel, query, n - 1), n - 1, i);
        }
    }
}

/// What the category pills gather, with an empty search: every app that is
/// not a settings panel is under "All Applications" and under the pill named
/// like any of its categories (in any case); "Internet" gathers Network and
/// WebBrowser apps, "Development" Development and Utility apps, "Utilities"
/// Utility apps. A settings panel is shown under no pill, and a search shows
/// only apps whose lower-cased name or command holds it.
pub proof fn lemma_pills_gather(e: DesktopEntryView, k: int, sel: Seq<char>, query: Seq<char>)
    requires
        0 <= k < e.categories.len(),
    ensures
        !is_setting_panel(e) ==> is_shown(e, "All Applications"@, seq![]),
        !is_setting_panel(e) && eq_ignore_ascii_case(e.categories[k], sel) ==> is_shown(e, sel, seq![]),
        !is_setting_panel(e) && (e.categories[k] == "Network"@ || e.categories[k] == "WebBrowser"@) ==> is_shown(
            e,
            "Internet"@,
            seq![],
        ),
        !is_setting_panel(e) && (e.categories[k] == "Development"@ || e.categories[k] == "Utility"@) ==> is_shown(
            e,
            "Development"@,
            seq![],
        ),
        !is_setting_panel(e) && e.categories[k] == "Utility"@ ==> is_shown(e, "Utilities"@, seq![]),
        is_setting_panel(e) ==> !is_shown(e, sel, query),
        is_shown(e, sel, query) && query.len() > 0 ==> contains(lowercase(e.name) + " "@ + lowercase(e.exec_cmd), query),
{
    assert(category_matches(e.categories[k], "Internet"@) <== (e.categories[k] == "Network"@ || e.categories[k] == "WebBrowser"@));
    assert(category_matches(e.categories[k], "Development"@) <== (e.categories[k] == "Development"@ || e.categories[k] == "Utility"@));
    assert(category_matches(e.categories[k], "Utilities"@) <== e.categories[k] == "Utility"@);
    assert(category_matches(e.categories[k], sel) <== eq_ignore_ascii_case(e.categories[k], sel));
}

/// The launcher lists its apps in order of their lower-cased names.
pub proof fn lemma_launcher_sorted(es: Seq<DesktopEntryView>, sel: Seq<char>, query: Seq<char>, n: int)
    ensures
        name_sorted(es, shown_sorted(es, sel, query, n)),
    decreases n,
{
    if n > 0 {
        lemma_launcher_sorted(es, sel, query, n - 1);
        if is_shown(es[n - 1], sel, query) {
            lemma_insert_sorted(es, shown_sorted(es, sel, query, n - 1), n - 1);
        }
    }
}

/// The apps offered for pinning are in order of their lower-cased names.
pub proof fn lemma_available_sorted(es: Seq<DesktopEntryView>, pinned: Seq<Seq<char>>, query: Seq<char>, n: int)
    ensures
        name_sorted(es, available_sorted(es, pinned, query, n)),
    decreases n,
{
    if n > 0 {
        lemma_available_sorted(es, pinned, query, n - 1);
        if is_available(es[n - 1], pinned, query) {
            lemma_insert_sorted(es, available_sorted(es, pinned, query, n - 1), n - 1);
        }
    }
}

} // verus!
