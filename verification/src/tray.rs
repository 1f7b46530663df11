//! The system tray: where a status notifier item lives on the bus, which of
//! its icons is shown, and how its menu entries read.
use vstd::prelude::*;
use crate::text::{append_chars, chars_of, eq_chars, string_of, string_views, sub_chars};

verus! {

/// The bus name and object path of an item registered as `service` by
/// `sender`: a path alone belongs to the sender, "name/path" is split at its
/// first slash, and a bare name uses the standard item path.
pub open spec fn spec_split_service(sender: Seq<char>, service: Seq<char>) -> (Seq<char>, Seq<char>) {
    if service.len() > 0 && service[0] == '/' {
        (sender, service)
    } else {
        match first_slash(service) {
            Some(i) => (service.take(i), service.skip(i)),
            None => (service, "/StatusNotifierItem"@),
        }
    }
}

/// The index of the first `/`.
pub open spec fn first_slash(s: Seq<char>) -> Option<int>
    decreases s.len(),
{
    if s.len() == 0 {
        None
    } else if s[0] == '/' {
        Some(0)
    } else {
        match first_slash(s.drop_first()) {
            Some(i) => Some(i + 1),
            None => None,
        }
    }
}

/// The private-use character that stands for an escaped underscore.
pub open spec fn placeholder() -> char {
    '\u{FFFF}'
}

/// Every "__" (left to right) replaced by the placeholder.
pub open spec fn mark_double(s: Seq<char>) -> Seq<char>
    decreases s.len(),
{
    if s.len() >= 2 && s[0] == '_' && s[1] == '_' {
        seq![placeholder()] + mark_double(s.skip(2))
    } else if s.len() > 0 {
        seq![s[0]] + mark_double(s.drop_first())
    } else {
        s
    }
}

/// The characters other than `_`.
pub open spec fn drop_underscores(s: Seq<char>) -> Seq<char>
    decreases s.len(),
{
    if s.len() == 0 {
        s
    } else if s.last() == '_' {
        drop_underscores(s.drop_last())
    } else {
        drop_underscores(s.drop_last()).push(s.last())
    }
}

/// The placeholder turned back into `_`.
pub open spec fn unmark(s: Seq<char>) -> Seq<char> {
    s.map_values(|c: char| if c == placeholder() { '_' } else { c })
}

/// A menu label without its mnemonic underscores; "__" stands for a
/// literal underscore.
pub open spec fn spec_clean_label(s: Seq<char>) -> Seq<char> {
    unmark(drop_underscores(mark_double(s)))
}

/// One icon offered by an item: its size and the length of its data.
#[derive(Debug, Clone, Copy)]
pub struct PixmapCandidate {
    pub width: i32,
    pub height: i32,
    pub data_len: usize,
}

/// An icon that can be shown: a positive size and enough ARGB data.
pub open spec fn usable(p: PixmapCandidate) -> bool {
    p.width > 0 && p.height > 0 && p.data_len >= p.width * p.height * 4
}

/// The icon picked among the first `n`: the first usable one of the
/// largest area.
pub open spec fn best_of(ps: Seq<PixmapCandidate>, n: int) -> Option<int>
    decreases n,
{
    if n <= 0 {
        None
    } else {
        let b = best_of(ps, n - 1);
        let p = ps[n - 1];
        if !usable(p) {
            b
        } else {
            match b {
                None => Some(n - 1),
                Some(i) => if p.width * p.height > ps[i].width * ps[i].height {
                    Some(n - 1)
                } else {
                    b
                },
            }
        }
    }
}

/// The properties of a menu node that the tray reads.
pub struct MenuProps {
    pub visible: Option<bool>,
    pub kind: Option<String>,
    pub label: Option<String>,
    pub enabled: Option<bool>,
}

/// A menu entry of a tray item.
pub struct TrayMenuEntry {
    pub menu_id: i32,
    pub label: String,
    pub enabled: bool,
    pub is_separator: bool,
    pub children: Vec<TrayMenuEntry>,
}

/// A status notifier item as the bar keeps it: the identifier it is filed
/// under (bus name and object path), where it lives, its title, its status
/// ("Active", "Passive" or "NeedsAttention"), its icon name and its menu.
/// The icon data is kept beside it, under the identifier.
#[derive(Debug, Clone)]
pub struct TrayItem {
    pub identifier: String,
    pub bus_name: String,
    pub object_path: String,
    pub title: String,
    pub status: String,
    pub icon_name: Option<String>,
    pub menu_path: Option<String>,
}

/// The content of a `TrayItem`.
pub struct TrayItemView {
    pub identifier: Seq<char>,
    pub bus_name: Seq<char>,
    pub object_path: Seq<char>,
    pub title: Seq<char>,
    pub status: Seq<char>,
    pub icon_name: Option<Seq<char>>,
    pub menu_path: Option<Seq<char>>,
}

/// The view of an optional text.
pub open spec fn opt_text(o: Option<String>) -> Option<Seq<char>> {
    match o {
        Some(t) => Some(t@),
        None => None,
    }
}

impl View for TrayItem {
    type V = TrayItemView;

    open spec fn view(&self) -> TrayItemView {
        TrayItemView {
            identifier: self.identifier@,
            bus_name: self.bus_name@,
            object_path: self.object_path@,
            title: self.title@,
            status: self.status@,
            icon_name: opt_text(self.icon_name),
            menu_path: opt_text(self.menu_path),
        }
    }
}

/// The views of a list of items.
pub open spec fn item_views(v: Seq<TrayItem>) -> Seq<TrayItemView> {
    v.map_values(|t: TrayItem| t@)
}

/// `a` comes no later than `b` in text order (character by character by
/// code point, a prefix first): the order of `str`'s `cmp`, since UTF-8
/// bytes compare as the code points they encode.
pub open spec fn text_le(a: Seq<char>, b: Seq<char>) -> bool
    decreases a.len(),
{
    if a.len() == 0 {
        true
    } else if b.len() == 0 {
        false
    } else if a[0] != b[0] {
        a[0] < b[0]
    } else {
        text_le(a.drop_first(), b.drop_first())
    }
}

/// `t` put after the last item whose identifier is not greater.
pub open spec fn insert_by_ident(s: Seq<TrayItemView>, t: TrayItemView) -> Seq<TrayItemView>
    decreases s.len(),
{
    if s.len() == 0 {
        seq![t]
    } else if text_le(s.last().identifier, t.identifier) {
        s.push(t)
    } else {
        insert_by_ident(s.drop_last(), t).push(s.last())
    }
}

/// The items sorted by identifier (stable).
pub open spec fn sort_by_ident(s: Seq<TrayItemView>) -> Seq<TrayItemView>
    decreases s.len(),
{
    if s.len() == 0 {
        seq![]
    } else {
        insert_by_ident(sort_by_ident(s.drop_last()), s.last())
    }
}

/// An item the bar shows a button for: any but the passive ones.
pub open spec fn is_shown(t: TrayItemView) -> bool {
    t.status != "Passive"@
}

/// No two items share an identifier (they are filed by it).
pub open spec fn distinct_idents(s: Seq<TrayItemView>) -> bool {
    forall|i: int, j: int| 0 <= i < s.len() && 0 <= j < s.len() && i != j ==> (#[trigger] s[i]).identifier != (#[trigger] s[j]).identifier
}

/// The items ordered by identifier.
pub open spec fn ident_sorted(s: Seq<TrayItemView>) -> bool {
    forall|i: int, j: int| 0 <= i <= j < s.len() ==> text_le(#[trigger] s[i].identifier, #[trigger] s[j].identifier)
}

proof fn lemma_text_le_refl(a: Seq<char>)
    ensures
        text_le(a, a),
    decreases a.len(),
{
    if a.len() > 0 {
        lemma_text_le_refl(a.drop_first());
    }
}

proof fn lemma_text_le_total(a: Seq<char>, b: Seq<char>)
    ensures
        text_le(a, b) || text_le(b, a),
    decreases a.len(),
{
    if a.len() > 0 && b.len() > 0 && a[0] == b[0] {
        lemma_text_le_total(a.drop_first(), b.drop_first());
    }
}

proof fn lemma_text_le_trans(a: Seq<char>, b: Seq<char>, c: Seq<char>)
    requires
        text_le(a, b),
        text_le(b, c),
    ensures
        text_le(a, c),
    decreases a.len(),
{
    if a.len() > 0 && b.len() > 0 && c.len() > 0 && a[0] == b[0] && b[0] == c[0] {
        lemma_text_le_trans(a.drop_first(), b.drop_first(), c.drop_first());
    }
}

proof fn lemma_insert_sorted(s: Seq<TrayItemView>, w: TrayItemView)
    requires
        ident_sorted(s),
    ensures
        ident_sorted(insert_by_ident(s, w)),
        insert_by_ident(s, w).to_multiset() == s.to_multiset().insert(w),
    decreases s.len(),
{
    broadcast use vstd::seq_lib::group_to_multiset_ensures;
    lemma_text_le_refl(w.identifier);
    if s.len() == 0 {
        assert(seq![w] =~= Seq::<TrayItemView>::empty().push(w));
    } else if text_le(s.last().identifier, w.identifier) {
        let r = s.push(w);
        assert forall|i: int, j: int| 0 <= i <= j < r.len() implies text_le(#[trigger] r[i].identifier, #[trigger] r[j].identifier) by {
            if j == s.len() {
                if i < s.len() {
                    assert(text_le(s[i].identifier, s[s.len() - 1].identifier));
                    lemma_text_le_trans(s[i].identifier, s.last().identifier, w.identifier);
                }
            } else {
                assert(r[i] == s[i] && r[j] == s[j]);
            }
        }
    } else {
        let d = s.drop_last();
        let last = s.last();
        lemma_text_le_total(last.identifier, w.identifier);
        assert forall|i: int, j: int| 0 <= i <= j < d.len() implies text_le(#[trigger] d[i].identifier, #[trigger] d[j].identifier) by {
            assert(d[i] == s[i] && d[j] == s[j]);
        }
        lemma_insert_sorted(d, w);
        let r1 = insert_by_ident(d, w);
        assert forall|i: int| 0 <= i < r1.len() implies text_le((#[trigger] r1[i]).identifier, last.identifier) by {
            assert(r1.contains(r1[i]));
            assert(r1.to_multiset().count(r1[i]) > 0);
            if r1[i] != w {
                assert(d.to_multiset().count(r1[i]) > 0);
                assert(d.contains(r1[i]));
                let j = choose|j: int| 0 <= j < d.len() && d[j] == r1[i];
                assert(s[j] == d[j]);
                assert(text_le(s[j].identifier, s[s.len() - 1].identifier));
            }
        }
        let r = r1.push(last);
        lemma_text_le_refl(last.identifier);
        assert forall|i: int, j: int| 0 <= i <= j < r.len() implies text_le(#[trigger] r[i].identifier, #[trigger] r[j].identifier) by {
            if j == r1.len() {
                if i < r1.len() {
                    assert(r[i] == r1[i]);
                }
            } else {
                assert(r[i] == r1[i] && r[j] == r1[j]);
            }
        }
        assert(s =~= d.push(last));
        assert(r1.push(last).to_multiset() =~= s.to_multiset().insert(w));
    }
}

/// The tray lists every item once and in identifier order: sorting keeps
/// the items and orders them by identifier.
pub proof fn lemma_items_sorted(s: Seq<TrayItemView>)
    ensures
        ident_sorted(sort_by_ident(s)),
        sort_by_ident(s).to_multiset() == s.to_multiset(),
    decreases s.len(),
{
    broadcast use vstd::seq_lib::group_to_multiset_ensures;
    if s.len() == 0 {
        assert(sort_by_ident(s) =~= s);
    } else {
        let d = s.drop_last();
        lemma_items_sorted(d);
        lemma_insert_sorted(sort_by_ident(d), s.last());
        assert(s =~= d.push(s.last()));
    }
}

/// The identifier an item registered as `service` by `sender` is filed under.
pub open spec fn registered_id(sender: Seq<char>, service: Seq<char>) -> Seq<char> {
    spec_split_service(sender, service).0 + spec_split_service(sender, service).1
}

/// The index of the item filed under `id`, in a list without repeats.
pub open spec fn ident_index(items: Seq<TrayItemView>, id: Seq<char>) -> Option<int> {
    if exists|k: int| 0 <= k < items.len() && (#[trigger] items[k]).identifier == id {
        Some(choose|k: int| 0 <= k < items.len() && (#[trigger] items[k]).identifier == id)
    } else {
        None
    }
}

/// The items after an item's properties were read: it replaces the item
/// filed under its identifier, or joins the list.
pub open spec fn spec_upsert(items: Seq<TrayItemView>, t: TrayItemView) -> Seq<TrayItemView> {
    match ident_index(items, t.identifier) {
        Some(k) => items.update(k, t),
        None => items.push(t),
    }
}

/// No text occurs twice.
pub open spec fn distinct_texts(s: Seq<Seq<char>>) -> bool {
    forall|i: int, j: int| 0 <= i < s.len() && 0 <= j < s.len() && i != j ==> s[i] != s[j]
}

/// The watcher's record of the status notifier items: the identifiers
/// registered on the bus, and the items whose properties were read.
pub struct TrayRegistry {
    registered: Vec<String>,
    items: Vec<TrayItem>,
}

/// The content of a `TrayRegistry`.
pub struct TrayRegistryView {
    pub registered: Seq<Seq<char>>,
    pub items: Seq<TrayItemView>,
}

impl View for TrayRegistry {
    type V = TrayRegistryView;

    closed spec fn view(&self) -> TrayRegistryView {
        TrayRegistryView { registered: string_views(self.registered@), items: item_views(self.items@) }
    }
}

impl TrayRegistry {
    /// Each identifier is registered once and each item is filed once.
    pub open spec fn wf(&self) -> bool {
        &&& distinct_texts(self@.registered)
        &&& distinct_idents(self@.items)
    }

    /// An empty record.
    pub fn new() -> (r: TrayRegistry)
        ensures
            r.wf(),
            r@.registered.len() == 0,
            r@.items.len() == 0,
    {
        let r = TrayRegistry { registered: Vec::new(), items: Vec::new() };
        assert(r@.registered =~= Seq::<Seq<char>>::empty());
        assert(r@.items =~= Seq::<TrayItemView>::empty());
        r
    }

    /// Registers the item announced as `service` by `sender`: its identifier
    /// when it is new (its properties are then to be read), none when it is
    /// already registered.
    pub fn register(&mut self, sender: &str, service: &str) -> (r: Option<String>)
        requires
            old(self).wf(),
        ensures
            final(self).wf(),
            final(self)@.items == old(self)@.items,
            r is None <==> old(self)@.registered.contains(registered_id(sender@, service@)),
            r matches Some(id) ==> id@ == registered_id(sender@, service@),
            final(self)@.registered == if old(self)@.registered.contains(registered_id(sender@, service@)) {
                old(self)@.registered
            } else {
                old(self)@.registered.push(registered_id(sender@, service@))
            },
    {
        let (bus, path) = TrayService::split_service(sender, service);
        let id = TrayService::identifier(bus.as_str(), path.as_str());
        let idc = chars_of(id.as_str());
        let ghost regs = self@.registered;
        let mut i: usize = 0;
        while i < self.registered.len()
            invariant
                i <= self.registered.len(),
                regs == string_views(self.registered@),
                self@ == old(self)@,
                old(self).wf(),
                idc@ == id@,
                id@ == registered_id(sender@, service@),
                forall|k: int| 0 <= k < i ==> regs[k] != id@,
            decreases self.registered.len() - i,
        {
            let c = chars_of(self.registered[i].as_str());
            if eq_chars(c.as_slice(), idc.as_slice()) {
                assert(regs[i as int] == self.registered@[i as int]@);
                assert(regs.contains(id@));
                return None;
            }
            assert(regs[i as int] == self.registered@[i as int]@);
            i = i + 1;
        }
        assert(!regs.contains(id@));
        let r = Some(id.clone());
        self.registered.push(id);
        assert(self@.registered =~= regs.push(registered_id(sender@, service@)));
        r
    }

    /// Files an item whose properties were read, in place of the item filed
    /// under the same identifier, if any.
    pub fn update_item(&mut self, item: TrayItem)
        requires
            old(self).wf(),
        ensures
            final(self).wf(),
            final(self)@.registered == old(self)@.registered,
            final(self)@.items == spec_upsert(old(self)@.items, item@),
    {
        let ghost s0 = self@.items;
        let idc = chars_of(item.identifier.as_str());
        let mut i: usize = 0;
        while i < self.items.len()
            invariant
                i <= self.items.len(),
                s0 == item_views(self.items@),
                self@ == old(self)@,
                old(self).wf(),
                idc@ == item.identifier@,
                forall|k: int| 0 <= k < i ==> s0[k].identifier != item.identifier@,
            decreases self.items.len() - i,
        {
            assert(s0[i as int] == self.items@[i as int]@);
            let c = chars_of(self.items[i].identifier.as_str());
            if eq_chars(c.as_slice(), idc.as_slice()) {
                proof {
                    let k = ident_index(s0, item.identifier@)->0;
                    assert(ident_index(s0, item.identifier@) is Some);
                    assert(s0[k].identifier == item.identifier@);
                    assert(k == i);
                }
                let ghost iv = item@;
                self.items.set(i, item);
                assert(self@.items =~= s0.update(i as int, iv));
                assert(distinct_idents(self@.items)) by {
                    let s1 = self@.items;
                    assert forall|x: int, y: int| 0 <= x < s1.len() && 0 <= y < s1.len() && x != y implies (#[trigger] s1[x]).identifier != (#[trigger] s1[y]).identifier by {
                        assert(s1[x].identifier == s0[x].identifier);
                        assert(s1[y].identifier == s0[y].identifier);
                    }
                }
                return;
            }
            i = i + 1;
        }
        assert(ident_index(s0, item.identifier@) is None);
        let ghost iv = item@;
        self.items.push(item);
        assert(self@.items =~= s0.push(iv));
        assert(distinct_idents(self@.items)) by {
            let s1 = self@.items;
            assert forall|x: int, y: int| 0 <= x < s1.len() && 0 <= y < s1.len() && x != y implies (#[trigger] s1[x]).identifier != (#[trigger] s1[y]).identifier by {
                if x < s0.len() && y < s0.len() {
                    assert(s1[x] == s0[x] && s1[y] == s0[y]);
                } else if x < s0.len() {
                    assert(s1[x] == s0[x]);
                } else {
                    assert(s1[y] == s0[y]);
                }
            }
        }
    }

    /// Forgets an item whose owner left the bus: it is no longer registered
    /// nor listed.
    pub fn remove_item(&mut self, identifier: &str)
        requires
            old(self).wf(),
        ensures
            final(self).wf(),
            final(self)@.registered == old(self)@.registered.filter(|x: Seq<char>| x != identifier@),
            final(self)@.items == old(self)@.items.filter(|t: TrayItemView| t.identifier != identifier@),
    {
        let idc = chars_of(identifier);
        let ghost regs = self@.registered;
        let ghost rpred = |x: Seq<char>| x != identifier@;
        let mut kept: Vec<String> = Vec::new();
        let mut i: usize = 0;
        assert(regs.take(0) =~= Seq::<Seq<char>>::empty());
        assert(string_views(kept@) =~= regs.take(0).filter(rpred));
        while i < self.registered.len()
            invariant
                i <= self.registered.len(),
                regs == string_views(self.registered@),
                distinct_texts(regs),
                idc@ == identifier@,
                rpred == (|x: Seq<char>| x != identifier@),
                string_views(kept@) == regs.take(i as int).filter(rpred),
                forall|x: int| 0 <= x < kept@.len() ==> exists|k: int| 0 <= k < i && (#[trigger] string_views(kept@)[x]) == regs[k],
                distinct_texts(string_views(kept@)),
            decreases self.registered.len() - i,
        {
            proof {
                regs.take(i as int).lemma_filter_push(regs[i as int], rpred);
                assert(regs.take(i + 1) =~= regs.take(i as int).push(regs[i as int]));
            }
            assert(regs[i as int] == self.registered@[i as int]@);
            let c = chars_of(self.registered[i].as_str());
            if !eq_chars(c.as_slice(), idc.as_slice()) {
                let ghost k0 = string_views(kept@);
                kept.push(self.registered[i].clone());
                let ghost k1 = string_views(kept@);
                assert(k1 =~= k0.push(regs[i as int]));
                assert forall|x: int| 0 <= x < k1.len() implies exists|k: int| 0 <= k < i + 1 && (#[trigger] k1[x]) == regs[k] by {
                    if x < k0.len() {
                        assert(k1[x] == k0[x]);
                        let k = choose|k: int| 0 <= k < i && k0[x] == regs[k];
                    } else {
                        assert(k1[x] == regs[i as int]);
                    }
                }
                assert forall|x: int, y: int| 0 <= x < k1.len() && 0 <= y < k1.len() && x != y implies k1[x] != k1[y] by {
                    if x < k0.len() && y < k0.len() {
                        assert(k1[x] == k0[x] && k1[y] == k0[y]);
                    } else if x < k0.len() {
                        let k = choose|k: int| 0 <= k < i && k0[x] == regs[k];
                        assert(regs[k] != regs[i as int]);
                    } else if y < k0.len() {
                        let k = choose|k: int| 0 <= k < i && k0[y] == regs[k];
                        assert(regs[k] != regs[i as int]);
                    }
                }
            }
            i = i + 1;
        }
        assert(regs.take(i as int) =~= regs);
        let ghost its = self@.items;
        let kept_items = TrayService::items_without(&self.items, identifier);
        self.registered = kept;
        self.items = kept_items;
        proof {
            let f = its.filter(|t: TrayItemView| t.identifier != identifier@);
            assert forall|x: int, y: int| 0 <= x < f.len() && 0 <= y < f.len() && x != y implies (#[trigger] f[x]).identifier != (#[trigger] f[y]).identifier by {
                lemma_filter_distinct(its, identifier@, x, y);
            }
        }
    }

    /// The registered identifiers.
    pub fn registered(&self) -> (r: Vec<String>)
        ensures
            string_views(r@) == self@.registered,
    {
        let mut r: Vec<String> = Vec::new();
        let mut i: usize = 0;
        while i < self.registered.len()
            invariant
                i <= self.registered.len(),
                string_views(r@) == string_views(self.registered@).take(i as int),
            decreases self.registered.len() - i,
        {
            let ghost r0 = string_views(r@);
            r.push(self.registered[i].clone());
            assert(string_views(r@) =~= r0.push(self.registered@[i as int]@));
            assert(string_views(self.registered@).take(i + 1) =~= string_views(self.registered@).take(i as int).push(self.registered@[i as int]@));
            i = i + 1;
        }
        assert(string_views(self.registered@).take(i as int) =~= string_views(self.registered@));
        r
    }

    /// The items in identifier order, each once.
    pub fn get_items(&self) -> (r: Vec<TrayItem>)
        requires
            self.wf(),
        ensures
            item_views(r@) == sort_by_ident(self@.items),
            forall|i: int, j: int| 0 <= i < j < r@.len() ==> text_le(#[trigger] r@[i].identifier@, #[trigger] r@[j].identifier@)
                && r@[i].identifier@ != r@[j].identifier@,
    {
        TrayService::get_items(&self.items)
    }
}

proof fn lemma_filter_distinct(s: Seq<TrayItemView>, id: Seq<char>, x: int, y: int)
    requires
        distinct_idents(s),
        0 <= x < s.filter(|t: TrayItemView| t.identifier != id).len(),
        0 <= y < s.filter(|t: TrayItemView| t.identifier != id).len(),
        x != y,
    ensures
        s.filter(|t: TrayItemView| t.identifier != id)[x].identifier != s.filter(|t: TrayItemView| t.identifier != id)[y].identifier,
    decreases s.len(),
{
    let pred = |t: TrayItemView| t.identifier != id;
    let d = s.drop_last();
    d.lemma_filter_push(s.last(), pred);
    assert(s =~= d.push(s.last()));
    let fd = d.filter(pred);
    assert(distinct_idents(d)) by {
        assert forall|i: int, j: int| 0 <= i < d.len() && 0 <= j < d.len() && i != j implies (#[trigger] d[i]).identifier != (#[trigger] d[j]).identifier by {
            assert(d[i] == s[i] && d[j] == s[j]);
        }
    }
    if pred(s.last()) {
        let f = fd.push(s.last());
        if x < fd.len() && y < fd.len() {
            lemma_filter_distinct(d, id, x, y);
        } else {
            let z = if x < fd.len() { x } else { y };
            assert(fd.contains(fd[z]));
            d.lemma_filter_contains_rev(pred, fd[z]);
            let k = choose|k: int| 0 <= k < d.len() && d[k] == fd[z];
            assert(s[k] == d[k]);
            assert(s[k].identifier != s[s.len() - 1].identifier);
        }
    } else {
        lemma_filter_distinct(d, id, x, y);
    }
}

/// Status notifier items on the session bus.
pub struct TrayService;

fn lit(s: &str) -> (r: String)
    ensures
        r@ == s@,
{
    string_of(chars_of(s).as_slice())
}

fn text_le_chars(a: &[char], b: &[char]) -> (r: bool)
    ensures
        r == text_le(a@, b@),
{
    let mut i: usize = 0;
    assert(a@.skip(0) =~= a@);
    assert(b@.skip(0) =~= b@);
    while i < a.len() && i < b.len()
        invariant
            i <= a.len(),
            i <= b.len(),
            text_le(a@, b@) == text_le(a@.skip(i as int), b@.skip(i as int)),
        decreases a.len() - i,
    {
        assert(a@.skip(i as int)[0] == a@[i as int]);
        assert(b@.skip(i as int)[0] == b@[i as int]);
        if a[i] != b[i] {
            return a[i] < b[i];
        }
        assert(a@.skip(i as int).drop_first() =~= a@.skip(i + 1));
        assert(b@.skip(i as int).drop_first() =~= b@.skip(i + 1));
        i = i + 1;
    }
    if i == a.len() {
        assert(a@.skip(i as int).len() == 0);
        true
    } else {
        assert(b@.skip(i as int).len() == 0);
        false
    }
}

fn copy_opt(o: &Option<String>) -> (r: Option<String>)
    ensures
        opt_text(r) == opt_text(*o),
{
    match o {
        Some(t) => Some(t.clone()),
        None => None,
    }
}

fn copy_item(t: &TrayItem) -> (r: TrayItem)
    ensures
        r@ == t@,
{
    TrayItem {
        identifier: t.identifier.clone(),
        bus_name: t.bus_name.clone(),
        object_path: t.object_path.clone(),
        title: t.title.clone(),
        status: t.status.clone(),
        icon_name: copy_opt(&t.icon_name),
        menu_path: copy_opt(&t.menu_path),
    }
}

proof fn lemma_insert_at(s: Seq<TrayItemView>, w: TrayItemView, k: int)
    requires
        0 <= k <= s.len(),
        forall|j: int| k <= j < s.len() ==> !text_le((#[trigger] s[j]).identifier, w.identifier),
        k == 0 || text_le(s[k - 1].identifier, w.identifier),
    ensures
        insert_by_ident(s, w) == s.insert(k, w),
    decreases s.len(),
{
    if s.len() == 0 {
        assert(s.insert(k, w) =~= seq![w]);
    } else if text_le(s.last().identifier, w.identifier) {
        assert(k == s.len());
        assert(s.insert(k, w) =~= s.push(w));
    } else {
        let d = s.drop_last();
        assert(forall|j: int| 0 <= j < d.len() ==> d[j] == s[j]);
        lemma_insert_at(d, w, k);
        assert(d.insert(k, w).push(s.last()) =~= s.insert(k, w));
    }
}

fn insert_item(out: &mut Vec<TrayItem>, t: TrayItem) -> (k: usize)
    ensures
        item_views(final(out)@) == insert_by_ident(item_views(old(out)@), t@),
        k <= old(out)@.len(),
        item_views(final(out)@) == item_views(old(out)@).insert(k as int, t@),
{
    let id = chars_of(t.identifier.as_str());
    let mut k: usize = out.len();
    while k > 0
        invariant
            k <= out.len(),
            out@ == old(out)@,
            id@ == t.identifier@,
            forall|j: int| k <= j < out@.len() ==> !text_le((#[trigger] out@[j]).identifier@, t.identifier@),
        ensures
            k <= out.len(),
            forall|j: int| k <= j < out@.len() ==> !text_le((#[trigger] out@[j]).identifier@, t.identifier@),
            k == 0 || text_le(out@[k - 1].identifier@, t.identifier@),
        decreases k,
    {
        let c = chars_of(out[k - 1].identifier.as_str());
        if text_le_chars(c.as_slice(), id.as_slice()) {
            break;
        }
        k = k - 1;
    }
    let ghost s = item_views(out@);
    proof {
        assert forall|j: int| k <= j < s.len() implies !text_le((#[trigger] s[j]).identifier, t@.identifier) by {
            assert(s[j] == out@[j]@);
        }
        if k > 0 {
            assert(s[k - 1] == out@[k - 1]@);
        }
        lemma_insert_at(s, t@, k as int);
    }
    out.insert(k, t);
    assert(item_views(out@) =~= s.insert(k as int, t@));
    k
}

impl TrayService {
    /// The items in identifier order, as the tray lists them; the items are
    /// filed by identifier, so each comes once and the order is strict.
    pub fn get_items(items: &Vec<TrayItem>) -> (r: Vec<TrayItem>)
        requires
            distinct_idents(item_views(items@)),
        ensures
            item_views(r@) == sort_by_ident(item_views(items@)),
            r@.len() == items@.len(),
            forall|i: int, j: int| 0 <= i < j < r@.len() ==> text_le(#[trigger] r@[i].identifier@, #[trigger] r@[j].identifier@)
                && r@[i].identifier@ != r@[j].identifier@,
    {
        let ghost all = item_views(items@);
        let mut out: Vec<TrayItem> = Vec::new();
        let mut i: usize = 0;
        assert(item_views(out@) =~= sort_by_ident(all.take(0)));
        while i < items.len()
            invariant
                i <= items.len(),
                all == item_views(items@),
                distinct_idents(all),
                item_views(out@) == sort_by_ident(all.take(i as int)),
                out@.len() == i,
                distinct_idents(item_views(out@)),
                forall|x: int| 0 <= x < out@.len() ==> exists|k: int| 0 <= k < i && (#[trigger] item_views(out@)[x]).identifier == all[k].identifier,
            decreases items.len() - i,
        {
            let c = copy_item(&items[i]);
            assert(all.take(i + 1).drop_last() =~= all.take(i as int));
            assert(all.take(i + 1).last() == items@[i as int]@);
            let ghost s0 = item_views(out@);
            let k = insert_item(&mut out, c);
            let ghost s1 = item_views(out@);
            proof {
                assert(s1.len() == s0.len() + 1);
                assert(out@.len() == s1.len());
                assert(all[i as int] == items@[i as int]@);
                assert forall|x: int| 0 <= x < s0.len() implies (#[trigger] s0[x]).identifier != all[i as int].identifier by {
                    let kk = choose|kk: int| 0 <= kk < i && s0[x].identifier == all[kk].identifier;
                    assert(all[kk].identifier != all[i as int].identifier);
                }
                assert forall|x: int, y: int| 0 <= x < s1.len() && 0 <= y < s1.len() && x != y implies (#[trigger] s1[x]).identifier != (#[trigger] s1[y]).identifier by {
                    if x != k && y != k {
                        let ix = if x < k { x } else { x - 1 };
                        let iy = if y < k { y } else { y - 1 };
                        assert(s1[x] == s0[ix] && s1[y] == s0[iy]);
                    } else if x == k {
                        let iy = if y < k { y } else { y - 1 };
                        assert(s1[y] == s0[iy]);
                    } else {
                        let ix = if x < k { x } else { x - 1 };
                        assert(s1[x] == s0[ix]);
                    }
                }
                assert forall|x: int| 0 <= x < s1.len() implies exists|kk: int| 0 <= kk < i + 1 && (#[trigger] s1[x]).identifier == all[kk].identifier by {
                    if x == k {
                        assert(s1[x].identifier == all[i as int].identifier);
                    } else {
                        let ix = if x < k { x } else { x - 1 };
                        assert(s1[x] == s0[ix]);
                        let kk = choose|kk: int| 0 <= kk < i && s0[ix].identifier == all[kk].identifier;
                        assert(s1[x].identifier == all[kk].identifier);
                    }
                }
            }
            i = i + 1;
        }
        assert(all.take(i as int) =~= all);
        proof {
            lemma_items_sorted(all);
            let sv = item_views(out@);
            assert forall|x: int, y: int| 0 <= x < y < out@.len() implies text_le(#[trigger] out@[x].identifier@, #[trigger] out@[y].identifier@)
                && out@[x].identifier@ != out@[y].identifier@ by {
                assert(sv[x] == out@[x]@ && sv[y] == out@[y]@);
                assert(text_le(sv[x].identifier, sv[y].identifier));
                assert(sv[x].identifier != sv[y].identifier);
            }
        }
        out
    }

    /// The items other than the one filed under `identifier`, in order.
    pub fn items_without(items: &Vec<TrayItem>, identifier: &str) -> (r: Vec<TrayItem>)
        ensures
            item_views(r@) == item_views(items@).filter(|t: TrayItemView| t.identifier != identifier@),
    {
        let ghost all = item_views(items@);
        let ghost pred = |t: TrayItemView| t.identifier != identifier@;
        let idc = chars_of(identifier);
        let mut out: Vec<TrayItem> = Vec::new();
        let mut i: usize = 0;
        assert(all.take(0) =~= Seq::<TrayItemView>::empty());
        assert(item_views(out@) =~= all.take(0).filter(pred));
        while i < items.len()
            invariant
                i <= items.len(),
                all == item_views(items@),
                idc@ == identifier@,
                pred == (|t: TrayItemView| t.identifier != identifier@),
                item_views(out@) == all.take(i as int).filter(pred),
            decreases items.len() - i,
        {
            proof {
                all.take(i as int).lemma_filter_push(all[i as int], pred);
                assert(all.take(i + 1) =~= all.take(i as int).push(all[i as int]));
            }
            let c = chars_of(items[i].identifier.as_str());
            if !eq_chars(c.as_slice(), idc.as_slice()) {
                let ghost old_out = out@;
                out.push(copy_item(&items[i]));
                assert(item_views(out@) =~= item_views(old_out).push(all[i as int]));
            }
            i = i + 1;
        }
        assert(all.take(i as int) =~= all);
        out
    }

    /// The items that get a button, in their order: all but the passive ones.
    pub fn shown_items(items: &Vec<TrayItem>) -> (r: Vec<TrayItem>)
        ensures
            item_views(r@) == item_views(items@).filter(|t: TrayItemView| is_shown(t)),
    {
        let ghost all = item_views(items@);
        let ghost pred = |t: TrayItemView| is_shown(t);
        let passive = chars_of("Passive");
        let mut out: Vec<TrayItem> = Vec::new();
        let mut i: usize = 0;
        assert(all.take(0) =~= Seq::<TrayItemView>::empty());
        assert(item_views(out@) =~= all.take(0).filter(pred));
        while i < items.len()
            invariant
                i <= items.len(),
                all == item_views(items@),
                passive@ == "Passive"@,
                pred == (|t: TrayItemView| is_shown(t)),
                item_views(out@) == all.take(i as int).filter(pred),
            decreases items.len() - i,
        {
            proof {
                all.take(i as int).lemma_filter_push(all[i as int], pred);
                assert(all.take(i + 1) =~= all.take(i as int).push(all[i as int]));
            }
            let st = chars_of(items[i].status.as_str());
            if !eq_chars(st.as_slice(), passive.as_slice()) {
                let ghost old_out = out@;
                out.push(copy_item(&items[i]));
                assert(item_views(out@) =~= item_views(old_out).push(all[i as int]));
            }
            i = i + 1;
        }
        assert(all.take(i as int) =~= all);
        out
    }

    /// Whether the tray is shown: some item is not passive.
    pub fn tray_visible(items: &Vec<TrayItem>) -> (r: bool)
        ensures
            r == exists|i: int| 0 <= i < items@.len() && is_shown(#[trigger] items@[i]@),
    {
        let passive = chars_of("Passive");
        let mut i: usize = 0;
        while i < items.len()
            invariant
                i <= items.len(),
                passive@ == "Passive"@,
                forall|k: int| 0 <= k < i ==> !is_shown(#[trigger] items@[k]@),
            decreases items.len() - i,
        {
            let st = chars_of(items[i].status.as_str());
            if !eq_chars(st.as_slice(), passive.as_slice()) {
                assert(is_shown(items@[i as int]@));
                return true;
            }
            i = i + 1;
        }
        false
    }

    /// The bus name and object path of a registered item.
    pub fn split_service(sender: &str, service: &str) -> (r: (String, String))
        ensures
            (r.0@, r.1@) == spec_split_service(sender@, service@),
    {
        let s = chars_of(service);
        if s.len() > 0 && s[0] == '/' {
            return (lit(sender), lit(service));
        }
        let mut i: usize = 0;
        assert(s@.skip(0) =~= s@);
        while i < s.len() && s[i] != '/'
            invariant
                i <= s.len(),
                s@ == service@,
                first_slash(s@) == match first_slash(s@.skip(i as int)) {
                    Some(j) => Some(j + i),
                    None => None,
                },
            decreases s.len() - i,
        {
            assert(s@.skip(i as int).drop_first() =~= s@.skip(i + 1));
            i = i + 1;
        }
        if i == s.len() {
            assert(s@.skip(i as int) =~= Seq::<char>::empty());
            (lit(service), lit("/StatusNotifierItem"))
        } else {
            assert(s@.skip(i as int)[0] == '/');
            let a = sub_chars(s.as_slice(), 0, i);
            let b = sub_chars(s.as_slice(), i, s.len());
            assert(a@ =~= s@.take(i as int));
            assert(b@ =~= s@.skip(i as int));
            (string_of(a.as_slice()), string_of(b.as_slice()))
        }
    }

    /// The identifier of an item: its bus name followed by its path.
    pub fn identifier(bus_name: &str, object_path: &str) -> (r: String)
        ensures
            r@ == bus_name@ + object_path@,
    {
        let mut v = chars_of(bus_name);
        append_chars(&mut v, chars_of(object_path).as_slice());
        string_of(v.as_slice())
    }

    /// A menu label without its mnemonic underscores.
    pub fn clean_label(label: &str) -> (r: String)
        ensures
            r@ == spec_clean_label(label@),
    {
        let s = chars_of(label);
        // "__" becomes the placeholder.
        let mut a: Vec<char> = Vec::new();
        let mut i: usize = 0;
        assert(s@.skip(0) =~= s@);
        while i < s.len()
            invariant
                i <= s.len(),
                mark_double(s@) == a@ + mark_double(s@.skip(i as int)),
            decreases s.len() - i,
        {
            let ghost rest = s@.skip(i as int);
            if i + 1 < s.len() && s[i] == '_' && s[i + 1] == '_' {
                assert(rest[0] == '_' && rest[1] == '_');
                assert(rest.skip(2) =~= s@.skip(i + 2));
                a.push('\u{FFFF}');
                assert(a@ + mark_double(s@.skip(i + 2)) =~= a@.drop_last() + (seq![placeholder()] + mark_double(rest.skip(2))));
                i = i + 2;
            } else {
                assert(rest[0] == s@[i as int]);
                assert(rest.drop_first() =~= s@.skip(i + 1));
                a.push(s[i]);
                assert(a@ + mark_double(s@.skip(i + 1)) =~= a@.drop_last() + (seq![s@[i as int]] + mark_double(rest.drop_first())));
                i = i + 1;
            }
        }
        assert(s@.skip(i as int) =~= Seq::<char>::empty());
        assert(a@ + Seq::<char>::empty() =~= a@);
        // Underscores dropped.
        let mut b: Vec<char> = Vec::new();
        let mut j: usize = 0;
        while j < a.len()
            invariant
                j <= a.len(),
                b@ == drop_underscores(a@.take(j as int)),
            decreases a.len() - j,
        {
            assert(a@.take(j + 1).drop_last() =~= a@.take(j as int));
            if a[j] != '_' {
                b.push(a[j]);
            }
            j = j + 1;
        }
        assert(a@.take(a.len() as int) =~= a@);
        // The placeholder back to an underscore.
        let mut c: Vec<char> = Vec::new();
        let mut k: usize = 0;
        while k < b.len()
            invariant
                k <= b.len(),
                c@ == unmark(b@.take(k as int)),
            decreases b.len() - k,
        {
            let ch = if b[k] == '\u{FFFF}' { '_' } else { b[k] };
            c.push(ch);
            assert(c@ =~= unmark(b@.take(k + 1)));
            k = k + 1;
        }
        assert(b@.take(b.len() as int) =~= b@);
        string_of(c.as_slice())
    }

    /// The icon an item shows, as an index among its pixmaps: the first
    /// usable one of the largest area.
    pub fn best_pixmap(candidates: &Vec<PixmapCandidate>) -> (r: Option<usize>)
        requires
            forall|k: int| 0 <= k < candidates@.len() && usable(#[trigger] candidates@[k]) ==> candidates@[k].width
                * candidates@[k].height <= i32::MAX,
        ensures
            match r {
                Some(i) => best_of(candidates@, candidates@.len() as int) == Some(i as int),
                None => best_of(candidates@, candidates@.len() as int) is None,
            },
    {
        let mut best: Option<usize> = None;
        let mut i: usize = 0;
        while i < candidates.len()
            invariant
                i <= candidates.len(),
                forall|k: int| 0 <= k < candidates@.len() && usable(#[trigger] candidates@[k]) ==> candidates@[k].width
                    * candidates@[k].height <= i32::MAX,
                match best {
                    Some(b) => best_of(candidates@, i as int) == Some(b as int) && b < i && usable(candidates@[b as int]),
                    None => best_of(candidates@, i as int) is None,
                },
            decreases candidates.len() - i,
        {
            let p = candidates[i];
            let mut ok = false;
            if p.width > 0 && p.height > 0 {
                let w = p.width as u128;
                let h = p.height as u128;
                assert(w * h <= 0x4000_0000_0000_0000) by (nonlinear_arith)
                    requires
                        w <= 0x7fff_ffff,
                        h <= 0x7fff_ffff,
                ;
                ok = (p.data_len as u128) >= w * h * 4;
            }
            if ok {
                assert(usable(candidates@[i as int]));
                let area: i64 = (p.width as i64) * (p.height as i64);
                match best {
                    None => {
                        best = Some(i);
                    },
                    Some(b) => {
                        let q = candidates[b];
                        let barea: i64 = (q.width as i64) * (q.height as i64);
                        if area > barea {
                            best = Some(i);
                        }
                    },
                }
            }
            i = i + 1;
        }
        best
    }

    /// The entry of a menu node with these properties and children: none
    /// when hidden; a separator when of that type; else its cleaned label,
    /// enabled unless said otherwise.
    pub fn menu_entry(menu_id: i32, props: &MenuProps, children: Vec<TrayMenuEntry>) -> (r: Option<TrayMenuEntry>)
        ensures
            props.visible == Some(false) ==> r is None,
            props.visible != Some(false) ==> r is Some,
            r matches Some(e) ==> e.menu_id == menu_id,
            r matches Some(e) ==> e.is_separator == (props.kind matches Some(k) && k@ == "separator"@),
            r matches Some(e) ==> (e.is_separator ==> e.label@.len() == 0 && !e.enabled && e.children@.len() == 0),
            r matches Some(e) ==> (!e.is_separator ==> e.label@ == spec_clean_label(match props.label {
                Some(l) => l@,
                None => Seq::<char>::empty(),
            }) && e.enabled == (props.enabled != Some(false)) && e.children@ == children@),
    {
        if props.visible == Some(false) {
            return None;
        }
        let is_sep = match &props.kind {
            Some(k) => crate::text::eq_chars(chars_of(k.as_str()).as_slice(), chars_of("separator").as_slice()),
            None => false,
        };
        if is_sep {
            return Some(TrayMenuEntry { menu_id, label: String::new(), enabled: false, is_separator: true, children: Vec::new() });
        }
        let label = match &props.label {
            Some(l) => Self::clean_label(l.as_str()),
            None => Self::clean_label(""),
        };
        proof {
            reveal_strlit("");
        }
        Some(TrayMenuEntry { menu_id, label, enabled: props.enabled != Some(false), is_separator: false, children })
    }
}


/// The RGBA bytes of ARGB pixel data: each whole group of four bytes has its
/// alpha moved to the end; a trailing partial group is dropped.
pub open spec fn spec_argb_to_rgba(raw: Seq<u8>) -> Seq<u8> {
    Seq::new(
        (raw.len() / 4 * 4) as nat,
        |i: int| if i % 4 == 3 { raw[i - 3] } else { raw[i + 1] },
    )
}

/// The key under which a converted icon is cached: its size, its length
/// and three sample bytes (first, middle, last), mixed by shifts and xor.
pub open spec fn spec_cache_key(width: i32, height: i32, raw: Seq<u8>) -> u64 {
    let len = raw.len();
    (width as u64) ^ ((height as u64) << 16u64) ^ ((len as u64) << 32u64) ^ ((raw[0] as u64) << 8u64)
        ^ ((raw[(len / 2) as int] as u64) << 24u64) ^ ((raw[len - 1] as u64) << 40u64)
}

impl TrayService {
    /// The RGBA bytes of an icon's ARGB data.
    pub fn argb_to_rgba(raw: &[u8]) -> (r: Vec<u8>)
        ensures
            r@ == spec_argb_to_rgba(raw@),
    {
        let mut out: Vec<u8> = Vec::new();
        let mut idx: usize = 0;
        while idx + 3 < raw.len()
            invariant
                idx % 4 == 0,
                idx <= raw.len(),
                idx <= raw.len() / 4 * 4,
                out@.len() == idx,
                forall|i: int| 0 <= i < idx ==> #[trigger] out@[i] == (if i % 4 == 3 { raw@[i - 3] } else { raw@[i + 1] }),
            decreases raw.len() - idx,
        {
            let a = raw[idx];
            let r = raw[idx + 1];
            let g = raw[idx + 2];
            let b = raw[idx + 3];
            out.push(r);
            out.push(g);
            out.push(b);
            out.push(a);
            idx = idx + 4;
        }
        assert(out@ =~= spec_argb_to_rgba(raw@));
        out
    }

    /// The cache key of an icon with pixel data.
    pub fn cache_key(width: i32, height: i32, raw: &[u8]) -> (r: u64)
        requires
            raw@.len() > 0,
        ensures
            r == spec_cache_key(width, height, raw@),
    {
        let len = raw.len();
        let s1 = raw[0] as u64;
        let s2 = raw[len / 2] as u64;
        let s3 = raw[len - 1] as u64;
        (width as u64) ^ ((height as u64) << 16u64) ^ ((len as u64) << 32u64) ^ (s1 << 8u64) ^ (s2 << 24u64) ^ (s3 << 40u64)
    }

    /// The icon cache is emptied before it grows past fifty textures.
    pub fn cache_needs_clear(cached: usize) -> (r: bool)
        ensures
            r == (cached > 50),
    {
        cached > 50
    }
}

} // verus!
