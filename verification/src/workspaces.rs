//! The workspace pills of the bar: their order and labels, the active one,
//! and where scrolling over them goes.
use vstd::prelude::*;
use crate::text::{decimal, decimal_chars, string_of};

verus! {

/// A workspace as Niri reports it.
#[derive(Debug, Clone)]
pub struct WorkspaceInfo {
    pub id: u64,
    pub idx: u8,
    pub name: Option<String>,
    pub is_active: bool,
    pub is_focused: bool,
}

/// The content of a `WorkspaceInfo`.
pub struct WorkspaceView {
    pub id: u64,
    pub idx: u8,
    pub name: Option<Seq<char>>,
    pub is_active: bool,
    pub is_focused: bool,
}

impl View for WorkspaceInfo {
    type V = WorkspaceView;

    open spec fn view(&self) -> WorkspaceView {
        WorkspaceView {
            id: self.id,
            idx: self.idx,
            name: match self.name {
                Some(n) => Some(n@),
                None => None,
            },
            is_active: self.is_active,
            is_focused: self.is_focused,
        }
    }
}

/// The views of a list of workspaces.
pub open spec fn workspace_views(v: Seq<WorkspaceInfo>) -> Seq<WorkspaceView> {
    v.map_values(|w: WorkspaceInfo| w@)
}

/// One pill of the bar.
#[derive(Debug, Clone)]
pub struct WorkspacePill {
    pub id: u64,
    pub label: String,
    pub active: bool,
}

/// The pills in order, the active workspace, and whether the order of the
/// workspaces differs from the one shown.
pub struct WorkspaceLayout {
    pub pills: Vec<WorkspacePill>,
    pub active_id: Option<u64>,
    pub order: Vec<u64>,
    pub order_changed: bool,
}

/// `w` inserted after the last element whose index is not larger.
pub open spec fn insert_by_idx(s: Seq<WorkspaceView>, w: WorkspaceView) -> Seq<WorkspaceView>
    decreases s.len(),
{
    if s.len() == 0 {
        seq![w]
    } else if s.last().idx <= w.idx {
        s.push(w)
    } else {
        insert_by_idx(s.drop_last(), w).push(s.last())
    }
}

/// The workspaces sorted by index, equal indices kept in their order (a
/// stable sort).
pub open spec fn sort_by_idx(ws: Seq<WorkspaceView>) -> Seq<WorkspaceView>
    decreases ws.len(),
{
    if ws.len() == 0 {
        seq![]
    } else {
        insert_by_idx(sort_by_idx(ws.drop_last()), ws.last())
    }
}

/// The id of the first workspace that is active or focused.
pub open spec fn first_active(ws: Seq<WorkspaceView>) -> Option<u64>
    decreases ws.len(),
{
    if ws.len() == 0 {
        None
    } else if ws[0].is_active || ws[0].is_focused {
        Some(ws[0].id)
    } else {
        first_active(ws.drop_first())
    }
}

/// A pill's label: the workspace's name, else its index.
pub open spec fn pill_label(w: WorkspaceView) -> Seq<char> {
    match w.name {
        Some(n) => n,
        None => decimal(w.idx as nat),
    }
}

/// The ids in order.
pub open spec fn ids_of(ws: Seq<WorkspaceView>) -> Seq<u64> {
    ws.map_values(|w: WorkspaceView| w.id)
}

/// The position of the first occurrence of `x`.
pub open spec fn position(s: Seq<u64>, x: u64) -> Option<int>
    decreases s.len(),
{
    if s.len() == 0 {
        None
    } else if s[0] == x {
        Some(0)
    } else {
        match position(s.drop_first(), x) {
            Some(p) => Some(p + 1),
            None => None,
        }
    }
}

/// Where a scroll of `steps` over the pills goes: the workspace before or
/// after the active one in the shown order, if there is one.
pub open spec fn spec_scroll_target(order: Seq<u64>, active: Option<u64>, steps: i32) -> Option<u64> {
    match active {
        None => None,
        Some(a) => match position(order, a) {
            None => None,
            Some(p) => if steps < 0 {
                if p > 0 {
                    Some(order[p - 1])
                } else {
                    None
                }
            } else if steps > 0 {
                if p + 1 < order.len() {
                    Some(order[p + 1])
                } else {
                    None
                }
            } else {
                None
            },
        },
    }
}

/// The sorted order is ordered by index.
pub open spec fn idx_sorted(s: Seq<WorkspaceView>) -> bool {
    forall|i: int, j: int| 0 <= i <= j < s.len() ==> s[i].idx <= s[j].idx
}

proof fn lemma_insert_at(s: Seq<WorkspaceView>, w: WorkspaceView, k: int)
    requires
        0 <= k <= s.len(),
        forall|j: int| k <= j < s.len() ==> (#[trigger] s[j]).idx > w.idx,
        k == 0 || s[k - 1].idx <= w.idx,
    ensures
        insert_by_idx(s, w) == s.insert(k, w),
    decreases s.len(),
{
    if s.len() == 0 {
        assert(s.insert(k, w) =~= seq![w]);
    } else if s.last().idx <= w.idx {
        assert(k == s.len());
        assert(s.insert(k, w) =~= s.push(w));
    } else {
        let d = s.drop_last();
        assert(forall|j: int| 0 <= j < d.len() ==> d[j] == s[j]);
        lemma_insert_at(d, w, k);
        assert(d.insert(k, w).push(s.last()) =~= s.insert(k, w));
    }
}

proof fn lemma_insert_props(s: Seq<WorkspaceView>, w: WorkspaceView)
    requires
        idx_sorted(s),
    ensures
        idx_sorted(insert_by_idx(s, w)),
        insert_by_idx(s, w).to_multiset() == s.to_multiset().insert(w),
    decreases s.len(),
{
    broadcast use vstd::seq_lib::group_to_multiset_ensures;
    if s.len() == 0 {
        assert(seq![w] =~= Seq::<WorkspaceView>::empty().push(w));
    } else if s.last().idx <= w.idx {
    } else {
        let d = s.drop_last();
        let last = s.last();
        lemma_insert_props(d, w);
        let r1 = insert_by_idx(d, w);
        assert forall|i: int| 0 <= i < r1.len() implies (#[trigger] r1[i]).idx <= last.idx by {
            assert(r1.contains(r1[i]));
            assert(r1.to_multiset().count(r1[i]) > 0);
            if r1[i] != w {
                assert(d.to_multiset().count(r1[i]) > 0);
                assert(d.contains(r1[i]));
                let j = choose|j: int| 0 <= j < d.len() && d[j] == r1[i];
                assert(s[j] == d[j]);
            }
        }
        assert(s =~= d.push(last));
        assert(r1.push(last).to_multiset() =~= s.to_multiset().insert(w));
    }
}

/// Sorting keeps the workspaces and orders them by index.
pub proof fn lemma_sort_by_idx(ws: Seq<WorkspaceView>)
    ensures
        idx_sorted(sort_by_idx(ws)),
        sort_by_idx(ws).to_multiset() == ws.to_multiset(),
    decreases ws.len(),
{
    broadcast use vstd::seq_lib::group_to_multiset_ensures;
    if ws.len() == 0 {
        assert(sort_by_idx(ws) =~= ws);
    } else {
        let d = ws.drop_last();
        lemma_sort_by_idx(d);
        lemma_insert_props(sort_by_idx(d), ws.last());
        assert(ws =~= d.push(ws.last()));
    }
}

fn copy_workspace(w: &WorkspaceInfo) -> (r: WorkspaceInfo)
    ensures
        r@ == w@,
{
    WorkspaceInfo {
        id: w.id,
        idx: w.idx,
        name: match &w.name {
            Some(n) => Some(n.clone()),
            None => None,
        },
        is_active: w.is_active,
        is_focused: w.is_focused,
    }
}

/// The workspaces sorted by index (stable).
pub fn sort_workspaces(ws: &Vec<WorkspaceInfo>) -> (r: Vec<WorkspaceInfo>)
    ensures
        workspace_views(r@) == sort_by_idx(workspace_views(ws@)),
{
    let ghost wv = workspace_views(ws@);
    let mut out: Vec<WorkspaceInfo> = Vec::new();
    let mut i: usize = 0;
    assert(workspace_views(out@) =~= sort_by_idx(wv.take(0)));
    while i < ws.len()
        invariant
            i <= ws.len(),
            wv == workspace_views(ws@),
            workspace_views(out@) == sort_by_idx(wv.take(i as int)),
        decreases ws.len() - i,
    {
        let w = copy_workspace(&ws[i]);
        let ghost s = workspace_views(out@);
        let mut k: usize = out.len();
        while k > 0 && out[k - 1].idx > w.idx
            invariant
                k <= out.len(),
                s == workspace_views(out@),
                forall|j: int| k <= j < s.len() ==> (#[trigger] s[j]).idx > w.idx,
            decreases k,
        {
            k = k - 1;
        }
        proof {
            lemma_insert_at(s, w@, k as int);
            assert(wv.take(i + 1).drop_last() =~= wv.take(i as int));
            assert(wv.take(i + 1).last() == w@);
        }
        let ghost old_out = out@;
        out.insert(k, w);
        assert(workspace_views(out@) =~= s.insert(k as int, w@));
        i = i + 1;
    }
    assert(wv.take(ws.len() as int) =~= wv);
    out
}

/// The pills for the workspaces: sorted by index, labelled by name or
/// index, the first active or focused one marked active; and whether the
/// order differs from `current_order`.
pub fn update_workspaces(workspaces: &Vec<WorkspaceInfo>, current_order: &Vec<u64>) -> (r: WorkspaceLayout)
    ensures
        ({
            let s = sort_by_idx(workspace_views(workspaces@));
            &&& r.active_id == first_active(s)
            &&& r.pills@.len() == s.len()
            &&& forall|k: int| 0 <= k < s.len() ==> {
                &&& (#[trigger] r.pills@[k]).id == s[k].id
                &&& r.pills@[k].label@ == pill_label(s[k])
                &&& r.pills@[k].active == (Some(s[k].id) == first_active(s))
            }
            &&& r.order@ == ids_of(s)
            &&& r.order_changed == (current_order@ != ids_of(s))
        }),
{
    let sorted = sort_workspaces(workspaces);
    let ghost s = workspace_views(sorted@);
    let mut active_id: Option<u64> = None;
    let mut found = false;
    let mut i: usize = 0;
    assert(s.skip(0) =~= s);
    while i < sorted.len() && !found
        invariant
            i <= sorted.len(),
            s == workspace_views(sorted@),
            found ==> active_id == first_active(s),
            !found ==> first_active(s) == first_active(s.skip(i as int)) && active_id is None,
        decreases sorted.len() - i,
    {
        assert(s.skip(i as int)[0] == sorted@[i as int]@);
        assert(s.skip(i as int).drop_first() =~= s.skip(i + 1));
        if sorted[i].is_active || sorted[i].is_focused {
            active_id = Some(sorted[i].id);
            found = true;
        }
        i = i + 1;
    }
    proof {
        if !found {
            assert(s.skip(i as int) =~= Seq::<WorkspaceView>::empty());
        }
    }
    assert(active_id == first_active(s));
    let mut pills: Vec<WorkspacePill> = Vec::new();
    let mut order: Vec<u64> = Vec::new();
    let mut k: usize = 0;
    while k < sorted.len()
        invariant
            k <= sorted.len(),
            s == workspace_views(sorted@),
            active_id == first_active(s),
            pills@.len() == k,
            order@ == ids_of(s).take(k as int),
            forall|x: int| 0 <= x < k ==> {
                &&& (#[trigger] pills@[x]).id == s[x].id
                &&& pills@[x].label@ == pill_label(s[x])
                &&& pills@[x].active == (Some(s[x].id) == first_active(s))
            },
        decreases sorted.len() - k,
    {
        let w = &sorted[k];
        assert(s[k as int] == w@);
        let label: String = match &w.name {
            Some(n) => n.clone(),
            None => string_of(decimal_chars(w.idx as u64).as_slice()),
        };
        let active = match active_id {
            Some(a) => a == w.id,
            None => false,
        };
        pills.push(WorkspacePill { id: w.id, label, active });
        order.push(w.id);
        assert(order@ =~= ids_of(s).take(k + 1));
        k = k + 1;
    }
    assert(ids_of(s).take(sorted.len() as int) =~= ids_of(s));
    let mut changed = current_order.len() != order.len();
    if !changed {
        let mut x: usize = 0;
        while x < order.len() && !changed
            invariant
                x <= order.len(),
                current_order@.len() == order@.len(),
                changed ==> current_order@ != order@,
                !changed ==> forall|y: int| 0 <= y < x ==> current_order@[y] == order@[y],
            decreases order.len() - x,
        {
            if current_order[x] != order[x] {
                changed = true;
            }
            x = x + 1;
        }
        if !changed {
            assert(current_order@ =~= order@);
        }
    }
    WorkspaceLayout { pills, active_id, order, order_changed: changed }
}

/// The shown pills whose workspace is gone, in their order.
pub fn stale_pills(shown: &Vec<u64>, order: &Vec<u64>) -> (r: Vec<u64>)
    ensures
        r@ == shown@.filter(|id: u64| !order@.contains(id)),
{
    let mut r: Vec<u64> = Vec::new();
    let mut i: usize = 0;
    while i < shown.len()
        invariant
            i <= shown.len(),
            r@ == shown@.take(i as int).filter(|id: u64| !order@.contains(id)),
        decreases shown.len() - i,
    {
        let id = shown[i];
        let mut found = false;
        let mut j: usize = 0;
        while j < order.len()
            invariant
                j <= order.len(),
                found == exists|y: int| 0 <= y < j && order@[y] == id,
            decreases order.len() - j,
        {
            if order[j] == id {
                found = true;
            }
            j = j + 1;
        }
        proof {
            if found {
                let y = choose|y: int| 0 <= y < order.len() && order@[y] == id;
                assert(order@.contains(id));
            }
            assert(shown@.take(i + 1).drop_last() =~= shown@.take(i as int));
            shown@.take(i as int).lemma_filter_push(id, |id: u64| !order@.contains(id));
            assert(shown@.take(i as int).push(id) =~= shown@.take(i + 1));
        }
        if !found {
            r.push(id);
        }
        i = i + 1;
    }
    assert(shown@.take(shown.len() as int) =~= shown@);
    r
}

/// Whether a pill is marked active for the active workspace.
pub fn set_active_workspace(pill_id: u64, active_id: u64) -> (r: bool)
    ensures
        r == (pill_id == active_id),
{
    pill_id == active_id
}

/// The pills shown when Niri cannot be asked: workspaces 1 to 3, the first active.
pub fn init_fallback() -> (r: Vec<WorkspacePill>)
    ensures
        r@.len() == 3,
        forall|k: int| 0 <= k < 3 ==> (#[trigger] r@[k]).id == k + 1 && r@[k].label@ == decimal((k + 1) as nat)
            && r@[k].active == (k == 0),
{
    let mut r: Vec<WorkspacePill> = Vec::new();
    let mut i: u64 = 1;
    while i <= 3
        invariant
            1 <= i <= 4,
            r@.len() == i - 1,
            forall|k: int| 0 <= k < i - 1 ==> (#[trigger] r@[k]).id == k + 1 && r@[k].label@ == decimal((k + 1) as nat)
                && r@[k].active == (k == 0),
        decreases 4 - i,
    {
        r.push(WorkspacePill { id: i, label: string_of(decimal_chars(i).as_slice()), active: i == 1 });
        i = i + 1;
    }
    r
}

/// The workspace a scroll over the pills focuses, if any.
pub fn scroll_target(order: &Vec<u64>, active_id: Option<u64>, steps: i32) -> (r: Option<u64>)
    ensures
        r == spec_scroll_target(order@, active_id, steps),
{
    let a = match active_id {
        None => {
            return None;
        },
        Some(a) => a,
    };
    let mut p: usize = 0;
    assert(order@.skip(0) =~= order@);
    while p < order.len() && order[p] != a
        invariant
            p <= order.len(),
            position(order@, a) == match position(order@.skip(p as int), a) {
                Some(q) => Some(q + p),
                None => None,
            },
        decreases order.len() - p,
    {
        assert(order@.skip(p as int)[0] == order@[p as int]);
        assert(order@.skip(p as int).drop_first() =~= order@.skip(p + 1));
        p = p + 1;
    }
    if p == order.len() {
        assert(order@.skip(p as int) =~= Seq::<u64>::empty());
        return None;
    }
    assert(order@.skip(p as int)[0] == a);
    if steps < 0 {
        if p > 0 {
            Some(order[p - 1])
        } else {
            None
        }
    } else if steps > 0 {
        if p + 1 < order.len() {
            Some(order[p + 1])
        } else {
            None
        }
    } else {
        None
    }
}


/// No id occurs twice.
pub open spec fn distinct_ids(s: Seq<u64>) -> bool {
    forall|i: int, j: int| 0 <= i < j < s.len() ==> s[i] != s[j]
}

proof fn lemma_position_of(s: Seq<u64>, i: int)
    requires
        distinct_ids(s),
        0 <= i < s.len(),
    ensures
        position(s, s[i]) == Some(i),
    decreases s.len(),
{
    if i > 0 {
        let d = s.drop_first();
        assert(forall|k: int| 0 <= k < d.len() ==> d[k] == s[k + 1]);
        assert(s[0] != s[i]);
        lemma_position_of(d, i - 1);
    }
}

/// Scrolling down over the pills and then up comes back to the workspace
/// one started from (when it is not the last one), and up then down
/// likewise (when it is not the first one).
pub proof fn lemma_scroll_roundtrip(order: Seq<u64>, i: int)
    requires
        distinct_ids(order),
        0 <= i < order.len(),
    ensures
        i + 1 < order.len() ==> spec_scroll_target(order, spec_scroll_target(order, Some(order[i]), 1i32), -1i32) == Some(order[i]),
        i > 0 ==> spec_scroll_target(order, spec_scroll_target(order, Some(order[i]), -1i32), 1i32) == Some(order[i]),
{
    lemma_position_of(order, i);
    if i + 1 < order.len() {
        lemma_position_of(order, i + 1);
    }
    if i > 0 {
        lemma_position_of(order, i - 1);
    }
}

} // verus!
