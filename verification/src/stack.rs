//! The compositor's window stack: stacking order (last = on top),
//! keyboard focus, raising, minimising and closing, the app switcher's
//! list and cycling through the windows of a workspace. Geometry and the
//! protocol objects of a window stay with the caller.

use vstd::prelude::*;

verus! {

/// What the stack knows of a window.
#[derive(Clone, Copy, PartialEq, Eq, Debug, Structural)]
pub struct WinEntry {
    pub id: u32,
    pub minimized: bool,
    pub popup: bool,
    pub workspace: u32,
}

/// The windows in stacking order, and the focused one.
pub struct Stack {
    pub wins: Vec<WinEntry>,
    pub focus: Option<u32>,
}

/// The position of the first window with id `id` (`-1` when none).
pub open spec fn pos_of(ws: Seq<WinEntry>, id: u32) -> int
    decreases ws.len(),
{
    if ws.len() == 0 {
        -1
    } else if ws[0].id == id {
        0
    } else {
        let p = pos_of(ws.drop_first(), id);
        if p < 0 {
            -1
        } else {
            p + 1
        }
    }
}

/// A window the focus can go to: shown and not a popup.
pub open spec fn focusable(w: WinEntry) -> bool {
    !w.minimized && !w.popup
}

/// The topmost focusable window.
pub open spec fn top_focusable(ws: Seq<WinEntry>) -> Option<u32>
    decreases ws.len(),
{
    if ws.len() == 0 {
        None
    } else if focusable(ws.last()) {
        Some(ws.last().id)
    } else {
        top_focusable(ws.drop_last())
    }
}

/// The ids of the windows satisfying `f`, in stacking order.
pub open spec fn ids_where(ws: Seq<WinEntry>, f: spec_fn(WinEntry) -> bool) -> Seq<u32>
    decreases ws.len(),
{
    if ws.len() == 0 {
        seq![]
    } else if f(ws.last()) {
        ids_where(ws.drop_last(), f).push(ws.last().id)
    } else {
        ids_where(ws.drop_last(), f)
    }
}

pub open spec fn switchable() -> spec_fn(WinEntry) -> bool {
    |w: WinEntry| focusable(w)
}

pub open spec fn visible_on(ws: u32) -> spec_fn(WinEntry) -> bool {
    |w: WinEntry| focusable(w) && w.workspace == ws
}

/// `ws` with the window at `p` moved to the top.
pub open spec fn raised(ws: Seq<WinEntry>, p: int) -> Seq<WinEntry> {
    ws.remove(p).push(ws[p])
}

proof fn lemma_pos_of(ws: Seq<WinEntry>, id: u32)
    ensures
        -1 <= pos_of(ws, id) < ws.len(),
        pos_of(ws, id) >= 0 ==> ws[pos_of(ws, id)].id == id,
        forall|j: int| 0 <= j < ws.len() && (pos_of(ws, id) < 0 || j < pos_of(ws, id)) ==> ws[j].id != id,
    decreases ws.len(),
{
    if ws.len() > 0 && ws[0].id != id {
        lemma_pos_of(ws.drop_first(), id);
        assert forall|j: int| 0 <= j < ws.len() && (pos_of(ws, id) < 0 || j < pos_of(ws, id)) implies ws[j].id
            != id by {
            if j > 0 {
                assert(ws[j] == ws.drop_first()[j - 1]);
            }
        }
    }
}

fn find(wins: &Vec<WinEntry>, id: u32) -> (r: Option<usize>)
    ensures
        match r {
            Some(p) => p == pos_of(wins@, id) && p < wins@.len(),
            None => pos_of(wins@, id) < 0,
        },
{
    let mut i: usize = 0;
    while i < wins.len()
        invariant
            i <= wins@.len(),
            forall|j: int| 0 <= j < i ==> wins@[j].id != id,
        decreases wins@.len() - i,
    {
        if wins[i].id == id {
            proof {
                lemma_pos_of(wins@, id);
                let p = pos_of(wins@, id);
                if p < 0 || p > i {
                    assert(wins@[i as int].id == id);
                }
            }
            return Some(i);
        }
        i = i + 1;
    }
    proof {
        lemma_pos_of(wins@, id);
    }
    None
}

/// The topmost focusable window of `wins`.
pub fn top_focusable_of(wins: &Vec<WinEntry>) -> (r: Option<u32>)
    ensures
        r == top_focusable(wins@),
{
    let mut i: usize = wins.len();
    proof {
        assert(wins@.take(i as int) =~= wins@);
    }
    while i > 0
        invariant
            i <= wins@.len(),
            top_focusable(wins@) == top_focusable(wins@.take(i as int)),
        decreases i,
    {
        let w = wins[i - 1];
        proof {
            assert(wins@.take(i as int).last() == w);
            assert(wins@.take(i as int).drop_last() =~= wins@.take(i - 1));
        }
        if !w.minimized && !w.popup {
            return Some(w.id);
        }
        i = i - 1;
    }
    None
}

fn ids_matching(wins: &Vec<WinEntry>, all_ws: bool, ws: u32) -> (r: Vec<u32>)
    ensures
        r@ == if all_ws {
            ids_where(wins@, switchable())
        } else {
            ids_where(wins@, visible_on(ws))
        },
{
    let ghost f = if all_ws {
        switchable()
    } else {
        visible_on(ws)
    };
    let mut r: Vec<u32> = Vec::new();
    let mut i: usize = 0;
    proof {
        assert(wins@.take(0) =~= seq![]);
    }
    while i < wins.len()
        invariant
            i <= wins@.len(),
            f == (if all_ws {
                switchable()
            } else {
                visible_on(ws)
            }),
            r@ == ids_where(wins@.take(i as int), f),
        decreases wins@.len() - i,
    {
        let w = wins[i];
        proof {
            assert(wins@.take(i + 1).drop_last() =~= wins@.take(i as int));
            assert(wins@.take(i + 1).last() == w);
        }
        if !w.minimized && !w.popup && (all_ws || w.workspace == ws) {
            r.push(w.id);
        }
        i = i + 1;
    }
    assert(wins@.take(wins@.len() as int) =~= wins@);
    r
}

/// The largest window id (0 for no windows).
pub open spec fn max_id(ws: Seq<WinEntry>) -> int
    decreases ws.len(),
{
    if ws.len() == 0 {
        0
    } else if ws.last().id > max_id(ws.drop_last()) {
        ws.last().id as int
    } else {
        max_id(ws.drop_last())
    }
}

proof fn lemma_max_id(ws: Seq<WinEntry>)
    ensures
        forall|j: int| 0 <= j < ws.len() ==> ws[j].id <= max_id(ws),
        0 <= max_id(ws) <= u32::MAX,
    decreases ws.len(),
{
    if ws.len() > 0 {
        lemma_max_id(ws.drop_last());
        assert forall|j: int| 0 <= j < ws.len() implies ws[j].id <= max_id(ws) by {
            if j < ws.len() - 1 {
                assert(ws[j] == ws.drop_last()[j]);
            }
        }
    }
}

impl Stack {
    pub fn new() -> (s: Self)
        ensures
            s.wins@.len() == 0,
            s.focus is None,
    {
        Stack { wins: Vec::new(), focus: None }
    }

    /// The id for a new window: one more than the largest id in the stack.
    pub fn next_id(&self) -> (r: u32)
        requires
            max_id(self.wins@) < u32::MAX,
        ensures
            r == max_id(self.wins@) + 1,
            forall|j: int| 0 <= j < self.wins@.len() ==> self.wins@[j].id < r,
    {
        let mut m: u32 = 0;
        let mut i: usize = 0;
        proof {
            assert(self.wins@.take(0) =~= seq![]);
        }
        while i < self.wins.len()
            invariant
                i <= self.wins@.len(),
                m == max_id(self.wins@.take(i as int)),
            decreases self.wins@.len() - i,
        {
            proof {
                assert(self.wins@.take(i + 1).drop_last() =~= self.wins@.take(i as int));
            }
            if self.wins[i].id > m {
                m = self.wins[i].id;
            }
            i = i + 1;
        }
        proof {
            assert(self.wins@.take(self.wins@.len() as int) =~= self.wins@);
            lemma_max_id(self.wins@);
        }
        m + 1
    }

    /// The windows the app switcher lists: every shown, non-popup window,
    /// bottom to top.
    pub fn switcher_ids(&self) -> (r: Vec<u32>)
        ensures
            r@ == ids_where(self.wins@, switchable()),
    {
        ids_matching(&self.wins, true, 0)
    }

    /// The windows shown on workspace `ws`, bottom to top.
    pub fn visible_ids(&self, ws: u32) -> (r: Vec<u32>)
        ensures
            r@ == ids_where(self.wins@, visible_on(ws)),
    {
        ids_matching(&self.wins, false, ws)
    }

    /// Put window `id` on top and focus it; nothing when there is no such
    /// window.
    pub fn raise(&mut self, id: u32)
        ensures
            pos_of(old(self).wins@, id) < 0 ==> final(self).wins@ == old(self).wins@ && final(self).focus
                == old(self).focus,
            pos_of(old(self).wins@, id) >= 0 ==> final(self).wins@ == raised(
                old(self).wins@,
                pos_of(old(self).wins@, id),
            ) && final(self).focus == Some(id),
    {
        match find(&self.wins, id) {
            Some(p) => {
                let w = self.wins.remove(p);
                self.wins.push(w);
                self.focus = Some(id);
            },
            None => {},
        }
    }

    /// Close window `id`: it leaves the stack, and if it had the focus the
    /// focus goes to the topmost focusable window left. Whether it existed.
    pub fn close(&mut self, id: u32) -> (found: bool)
        ensures
            found == (pos_of(old(self).wins@, id) >= 0),
            !found ==> final(self).wins@ == old(self).wins@ && final(self).focus == old(self).focus,
            found ==> final(self).wins@ == old(self).wins@.remove(pos_of(old(self).wins@, id)),
            found ==> final(self).focus == if old(self).focus == Some(id) {
                top_focusable(final(self).wins@)
            } else {
                old(self).focus
            },
    {
        match find(&self.wins, id) {
            Some(p) => {
                self.wins.remove(p);
                if self.focus == Some(id) {
                    self.focus = top_focusable_of(&self.wins);
                }
                true
            },
            None => false,
        }
    }

    /// Minimise window `id`; if it had the focus, the focus goes to the
    /// topmost focusable window.
    pub fn minimize(&mut self, id: u32)
        ensures
            pos_of(old(self).wins@, id) < 0 ==> final(self).wins@ == old(self).wins@ && final(self).focus
                == old(self).focus,
            pos_of(old(self).wins@, id) >= 0 ==> {
                let p = pos_of(old(self).wins@, id);
                &&& final(self).wins@ == old(self).wins@.update(
                    p,
                    WinEntry { minimized: true, ..old(self).wins@[p] },
                )
                &&& final(self).focus == if old(self).focus == Some(id) {
                    top_focusable(final(self).wins@)
                } else {
                    old(self).focus
                }
            },
    {
        match find(&self.wins, id) {
            Some(p) => {
                let w = self.wins[p];
                self.wins.set(p, WinEntry { minimized: true, ..w });
                if self.focus == Some(id) {
                    self.focus = top_focusable_of(&self.wins);
                }
            },
            None => {},
        }
    }

    /// Cycle to the next window shown on workspace `ws`, after the focused
    /// one (or the first), and raise it.
    pub fn next_app(&mut self, ws: u32)
        ensures
            ids_where(old(self).wins@, visible_on(ws)).len() == 0 ==> final(self).wins@ == old(
                self,
            ).wins@ && final(self).focus == old(self).focus,
            ids_where(old(self).wins@, visible_on(ws)).len() > 0 ==> {
                let vis = ids_where(old(self).wins@, visible_on(ws));
                let cur = match old(self).focus {
                    Some(f) => match first_pos(vis, f) {
                        Some(c) => c,
                        None => 0,
                    },
                    None => 0,
                };
                let target = vis[(cur + 1) % (vis.len() as int)];
                &&& pos_of(old(self).wins@, target) >= 0
                &&& final(self).wins@ == raised(old(self).wins@, pos_of(old(self).wins@, target))
                &&& final(self).focus == Some(target)
            },
    {
        let vis = self.visible_ids(ws);
        if vis.len() == 0 {
            return;
        }
        let cur: usize = match self.focus {
            Some(f) => match first_index_u32(&vis, f) {
                Some(c) => c,
                None => 0,
            },
            None => 0,
        };
        let next = (cur + 1) % vis.len();
        let target = vis[next];
        proof {
            lemma_ids_where_members(self.wins@, visible_on(ws), next as int);
        }
        self.raise(target);
    }
}

/// The first position of `x` in `s`.
pub open spec fn first_pos(s: Seq<u32>, x: u32) -> Option<int> {
    if exists|i: int| 0 <= i < s.len() && s[i] == x {
        Some(choose|i: int| 0 <= i < s.len() && s[i] == x && forall|j: int| 0 <= j < i ==> s[j] != x)
    } else {
        None
    }
}

pub(crate) fn first_index_u32(s: &Vec<u32>, x: u32) -> (r: Option<usize>)
    ensures
        match r {
            Some(i) => first_pos(s@, x) == Some(i as int) && i < s@.len() && s@[i as int] == x
                && forall|j: int| 0 <= j < i ==> s@[j] != x,
            None => first_pos(s@, x) is None && forall|j: int| 0 <= j < s@.len() ==> s@[j] != x,
        },
{
    let mut i: usize = 0;
    while i < s.len()
        invariant
            i <= s@.len(),
            forall|j: int| 0 <= j < i ==> s@[j] != x,
        decreases s@.len() - i,
    {
        if s[i] == x {
            proof {
                let w = choose|k: int| 0 <= k < s@.len() && s@[k] == x && forall|j: int| 0 <= j < k ==> s@[j] != x;
                assert(0 <= i < s@.len() && s@[i as int] == x && forall|j: int| 0 <= j < i ==> s@[j] != x);
                if w < i {
                    assert(s@[w] != x);
                } else if w > i {
                    assert(s@[i as int] != x);
                }
            }
            return Some(i);
        }
        i = i + 1;
    }
    None
}

/// Every listed id is a window of the stack.
proof fn lemma_ids_where_members(ws: Seq<WinEntry>, f: spec_fn(WinEntry) -> bool, k: int)
    requires
        0 <= k < ids_where(ws, f).len(),
    ensures
        pos_of(ws, ids_where(ws, f)[k]) >= 0,
    decreases ws.len(),
{
    let id = ids_where(ws, f)[k];
    let p = ws.drop_last();
    if f(ws.last()) && k == ids_where(ws, f).len() - 1 {
        lemma_pos_of(ws, id);
        if pos_of(ws, id) < 0 {
            assert(ws[ws.len() - 1].id == id);
        }
    } else {
        lemma_ids_where_members(p, f, k);
        lemma_pos_of(p, id);
        lemma_pos_of(ws, id);
        let q = pos_of(p, id);
        if pos_of(ws, id) < 0 {
            assert(ws[q] == p[q]);
        }
    }
}

/// Raising keeps the same windows: one at the top, the others in their
/// order.
pub proof fn law_raise_keeps_windows(ws: Seq<WinEntry>, p: int)
    requires
        0 <= p < ws.len(),
    ensures
        raised(ws, p).len() == ws.len(),
        raised(ws, p).last() == ws[p],
        raised(ws, p).to_multiset() == ws.to_multiset(),
{
    broadcast use vstd::seq_lib::group_seq_properties;
    assert(ws =~= ws.take(p) + seq![ws[p]] + ws.skip(p + 1));
    assert(ws.remove(p) =~= ws.take(p) + ws.skip(p + 1));
    vstd::seq_lib::lemma_multiset_commutative(ws.take(p), seq![ws[p]]);
    vstd::seq_lib::lemma_multiset_commutative(ws.take(p) + seq![ws[p]], ws.skip(p + 1));
    vstd::seq_lib::lemma_multiset_commutative(ws.take(p), ws.skip(p + 1));
    vstd::seq_lib::lemma_multiset_commutative(ws.remove(p), seq![ws[p]]);
    assert(raised(ws, p) =~= ws.remove(p) + seq![ws[p]]);
}

/// The focus after a close or a minimise, when it moves, is a shown,
/// non-popup window of the stack, and no such window is above it.
pub proof fn law_refocus_topmost(ws: Seq<WinEntry>)
    ensures
        top_focusable(ws) matches Some(id) ==> exists|i: int|
            0 <= i < ws.len() && ws[i].id == id && focusable(ws[i]) && forall|j: int|
                i < j < ws.len() ==> !focusable(#[trigger] ws[j]),
        top_focusable(ws) is None ==> forall|j: int| 0 <= j < ws.len() ==> !focusable(#[trigger] ws[j]),
    decreases ws.len(),
{
    if ws.len() > 0 {
        let p = ws.drop_last();
        law_refocus_topmost(p);
        if !focusable(ws.last()) {
            if let Some(id) = top_focusable(p) {
                let i = choose|i: int|
                    0 <= i < p.len() && p[i].id == id && focusable(p[i]) && forall|j: int|
                        i < j < p.len() ==> !focusable(#[trigger] p[j]);
                assert(ws[i] == p[i]);
                assert forall|j: int| i < j < ws.len() implies !focusable(#[trigger] ws[j]) by {
                    if j < ws.len() - 1 {
                        assert(ws[j] == p[j]);
                    }
                }
            } else {
                assert forall|j: int| 0 <= j < ws.len() implies !focusable(#[trigger] ws[j]) by {
                    if j < ws.len() - 1 {
                        assert(ws[j] == p[j]);
                    }
                }
            }
        } else {
            assert(ws[ws.len() - 1] == ws.last());
        }
    }
}

/// Some window of `ws` with id `id` satisfies `f`.
pub open spec fn listed_from(ws: Seq<WinEntry>, f: spec_fn(WinEntry) -> bool, id: u32) -> bool {
    exists|j: int| 0 <= j < ws.len() && (#[trigger] ws[j]).id == id && f(ws[j])
}

/// Some window of `ws` with id `id` is shown and not a popup.
pub open spec fn app_window(ws: Seq<WinEntry>, id: u32) -> bool {
    exists|j: int| 0 <= j < ws.len() && (#[trigger] ws[j]).id == id && !ws[j].minimized && !ws[j].popup
}

proof fn lemma_ids_where_sound(ws: Seq<WinEntry>, f: spec_fn(WinEntry) -> bool)
    ensures
        forall|i: int| 0 <= i < ids_where(ws, f).len() ==> listed_from(ws, f, #[trigger] ids_where(ws, f)[i]),
        forall|j: int| 0 <= j < ws.len() && f(#[trigger] ws[j]) ==> ids_where(ws, f).contains(ws[j].id),
    decreases ws.len(),
{
    if ws.len() > 0 {
        let init = ws.drop_last();
        lemma_ids_where_sound(init, f);
        let r = ids_where(ws, f);
        let ri = ids_where(init, f);
        assert forall|i: int| 0 <= i < r.len() implies listed_from(ws, f, #[trigger] r[i]) by {
            if i < ri.len() {
                assert(r[i] == ri[i]);
                assert(listed_from(init, f, ri[i]));
                let j = choose|j: int| 0 <= j < init.len() && (#[trigger] init[j]).id == ri[i] && f(init[j]);
                assert(ws[j] == init[j]);
            } else {
                assert(ws[ws.len() - 1] == ws.last());
            }
        }
        assert forall|j: int| 0 <= j < ws.len() && f(#[trigger] ws[j]) implies r.contains(ws[j].id) by {
            if j < init.len() {
                assert(init[j] == ws[j]);
                assert(ri.contains(ws[j].id));
                let k = choose|k: int| 0 <= k < ri.len() && ri[k] == ws[j].id;
                assert(r[k] == ri[k]);
            } else {
                assert(r[r.len() - 1] == ws[j].id);
            }
        }
    }
}

/// The app switcher lists exactly the shown windows that are not popups:
/// every id it lists belongs to a window that is neither minimised nor a
/// popup, and every such window is listed.
pub proof fn law_switcher_lists_app_windows(ws: Seq<WinEntry>)
    ensures
        forall|i: int| 0 <= i < ids_where(ws, switchable()).len() ==> app_window(ws, #[trigger] ids_where(ws, switchable())[i]),
        forall|j: int| 0 <= j < ws.len() && !(#[trigger] ws[j]).minimized && !ws[j].popup ==> ids_where(
            ws,
            switchable(),
        ).contains(ws[j].id),
{
    lemma_ids_where_sound(ws, switchable());
    let r = ids_where(ws, switchable());
    assert forall|i: int| 0 <= i < r.len() implies app_window(ws, #[trigger] r[i]) by {
        assert(listed_from(ws, switchable(), r[i]));
        let j = choose|j: int| 0 <= j < ws.len() && (#[trigger] ws[j]).id == r[i] && switchable()(ws[j]);
    }
    assert forall|j: int| 0 <= j < ws.len() && !(#[trigger] ws[j]).minimized && !ws[j].popup implies r.contains(
        ws[j].id,
    ) by {
        assert(switchable()(ws[j]));
    }
}

} // verus!
