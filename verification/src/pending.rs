//! The data cache's queue of pending mutations.
//!
//! Reads are answered from a cached snapshot; mutations and refreshes
//! go to a worker. Two coalescing rules keep a slider drag from building
//! a backlog: mutations are coalesced by kind (the last one of a kind
//! wins), and a refresh requested while one is pending is a no-op. The
//! worker takes the pending mutations, in order, before a snapshot.
//! Running the worker thread is the caller's.

use vstd::prelude::*;

verus! {

/// What a pending mutation changes.
#[derive(Clone, Copy, PartialEq, Eq, Debug, Structural)]
pub enum MutationKind {
    WifiEnabled,
    WifiScan,
    WifiConnect,
    WifiDisconnect,
    BtEnabled,
    BtConnect,
    BtScan,
    Sink,
    Volume,
    Muted,
}

/// Whether the UI has to read the system state back after a mutation of
/// this kind: not for volume and mute, which the panel shows as set.
pub open spec fn needs_snapshot(k: MutationKind) -> bool {
    !(k == MutationKind::Volume || k == MutationKind::Muted)
}

pub fn wants_snapshot(k: MutationKind) -> (r: bool)
    ensures
        r == needs_snapshot(k),
{
    !(k == MutationKind::Volume || k == MutationKind::Muted)
}

pub open spec fn other_kind<T>(k: MutationKind) -> spec_fn((MutationKind, T)) -> bool {
    |e: (MutationKind, T)| e.0 != k
}

/// No kind occurs twice.
pub open spec fn kinds_distinct<T>(s: Seq<(MutationKind, T)>) -> bool {
    forall|i: int, j: int| 0 <= i < j < s.len() ==> (#[trigger] s[i]).0 != (#[trigger] s[j]).0
}

/// The queue after adding `x` of kind `k`: any pending one of that kind
/// is dropped, the others keep their order, and `x` goes last.
pub open spec fn coalesced<T>(s: Seq<(MutationKind, T)>, k: MutationKind, x: T) -> Seq<(MutationKind, T)> {
    s.filter(other_kind(k)).push((k, x))
}

/// The pending mutations (payloads of type `T`, in the order they run)
/// and whether a snapshot is wanted.
pub struct Pending<T> {
    items: Vec<(MutationKind, T)>,
    refresh: bool,
}

impl<T> Pending<T> {
    #[verifier::type_invariant]
    spec fn inv(self) -> bool {
        kinds_distinct(self.items@)
    }

    pub closed spec fn items(self) -> Seq<(MutationKind, T)> {
        self.items@
    }

    pub closed spec fn refresh_wanted(self) -> bool {
        self.refresh
    }

    pub fn new() -> (p: Self)
        ensures
            p.items() == Seq::<(MutationKind, T)>::empty(),
            !p.refresh_wanted(),
    {
        Pending { items: Vec::new(), refresh: false }
    }

    /// Ask for a snapshot; asking again before the worker runs changes
    /// nothing.
    pub fn request_refresh(&mut self)
        ensures
            final(self).items() == old(self).items(),
            final(self).refresh_wanted(),
    {
        proof {
            use_type_invariant(&*self);
        }
        self.refresh = true;
    }

    /// Queue `x`, a mutation of kind `k`, replacing a pending one of the
    /// same kind; a snapshot is wanted afterwards unless the kind is shown
    /// locally.
    pub fn mutate(&mut self, k: MutationKind, x: T)
        ensures
            final(self).items() == coalesced(old(self).items(), k, x),
            final(self).refresh_wanted() == (old(self).refresh_wanted() || needs_snapshot(k)),
    {
        proof {
            use_type_invariant(&*self);
        }
        let mut old_items: Vec<(MutationKind, T)> = Vec::new();
        std::mem::swap(&mut old_items, &mut self.items);
        let ghost all = old_items@;
        let n = old_items.len();
        let mut kept: Vec<(MutationKind, T)> = Vec::new();
        let mut i: usize = 0;
        proof {
            assert(all.take(0) =~= Seq::<(MutationKind, T)>::empty());
            lemma_filter_empty::<T>(k);
        }
        while old_items.len() > 0
            invariant
                all.len() == n,
                i + old_items@.len() == all.len(),
                old_items@ == all.skip(i as int),
                kept@ == all.take(i as int).filter(other_kind(k)),
            decreases old_items@.len(),
        {
            let e = old_items.remove(0);
            proof {
                assert(all.take(i + 1) =~= all.take(i as int).push(e));
                all.take(i as int).lemma_filter_push(e, other_kind(k));
                assert(old_items@ =~= all.skip(i + 1));
            }
            if e.0 != k {
                kept.push(e);
            }
            i = i + 1;
        }
        proof {
            assert(all.take(all.len() as int) =~= all);
            lemma_coalesced_distinct(all, k, x);
        }
        kept.push((k, x));
        self.items = kept;
        self.refresh = self.refresh || wants_snapshot(k);
    }

    /// Take everything pending for the worker: the mutations in order and
    /// whether a snapshot was wanted; the queue is left empty.
    pub fn take(&mut self) -> (r: (Vec<(MutationKind, T)>, bool))
        ensures
            r.0@ == old(self).items(),
            r.1 == old(self).refresh_wanted(),
            final(self).items() == Seq::<(MutationKind, T)>::empty(),
            !final(self).refresh_wanted(),
    {
        let mut out: Vec<(MutationKind, T)> = Vec::new();
        std::mem::swap(&mut out, &mut self.items);
        let r = self.refresh;
        proof {
            assert(kinds_distinct(self.items@));
        }
        self.refresh = false;
        (out, r)
    }
}

proof fn lemma_filter_empty<T>(k: MutationKind)
    ensures
        Seq::<(MutationKind, T)>::empty().filter(other_kind(k)) == Seq::<(MutationKind, T)>::empty(),
{
    reveal(Seq::filter);
}

/// Coalescing keeps kinds distinct.
proof fn lemma_coalesced_distinct<T>(s: Seq<(MutationKind, T)>, k: MutationKind, x: T)
    requires
        kinds_distinct(s),
    ensures
        kinds_distinct(coalesced(s, k, x)),
{
    let f = s.filter(other_kind(k));
    lemma_filter_distinct(s, k);
    assert forall|i: int| 0 <= i < f.len() implies (#[trigger] f[i]).0 != k by {
        s.lemma_filter_pred(other_kind(k), i);
    }
    let t = f.push((k, x));
    assert forall|i: int, j: int| 0 <= i < j < t.len() implies (#[trigger] t[i]).0 != (
    #[trigger] t[j]).0 by {
        if j == t.len() - 1 {
            assert(t[i] == f[i]);
        } else {
            assert(t[i] == f[i]);
            assert(t[j] == f[j]);
        }
    }
}

/// A filtered queue keeps distinct kinds distinct.
proof fn lemma_filter_distinct<T>(s: Seq<(MutationKind, T)>, k: MutationKind)
    requires
        kinds_distinct(s),
    ensures
        kinds_distinct(s.filter(other_kind(k))),
    decreases s.len(),
{
    if s.len() == 0 {
        lemma_filter_empty::<T>(k);
        assert(s =~= Seq::<(MutationKind, T)>::empty());
    } else {
        let p = s.drop_last();
        let last = s.last();
        assert(s =~= p.push(last));
        p.lemma_filter_push(last, other_kind(k));
        assert forall|i: int, j: int| 0 <= i < j < p.len() implies (#[trigger] p[i]).0 != (
        #[trigger] p[j]).0 by {
            assert(p[i] == s[i]);
            assert(p[j] == s[j]);
        }
        lemma_filter_distinct(p, k);
        let fp = p.filter(other_kind(k));
        let f = s.filter(other_kind(k));
        if other_kind(k)(last) {
            assert forall|i: int, j: int| 0 <= i < j < f.len() implies (#[trigger] f[i]).0 != (
            #[trigger] f[j]).0 by {
                assert(f[i] == fp[i]);
                if j == f.len() - 1 {
                    assert(f[j] == last);
                    assert(fp.contains(fp[i]));
                    p.lemma_filter_contains_rev(other_kind(k), fp[i]);
                    let m = choose|m: int| 0 <= m < p.len() && p[m] == fp[i];
                    assert(s[m] == p[m]);
                    assert(s[s.len() - 1] == last);
                } else {
                    assert(f[j] == fp[j]);
                }
            }
        }
    }
}

/// The last mutation of a kind wins: after queueing `x` of kind `k`,
/// exactly one pending mutation has kind `k`, and it is `x`, the last
/// in the queue; the other kinds are still pending, in their order.
pub proof fn law_last_of_kind_wins<T>(s: Seq<(MutationKind, T)>, k: MutationKind, x: T)
    requires
        kinds_distinct(s),
    ensures
        kinds_distinct(coalesced(s, k, x)),
        coalesced(s, k, x).last() == (k, x),
        forall|i: int|
            0 <= i < coalesced(s, k, x).len() - 1 ==> (#[trigger] coalesced(s, k, x)[i]).0 != k,
        coalesced(s, k, x).drop_last() == s.filter(other_kind(k)),
{
    lemma_coalesced_distinct(s, k, x);
    let f = s.filter(other_kind(k));
    assert forall|i: int| 0 <= i < coalesced(s, k, x).len() - 1 implies (#[trigger] coalesced(
        s,
        k,
        x,
    )[i]).0 != k by {
        s.lemma_filter_pred(other_kind(k), i);
        assert(coalesced(s, k, x)[i] == f[i]);
    }
    assert(coalesced(s, k, x).drop_last() =~= f);
}

} // verus!
