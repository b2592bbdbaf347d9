//! Rolling statistics of completed cascades: the most recent totals and the
//! largest totals seen so far, each kept in a window of fixed length.

use std::collections::VecDeque;
use vstd::prelude::*;

verus! {

/// Number of cascade totals that each window holds.
pub const WINDOW_LEN: usize = 10;

/// Whether `s` is sorted from largest to smallest.
pub open spec fn sorted_desc(s: Seq<u64>) -> bool {
    forall|i: int, j: int| 0 <= i < j < s.len() ==> s[i] >= s[j]
}

/// Where `v` goes in a descending sequence: after every element that is at
/// least `v`.
pub open spec fn rank_of(s: Seq<u64>, v: u64) -> nat
    decreases s.len(),
{
    if s.len() == 0 || s[0] < v {
        0
    } else {
        1 + rank_of(s.subrange(1, s.len() as int), v)
    }
}

/// `s` with `v` inserted at its rank.
pub open spec fn ranked_insert(s: Seq<u64>, v: u64) -> Seq<u64> {
    s.insert(rank_of(s, v) as int, v)
}

/// The recent window after a cascade of `total`: newest first, oldest dropped.
pub open spec fn push_recent(s: Seq<u64>, total: u64) -> Seq<u64> {
    seq![total] + s.subrange(0, s.len() - 1)
}

/// The top window after a cascade of `total`: inserted at its rank, smallest
/// dropped.
pub open spec fn push_top(s: Seq<u64>, total: u64) -> Seq<u64> {
    ranked_insert(s, total).subrange(0, s.len() as int)
}

/// The element that `push_top` evicts.
pub open spec fn evicted_from_top(s: Seq<u64>, total: u64) -> u64 {
    ranked_insert(s, total).last()
}

/// Elements before `rank_of(s, v)` are at least `v`; the one at it, if any,
/// is smaller.
proof fn lemma_rank_of(s: Seq<u64>, v: u64)
    ensures
        rank_of(s, v) <= s.len(),
        forall|j: int| 0 <= j < rank_of(s, v) ==> s[j] >= v,
        rank_of(s, v) < s.len() ==> s[rank_of(s, v) as int] < v,
    decreases s.len(),
{
    if s.len() > 0 && s[0] >= v {
        let t = s.subrange(1, s.len() as int);
        lemma_rank_of(t, v);
        assert forall|j: int| 0 <= j < rank_of(s, v) implies s[j] >= v by {
            if j > 0 {
                assert(s[j] == t[j - 1]);
            }
        }
    }
}

/// A descending sequence stays descending when `v` is inserted at its rank.
proof fn lemma_ranked_insert_sorted(s: Seq<u64>, v: u64)
    requires
        sorted_desc(s),
    ensures
        sorted_desc(ranked_insert(s, v)),
        ranked_insert(s, v).len() == s.len() + 1,
{
    lemma_rank_of(s, v);
    let p = rank_of(s, v) as int;
    let r = ranked_insert(s, v);
    assert forall|i: int, j: int| 0 <= i < j < r.len() implies r[i] >= r[j] by {
        if j < p {
        } else if j == p {
        } else if i < p {
            assert(r[j] == s[j - 1]);
            assert(s[i] >= s[j - 1]);
        } else if i == p {
            assert(r[j] == s[j - 1]);
            assert(s[p] >= s[j - 1] || j - 1 == p);
        } else {
            assert(r[i] == s[i - 1] && r[j] == s[j - 1]);
        }
    }
}

/// Recording a total keeps the top window at `WINDOW_LEN` entries sorted
/// from largest to smallest, and no entry that stays is smaller than the one
/// that leaves.
pub proof fn lemma_top_window_bounds(s: Seq<u64>, total: u64)
    requires
        s.len() == WINDOW_LEN,
        sorted_desc(s),
    ensures
        push_top(s, total).len() == WINDOW_LEN,
        sorted_desc(push_top(s, total)),
        forall|i: int|
            0 <= i < WINDOW_LEN ==> #[trigger] push_top(s, total)[i] >= evicted_from_top(s, total),
{
    lemma_rank_of(s, total);
    lemma_ranked_insert_sorted(s, total);
    let r = ranked_insert(s, total);
    assert forall|i: int| 0 <= i < WINDOW_LEN implies #[trigger] push_top(s, total)[i]
        >= evicted_from_top(s, total) by {
        assert(push_top(s, total)[i] == r[i]);
    }
}

/// The two windows of cascade totals.
pub struct CascadeStats {
    recent: VecDeque<u64>,
    top: VecDeque<u64>,
}

impl CascadeStats {
    /// The most recent totals, newest first.
    pub closed spec fn recent_view(&self) -> Seq<u64> {
        self.recent@
    }

    /// The largest totals seen, largest first.
    pub closed spec fn top_view(&self) -> Seq<u64> {
        self.top@
    }

    /// Both windows hold exactly `WINDOW_LEN` totals and the top one is
    /// sorted from largest to smallest.
    pub open spec fn wf(&self) -> bool {
        &&& self.recent_view().len() == WINDOW_LEN
        &&& self.top_view().len() == WINDOW_LEN
        &&& sorted_desc(self.top_view())
    }

    /// Both windows filled with zeros.
    pub fn new() -> (r: CascadeStats)
        ensures
            r.wf(),
            r.recent_view() == Seq::new(WINDOW_LEN as nat, |i: int| 0u64),
            r.top_view() == Seq::new(WINDOW_LEN as nat, |i: int| 0u64),
    {
        let mut recent: VecDeque<u64> = VecDeque::new();
        let mut top: VecDeque<u64> = VecDeque::new();
        let mut i: usize = 0;
        while i < WINDOW_LEN
            invariant
                i <= WINDOW_LEN,
                recent@ == Seq::new(i as nat, |k: int| 0u64),
                top@ == Seq::new(i as nat, |k: int| 0u64),
            decreases WINDOW_LEN - i,
        {
            recent.push_back(0);
            top.push_back(0);
            i = i + 1;
            assert(recent@ =~= Seq::new(i as nat, |k: int| 0u64));
            assert(top@ =~= Seq::new(i as nat, |k: int| 0u64));
        }
        CascadeStats { recent, top }
    }

    /// Records a finished cascade of `total` topplings: it goes to the front
    /// of the recent window, whose oldest entry leaves, and into the top
    /// window at its rank, whose smallest entry leaves. Every entry that stays
    /// in the top window is at least the one that left.
    pub fn on_cascade_closed(&mut self, total: u64)
        requires
            old(self).wf(),
        ensures
            final(self).wf(),
            final(self).recent_view() == push_recent(old(self).recent_view(), total),
            final(self).top_view() == push_top(old(self).top_view(), total),
            forall|i: int|
                0 <= i < WINDOW_LEN ==> final(self).top_view()[i] >= evicted_from_top(
                    old(self).top_view(),
                    total,
                ),
    {
        self.recent.pop_back();
        self.recent.push_front(total);

        let ghost s = self.top@;
        proof {
            lemma_rank_of(s, total);
            lemma_ranked_insert_sorted(s, total);
        }
        let mut p: usize = 0;
        while p < self.top.len() && self.top[p] >= total
            invariant
                self.top@ == s,
                s.len() == WINDOW_LEN,
                sorted_desc(s),
                p <= rank_of(s, total) <= s.len(),
                forall|j: int| 0 <= j < rank_of(s, total) ==> s[j] >= total,
                rank_of(s, total) < s.len() ==> s[rank_of(s, total) as int] < total,
            decreases WINDOW_LEN - p,
        {
            p = p + 1;
        }
        self.top.insert(p, total);
        self.top.pop_back();
        proof {
            assert(self.top@ =~= push_top(s, total));
            lemma_top_window_bounds(s, total);
        }
    }

    /// The recent window, newest first.
    pub fn recent_window(&self) -> (r: Vec<u64>)
        ensures
            r@ == self.recent_view(),
    {
        let mut out: Vec<u64> = Vec::new();
        let mut i: usize = 0;
        while i < self.recent.len()
            invariant
                i <= self.recent@.len(),
                out@ == self.recent@.subrange(0, i as int),
            decreases self.recent@.len() - i,
        {
            out.push(self.recent[i]);
            i = i + 1;
            assert(out@ =~= self.recent@.subrange(0, i as int));
        }
        assert(out@ =~= self.recent@);
        out
    }

    /// The top window, largest first.
    pub fn top_window(&self) -> (r: Vec<u64>)
        ensures
            r@ == self.top_view(),
    {
        let mut out: Vec<u64> = Vec::new();
        let mut i: usize = 0;
        while i < self.top.len()
            invariant
                i <= self.top@.len(),
                out@ == self.top@.subrange(0, i as int),
            decreases self.top@.len() - i,
        {
            out.push(self.top[i]);
            i = i + 1;
            assert(out@ =~= self.top@.subrange(0, i as int));
        }
        assert(out@ =~= self.top@);
        out
    }
}

} // verus!
