//! The simulation engine: one tick either continues the cascade in progress
//! or, once the grid is quiescent, closes it and drops a new grain.

use crate::grid::{after_pass, firing_count, Board};
use crate::stats::{push_recent, push_top, CascadeStats, WINDOW_LEN};
use vstd::prelude::*;

verus! {

/// The running cascade total after a pass that toppled `toppled` cells: it
/// grows while passes topple, and starts again from zero once one does not.
pub open spec fn next_cascade_total(total: nat, toppled: nat) -> nat {
    if toppled == 0 {
        0
    } else {
        total + toppled
    }
}

/// The running total after passes that toppled `counts`, in order, starting
/// from `start`.
pub open spec fn total_after(start: nat, counts: Seq<nat>) -> nat
    decreases counts.len(),
{
    if counts.len() == 0 {
        start
    } else {
        next_cascade_total(total_after(start, counts.drop_last()), counts.last())
    }
}

/// Sum of `counts`.
pub open spec fn sum_counts(counts: Seq<nat>) -> nat
    decreases counts.len(),
{
    if counts.len() == 0 {
        0
    } else {
        sum_counts(counts.drop_last()) + counts.last()
    }
}

/// Over consecutive passes that each topple at least one cell, the running
/// total grows by exactly the sum of what they toppled.
pub proof fn lemma_cascade_total_is_sum(start: nat, counts: Seq<nat>)
    requires
        forall|i: int| 0 <= i < counts.len() ==> counts[i] > 0,
    ensures
        total_after(start, counts) == start + sum_counts(counts),
    decreases counts.len(),
{
    if counts.len() > 0 {
        lemma_cascade_total_is_sum(start, counts.drop_last());
    }
}

/// A grid, the cascade in progress on it, and the statistics of past
/// cascades.
pub struct Sandpile {
    board: Board,
    stats: CascadeStats,
    cascade_total: u64,
}

impl Sandpile {
    pub closed spec fn board_view(&self) -> Board {
        self.board
    }

    pub closed spec fn stats_view(&self) -> CascadeStats {
        self.stats
    }

    /// Topplings so far in the cascade in progress.
    pub closed spec fn cascade_total_view(&self) -> nat {
        self.cascade_total as nat
    }

    /// The grid and the statistics are well formed and no cell is too full
    /// for the next pass.
    pub open spec fn wf(&self) -> bool {
        &&& self.board_view().wf()
        &&& self.board_view().fits_pass()
        &&& self.stats_view().wf()
    }

    /// An empty `width` by `height` grid with no cascade recorded.
    pub fn new(width: usize, height: usize) -> (r: Sandpile)
        requires
            width > 0,
            height > 0,
            width * height <= usize::MAX,
        ensures
            r.wf(),
            r.board_view().width_view() == width,
            r.board_view().height_view() == height,
            r.board_view().cells_view() == Seq::new((width * height) as nat, |i: int| 0u8),
            r.cascade_total_view() == 0,
            r.stats_view().recent_view() == Seq::new(WINDOW_LEN as nat, |i: int| 0u64),
            r.stats_view().top_view() == Seq::new(WINDOW_LEN as nat, |i: int| 0u64),
    {
        Sandpile { board: Board::new(width, height), stats: CascadeStats::new(), cascade_total: 0 }
    }

    /// Accounts for a pass that toppled `toppled` cells. A pass that toppled
    /// some adds them to the cascade in progress. One that toppled none ends
    /// it: a cascade with a positive total is recorded in the statistics, and
    /// the total starts again from zero. Returns whether the grid is
    /// quiescent, so that a grain is due.
    fn account(&mut self, toppled: usize) -> (quiescent: bool)
        requires
            old(self).stats.wf(),
            old(self).cascade_total + toppled <= u64::MAX,
        ensures
            final(self).stats.wf(),
            final(self).board == old(self).board,
            quiescent == (toppled == 0),
            final(self).cascade_total == next_cascade_total(
                old(self).cascade_total as nat,
                toppled as nat,
            ),
            toppled == 0 && old(self).cascade_total > 0 ==> final(self).stats.recent_view()
                == push_recent(old(self).stats.recent_view(), old(self).cascade_total)
                && final(self).stats.top_view() == push_top(
                old(self).stats.top_view(),
                old(self).cascade_total,
            ),
            !(toppled == 0 && old(self).cascade_total > 0) ==> final(self).stats == old(self).stats,
    {
        if toppled == 0 {
            if self.cascade_total > 0 {
                self.stats.on_cascade_closed(self.cascade_total);
                self.cascade_total = 0;
            }
            true
        } else {
            self.cascade_total = self.cascade_total + toppled as u64;
            false
        }
    }

    /// One tick: a toppling pass; if it toppled no cell, the cascade in
    /// progress is closed and a grain drops on a cell drawn uniformly at
    /// random. Returns how many cells toppled.
    pub fn tick(&mut self) -> (r: usize)
        requires
            old(self).wf(),
            old(self).cascade_total_view() + old(self).board_view().cells_view().len() <= u64::MAX,
        ensures
            final(self).wf(),
            Self::ticked(*old(self), *final(self), r),
            r == 0 ==> exists|index: int|
                0 <= index < old(self).board_view().cells_view().len()
                    && final(self).board_view().cells_view()
                    == old(self).board_view().cells_view().update(
                    index,
                    (old(self).board_view().cells_view()[index] + 1) as u8,
                ),
    {
        proof {
            self.board.lemma_wf();
        }
        let toppled = self.board.collapse_pass();
        proof {
            crate::grid::lemma_quiescent_and_bounded(
                self.board.cells_view(),
                old(self).board.cells_view(),
                self.board.width_view() as int,
            );
        }
        if self.account(toppled) {
            self.board.inject_grain();
        }
        toppled
    }

    /// One tick that, if the grid is quiescent, drops its grain on the cell
    /// stored at `drop_index`. Returns how many cells toppled.
    pub fn tick_at(&mut self, drop_index: usize) -> (r: usize)
        requires
            old(self).wf(),
            old(self).cascade_total_view() + old(self).board_view().cells_view().len() <= u64::MAX,
            drop_index < old(self).board_view().cells_view().len(),
        ensures
            final(self).wf(),
            Self::ticked(*old(self), *final(self), r),
            r == 0 ==> final(self).board_view().cells_view()
                == old(self).board_view().cells_view().update(
                drop_index as int,
                (old(self).board_view().cells_view()[drop_index as int] + 1) as u8,
            ),
    {
        proof {
            self.board.lemma_wf();
        }
        let toppled = self.board.collapse_pass();
        proof {
            crate::grid::lemma_quiescent_and_bounded(
                self.board.cells_view(),
                old(self).board.cells_view(),
                self.board.width_view() as int,
            );
        }
        if self.account(toppled) {
            self.board.inject_at(drop_index);
        }
        toppled
    }

    /// What a tick from `pre` to `post` that toppled `r` cells does, apart
    /// from where its grain drops: `r` counts the cells that topple from the
    /// grid of `pre`; if some did, the grid is that after the pass and they
    /// join the cascade in progress; if none did, the cascade is closed,
    /// recorded when its total is positive, and the total starts from zero.
    pub open spec fn ticked(pre: Sandpile, post: Sandpile, r: usize) -> bool {
        let s = pre.board_view().cells_view();
        let w = pre.board_view().width_view() as int;
        &&& r == firing_count(s)
        &&& post.board_view().width_view() == pre.board_view().width_view()
        &&& post.board_view().height_view() == pre.board_view().height_view()
        &&& post.cascade_total_view() == next_cascade_total(pre.cascade_total_view(), r as nat)
        &&& r > 0 ==> post.board_view().cells_view() == after_pass(s, w)
        &&& (r == 0 && pre.cascade_total_view() > 0) ==> {
            &&& post.stats_view().recent_view() == push_recent(
                pre.stats_view().recent_view(),
                pre.cascade_total_view() as u64,
            )
            &&& post.stats_view().top_view() == push_top(
                pre.stats_view().top_view(),
                pre.cascade_total_view() as u64,
            )
        }
        &&& !(r == 0 && pre.cascade_total_view() > 0) ==> post.stats_view() == pre.stats_view()
    }

    /// The grid.
    pub fn board(&self) -> (r: &Board)
        ensures
            *r == self.board_view(),
    {
        &self.board
    }

    /// The statistics of closed cascades.
    pub fn stats(&self) -> (r: &CascadeStats)
        ensures
            *r == self.stats_view(),
    {
        &self.stats
    }

    /// Topplings so far in the cascade in progress.
    pub fn cascade_total(&self) -> (r: u64)
        ensures
            r == self.cascade_total_view(),
    {
        self.cascade_total
    }
}

} // verus!
