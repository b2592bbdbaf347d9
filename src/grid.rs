//! The grid of grain counts, its synchronous toppling pass and grain
//! injection.

use vstd::prelude::*;

verus! {

/// A cell holding at least this many grains topples.
pub const TOPPLE_AT: u8 = 4;

/// The largest cell value from which a pass cannot overflow a cell: a cell
/// gains at most one grain from each of its four neighbours.
pub const MAX_GRAINS: u8 = 251;

/// Total number of grains in `s`.
pub open spec fn grains(s: Seq<u8>) -> int
    decreases s.len(),
{
    if s.len() == 0 {
        0
    } else {
        grains(s.drop_last()) + s.last() as int
    }
}

/// Cell `j` exists and topples in a pass that starts from `s`.
pub open spec fn fires(s: Seq<u8>, j: int) -> bool {
    0 <= j < s.len() && s[j] >= TOPPLE_AT
}

/// Grains that cell `i` receives in a pass from `s` on a grid of width `w`,
/// counting only neighbours with index below `k` (the cells visited so far).
pub open spec fn incoming_before(s: Seq<u8>, w: int, k: int, i: int) -> int {
    (if i % w > 0 && i - 1 < k && fires(s, i - 1) { 1int } else { 0 }) + (if i % w + 1 < w && i
        + 1 < k && fires(s, i + 1) {
        1int
    } else {
        0
    }) + (if i >= w && i - w < k && fires(s, i - w) { 1int } else { 0 }) + (if i + w < s.len()
        && i + w < k && fires(s, i + w) {
        1int
    } else {
        0
    })
}

/// Value of cell `i` once the cells with index below `k` have been visited.
pub open spec fn cell_after_prefix(s: Seq<u8>, w: int, k: int, i: int) -> int {
    s[i] as int - (if i < k && fires(s, i) { 4int } else { 0 }) + incoming_before(s, w, k, i)
}

/// Grains that cell `i` receives in a pass from `s`: one from each in-grid
/// orthogonal neighbour that topples.
pub open spec fn incoming(s: Seq<u8>, w: int, i: int) -> int {
    incoming_before(s, w, s.len() as int, i)
}

/// Value of cell `i` after one synchronous pass from `s` on a grid of width
/// `w`: it loses four grains if it topples and gains one from each toppling
/// neighbour. Every decision is taken on `s`, the state before the pass.
pub open spec fn cell_after_pass(s: Seq<u8>, w: int, i: int) -> int {
    s[i] as int - (if fires(s, i) { 4int } else { 0 }) + incoming(s, w, i)
}

/// The grid after one synchronous pass from `s`.
pub open spec fn after_pass(s: Seq<u8>, w: int) -> Seq<u8> {
    Seq::new(s.len(), |i: int| cell_after_pass(s, w, i) as u8)
}

/// Number of cells with index below `k` that topple in a pass from `s`.
pub open spec fn firing_before(s: Seq<u8>, k: int) -> nat
    decreases k,
{
    if k <= 0 {
        0
    } else {
        firing_before(s, k - 1) + (if fires(s, k - 1) { 1nat } else { 0 })
    }
}

/// Number of cells that topple in a pass from `s`.
pub open spec fn firing_count(s: Seq<u8>) -> nat {
    firing_before(s, s.len() as int)
}

/// Orthogonal neighbours of cell `j` that fall outside a grid of width `w`
/// holding `n` cells.
pub open spec fn missing_neighbours(w: int, n: int, j: int) -> int {
    (if j % w == 0 { 1int } else { 0 }) + (if j % w + 1 == w { 1int } else { 0 }) + (if j < w {
        1int
    } else {
        0
    }) + (if j + w >= n { 1int } else { 0 })
}

/// Grains that leave the grid through its edges from toppling cells with index
/// below `k`: one for each missing neighbour.
pub open spec fn loss_before(s: Seq<u8>, w: int, k: int) -> int
    decreases k,
{
    if k <= 0 {
        0
    } else {
        loss_before(s, w, k - 1) + (if fires(s, k - 1) {
            missing_neighbours(w, s.len() as int, k - 1)
        } else {
            0
        })
    }
}

/// Grains that leave the grid in a pass from `s`.
pub open spec fn boundary_loss(s: Seq<u8>, w: int) -> int {
    loss_before(s, w, s.len() as int)
}

/// Cell `j` lies on the edge of a grid of width `w` holding `n` cells.
pub open spec fn on_edge(w: int, n: int, j: int) -> bool {
    missing_neighbours(w, n, j) > 0
}

/// Changing one cell changes the total by the difference.
pub proof fn lemma_grains_update(s: Seq<u8>, j: int, v: u8)
    requires
        0 <= j < s.len(),
    ensures
        grains(s.update(j, v)) == grains(s) - s[j] as int + v as int,
    decreases s.len(),
{
    let t = s.update(j, v);
    if j == s.len() - 1 {
        assert(t.drop_last() =~= s.drop_last());
    } else {
        assert(t.drop_last() =~= s.drop_last().update(j, v));
        lemma_grains_update(s.drop_last(), j, v);
    }
}

/// Position facts of index `x + y * w` and of its four neighbours.
proof fn lemma_index(w: int, h: int, x: int, y: int)
    requires
        w > 0,
        0 <= x < w,
        0 <= y < h,
    ensures
        0 <= x + y * w < w * h,
        y * w + w <= w * h,
        y >= 1 ==> y * w >= w,
        (x + y * w) % w == x,
        (x + y * w < w) == (y == 0),
        (x + y * w + w < w * h) == (y + 1 < h),
        x + 1 < w ==> (x + y * w + 1) % w == x + 1,
        x + 1 == w ==> (x + y * w + 1) % w == 0,
        x >= 1 ==> (x + y * w - 1) % w == x - 1,
        x == 0 && y >= 1 ==> (x + y * w - 1) % w == w - 1,
        (x + y * w + w) % w == x,
        y >= 1 ==> (x + y * w - w) % w == x,
{
    let k = x + y * w;
    assert(y * w + w == (y + 1) * w) by (nonlinear_arith);
    assert((y + 1) * w <= h * w) by (nonlinear_arith)
        requires
            y + 1 <= h,
            w > 0,
    ;
    assert(w * h == h * w) by (nonlinear_arith);
    assert(y >= 1 ==> y * w >= w) by (nonlinear_arith)
        requires
            w > 0,
            y >= 0,
    ;
    if y + 1 < h {
        assert((y + 2) * w <= h * w) by (nonlinear_arith)
            requires
                y + 2 <= h,
                w > 0,
        ;
        assert((y + 2) * w == y * w + 2 * w) by (nonlinear_arith);
    } else {
        assert(h * w == (y + 1) * w);
    }
    vstd::arithmetic::div_mod::lemma_fundamental_div_mod_converse(k, w, y, x);
    vstd::arithmetic::div_mod::lemma_fundamental_div_mod_converse(k + w, w, y + 1, x);
    if x + 1 < w {
        vstd::arithmetic::div_mod::lemma_fundamental_div_mod_converse(k + 1, w, y, x + 1);
    } else {
        vstd::arithmetic::div_mod::lemma_fundamental_div_mod_converse(k + 1, w, y + 1, 0);
    }
    if x >= 1 {
        vstd::arithmetic::div_mod::lemma_fundamental_div_mod_converse(k - 1, w, y, x - 1);
    } else if y >= 1 {
        assert((y - 1) * w == y * w - w) by (nonlinear_arith);
        vstd::arithmetic::div_mod::lemma_fundamental_div_mod_converse(k - 1, w, y - 1, w - 1);
    }
    if y >= 1 {
        assert((y - 1) * w == y * w - w) by (nonlinear_arith);
        vstd::arithmetic::div_mod::lemma_fundamental_div_mod_converse(k - w, w, y - 1, x);
    }
}

/// What visiting cell `k = x + y * w` in a pass from `s` adds to cell `i`.
spec fn visit_delta(s: Seq<u8>, w: int, h: int, x: int, y: int, i: int) -> int {
    let k = x + y * w;
    if fires(s, k) {
        (if i == k { -4int } else { 0 })
            + (if x + 1 < w && i == k + 1 { 1int } else { 0 })
            + (if x >= 1 && i == k - 1 { 1int } else { 0 })
            + (if y + 1 < h && i == k + w { 1int } else { 0 })
            + (if y >= 1 && i == k - w { 1int } else { 0 })
    } else {
        0
    }
}

/// Visiting cell `k = x + y * w` changes the running state of each cell by
/// what the pass writes there.
proof fn lemma_visit(s: Seq<u8>, w: int, h: int, x: int, y: int)
    requires
        w > 0,
        0 <= x < w,
        0 <= y < h,
        s.len() == w * h,
    ensures
        forall|i: int|
            0 <= i < s.len() ==> #[trigger] cell_after_prefix(s, w, x + y * w + 1, i)
                == cell_after_prefix(s, w, x + y * w, i) + visit_delta(s, w, h, x, y, i),
{
    lemma_index(w, h, x, y);
}

/// Bounds on the running state: it never goes below zero and never rises more
/// than four above the starting value.
proof fn lemma_prefix_bounds(s: Seq<u8>, w: int, k: int, i: int)
    requires
        w > 0,
        0 <= i < s.len(),
    ensures
        0 <= cell_after_prefix(s, w, k, i) <= s[i] + 4,
{
}


/// A grid of `width` by `height` cells, each holding a number of grains.
/// Cell `(x, y)` is stored at index `x + y * width`.
pub struct Board {
    cells: Vec<u8>,
    cells_cache: Vec<u8>,
    width: usize,
    height: usize,
    rng: rand::rngs::ThreadRng,
}

impl Board {
    /// The grain counts, in row-major order.
    pub closed spec fn cells_view(&self) -> Seq<u8> {
        self.cells@
    }

    pub closed spec fn width_view(&self) -> nat {
        self.width as nat
    }

    pub closed spec fn height_view(&self) -> nat {
        self.height as nat
    }

    /// Both dimensions are positive and both buffers hold one entry per cell.
    pub closed spec fn wf(&self) -> bool {
        &&& self.width > 0
        &&& self.height > 0
        &&& self.cells@.len() == self.width * self.height
        &&& self.cells_cache@.len() == self.cells@.len()
    }

    /// No cell is so full that a pass could overflow it.
    pub open spec fn fits_pass(&self) -> bool {
        forall|i: int| 0 <= i < self.cells_view().len() ==> self.cells_view()[i] <= MAX_GRAINS
    }

    /// Facts that `wf` gives to callers.
    pub proof fn lemma_wf(&self)
        requires
            self.wf(),
        ensures
            self.width_view() > 0,
            self.height_view() > 0,
            self.cells_view().len() == self.width_view() * self.height_view(),
    {
    }

    /// An empty grid of `width` by `height` cells.
    pub fn new(width: usize, height: usize) -> (r: Board)
        requires
            width > 0,
            height > 0,
            width * height <= usize::MAX,
        ensures
            r.wf(),
            r.fits_pass(),
            r.width_view() == width,
            r.height_view() == height,
            r.cells_view() == Seq::new((width * height) as nat, |i: int| 0u8),
    {
        let n = width * height;
        let mut cells: Vec<u8> = Vec::new();
        let mut cells_cache: Vec<u8> = Vec::new();
        let mut i: usize = 0;
        while i < n
            invariant
                i <= n,
                cells@ == Seq::new(i as nat, |k: int| 0u8),
                cells_cache@.len() == i,
            decreases n - i,
        {
            cells.push(0);
            cells_cache.push(0);
            i = i + 1;
            assert(cells@ =~= Seq::new(i as nat, |k: int| 0u8));
        }
        Board { cells, cells_cache, width, height, rng: rand::thread_rng() }
    }

    /// One synchronous toppling pass. Every cell that held at least four
    /// grains at the start of the pass loses four, and each of its in-grid
    /// orthogonal neighbours gains one; grains sent past an edge are lost.
    /// Returns how many cells toppled.
    pub fn collapse_pass(&mut self) -> (r: usize)
        requires
            old(self).wf(),
            old(self).fits_pass(),
        ensures
            final(self).wf(),
            final(self).fits_pass(),
            final(self).width_view() == old(self).width_view(),
            final(self).height_view() == old(self).height_view(),
            final(self).cells_view().len() == old(self).cells_view().len(),
            forall|i: int|
                0 <= i < old(self).cells_view().len() ==> final(self).cells_view()[i] as int
                    == cell_after_pass(old(self).cells_view(), old(self).width_view() as int, i),
            final(self).cells_view() == after_pass(
                old(self).cells_view(),
                old(self).width_view() as int,
            ),
            r == firing_count(old(self).cells_view()),
            r <= old(self).cells_view().len(),
            grains(final(self).cells_view()) == grains(old(self).cells_view()) - boundary_loss(
                old(self).cells_view(),
                old(self).width_view() as int,
            ),
    {
        let ghost s = self.cells@;
        let w = self.width;
        let h = self.height;
        let n = self.cells.len();
        // Every decision of the pass reads this copy of the state before it.
        let mut c: usize = 0;
        while c < n
            invariant
                self.wf(),
                n == self.cells@.len(),
                self.cells@ == s,
                self.width == w,
                self.height == h,
                c <= n,
                forall|i: int| 0 <= i < c ==> self.cells_cache@[i] == s[i],
            decreases n - c,
        {
            let v = self.cells[c];
            self.cells_cache.set(c, v);
            c = c + 1;
        }
        assert(self.cells_cache@ =~= s);

        let mut collapsed: usize = 0;
        let mut k: usize = 0;
        let mut y: usize = 0;
        assert(w * h == h * w) by (nonlinear_arith);
        while y < h
            invariant
                self.wf(),
                self.width == w,
                self.height == h,
                self.cells_cache@ == s,
                s.len() == n,
                n == w * h,
                w > 0,
                y <= h,
                k == y * w,
                forall|i: int| 0 <= i < s.len() ==> s[i] <= MAX_GRAINS,
                forall|i: int|
                    0 <= i < n ==> self.cells@[i] as int == cell_after_prefix(
                        s,
                        w as int,
                        k as int,
                        i,
                    ),
                collapsed == firing_before(s, k as int),
                collapsed <= k,
                grains(self.cells@) == grains(s) - loss_before(s, w as int, k as int),
            decreases h - y,
        {
            assert((y + 1) * w <= h * w && (y + 1) * w == y * w + w) by (nonlinear_arith)
                requires
                    y < h,
            ;
            let mut x: usize = 0;
            while x < w
                invariant
                    self.wf(),
                    self.width == w,
                    self.height == h,
                    self.cells_cache@ == s,
                    s.len() == n,
                    n == w * h,
                    y < h,
                    x <= w,
                    k == x + y * w,
                    (y + 1) * w <= n,
                    forall|i: int| 0 <= i < s.len() ==> s[i] <= MAX_GRAINS,
                    forall|i: int|
                        0 <= i < n ==> self.cells@[i] as int == cell_after_prefix(
                            s,
                            w as int,
                            k as int,
                            i,
                        ),
                    collapsed == firing_before(s, k as int),
                    collapsed <= k,
                    grains(self.cells@) == grains(s) - loss_before(s, w as int, k as int),
                decreases w - x,
            {
                proof {
                    lemma_index(w as int, h as int, x as int, y as int);
                }
                if self.cells_cache[k] >= TOPPLE_AT {
                    collapsed = collapsed + 1;
                }
                self.visit(x, y, k, Ghost(s));
                k = k + 1;
                x = x + 1;
            }
            y = y + 1;
        }
        proof {
            assert(k == n) by (nonlinear_arith)
                requires
                    k == y * w,
                    y == h,
                    n == w * h,
            ;
            assert forall|i: int| 0 <= i < n implies self.cells@[i] as int == cell_after_pass(
                s,
                w as int,
                i,
            ) by {
                assert(self.cells@[i] as int == cell_after_prefix(s, w as int, n as int, i));
            }
            assert forall|i: int| 0 <= i < n implies self.cells@[i] <= MAX_GRAINS by {
                lemma_pass_bound(s, w as int, i);
            }
            assert(self.cells@ =~= after_pass(s, w as int));
        }
        collapsed
    }

    /// Adds one grain to cell `index`.
    pub fn inject_at(&mut self, index: usize)
        requires
            old(self).wf(),
            index < old(self).cells_view().len(),
            old(self).cells_view()[index as int] < u8::MAX,
        ensures
            final(self).wf(),
            final(self).width_view() == old(self).width_view(),
            final(self).height_view() == old(self).height_view(),
            final(self).cells_view() == old(self).cells_view().update(
                index as int,
                (old(self).cells_view()[index as int] + 1) as u8,
            ),
            grains(final(self).cells_view()) == grains(old(self).cells_view()) + 1,
    {
        proof {
            lemma_grains_update(self.cells@, index as int, (self.cells@[index as int] + 1) as u8);
        }
        let v = self.cells[index];
        self.cells.set(index, v + 1);
    }

    /// Adds one grain to a cell drawn uniformly at random.
    pub fn inject_grain(&mut self)
        requires
            old(self).wf(),
            forall|i: int|
                0 <= i < old(self).cells_view().len() ==> old(self).cells_view()[i] < u8::MAX,
        ensures
            final(self).wf(),
            final(self).width_view() == old(self).width_view(),
            final(self).height_view() == old(self).height_view(),
            exists|index: int|
                0 <= index < old(self).cells_view().len() && final(self).cells_view()
                    == old(self).cells_view().update(
                    index,
                    (old(self).cells_view()[index] + 1) as u8,
                ),
            grains(final(self).cells_view()) == grains(old(self).cells_view()) + 1,
    {
        proof {
            assert(self.width * self.height > 0) by (nonlinear_arith)
                requires
                    self.width > 0,
                    self.height > 0,
            ;
        }
        let n = self.cells.len();
        let index = crate::random::random_index(&mut self.rng, n);
        assert(self.cells@ == old(self).cells@);
        assert(old(self).cells_view()[index as int] < u8::MAX);
        self.inject_at(index);
        assert(0 <= index < old(self).cells_view().len() && self.cells_view()
            == old(self).cells_view().update(
            index as int,
            (old(self).cells_view()[index as int] + 1) as u8,
        ));
    }

    /// Sets cell `(x, y)` to `value`.
    pub fn set_cell(&mut self, x: usize, y: usize, value: u8)
        requires
            old(self).wf(),
            x < old(self).width_view(),
            y < old(self).height_view(),
        ensures
            final(self).wf(),
            final(self).width_view() == old(self).width_view(),
            final(self).height_view() == old(self).height_view(),
            final(self).cells_view() == old(self).cells_view().update(
                x + y * old(self).width_view(),
                value,
            ),
    {
        proof {
            lemma_index(self.width as int, self.height as int, x as int, y as int);
        }
        let n = self.cells.len();
        assert(y * self.width <= x + y * self.width < n);
        let index = x + y * self.width;
        self.cells.set(index, value);
    }

    /// The grains in cell `(x, y)`.
    pub fn cell(&self, x: usize, y: usize) -> (r: u8)
        requires
            self.wf(),
            x < self.width_view(),
            y < self.height_view(),
        ensures
            r == self.cells_view()[x + y * self.width_view()],
    {
        proof {
            lemma_index(self.width as int, self.height as int, x as int, y as int);
        }
        let n = self.cells.len();
        assert(y * self.width <= x + y * self.width < n);
        self.cells[x + y * self.width]
    }

    /// The grains in the cell stored at `index`.
    pub fn cell_at(&self, index: usize) -> (r: u8)
        requires
            index < self.cells_view().len(),
        ensures
            r == self.cells_view()[index as int],
    {
        self.cells[index]
    }

    /// Number of cells.
    pub fn len(&self) -> (r: usize)
        ensures
            r == self.cells_view().len(),
    {
        self.cells.len()
    }

    /// The grid as text: one line per row, one character per cell.
    pub fn render(&self) -> (r: String)
        requires
            self.wf(),
        ensures
            r@ == rendered(self.cells_view(), self.width_view() as int, self.height_view() as int),
    {
        let w = self.width;
        let h = self.height;
        let n = self.cells.len();
        let mut out = String::new();
        let mut y: usize = 0;
        while y < h
            invariant
                self.wf(),
                w == self.width,
                h == self.height,
                n == self.cells@.len(),
                y <= h,
                out@ == rendered(self.cells@, w as int, y as int),
            decreases h - y,
        {
            let ghost start = out@;
            let mut x: usize = 0;
            while x < w
                invariant
                    self.wf(),
                    w == self.width,
                    h == self.height,
                    n == self.cells@.len(),
                    y < h,
                    x <= w,
                    start == rendered(self.cells@, w as int, y as int),
                    out@ == start + row_text(self.cells@, w as int, y as int).subrange(0, x as int),
                decreases w - x,
            {
                proof {
                    lemma_index(w as int, h as int, x as int, y as int);
                }
                let v = self.cells[x + y * w];
                out.append(symbol_text(v));
                x = x + 1;
                let ghost row = row_text(self.cells@, w as int, y as int);
                assert(out@ =~= start + row.subrange(0, x as int));
            }
            proof { reveal_strlit("\n"); }
            out.append("\n");
            y = y + 1;
            assert(out@ =~= rendered(self.cells@, w as int, y as int));
        }
        out
    }

    pub fn width(&self) -> (r: usize)
        ensures
            r == self.width_view(),
    {
        self.width
    }

    pub fn height(&self) -> (r: usize)
        ensures
            r == self.height_view(),
    {
        self.height
    }

    /// Visits cell `k = x + y * width` of a pass from `s`: if it toppled in
    /// `s`, it loses four grains and each in-grid neighbour gains one.
    #[verifier::rlimit(50)]
    fn visit(&mut self, x: usize, y: usize, k: usize, Ghost(s): Ghost<Seq<u8>>)
        requires
            old(self).wf(),
            old(self).cells_cache@ == s,
            s.len() == old(self).cells@.len(),
            x < old(self).width,
            y < old(self).height,
            k == x + y * old(self).width,
            forall|i: int| 0 <= i < s.len() ==> s[i] <= MAX_GRAINS,
            forall|i: int|
                0 <= i < s.len() ==> old(self).cells@[i] as int == cell_after_prefix(
                    s,
                    old(self).width as int,
                    k as int,
                    i,
                ),
            grains(old(self).cells@) == grains(s) - loss_before(
                s,
                old(self).width as int,
                k as int,
            ),
        ensures
            final(self).wf(),
            final(self).cells_cache@ == s,
            final(self).width == old(self).width,
            final(self).height == old(self).height,
            firing_before(s, k + 1) == firing_before(s, k as int) + (if fires(s, k as int) {
                1int
            } else {
                0
            }),
            forall|i: int|
                0 <= i < s.len() ==> final(self).cells@[i] as int == cell_after_prefix(
                    s,
                    old(self).width as int,
                    k + 1,
                    i,
                ),
            grains(final(self).cells@) == grains(s) - loss_before(s, old(self).width as int, k + 1),
    {
        let w = self.width;
        let h = self.height;
        let n = self.cells.len();
        assert(n == w * h);
        let index = k;
        proof {
            lemma_index(w as int, h as int, x as int, y as int);
            lemma_visit(s, w as int, h as int, x as int, y as int);
        }
        if self.cells_cache[index] >= TOPPLE_AT {
            proof {
                lemma_prefix_bounds(s, w as int, k as int, index as int);
                let ghost v = (self.cells@[index as int] - 4) as u8;
                lemma_grains_update(self.cells@, index as int, v);
            }
            let v = self.cells[index];
            self.cells.set(index, v - 4);
            if x + 1 < w {
                proof {
                    lemma_prefix_bounds(s, w as int, k as int + 1, index + 1);
                    lemma_grains_update(self.cells@, index + 1, (self.cells@[index + 1] + 1) as u8);
                }
                let v = self.cells[index + 1];
                self.cells.set(index + 1, v + 1);
            }
            if x >= 1 {
                proof {
                    lemma_prefix_bounds(s, w as int, k as int + 1, index - 1);
                    lemma_grains_update(self.cells@, index - 1, (self.cells@[index - 1] + 1) as u8);
                }
                let v = self.cells[index - 1];
                self.cells.set(index - 1, v + 1);
            }
            if y + 1 < h {
                proof {
                    lemma_prefix_bounds(s, w as int, k as int + 1, index + w);
                    lemma_grains_update(self.cells@, index + w, (self.cells@[index + w] + 1) as u8);
                }
                let v = self.cells[index + w];
                self.cells.set(index + w, v + 1);
            }
            if y >= 1 {
                proof {
                    lemma_prefix_bounds(s, w as int, k as int + 1, index - w);
                    lemma_grains_update(self.cells@, index - w, (self.cells@[index - w] + 1) as u8);
                }
                let v = self.cells[index - w];
                self.cells.set(index - w, v + 1);
            }
        }
        proof {
            assert forall|i: int| 0 <= i < n implies self.cells@[i] as int == cell_after_prefix(
                s,
                w as int,
                k + 1,
                i,
            ) by {
                assert(cell_after_prefix(s, w as int, k + 1, i) == cell_after_prefix(
                    s,
                    w as int,
                    k as int,
                    i,
                ) + visit_delta(s, w as int, h as int, x as int, y as int, i));
            }
        }
    }
}

/// A pass never raises a cell above both its starting value and seven.
proof fn lemma_pass_bound(s: Seq<u8>, w: int, i: int)
    requires
        w > 0,
        0 <= i < s.len(),
        s[i] <= MAX_GRAINS,
    ensures
        cell_after_pass(s, w, i) <= MAX_GRAINS,
{
}

/// The character that shows a cell holding `v` grains: its digit up to four,
/// `+` above.
pub open spec fn symbol(v: u8) -> char {
    if v == 0 {
        '0'
    } else if v == 1 {
        '1'
    } else if v == 2 {
        '2'
    } else if v == 3 {
        '3'
    } else if v == 4 {
        '4'
    } else {
        '+'
    }
}

/// The text of row `y` of `s` on a grid of width `w`.
pub open spec fn row_text(s: Seq<u8>, w: int, y: int) -> Seq<char> {
    Seq::new(w as nat, |x: int| symbol(s[x + y * w]))
}

/// The first `rows` rows of `s`, each followed by a newline.
pub open spec fn rendered(s: Seq<u8>, w: int, rows: int) -> Seq<char>
    decreases rows,
{
    if rows <= 0 {
        Seq::empty()
    } else {
        rendered(s, w, rows - 1) + row_text(s, w, rows - 1) + seq!['\n']
    }
}

/// The visual size class of a cell holding `v` grains: the count itself up
/// to four, and five for anything above.
pub open spec fn scale_class(v: u8) -> u8 {
    if v <= 4 {
        v
    } else {
        5
    }
}

/// The character that shows a cell holding `v` grains.
fn symbol_text(v: u8) -> (r: &'static str)
    ensures
        r@ == seq![symbol(v)],
{
    if v == 0 {
        proof { reveal_strlit("0"); }
        "0"
    } else if v == 1 {
        proof { reveal_strlit("1"); }
        "1"
    } else if v == 2 {
        proof { reveal_strlit("2"); }
        "2"
    } else if v == 3 {
        proof { reveal_strlit("3"); }
        "3"
    } else if v == 4 {
        proof { reveal_strlit("4"); }
        "4"
    } else {
        proof { reveal_strlit("+"); }
        "+"
    }
}

/// The visual size class of a cell holding `v` grains.
pub fn scale_class_of(v: u8) -> (r: u8)
    ensures
        r == scale_class(v),
{
    if v <= 4 {
        v
    } else {
        5
    }
}

/// No cell with index below `k` topples when none is counted.
proof fn lemma_no_firing(s: Seq<u8>, k: int)
    requires
        firing_before(s, k) == 0,
    ensures
        forall|j: int| 0 <= j < k ==> !fires(s, j),
    decreases k,
{
    if k > 0 {
        lemma_no_firing(s, k - 1);
    }
}

/// A quiescent grid is a fixed point of the pass: when a pass from `s`
/// topples no cell, it leaves every cell as it was, so the next pass, from
/// the same state, topples none either.
pub proof fn lemma_quiescent_is_fixed_point(s: Seq<u8>, w: int, t: Seq<u8>)
    requires
        w > 0,
        firing_count(s) == 0,
        t.len() == s.len(),
        forall|i: int| 0 <= i < s.len() ==> t[i] as int == cell_after_pass(s, w, i),
    ensures
        t == s,
        firing_count(t) == 0,
        forall|i: int| 0 <= i < s.len() ==> s[i] < TOPPLE_AT,
{
    lemma_no_firing(s, s.len() as int);
    assert(t =~= s);
}

/// After a pass from `s` that left `t`, no cell of `t` is too full for the
/// next pass, and if nothing toppled every cell of `t` is below the toppling
/// threshold.
pub proof fn lemma_quiescent_and_bounded(t: Seq<u8>, s: Seq<u8>, w: int)
    requires
        w > 0,
        t == after_pass(s, w),
        forall|i: int| 0 <= i < s.len() ==> s[i] <= MAX_GRAINS,
        forall|i: int| 0 <= i < s.len() ==> t[i] <= MAX_GRAINS,
    ensures
        firing_count(s) == 0 ==> t == s,
        firing_count(s) == 0 ==> forall|i: int| 0 <= i < t.len() ==> t[i] < TOPPLE_AT,
{
    if firing_count(s) == 0 {
        lemma_no_firing(s, s.len() as int);
        assert(t =~= s);
        assert forall|i: int| 0 <= i < t.len() implies t[i] < TOPPLE_AT by {
            assert(t[i] == cell_after_pass(s, w, i) as u8);
        }
    }
}

/// Where no toppling cell lies on an edge, no grain leaves up to index `k`.
proof fn lemma_interior_loss_before(s: Seq<u8>, w: int, k: int)
    requires
        forall|j: int| 0 <= j < k && fires(s, j) ==> !on_edge(w, s.len() as int, j),
    ensures
        loss_before(s, w, k) == 0,
    decreases k,
{
    if k > 0 {
        lemma_interior_loss_before(s, w, k - 1);
    }
}

/// A pass in which no cell on an edge of the grid topples loses no grain: the
/// total after the pass equals the total before it.
pub proof fn lemma_interior_pass_conserves(s: Seq<u8>, w: int, t: Seq<u8>)
    requires
        w > 0,
        forall|j: int| 0 <= j < s.len() && fires(s, j) ==> !on_edge(w, s.len() as int, j),
        grains(t) == grains(s) - boundary_loss(s, w),
    ensures
        boundary_loss(s, w) == 0,
        grains(t) == grains(s),
{
    lemma_interior_loss_before(s, w, s.len() as int);
}

} // verus!
