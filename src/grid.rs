use vstd::prelude::*;

verus! {

/// A sample position: column index (real axis, left to right) and row index
/// (imaginary axis, top to bottom).
pub type GridIndex = (u64, u64);

/// All rows of column `col`, top to bottom.
pub open spec fn column(col: int, v_divs: nat) -> Seq<GridIndex> {
    Seq::new(v_divs + 1, |row: int| (col as u64, row as u64))
}

/// `n_cols` consecutive columns starting at `first`, column after column.
pub open spec fn columns(first: int, n_cols: nat, v_divs: nat) -> Seq<GridIndex>
    decreases n_cols,
{
    if n_cols == 0 {
        Seq::empty()
    } else {
        columns(first, (n_cols - 1) as nat, v_divs) + column(first + n_cols - 1, v_divs)
    }
}

/// The whole grid of `(h_divs + 1) x (v_divs + 1)` points in single-worker
/// order: column by column, and within a column row by row.
pub open spec fn grid_points(h_divs: nat, v_divs: nat) -> Seq<GridIndex> {
    columns(0, h_divs + 1, v_divs)
}

pub proof fn lemma_columns_len(first: int, n_cols: nat, v_divs: nat)
    ensures
        columns(first, n_cols, v_divs).len() == n_cols * (v_divs + 1),
    decreases n_cols,
{
    if n_cols > 0 {
        let k = (n_cols - 1) as nat;
        lemma_columns_len(first, k, v_divs);
        assert(column(first + n_cols - 1, v_divs).len() == v_divs + 1);
        assert(k * (v_divs + 1) + (v_divs + 1) == (k + 1) * (v_divs + 1)) by (nonlinear_arith);
    } else {
        assert(n_cols * (v_divs + 1) == 0) by (nonlinear_arith)
            requires
                n_cols == 0,
        ;
    }
}

pub proof fn lemma_columns_split(first: int, a: nat, b: nat, v_divs: nat)
    ensures
        columns(first, a + b, v_divs) == columns(first, a, v_divs) + columns(first + a, b, v_divs),
    decreases b,
{
    if b == 0 {
        assert(columns(first, a, v_divs) + columns(first + a, 0, v_divs) =~= columns(first, a, v_divs));
    } else {
        lemma_columns_split(first, a, (b - 1) as nat, v_divs);
        let l = columns(first, a, v_divs);
        let m = columns(first + a, (b - 1) as nat, v_divs);
        let c = column(first + a + b - 1, v_divs);
        assert((a + b - 1) as nat == a + (b - 1) as nat);
        assert(l + m + c =~= l + (m + c));
    }
}

/// Columns given to every strip but the last.
pub open spec fn strip_width(h_divs: nat, workers: nat) -> nat {
    (h_divs + 1) / workers
}

/// First column of strip `c`.
pub open spec fn strip_first(h_divs: nat, workers: nat, c: int) -> int {
    c * strip_width(h_divs, workers)
}

/// Columns of strip `c`: the last strip also takes the columns left over by
/// the integer division, so that the strips together cover the whole grid.
pub open spec fn strip_cols(h_divs: nat, workers: nat, c: int) -> nat {
    if c + 1 == workers {
        (h_divs + 1 - c * strip_width(h_divs, workers)) as nat
    } else {
        strip_width(h_divs, workers)
    }
}

/// Grid points of strip `c`, in the order its worker visits them.
pub open spec fn strip_points_of(h_divs: nat, v_divs: nat, workers: nat, c: int) -> Seq<GridIndex> {
    columns(strip_first(h_divs, workers, c), strip_cols(h_divs, workers, c), v_divs)
}

/// What the strips produce, taken in strip order and joined.
pub open spec fn merged_points(h_divs: nat, v_divs: nat, workers: nat) -> Seq<GridIndex> {
    Seq::new(
        workers,
        |c: int| strip_points_of(h_divs, v_divs, workers, c),
    ).flatten()
}

/// Whether a grid of these divisions can be held in memory as one sequence.
pub open spec fn grid_fits(h_divs: nat, v_divs: nat) -> bool {
    (h_divs + 1) * (v_divs + 1) <= usize::MAX
}

/// A vertical strip of the grid, handed to one worker.
#[derive(Clone, Copy, Debug, PartialEq, Eq)]
pub struct Strip {
    pub first_col: u64,
    pub n_cols: u64,
}

/// Why a grid cannot be planned.
#[derive(Clone, Copy, Debug, PartialEq, Eq)]
pub enum PlanError {
    /// A division count is zero.
    ZeroDivisions,
    /// No worker was offered.
    ZeroWorkers,
    /// More workers than horizontal divisions: some strip would get none.
    TooManyWorkers,
    /// The grid has more points than a sequence in memory can hold.
    TooLarge,
}

/// The partition of a grid into strips, one per worker.
pub struct GridPlan {
    pub h_divs: u64,
    pub v_divs: u64,
    pub workers: usize,
    pub strips: Vec<Strip>,
}

impl GridPlan {
    pub open spec fn wf(&self) -> bool {
        &&& self.h_divs > 0
        &&& self.v_divs > 0
        &&& self.workers > 0
        &&& self.workers <= self.h_divs
        &&& grid_fits(self.h_divs as nat, self.v_divs as nat)
        &&& self.strips@.len() == self.workers as nat
        &&& forall|c: int|
            0 <= c < self.strips@.len() ==> {
                &&& #[trigger] self.strips@[c].first_col == strip_first(
                    self.h_divs as nat,
                    self.workers as nat,
                    c,
                )
                &&& self.strips@[c].n_cols == strip_cols(
                    self.h_divs as nat,
                    self.workers as nat,
                    c,
                )
            }
    }
}

proof fn lemma_strip_bounds(h_divs: nat, workers: nat, c: int)
    requires
        workers > 0,
        workers <= h_divs,
        0 <= c < workers,
    ensures
        strip_width(h_divs, workers) >= 1,
        strip_cols(h_divs, workers, c) >= 1,
        0 <= strip_first(h_divs, workers, c),
        strip_first(h_divs, workers, c) + strip_cols(h_divs, workers, c) <= h_divs + 1,
        c + 1 < workers ==> strip_first(h_divs, workers, c + 1)
            == strip_first(h_divs, workers, c) + strip_cols(h_divs, workers, c),
        c + 1 == workers ==> strip_first(h_divs, workers, c)
            + strip_cols(h_divs, workers, c) == h_divs + 1,
{
    let n = workers;
    let w = strip_width(h_divs, workers);
    let t = h_divs + 1;
    assert(w >= 1) by (nonlinear_arith)
        requires
            w == t / n,
            1 <= n <= t,
    ;
    assert(n * w <= t) by (nonlinear_arith)
        requires
            w == t / n,
            1 <= n,
    ;
    assert(c * w + w <= n * w) by (nonlinear_arith)
        requires
            0 <= c < n,
            w >= 1,
    ;
    assert(0 <= c * w) by (nonlinear_arith)
        requires
            0 <= c,
            w >= 1,
    ;
    assert((c + 1) * w == c * w + w) by (nonlinear_arith);
}

/// Splits the grid of `(h_divs + 1) x (v_divs + 1)` points into vertical
/// strips, one per worker. Each strip gets `(h_divs + 1) / workers` whole
/// columns; the last strip also takes the remaining columns. A worker count
/// above `h_divs` is refused rather than reduced.
pub fn plan(h_divs: u64, v_divs: u64, workers: usize) -> (r: Result<GridPlan, PlanError>)
    ensures
        (h_divs == 0 || v_divs == 0) <==> r == Err::<GridPlan, PlanError>(
            PlanError::ZeroDivisions,
        ),
        (h_divs > 0 && v_divs > 0 && workers == 0) <==> r == Err::<GridPlan, PlanError>(
            PlanError::ZeroWorkers,
        ),
        (h_divs > 0 && v_divs > 0 && workers > 0 && workers > h_divs) <==> r == Err::<
            GridPlan,
            PlanError,
        >(PlanError::TooManyWorkers),
        (h_divs > 0 && v_divs > 0 && workers > 0 && workers <= h_divs && !grid_fits(
            h_divs as nat,
            v_divs as nat,
        )) <==> r == Err::<GridPlan, PlanError>(PlanError::TooLarge),
        r is Ok ==> {
            let p = r->Ok_0;
            &&& p.wf()
            &&& p.h_divs == h_divs
            &&& p.v_divs == v_divs
            &&& p.workers == workers
        },
{
    if h_divs == 0 || v_divs == 0 {
        return Err(PlanError::ZeroDivisions);
    }
    if workers == 0 {
        return Err(PlanError::ZeroWorkers);
    }
    if workers as u128 > h_divs as u128 {
        return Err(PlanError::TooManyWorkers);
    }
    let cols: u128 = h_divs as u128 + 1;
    let rows: u128 = v_divs as u128 + 1;
    if cols > usize::MAX as u128 || rows > usize::MAX as u128 {
        proof {
            assert(cols * rows > usize::MAX) by (nonlinear_arith)
                requires
                    cols > usize::MAX || rows > usize::MAX,
                    cols >= 1,
                    rows >= 1,
            ;
        }
        return Err(PlanError::TooLarge);
    }
    proof {
        assert(cols * rows <= usize::MAX as int * usize::MAX as int) by (nonlinear_arith)
            requires
                1 <= cols <= usize::MAX,
                1 <= rows <= usize::MAX,
        ;
        assert(usize::MAX as int * usize::MAX as int <= u128::MAX) by (nonlinear_arith)
            requires
                usize::MAX <= u64::MAX,
        ;
    }
    if cols * rows > usize::MAX as u128 {
        return Err(PlanError::TooLarge);
    }
    let ghost h = h_divs as nat;
    let ghost w = workers as nat;
    let n: u128 = workers as u128;
    let width: u128 = cols / n;
    let mut strips: Vec<Strip> = Vec::new();
    let mut c: u128 = 0;
    while c < n
        invariant
            n == w,
            width == strip_width(h, w),
            cols == h + 1,
            h == h_divs,
            w == workers,
            workers > 0,
            workers <= h_divs,
            h_divs < u64::MAX,
            0 <= c <= n,
            strips@.len() == c,
            forall|k: int|
                0 <= k < c ==> {
                    &&& #[trigger] strips@[k].first_col == strip_first(h, w, k)
                    &&& strips@[k].n_cols == strip_cols(h, w, k)
                },
        decreases n - c,
    {
        proof {
            lemma_strip_bounds(h, w, c as int);
        }
        let first: u128 = c * width;
        let n_cols: u128 = if c + 1 == n {
            cols - first
        } else {
            width
        };
        assert(first == strip_first(h, w, c as int));
        assert(n_cols == strip_cols(h, w, c as int));
        let ghost prev = strips@;
        strips.push(Strip { first_col: first as u64, n_cols: n_cols as u64 });
        proof {
            assert forall|k: int| 0 <= k < c + 1 implies {
                &&& #[trigger] strips@[k].first_col == strip_first(h, w, k)
                &&& strips@[k].n_cols == strip_cols(h, w, k)
            } by {
                if k < c {
                    assert(strips@[k] == prev[k]);
                } else {
                    assert(strips@[k] == Strip { first_col: first as u64, n_cols: n_cols as u64 });
                }
            }
        }
        c = c + 1;
    }
    let p = GridPlan { h_divs, v_divs, workers, strips };
    assert(p.wf());
    Ok(p)
}

spec fn strips_prefix(h_divs: nat, v_divs: nat, workers: nat, k: nat) -> Seq<Seq<GridIndex>> {
    Seq::new(k, |c: int| strip_points_of(h_divs, v_divs, workers, c))
}

proof fn lemma_prefix_covers(h_divs: nat, v_divs: nat, workers: nat, k: nat)
    requires
        workers > 0,
        workers <= h_divs,
        0 < k <= workers,
    ensures
        strips_prefix(h_divs, v_divs, workers, k).flatten() == columns(
            0,
            (strip_first(h_divs, workers, k - 1) + strip_cols(h_divs, workers, k - 1)) as nat,
            v_divs,
        ),
    decreases k,
{
    let c = k - 1;
    lemma_strip_bounds(h_divs, workers, c);
    let prev = strips_prefix(h_divs, v_divs, workers, c as nat);
    let cur = strip_points_of(h_divs, v_divs, workers, c);
    assert(strips_prefix(h_divs, v_divs, workers, k) =~= prev.push(cur));
    prev.lemma_flatten_push(cur);
    let first = strip_first(h_divs, workers, c);
    let n_cols = strip_cols(h_divs, workers, c);
    if c == 0 {
        assert(prev =~= Seq::<Seq<GridIndex>>::empty());
        assert(first == 0);
        assert(Seq::<GridIndex>::empty() + cur =~= cur);
    } else {
        lemma_prefix_covers(h_divs, v_divs, workers, c as nat);
        lemma_strip_bounds(h_divs, workers, c - 1);
        lemma_columns_split(0, first as nat, n_cols, v_divs);
    }
}

/// Joining the strips' points in strip order gives exactly the grid in
/// single-worker order, whatever the number of workers.
pub proof fn lemma_merged_is_grid(h_divs: nat, v_divs: nat, workers: nat)
    requires
        workers > 0,
        workers <= h_divs,
    ensures
        merged_points(h_divs, v_divs, workers) == grid_points(h_divs, v_divs),
{
    let n = workers;
    lemma_prefix_covers(h_divs, v_divs, workers, n);
    lemma_strip_bounds(h_divs, workers, n - 1);
    assert(strips_prefix(h_divs, v_divs, workers, n) =~= Seq::new(
        n,
        |c: int| strip_points_of(h_divs, v_divs, workers, c),
    ));
}

/// Splitting the work among several workers yields the same sequence of grid
/// points as a single worker does.
pub proof fn lemma_workers_do_not_change_output(h_divs: nat, v_divs: nat, workers: nat)
    requires
        workers > 0,
        workers <= h_divs,
    ensures
        merged_points(h_divs, v_divs, workers) == merged_points(h_divs, v_divs, 1),
{
    lemma_merged_is_grid(h_divs, v_divs, workers);
    lemma_merged_is_grid(h_divs, v_divs, 1);
}

/// Every grid point appears once: the merged sequence has
/// `(h_divs + 1) * (v_divs + 1)` entries, and the entry at position `k` is
/// column `k / (v_divs + 1)`, row `k % (v_divs + 1)`.
pub proof fn lemma_merged_len(h_divs: nat, v_divs: nat, workers: nat)
    requires
        workers > 0,
        workers <= h_divs,
    ensures
        merged_points(h_divs, v_divs, workers).len() == (h_divs + 1) * (v_divs + 1),
{
    lemma_merged_is_grid(h_divs, v_divs, workers);
    lemma_columns_len(0, h_divs + 1, v_divs);
}

/// The merged sequence starts at the top-left corner `(0, 0)` of the grid
/// and ends at the bottom-right corner `(h_divs, v_divs)`.
pub proof fn lemma_merged_corners(h_divs: nat, v_divs: nat, workers: nat)
    requires
        workers > 0,
        workers <= h_divs,
        h_divs <= u64::MAX,
        v_divs <= u64::MAX,
    ensures
        merged_points(h_divs, v_divs, workers).len() > 0,
        merged_points(h_divs, v_divs, workers)[0] == (0u64, 0u64),
        merged_points(h_divs, v_divs, workers).last() == (h_divs as u64, v_divs as u64),
{
    lemma_merged_is_grid(h_divs, v_divs, workers);
    lemma_columns_split(0, 1, h_divs, v_divs);
    lemma_columns_len(0, 1, v_divs);
    lemma_columns_len(1, h_divs, v_divs);
    assert(columns(0, 0, v_divs) + column(0, v_divs) =~= column(0, v_divs));
    assert(columns(0, 1, v_divs)[0] == (0u64, 0u64));
    let g = grid_points(h_divs, v_divs);
    assert(g == columns(0, h_divs, v_divs) + column(h_divs as int, v_divs));
    assert(g.last() == column(h_divs as int, v_divs).last());
}

proof fn lemma_map_distributes<T>(parts: Seq<Seq<GridIndex>>, f: spec_fn(GridIndex) -> T)
    ensures
        Seq::new(parts.len(), |c: int| parts[c].map_values(f)).flatten() == parts.flatten().map_values(f),
    decreases parts.len(),
{
    let mapped = Seq::new(parts.len(), |c: int| parts[c].map_values(f));
    if parts.len() == 0 {
        assert(mapped =~= Seq::<Seq<T>>::empty());
        assert(parts.flatten().map_values(f) =~= Seq::<T>::empty());
    } else {
        let init = parts.drop_last();
        let last = parts.last();
        lemma_map_distributes(init, f);
        assert(parts =~= init.push(last));
        init.lemma_flatten_push(last);
        let mapped_init = Seq::new(init.len(), |c: int| init[c].map_values(f));
        assert(mapped =~= mapped_init.push(last.map_values(f)));
        mapped_init.lemma_flatten_push(last.map_values(f));
        assert((init.flatten() + last).map_values(f) =~= init.flatten().map_values(f)
            + last.map_values(f));
    }
}

/// Where each grid point's result depends on the point alone (`f`), joining
/// the strips' results in strip order gives the same sequence for every
/// number of workers: the single-worker sequence over the whole grid.
pub proof fn lemma_pointwise_results_ignore_workers<T>(
    h_divs: nat,
    v_divs: nat,
    workers: nat,
    f: spec_fn(GridIndex) -> T,
)
    requires
        workers > 0,
        workers <= h_divs,
    ensures
        Seq::new(
            workers,
            |c: int| strip_points_of(h_divs, v_divs, workers, c).map_values(f),
        ).flatten() == grid_points(h_divs, v_divs).map_values(f),
{
    let parts = Seq::new(
        workers,
        |c: int| strip_points_of(h_divs, v_divs, workers, c),
    );
    lemma_map_distributes(parts, f);
    lemma_merged_is_grid(h_divs, v_divs, workers);
    assert(Seq::new(parts.len(), |c: int| parts[c].map_values(f)) =~= Seq::new(
        workers,
        |c: int| strip_points_of(h_divs, v_divs, workers, c).map_values(f),
    ));
}

impl GridPlan {
    /// Number of strips, one per worker.
    pub fn strip_count(&self) -> (r: usize)
        requires
            self.wf(),
        ensures
            r == self.workers as nat,
    {
        self.strips.len()
    }

    /// The grid points of strip `c`, column after column, and within a
    /// column row by row from the top.
    pub fn strip_points(&self, c: usize) -> (r: Vec<GridIndex>)
        requires
            self.wf(),
            c < self.workers as nat,
        ensures
            r@ == strip_points_of(self.h_divs as nat, self.v_divs as nat, self.workers as nat, c as int),
    {
        let ghost h = self.h_divs as nat;
        let ghost v = self.v_divs as nat;
        let ghost w = self.workers as nat;
        proof {
            lemma_strip_bounds(h, w, c as int);
            let first = strip_first(h, w, c as int);
            let n_cols = strip_cols(h, w, c as int);
            assert(n_cols * (v + 1) <= (h + 1) * (v + 1)) by (nonlinear_arith)
                requires
                    n_cols <= h + 1,
            ;
            assert(h + 1 <= (h + 1) * (v + 1)) by (nonlinear_arith);
            assert(self.strips@[c as int].first_col == first);
        }
        let strip = self.strips[c];
        let rows: u64 = self.v_divs;
        let mut out: Vec<GridIndex> = Vec::new();
        let mut k: u64 = 0;
        while k < strip.n_cols
            invariant
                c < self.strips@.len(),
                strip == self.strips@[c as int],
                h + 1 <= usize::MAX,
                rows == v,
                self.wf(),
                strip.first_col + strip.n_cols <= h + 1,
                strip.n_cols * (v + 1) <= usize::MAX,
                0 <= k <= strip.n_cols,
                out@ == columns(strip.first_col as int, k as nat, v),
            decreases strip.n_cols - k,
        {
            let col: u64 = strip.first_col + k;
            let ghost before = out@;
            proof {
                lemma_columns_len(strip.first_col as int, k as nat, v);
                assert(k * (v + 1) + (v + 1) <= strip.n_cols * (v + 1)) by (nonlinear_arith)
                    requires
                        k < strip.n_cols,
                ;
            }
            let mut row: u64 = 0;
            loop
                invariant_except_break
                    out@ == before + column(col as int, v).take(row as int),
                invariant
                    rows == v,
                    0 <= row <= rows,
                    col == strip.first_col + k,
                    before.len() + (v + 1) <= usize::MAX,
                ensures
                    out@ == before + column(col as int, v),
                decreases rows - row,
            {
                out.push((col, row));
                assert(out@ =~= before + column(col as int, v).take(row + 1));
                if row == rows {
                    assert(column(col as int, v).take(rows + 1) =~= column(col as int, v));
                    break;
                }
                row = row + 1;
            }
            assert(columns(strip.first_col as int, (k + 1) as nat, v) == before + column(
                col as int,
                v,
            ));
            k = k + 1;
        }
        out
    }
}

} // verus!
