//! Uniform-grid spatial index.  Every cell owns a singly linked list of entity
//! indices, threaded through two integer arrays: the head of each cell's list
//! and the successor of each entity.  `-1` marks an empty cell and the end of
//! a list.

use vstd::prelude::*;

verus! {

/// An inclusive rectangle of grid cells, `x0..=x1` by `y0..=y1`.
#[derive(Clone, Copy, Debug)]
pub struct CellRange {
    pub x0: usize,
    pub y0: usize,
    pub x1: usize,
    pub y1: usize,
}

/// The smaller of two integers.
pub open spec fn least(a: int, b: int) -> int {
    if a <= b {
        a
    } else {
        b
    }
}

/// The cell that grid coordinates `(cx, cy)` fall into on a `cols` by `rows`
/// grid: coordinates beyond the last column or row are pulled back onto it.
pub open spec fn cell_key(cols: int, rows: int, cx: int, cy: int) -> int {
    least(cy, rows - 1) * cols + least(cx, cols - 1)
}

/// The list that starts at `head`: `head` itself, then its successors, for as
/// long as each successor is a smaller index.
spec fn chain(next: Seq<i32>, head: int) -> Seq<usize>
    decreases head,
{
    if 0 <= head < next.len() {
        if 0 <= next[head] < head {
            seq![head as usize] + chain(next, next[head] as int)
        } else {
            seq![head as usize]
        }
    } else {
        Seq::empty()
    }
}

/// The live entities among the first `count` whose cell is `key`, latest
/// index first.
pub open spec fn occupants(
    cols: int,
    rows: int,
    cell_x: Seq<usize>,
    cell_y: Seq<usize>,
    alive: Seq<u8>,
    count: int,
    key: int,
) -> Seq<usize>
    decreases count,
{
    if count <= 0 {
        Seq::empty()
    } else {
        let i = count - 1;
        let earlier = occupants(cols, rows, cell_x, cell_y, alive, i, key);
        if alive[i] != 0 && cell_key(cols, rows, cell_x[i] as int, cell_y[i] as int) == key {
            seq![i as usize] + earlier
        } else {
            earlier
        }
    }
}

/// The whole index that `count` entities with the given cells and liveness
/// flags make: one list of occupants per cell.
pub open spec fn grid_of(
    cols: int,
    rows: int,
    cell_x: Seq<usize>,
    cell_y: Seq<usize>,
    alive: Seq<u8>,
    count: int,
) -> Seq<Seq<usize>> {
    Seq::new((cols * rows) as nat, |key: int| occupants(cols, rows, cell_x, cell_y, alive, count, key))
}

/// Chebyshev distance between two cells: the larger of the two axis
/// distances.
pub open spec fn chebyshev(ax: int, ay: int, bx: int, by: int) -> int {
    let dx = if ax >= bx { ax - bx } else { bx - ax };
    let dy = if ay >= by { ay - by } else { by - ay };
    if dx >= dy {
        dx
    } else {
        dy
    }
}

/// Whether a scan takes cell `(x, y)`.  With no ring every cell is taken;
/// with `(cx, cy, r)` only the cells at Chebyshev distance `r` from
/// `(cx, cy)`.
pub open spec fn takes_cell(ring: Option<(int, int, int)>, x: int, y: int) -> bool {
    match ring {
        None => true,
        Some((cx, cy, r)) => chebyshev(x, y, cx, cy) == r,
    }
}

/// The entities met in row `y` when walking the columns `x0 .. x_end` from
/// left to right and reading the list of every cell that the scan takes.
pub open spec fn scan_row(
    grid: Seq<Seq<usize>>,
    cols: int,
    ring: Option<(int, int, int)>,
    y: int,
    x0: int,
    x_end: int,
) -> Seq<usize>
    decreases x_end - x0,
{
    if x_end <= x0 {
        Seq::empty()
    } else {
        let x = x_end - 1;
        let before = scan_row(grid, cols, ring, y, x0, x);
        if takes_cell(ring, x, y) {
            before + grid[y * cols + x]
        } else {
            before
        }
    }
}

/// The entities met when walking the rows `y0 .. y_end` from first to last,
/// each row as in [`scan_row`].
pub open spec fn scan_rows(
    grid: Seq<Seq<usize>>,
    cols: int,
    ring: Option<(int, int, int)>,
    x0: int,
    x_end: int,
    y0: int,
    y_end: int,
) -> Seq<usize>
    decreases y_end - y0,
{
    if y_end <= y0 {
        Seq::empty()
    } else {
        scan_rows(grid, cols, ring, x0, x_end, y0, y_end - 1) + scan_row(
            grid,
            cols,
            ring,
            y_end - 1,
            x0,
            x_end,
        )
    }
}

/// How many of the answers are `true`.
pub open spec fn accepted_count(verdicts: Seq<bool>) -> nat
    decreases verdicts.len(),
{
    if verdicts.len() == 0 {
        0
    } else {
        accepted_count(verdicts.drop_last()) + if verdicts.last() {
            1nat
        } else {
            0nat
        }
    }
}

/// The cells of the window `x0 .. x_end` by `y0 .. y_end` ring by ring around
/// `(cx, cy)`: ring 0 first, then ring 1, up to ring `ring_end - 1`; within a
/// ring the cells come row by row.
pub open spec fn rings_below(
    grid: Seq<Seq<usize>>,
    cols: int,
    cx: int,
    cy: int,
    x0: int,
    x_end: int,
    y0: int,
    y_end: int,
    ring_end: int,
) -> Seq<usize>
    decreases ring_end,
{
    if ring_end <= 0 {
        Seq::empty()
    } else {
        rings_below(grid, cols, cx, cy, x0, x_end, y0, y_end, ring_end - 1) + scan_rows(
            grid,
            cols,
            Some((cx, cy, ring_end - 1)),
            x0,
            x_end,
            y0,
            y_end,
        )
    }
}

/// The largest Chebyshev distance from `(cx, cy)` to a cell of the window,
/// or 0 for an empty window.
pub open spec fn farthest_ring(cx: int, cy: int, x0: int, x_end: int, y0: int, y_end: int) -> int {
    if x_end <= x0 || y_end <= y0 {
        0
    } else {
        let a = chebyshev(x0, y0, cx, cy);
        let b = chebyshev(x_end - 1, y_end - 1, cx, cy);
        if a >= b {
            a
        } else {
            b
        }
    }
}

/// What a budgeted scan over `candidates` with a budget of `limit` may have
/// done: it visited a prefix of the candidates, never visited one after the
/// budget was used up, and stopped only at the end of the candidates or on
/// using up the budget.
pub open spec fn limited_scan(
    candidates: Seq<usize>,
    limit: int,
    visited: Seq<usize>,
    verdicts: Seq<bool>,
) -> bool {
    &&& visited.len() == verdicts.len()
    &&& visited.is_prefix_of(candidates)
    &&& forall|k: int| 0 <= k < verdicts.len() ==> accepted_count(#[trigger] verdicts.take(k)) < limit
    &&& (visited.len() == candidates.len() || accepted_count(verdicts) == limit)
}

/// The spatial index: a grid of cells, each with the list of the entities
/// filed under it.
pub struct SpatialHash {
    cols: usize,
    rows: usize,
    buckets: Vec<i32>,
    next: Vec<i32>,
}

impl View for SpatialHash {
    type V = Seq<Seq<usize>>;

    /// The entities of every cell, cell by cell in row-major order, each
    /// cell's list in the order in which a query hands it out.
    closed spec fn view(&self) -> Seq<Seq<usize>> {
        Seq::new(self.buckets@.len(), |key: int| chain(self.next@, self.buckets@[key] as int))
    }
}

/// Entries of `next` at or below `head` decide the chain from `head`.
proof fn lemma_chain_frame(a: Seq<i32>, b: Seq<i32>, head: int)
    requires
        a.len() == b.len(),
        forall|j: int| 0 <= j <= head && j < a.len() ==> a[j] == b[j],
    ensures
        chain(a, head) == chain(b, head),
    decreases head,
{
    if 0 <= head < a.len() {
        if 0 <= a[head] < head {
            lemma_chain_frame(a, b, a[head] as int);
        }
    }
}

/// A prefix stays a prefix when both sides get the same front.
proof fn lemma_prefix_behind(front: Seq<usize>, part: Seq<usize>, whole: Seq<usize>)
    requires
        part.is_prefix_of(whole),
    ensures
        (front + part).is_prefix_of(front + whole),
{
}

/// A prefix of a prefix is a prefix.
proof fn lemma_prefix_chain(a: Seq<usize>, b: Seq<usize>, c: Seq<usize>)
    requires
        a.is_prefix_of(b),
        b.is_prefix_of(c),
    ensures
        a.is_prefix_of(c),
{
}

/// Walking fewer columns of a row gives a prefix of walking more.
proof fn lemma_scan_row_prefix(
    grid: Seq<Seq<usize>>,
    cols: int,
    ring: Option<(int, int, int)>,
    y: int,
    x0: int,
    a: int,
    b: int,
)
    requires
        a <= b,
    ensures
        scan_row(grid, cols, ring, y, x0, a).is_prefix_of(scan_row(grid, cols, ring, y, x0, b)),
    decreases b - a,
{
    if a < b && x0 < b {
        lemma_scan_row_prefix(grid, cols, ring, y, x0, a, b - 1);
        lemma_prefix_chain(
            scan_row(grid, cols, ring, y, x0, a),
            scan_row(grid, cols, ring, y, x0, b - 1),
            scan_row(grid, cols, ring, y, x0, b),
        );
    }
}

/// Walking fewer rows gives a prefix of walking more.
proof fn lemma_scan_rows_prefix(
    grid: Seq<Seq<usize>>,
    cols: int,
    ring: Option<(int, int, int)>,
    x0: int,
    x_end: int,
    y0: int,
    a: int,
    b: int,
)
    requires
        a <= b,
    ensures
        scan_rows(grid, cols, ring, x0, x_end, y0, a).is_prefix_of(
            scan_rows(grid, cols, ring, x0, x_end, y0, b),
        ),
    decreases b - a,
{
    if a < b && y0 < b {
        lemma_scan_rows_prefix(grid, cols, ring, x0, x_end, y0, a, b - 1);
        lemma_prefix_chain(
            scan_rows(grid, cols, ring, x0, x_end, y0, a),
            scan_rows(grid, cols, ring, x0, x_end, y0, b - 1),
            scan_rows(grid, cols, ring, x0, x_end, y0, b),
        );
    }
}

/// Walking fewer rings gives a prefix of walking more.
proof fn lemma_rings_prefix(
    grid: Seq<Seq<usize>>,
    cols: int,
    cx: int,
    cy: int,
    x0: int,
    x_end: int,
    y0: int,
    y_end: int,
    a: int,
    b: int,
)
    requires
        a <= b,
    ensures
        rings_below(grid, cols, cx, cy, x0, x_end, y0, y_end, a).is_prefix_of(
            rings_below(grid, cols, cx, cy, x0, x_end, y0, y_end, b),
        ),
    decreases b - a,
{
    if a < b && 0 < b {
        lemma_rings_prefix(grid, cols, cx, cy, x0, x_end, y0, y_end, a, b - 1);
        lemma_prefix_chain(
            rings_below(grid, cols, cx, cy, x0, x_end, y0, y_end, a),
            rings_below(grid, cols, cx, cy, x0, x_end, y0, y_end, b - 1),
            rings_below(grid, cols, cx, cy, x0, x_end, y0, y_end, b),
        );
    }
}

/// A ring scan that has finished the rings below `ring`, the rows above `y`
/// of that ring, the cells left of `x` in that row and part of the list of
/// cell `(x, y)` has walked a prefix of the whole ring order.
proof fn lemma_partial_scan_is_prefix(
    grid: Seq<Seq<usize>>,
    cols: int,
    cx: int,
    cy: int,
    x0: int,
    x_end: int,
    y0: int,
    y_end: int,
    ring_end: int,
    ring: int,
    y: int,
    x: int,
    taken: Seq<usize>,
)
    requires
        0 <= ring < ring_end,
        y0 <= y < y_end,
        x0 <= x < x_end,
        takes_cell(Some((cx, cy, ring)), x, y),
        taken.is_prefix_of(grid[y * cols + x]),
    ensures
        (rings_below(grid, cols, cx, cy, x0, x_end, y0, y_end, ring) + scan_rows(
            grid,
            cols,
            Some((cx, cy, ring)),
            x0,
            x_end,
            y0,
            y,
        ) + scan_row(grid, cols, Some((cx, cy, ring)), y, x0, x) + taken).is_prefix_of(
            rings_below(grid, cols, cx, cy, x0, x_end, y0, y_end, ring_end),
        ),
{
    let sel = Some((cx, cy, ring));
    let inner = rings_below(grid, cols, cx, cy, x0, x_end, y0, y_end, ring);
    let above = scan_rows(grid, cols, sel, x0, x_end, y0, y);
    let left = scan_row(grid, cols, sel, y, x0, x);
    let row = scan_row(grid, cols, sel, y, x0, x_end);
    let rows = scan_rows(grid, cols, sel, x0, x_end, y0, y_end);
    // within the row
    lemma_prefix_behind(left, taken, grid[y * cols + x]);
    lemma_scan_row_prefix(grid, cols, sel, y, x0, x + 1, x_end);
    lemma_prefix_chain(left + taken, scan_row(grid, cols, sel, y, x0, x + 1), row);
    // within the ring
    lemma_prefix_behind(above, left + taken, row);
    lemma_scan_rows_prefix(grid, cols, sel, x0, x_end, y0, y + 1, y_end);
    lemma_prefix_chain(above + (left + taken), above + row, rows);
    // within the ring order
    lemma_prefix_behind(inner, above + (left + taken), rows);
    lemma_rings_prefix(grid, cols, cx, cy, x0, x_end, y0, y_end, ring + 1, ring_end);
    lemma_prefix_chain(
        inner + (above + (left + taken)),
        inner + rows,
        rings_below(grid, cols, cx, cy, x0, x_end, y0, y_end, ring_end),
    );
}

/// Every entity of a list is a slot of the successor array.
proof fn lemma_chain_in_bounds(next: Seq<i32>, head: int, k: int)
    requires
        0 <= k < chain(next, head).len(),
    ensures
        chain(next, head)[k] < next.len(),
    decreases head,
{
    if 0 <= head < next.len() && 0 <= next[head] < head && k > 0 {
        lemma_chain_in_bounds(next, next[head] as int, k - 1);
    }
}

/// Every list of the grid holds only entities below `bound`.
pub open spec fn lists_below(grid: Seq<Seq<usize>>, bound: int) -> bool {
    forall|key: int, k: int|
        0 <= key < grid.len() && 0 <= k < grid[key].len() ==> (#[trigger] grid[key][k]) < bound
}

/// A row scan inside a grid whose lists hold only entities below `bound`
/// meets only entities below `bound`.
proof fn lemma_scan_row_below(
    grid: Seq<Seq<usize>>,
    cols: int,
    ring: Option<(int, int, int)>,
    y: int,
    x0: int,
    x_end: int,
    bound: int,
    k: int,
)
    requires
        lists_below(grid, bound),
        0 <= x0,
        x_end <= cols,
        0 <= y,
        (y + 1) * cols <= grid.len(),
        0 <= k < scan_row(grid, cols, ring, y, x0, x_end).len(),
    ensures
        scan_row(grid, cols, ring, y, x0, x_end)[k] < bound,
    decreases x_end - x0,
{
    if x_end > x0 {
        let x = x_end - 1;
        let before = scan_row(grid, cols, ring, y, x0, x);
        if k < before.len() {
            lemma_scan_row_below(grid, cols, ring, y, x0, x, bound, k);
        } else {
            assert(0 <= y * cols + x < grid.len()) by (nonlinear_arith)
                requires
                    0 <= x < cols,
                    0 <= y,
                    (y + 1) * cols <= grid.len(),
            ;
        }
    }
}

/// A scan over a window inside a grid whose lists hold only entities below
/// `bound` meets only entities below `bound`.
proof fn lemma_scan_rows_below(
    grid: Seq<Seq<usize>>,
    cols: int,
    ring: Option<(int, int, int)>,
    x0: int,
    x_end: int,
    y0: int,
    y_end: int,
    bound: int,
    k: int,
)
    requires
        lists_below(grid, bound),
        0 <= cols,
        0 <= x0,
        x_end <= cols,
        0 <= y0,
        y_end * cols <= grid.len(),
        0 <= k < scan_rows(grid, cols, ring, x0, x_end, y0, y_end).len(),
    ensures
        scan_rows(grid, cols, ring, x0, x_end, y0, y_end)[k] < bound,
    decreases y_end - y0,
{
    if y_end > y0 {
        let y = y_end - 1;
        let above = scan_rows(grid, cols, ring, x0, x_end, y0, y);
        assert(y * cols <= y_end * cols && (y + 1) * cols == y_end * cols) by (nonlinear_arith)
            requires
                y == y_end - 1,
                0 <= cols,
        ;
        if k < above.len() {
            lemma_scan_rows_below(grid, cols, ring, x0, x_end, y0, y, bound, k);
        } else {
            if x_end > x0 {
                lemma_scan_row_below(grid, cols, ring, y, x0, x_end, bound, k - above.len());
            }
        }
    }
}

/// A ring scan over a window inside a grid whose lists hold only entities
/// below `bound` meets only entities below `bound`.
proof fn lemma_rings_below_bound(
    grid: Seq<Seq<usize>>,
    cols: int,
    cx: int,
    cy: int,
    x0: int,
    x_end: int,
    y0: int,
    y_end: int,
    ring_end: int,
    bound: int,
    k: int,
)
    requires
        lists_below(grid, bound),
        0 <= cols,
        0 <= x0,
        x_end <= cols,
        0 <= y0,
        y_end * cols <= grid.len(),
        0 <= k < rings_below(grid, cols, cx, cy, x0, x_end, y0, y_end, ring_end).len(),
    ensures
        rings_below(grid, cols, cx, cy, x0, x_end, y0, y_end, ring_end)[k] < bound,
    decreases ring_end,
{
    if ring_end > 0 {
        let inner = rings_below(grid, cols, cx, cy, x0, x_end, y0, y_end, ring_end - 1);
        if k < inner.len() {
            lemma_rings_below_bound(
                grid,
                cols,
                cx,
                cy,
                x0,
                x_end,
                y0,
                y_end,
                ring_end - 1,
                bound,
                k,
            );
        } else {
            lemma_scan_rows_below(
                grid,
                cols,
                Some((cx, cy, ring_end - 1)),
                x0,
                x_end,
                y0,
                y_end,
                bound,
                k - inner.len(),
            );
        }
    }
}

/// A window without columns or without rows holds no entity.
proof fn lemma_empty_window(
    grid: Seq<Seq<usize>>,
    cols: int,
    ring: Option<(int, int, int)>,
    x0: int,
    x_end: int,
    y0: int,
    y_end: int,
)
    requires
        x_end <= x0 || y_end <= y0,
    ensures
        scan_rows(grid, cols, ring, x0, x_end, y0, y_end) == Seq::<usize>::empty(),
    decreases y_end - y0,
{
    if y_end > y0 {
        lemma_empty_window(grid, cols, ring, x0, x_end, y0, y_end - 1);
    }
}

/// One more answer adds one to the count exactly when it is `true`.
proof fn lemma_count_push(verdicts: Seq<bool>, verdict: bool)
    ensures
        accepted_count(verdicts.push(verdict)) == accepted_count(verdicts) + if verdict {
            1nat
        } else {
            0nat
        },
{
    assert(verdicts.push(verdict).drop_last() =~= verdicts);
}

/// Chebyshev distance between the cells `(ax, ay)` and `(bx, by)`.
pub fn cell_distance(ax: usize, ay: usize, bx: usize, by: usize) -> (d: usize)
    ensures
        d == chebyshev(ax as int, ay as int, bx as int, by as int),
{
    let dx: usize = if ax >= bx { ax - bx } else { bx - ax };
    let dy: usize = if ay >= by { ay - by } else { by - ay };
    if dx >= dy {
        dx
    } else {
        dy
    }
}

/// The callback's answers to the visited candidates, one by one.
pub open spec fn answered<F: FnMut(usize) -> bool>(
    callback: F,
    visited: Seq<usize>,
    verdicts: Seq<bool>,
) -> bool {
    forall|k: int|
        0 <= k < visited.len() ==> call_ensures(callback, (#[trigger] visited[k],), verdicts[k])
}

impl SpatialHash {
    /// Number of columns of the grid.
    pub closed spec fn spec_cols(&self) -> usize {
        self.cols
    }

    /// Number of rows of the grid.
    pub closed spec fn spec_rows(&self) -> usize {
        self.rows
    }

    /// Number of entity slots the index can link.
    pub closed spec fn spec_capacity(&self) -> usize {
        self.next@.len() as usize
    }

    /// The representation is sound: the grid has at least one cell, every
    /// head and successor is a valid slot or the end mark, and successors
    /// strictly descend, so every list ends.
    pub closed spec fn wf(&self) -> bool {
        &&& self.cols >= 1
        &&& self.rows >= 1
        &&& self.buckets@.len() == self.cols * self.rows
        &&& self.next@.len() <= i32::MAX
        &&& forall|k: int|
            0 <= k < self.buckets@.len() ==> -1 <= #[trigger] self.buckets@[k] < self.next@.len()
        &&& forall|i: int| 0 <= i < self.next@.len() ==> -1 <= #[trigger] self.next@[i] < i
    }

    /// A well-formed index has one list per cell.
    pub proof fn lemma_view_len(&self)
        requires
            self.wf(),
        ensures
            self@.len() == self.spec_cols() * self.spec_rows(),
            self.spec_cols() >= 1,
            self.spec_rows() >= 1,
    {
    }

    /// Every entity in the index is one of its slots.
    pub proof fn lemma_lists_in_bounds(&self)
        requires
            self.wf(),
        ensures
            lists_below(self@, self.spec_capacity() as int),
    {
        assert forall|key: int, k: int|
            0 <= key < self@.len() && 0 <= k < self@[key].len() implies (#[trigger] self@[key][k])
            < self.spec_capacity() by {
            lemma_chain_in_bounds(self.next@, self.buckets@[key] as int, k);
        }
    }

    /// Number of columns of the grid.
    #[verifier::when_used_as_spec(spec_cols)]
    pub fn cols(&self) -> (cols: usize)
        ensures
            cols == self.spec_cols(),
    {
        self.cols
    }

    /// Number of rows of the grid.
    #[verifier::when_used_as_spec(spec_rows)]
    pub fn rows(&self) -> (rows: usize)
        ensures
            rows == self.spec_rows(),
    {
        self.rows
    }

    /// Number of entity slots the index can link.
    #[verifier::when_used_as_spec(spec_capacity)]
    pub fn capacity(&self) -> (capacity: usize)
        ensures
            capacity == self.spec_capacity(),
    {
        self.next.len()
    }

    /// An empty index over a grid of `cols` by `rows` cells (each at least 1)
    /// for up to `capacity` entities.
    pub fn new(cols: usize, rows: usize, capacity: usize) -> (hash: SpatialHash)
        requires
            capacity <= i32::MAX,
            (if cols == 0 { 1 } else { cols as int }) * (if rows == 0 { 1 } else { rows as int }) <= usize::MAX,
        ensures
            hash.wf(),
            hash.cols() == (if cols == 0 { 1 } else { cols }),
            hash.rows() == (if rows == 0 { 1 } else { rows }),
            hash.capacity() == capacity,
            hash@ == Seq::new((hash.cols() * hash.rows()) as nat, |key: int| Seq::<usize>::empty()),
    {
        let cols: usize = if cols == 0 { 1 } else { cols };
        let rows: usize = if rows == 0 { 1 } else { rows };
        let hash = SpatialHash {
            cols,
            rows,
            buckets: vec![-1i32; cols * rows],
            next: vec![-1i32; capacity],
        };
        hash
    }

    /// The cell of grid coordinates `(cx, cy)`, pulled back onto the grid.
    pub fn get_key(&self, cx: usize, cy: usize) -> (key: usize)
        requires
            self.wf(),
        ensures
            key == cell_key(self.cols() as int, self.rows() as int, cx as int, cy as int),
            key < self.cols() * self.rows(),
    {
        let kx: usize = if cx < self.cols { cx } else { self.cols - 1 };
        let ky: usize = if cy < self.rows { cy } else { self.rows - 1 };
        assert(self.buckets@.len() == self.buckets.len());
        assert(0 <= ky * self.cols && ky * self.cols + kx < self.cols * self.rows)
            by (nonlinear_arith)
            requires
                kx < self.cols,
                ky < self.rows,
        ;
        ky * self.cols + kx
    }

    /// Rebuilds the index from scratch: afterwards each cell lists exactly the
    /// live entities among the first `count` whose coordinates fall into it,
    /// latest index first, and nothing of the previous contents remains.
    pub fn rebuild(&mut self, cell_x: &[usize], cell_y: &[usize], alive: &[u8], count: usize)
        requires
            old(self).wf(),
            count <= cell_x@.len(),
            count <= cell_y@.len(),
            count <= alive@.len(),
            count <= old(self).capacity(),
        ensures
            final(self).wf(),
            final(self).cols() == old(self).cols(),
            final(self).rows() == old(self).rows(),
            final(self).capacity() == old(self).capacity(),
            final(self)@ == grid_of(
                old(self).cols() as int,
                old(self).rows() as int,
                cell_x@,
                cell_y@,
                alive@,
                count as int,
            ),
    {
        let cells: usize = self.buckets.len();
        let capacity: usize = self.next.len();
        let mut k: usize = 0;
        while k < cells
            invariant
                k <= cells,
                cells == self.buckets@.len(),
                capacity == self.next@.len(),
                self.cols == old(self).cols,
                self.rows == old(self).rows,
                forall|c: int| 0 <= c < k ==> self.buckets@[c] == -1,
            decreases cells - k,
        {
            self.buckets.set(k, -1);
            k += 1;
        }
        let mut j: usize = 0;
        while j < capacity
            invariant
                j <= capacity,
                cells == self.buckets@.len(),
                capacity == self.next@.len(),
                self.cols == old(self).cols,
                self.rows == old(self).rows,
                forall|c: int| 0 <= c < cells ==> self.buckets@[c] == -1,
                forall|e: int| 0 <= e < j ==> self.next@[e] == -1,
            decreases capacity - j,
        {
            self.next.set(j, -1);
            j += 1;
        }
        let ghost cols = self.cols as int;
        let ghost rows = self.rows as int;
        let mut i: usize = 0;
        while i < count
            invariant
                i <= count,
                count <= capacity,
                count <= cell_x@.len(),
                count <= cell_y@.len(),
                count <= alive@.len(),
                capacity <= i32::MAX,
                cells == self.buckets@.len(),
                capacity == self.next@.len(),
                cells == self.cols * self.rows,
                self.cols >= 1,
                self.rows >= 1,
                self.cols == old(self).cols,
                self.rows == old(self).rows,
                cols == self.cols,
                rows == self.rows,
                forall|c: int| 0 <= c < cells ==> -1 <= #[trigger] self.buckets@[c] < i,
                forall|e: int| 0 <= e < i ==> -1 <= #[trigger] self.next@[e] < e,
                forall|e: int| i <= e < capacity ==> #[trigger] self.next@[e] == -1,
                forall|c: int|
                    0 <= c < cells ==> chain(self.next@, #[trigger] self.buckets@[c] as int)
                        == occupants(cols, rows, cell_x@, cell_y@, alive@, i as int, c),
            decreases count - i,
        {
            if alive[i] != 0 {
                let key = self.get_key(cell_x[i], cell_y[i]);
                let head = self.buckets[key];
                let ghost next0 = self.next@;
                let ghost buckets0 = self.buckets@;
                self.next.set(i, head);
                self.buckets.set(key, i as i32);
                proof {
                    let next1 = self.next@;
                    let buckets1 = self.buckets@;
                    assert forall|c: int| 0 <= c < cells implies chain(
                        next1,
                        #[trigger] buckets1[c] as int,
                    ) == occupants(cols, rows, cell_x@, cell_y@, alive@, i + 1, c) by {
                        if c == key {
                            lemma_chain_frame(next0, next1, head as int);
                        } else {
                            lemma_chain_frame(next0, next1, buckets0[c] as int);
                        }
                    }
                }
            }
            i += 1;
        }
    }

    /// One past the last column of `range` that lies on the grid.
    pub open spec fn x_end(&self, range: CellRange) -> int {
        least(range.x1 as int, self.cols() - 1) + 1
    }

    /// One past the last row of `range` that lies on the grid.
    pub open spec fn y_end(&self, range: CellRange) -> int {
        least(range.y1 as int, self.rows() - 1) + 1
    }

    /// Every entity in the cells of `range`, row by row, each row from left
    /// to right, each cell in list order.  The part of `range` beyond the
    /// grid's last column or row is ignored.
    pub open spec fn box_entities(&self, range: CellRange) -> Seq<usize> {
        scan_rows(
            self@,
            self.cols() as int,
            None,
            range.x0 as int,
            self.x_end(range),
            range.y0 as int,
            self.y_end(range),
        )
    }

    /// Returns every entity in the cells of `range`.  The index prunes by
    /// cell only; a caller that wants a circle filters by distance itself.
    pub fn query_neighbors(&self, range: CellRange) -> (results: Vec<usize>)
        requires
            self.wf(),
        ensures
            results@ == self.box_entities(range),
            forall|k: int| 0 <= k < results@.len() ==> #[trigger] results@[k] < self.capacity(),
    {
        let cols: usize = self.cols;
        let cells: usize = self.buckets.len();
        let x_end: usize = if range.x1 < cols { range.x1 + 1 } else { cols };
        let y_end: usize = if range.y1 < self.rows { range.y1 + 1 } else { self.rows };
        let ghost grid = self@;
        let mut results: Vec<usize> = Vec::new();
        let mut cy: usize = range.y0;
        while cy < y_end
            invariant
                self.wf(),
                grid == self@,
                cols == self.cols,
                cells == self.buckets@.len(),
                x_end <= cols,
                y_end <= self.rows,
                range.y0 <= cy,
                cy <= y_end || cy == range.y0,
                forall|k: int| 0 <= k < results@.len() ==> #[trigger] results@[k] < self.capacity(),
                results@ == scan_rows(
                    grid,
                    cols as int,
                    None,
                    range.x0 as int,
                    x_end as int,
                    range.y0 as int,
                    cy as int,
                ),
            decreases y_end - cy,
        {
            let ghost above = results@;
            let mut cx: usize = range.x0;
            while cx < x_end
                invariant
                    self.wf(),
                    grid == self@,
                    cols == self.cols,
                    cells == self.buckets@.len(),
                    x_end <= cols,
                    cy < y_end,
                    y_end <= self.rows,
                    range.x0 <= cx,
                    cx <= x_end || cx == range.x0,
                    forall|k: int|
                        0 <= k < results@.len() ==> #[trigger] results@[k] < self.capacity(),
                    results@ == above + scan_row(
                        grid,
                        cols as int,
                        None,
                        cy as int,
                        range.x0 as int,
                        cx as int,
                    ),
                decreases x_end - cx,
            {
                assert(0 <= cy * cols && cy * cols + cx < cols * self.rows) by (nonlinear_arith)
                    requires
                        cx < cols,
                        cy < self.rows,
                ;
                let key: usize = cy * cols + cx;
                let ghost left = results@;
                let ghost mut taken: Seq<usize> = Seq::empty();
                let mut idx: i32 = self.buckets[key];
                while idx != -1
                    invariant
                        self.wf(),
                        -1 <= idx < self.next@.len(),
                        forall|k: int|
                            0 <= k < results@.len() ==> #[trigger] results@[k] < self.capacity(),
                        results@ == left + taken,
                        taken + chain(self.next@, idx as int) == grid[key as int],
                    decreases idx + 1,
                {
                    results.push(idx as usize);
                    proof {
                        taken = taken.push(idx as usize);
                    }
                    idx = self.next[idx as usize];
                }
                cx += 1;
            }
            cy += 1;
        }
        results
    }

    /// Hands every entity in the cells of `range` to `callback`, in the order
    /// of [`Self::box_entities`].
    pub fn for_each_neighbor<F: FnMut(usize)>(&self, range: CellRange, callback: F)
        requires
            self.wf(),
            forall|j: usize| j < self.capacity() ==> call_requires(callback, (j,)),
        ensures
            forall|k: int|
                0 <= k < self.box_entities(range).len() ==> call_ensures(
                    callback,
                    (#[trigger] self.box_entities(range)[k],),
                    (),
                ),
    {
        let cols: usize = self.cols;
        let cells: usize = self.buckets.len();
        let x_end: usize = if range.x1 < cols { range.x1 + 1 } else { cols };
        let y_end: usize = if range.y1 < self.rows { range.y1 + 1 } else { self.rows };
        let ghost grid = self@;
        let ghost mut visited: Seq<usize> = Seq::empty();
        let mut visit = callback;
        let mut cy: usize = range.y0;
        while cy < y_end
            invariant
                self.wf(),
                grid == self@,
                cols == self.cols,
                cells == self.buckets@.len(),
                x_end <= cols,
                y_end <= self.rows,
                range.y0 <= cy,
                cy <= y_end || cy == range.y0,
                visit == callback,
                forall|j: usize| j < self.capacity() ==> call_requires(callback, (j,)),
                forall|k: int| 0 <= k < visited.len() ==> call_ensures(callback, (#[trigger] visited[k],), ()),
                visited == scan_rows(
                    grid,
                    cols as int,
                    None,
                    range.x0 as int,
                    x_end as int,
                    range.y0 as int,
                    cy as int,
                ),
            decreases y_end - cy,
        {
            let ghost above = visited;
            let mut cx: usize = range.x0;
            while cx < x_end
                invariant
                    self.wf(),
                    grid == self@,
                    cols == self.cols,
                    cells == self.buckets@.len(),
                    x_end <= cols,
                    cy < y_end,
                    y_end <= self.rows,
                    range.x0 <= cx,
                    cx <= x_end || cx == range.x0,
                    visit == callback,
                    forall|j: usize| j < self.capacity() ==> call_requires(callback, (j,)),
                    forall|k: int| 0 <= k < visited.len() ==> call_ensures(callback, (#[trigger] visited[k],), ()),
                    visited == above + scan_row(
                        grid,
                        cols as int,
                        None,
                        cy as int,
                        range.x0 as int,
                        cx as int,
                    ),
                decreases x_end - cx,
            {
                assert(0 <= cy * cols && cy * cols + cx < cols * self.rows) by (nonlinear_arith)
                    requires
                        cx < cols,
                        cy < self.rows,
                ;
                let key: usize = cy * cols + cx;
                let ghost left = visited;
                let ghost mut taken: Seq<usize> = Seq::empty();
                let mut idx: i32 = self.buckets[key];
                while idx != -1
                    invariant
                        self.wf(),
                        -1 <= idx < self.next@.len(),
                        visit == callback,
                        forall|j: usize| j < self.capacity() ==> call_requires(callback, (j,)),
                        forall|k: int| 0 <= k < visited.len() ==> call_ensures(callback, (#[trigger] visited[k],), ()),
                        visited == left + taken,
                        taken + chain(self.next@, idx as int) == grid[key as int],
                    decreases idx + 1,
                {
                    visit(idx as usize);
                    proof {
                        taken = taken.push(idx as usize);
                        visited = visited.push(idx as usize);
                    }
                    idx = self.next[idx as usize];
                }
                cx += 1;
            }
            cy += 1;
        }
    }

    /// The centre of a ring scan: `(center_x, center_y)` pulled back onto the
    /// grid.
    pub open spec fn center(&self, center_x: usize, center_y: usize) -> (int, int) {
        (least(center_x as int, self.cols() - 1), least(center_y as int, self.rows() - 1))
    }

    /// The entities in the cells of `range` in ring order around the centre
    /// cell: first the centre cell's ring 0, then the cells at Chebyshev
    /// distance 1, and so on out to the farthest cell of the range.
    pub open spec fn ring_order(&self, range: CellRange, center_x: usize, center_y: usize) -> Seq<
        usize,
    > {
        let (cx, cy) = self.center(center_x, center_y);
        rings_below(
            self@,
            self.cols() as int,
            cx,
            cy,
            range.x0 as int,
            self.x_end(range),
            range.y0 as int,
            self.y_end(range),
            farthest_ring(
                cx,
                cy,
                range.x0 as int,
                self.x_end(range),
                range.y0 as int,
                self.y_end(range),
            ) + 1,
        )
    }

    /// Hands the entities in the cells of `range` to `callback` in ring order
    /// around the centre cell, nearest ring first, until `callback` has
    /// answered `true` to `limit` of them or the range is exhausted.  Returns
    /// how many it accepted.
    pub fn for_each_neighbor_limited<F: FnMut(usize) -> bool>(
        &self,
        range: CellRange,
        center_x: usize,
        center_y: usize,
        limit: usize,
        callback: F,
    ) -> (checked: usize)
        requires
            self.wf(),
            forall|j: usize| j < self.capacity() ==> call_requires(callback, (j,)),
        ensures
            checked <= limit,
            exists|visited: Seq<usize>, verdicts: Seq<bool>|
                {
                    &&& #[trigger] limited_scan(
                        self.ring_order(range, center_x, center_y),
                        limit as int,
                        visited,
                        verdicts,
                    )
                    &&& answered(callback, visited, verdicts)
                    &&& checked == accepted_count(verdicts)
                },
    {
        let cols: usize = self.cols;
        let rows: usize = self.rows;
        let cells: usize = self.buckets.len();
        let x_end: usize = if range.x1 < cols { range.x1 + 1 } else { cols };
        let y_end: usize = if range.y1 < rows { range.y1 + 1 } else { rows };
        let ccx: usize = if center_x < cols { center_x } else { cols - 1 };
        let ccy: usize = if center_y < rows { center_y } else { rows - 1 };
        let ghost grid = self@;
        let mut visit = callback;
        let ghost order = self.ring_order(range, center_x, center_y);
        let ghost mut visited: Seq<usize> = Seq::empty();
        let ghost mut verdicts: Seq<bool> = Seq::empty();
        if range.x0 >= x_end || range.y0 >= y_end {
            proof {
                lemma_empty_window(
                    grid,
                    cols as int,
                    Some((ccx as int, ccy as int, 0int)),
                    range.x0 as int,
                    x_end as int,
                    range.y0 as int,
                    y_end as int,
                );
                assert(rings_below(
                    grid,
                    cols as int,
                    ccx as int,
                    ccy as int,
                    range.x0 as int,
                    x_end as int,
                    range.y0 as int,
                    y_end as int,
                    0,
                ) =~= Seq::<usize>::empty());
                assert(limited_scan(order, limit as int, visited, verdicts));
            }
            return 0;
        }
        let near: usize = cell_distance(range.x0, range.y0, ccx, ccy);
        let far: usize = cell_distance(x_end - 1, y_end - 1, ccx, ccy);
        let max_ring: usize = if near >= far { near } else { far };
        assert(cols <= cells && rows <= cells) by (nonlinear_arith)
            requires
                cols >= 1,
                rows >= 1,
                cells == cols * rows,
        ;
        let mut checked: usize = 0;
        let mut ring: usize = 0;
        while ring <= max_ring
            invariant
                self.wf(),
                grid == self@,
                cols == self.cols,
                rows == self.rows,
                cells == self.buckets@.len(),
                x_end <= cols,
                y_end <= rows,
                range.x0 < x_end,
                range.y0 < y_end,
                max_ring < cells,
                ring <= max_ring + 1,
                visit == callback,
                forall|j: usize| j < self.capacity() ==> call_requires(callback, (j,)),
                visited.len() == verdicts.len(),
                answered(callback, visited, verdicts),
                checked == accepted_count(verdicts),
                checked <= limit,
                forall|k: int|
                    0 <= k < verdicts.len() ==> accepted_count(#[trigger] verdicts.take(k))
                        < limit,
                order == self.ring_order(range, center_x, center_y),
                order == rings_below(
                    grid,
                    cols as int,
                    ccx as int,
                    ccy as int,
                    range.x0 as int,
                    x_end as int,
                    range.y0 as int,
                    y_end as int,
                    max_ring + 1,
                ),
                visited == rings_below(
                    grid,
                    cols as int,
                    ccx as int,
                    ccy as int,
                    range.x0 as int,
                    x_end as int,
                    range.y0 as int,
                    y_end as int,
                    ring as int,
                ),
            decreases max_ring + 1 - ring,
        {
            let ghost sel = Some((ccx as int, ccy as int, ring as int));
            let ghost inner = visited;
            let mut cy: usize = range.y0;
            while cy < y_end
                invariant
                    self.wf(),
                    grid == self@,
                    cols == self.cols,
                    rows == self.rows,
                    cells == self.buckets@.len(),
                    x_end <= cols,
                    y_end <= rows,
                    range.x0 < x_end,
                    range.y0 <= cy <= y_end,
                    ring <= max_ring,
                    sel == Some((ccx as int, ccy as int, ring as int)),
                    visit == callback,
                    forall|j: usize| j < self.capacity() ==> call_requires(callback, (j,)),
                    visited.len() == verdicts.len(),
                    answered(callback, visited, verdicts),
                    checked == accepted_count(verdicts),
                    checked <= limit,
                    forall|k: int|
                        0 <= k < verdicts.len() ==> accepted_count(#[trigger] verdicts.take(k))
                            < limit,
                    order == self.ring_order(range, center_x, center_y),
                    order == rings_below(
                        grid,
                        cols as int,
                        ccx as int,
                        ccy as int,
                        range.x0 as int,
                        x_end as int,
                        range.y0 as int,
                        y_end as int,
                        max_ring + 1,
                    ),
                    inner == rings_below(
                        grid,
                        cols as int,
                        ccx as int,
                        ccy as int,
                        range.x0 as int,
                        x_end as int,
                        range.y0 as int,
                        y_end as int,
                        ring as int,
                    ),
                    visited == inner + scan_rows(
                        grid,
                        cols as int,
                        sel,
                        range.x0 as int,
                        x_end as int,
                        range.y0 as int,
                        cy as int,
                    ),
                decreases y_end - cy,
            {
                let ghost above = scan_rows(
                    grid,
                    cols as int,
                    sel,
                    range.x0 as int,
                    x_end as int,
                    range.y0 as int,
                    cy as int,
                );
                let mut cx: usize = range.x0;
                while cx < x_end
                    invariant
                        self.wf(),
                        grid == self@,
                        cols == self.cols,
                        rows == self.rows,
                        cells == self.buckets@.len(),
                        x_end <= cols,
                        y_end <= rows,
                        range.x0 <= cx <= x_end,
                        range.y0 <= cy < y_end,
                        ring <= max_ring,
                        sel == Some((ccx as int, ccy as int, ring as int)),
                        visit == callback,
                        forall|j: usize| j < self.capacity() ==> call_requires(callback, (j,)),
                        visited.len() == verdicts.len(),
                        answered(callback, visited, verdicts),
                        checked == accepted_count(verdicts),
                        checked <= limit,
                        forall|k: int|
                            0 <= k < verdicts.len() ==> accepted_count(
                                #[trigger] verdicts.take(k),
                            ) < limit,
                        order == self.ring_order(range, center_x, center_y),
                        order == rings_below(
                            grid,
                            cols as int,
                            ccx as int,
                            ccy as int,
                            range.x0 as int,
                            x_end as int,
                            range.y0 as int,
                            y_end as int,
                            max_ring + 1,
                        ),
                        inner == rings_below(
                            grid,
                            cols as int,
                            ccx as int,
                            ccy as int,
                            range.x0 as int,
                            x_end as int,
                            range.y0 as int,
                            y_end as int,
                            ring as int,
                        ),
                        above == scan_rows(
                            grid,
                            cols as int,
                            sel,
                            range.x0 as int,
                            x_end as int,
                            range.y0 as int,
                            cy as int,
                        ),
                        visited == inner + above + scan_row(
                            grid,
                            cols as int,
                            sel,
                            cy as int,
                            range.x0 as int,
                            cx as int,
                        ),
                    decreases x_end - cx,
                {
                    let ghost left = scan_row(
                        grid,
                        cols as int,
                        sel,
                        cy as int,
                        range.x0 as int,
                        cx as int,
                    );
                    if cell_distance(cx, cy, ccx, ccy) == ring {
                        assert(0 <= cy * cols && cy * cols + cx < cols * rows)
                            by (nonlinear_arith)
                            requires
                                cx < cols,
                                cy < rows,
                        ;
                        let key: usize = cy * cols + cx;
                        let ghost mut taken: Seq<usize> = Seq::empty();
                        let mut idx: i32 = self.buckets[key];
                        while idx != -1 && checked < limit
                            invariant
                                self.wf(),
                                -1 <= idx < self.next@.len(),
                                key < grid.len(),
                                visit == callback,
                                forall|j: usize|
                                    j < self.capacity() ==> call_requires(callback, (j,)),
                                visited.len() == verdicts.len(),
                                answered(callback, visited, verdicts),
                                checked == accepted_count(verdicts),
                                checked <= limit,
                                forall|k: int|
                                    0 <= k < verdicts.len() ==> accepted_count(
                                        #[trigger] verdicts.take(k),
                                    ) < limit,
                                visited == inner + above + left + taken,
                                taken + chain(self.next@, idx as int) == grid[key as int],
                            decreases idx + 1,
                        {
                            let accept = visit(idx as usize);
                            proof {
                                let verdicts1 = verdicts.push(accept);
                                assert forall|k: int| 0 <= k < verdicts1.len() implies accepted_count(
                                    #[trigger] verdicts1.take(k),
                                ) < limit by {
                                    if k < verdicts.len() {
                                        assert(verdicts1.take(k) =~= verdicts.take(k));
                                    } else {
                                        assert(verdicts1.take(k) =~= verdicts);
                                    }
                                }
                                lemma_count_push(verdicts, accept);
                                taken = taken.push(idx as usize);
                                visited = visited.push(idx as usize);
                                verdicts = verdicts1;
                            }
                            if accept {
                                checked += 1;
                            }
                            idx = self.next[idx as usize];
                        }
                        if checked >= limit {
                            proof {
                                assert(taken.is_prefix_of(grid[key as int]));
                                lemma_partial_scan_is_prefix(
                                    grid,
                                    cols as int,
                                    ccx as int,
                                    ccy as int,
                                    range.x0 as int,
                                    x_end as int,
                                    range.y0 as int,
                                    y_end as int,
                                    max_ring + 1,
                                    ring as int,
                                    cy as int,
                                    cx as int,
                                    taken,
                                );
                                assert(limited_scan(order, limit as int, visited, verdicts));
                            }
                            return checked;
                        }
                    }
                    cx += 1;
                }
                cy += 1;
            }
            ring += 1;
        }
        proof {
            assert(visited.is_prefix_of(order));
            assert(limited_scan(order, limit as int, visited, verdicts));
        }
        checked
    }

    /// Whatever a query or a scan hands out is a slot of the index, so a
    /// caller may look it up in any column of that capacity.
    pub proof fn lemma_candidates_in_bounds(
        &self,
        range: CellRange,
        center_x: usize,
        center_y: usize,
    )
        requires
            self.wf(),
        ensures
            forall|k: int|
                0 <= k < self.box_entities(range).len() ==> #[trigger] self.box_entities(range)[k]
                    < self.capacity(),
            forall|k: int|
                0 <= k < self.ring_order(range, center_x, center_y).len()
                    ==> #[trigger] self.ring_order(range, center_x, center_y)[k] < self.capacity(),
    {
        self.lemma_lists_in_bounds();
        let cols = self.cols() as int;
        let rows = self.rows() as int;
        let x_end = self.x_end(range);
        let y_end = self.y_end(range);
        assert(y_end * cols <= self@.len()) by (nonlinear_arith)
            requires
                y_end <= rows,
                cols >= 1,
                self@.len() == cols * rows,
        ;
        let (cx, cy) = self.center(center_x, center_y);
        let far = farthest_ring(cx, cy, range.x0 as int, x_end, range.y0 as int, y_end) + 1;
        assert forall|k: int| 0 <= k < self.box_entities(range).len() implies #[trigger] self.box_entities(
            range,
        )[k] < self.capacity() by {
            lemma_scan_rows_below(
                self@,
                cols,
                None,
                range.x0 as int,
                x_end,
                range.y0 as int,
                y_end,
                self.capacity() as int,
                k,
            );
        }
        assert forall|k: int|
            0 <= k < self.ring_order(range, center_x, center_y).len() implies #[trigger] self.ring_order(
            range,
            center_x,
            center_y,
        )[k] < self.capacity() by {
            lemma_rings_below_bound(
                self@,
                cols,
                cx,
                cy,
                range.x0 as int,
                x_end,
                range.y0 as int,
                y_end,
                far,
                self.capacity() as int,
                k,
            );
        }
    }
}

} // verus!
