//! What a rebuilt index answers: a query returns exactly the live entities
//! whose cell lies in the queried range, each once, and a ring scan walks
//! them nearest ring first.

use crate::spatial_hash::{
    accepted_count, cell_key, chebyshev, farthest_ring, grid_of, least, limited_scan, occupants,
    rings_below, scan_row, scan_rows, takes_cell, CellRange, SpatialHash,
};
use vstd::prelude::*;
use vstd::seq_lib::{lemma_no_dup_in_concat, lemma_seq_concat_contains_all_elements};

verus! {

/// Entity `e` is one of the first `count` and flagged alive.
pub open spec fn is_live(alive: Seq<u8>, count: int, e: int) -> bool {
    0 <= e < count && alive[e] != 0
}

/// The column of the cell that entity `e` is filed under.
pub open spec fn home_x(cols: int, cell_x: Seq<usize>, e: int) -> int {
    least(cell_x[e] as int, cols - 1)
}

/// The row of the cell that entity `e` is filed under.
pub open spec fn home_y(rows: int, cell_y: Seq<usize>, e: int) -> int {
    least(cell_y[e] as int, rows - 1)
}

/// The ring of entity `e` around the cell `(cx, cy)`.
pub open spec fn home_ring(
    cols: int,
    rows: int,
    cell_x: Seq<usize>,
    cell_y: Seq<usize>,
    cx: int,
    cy: int,
    e: int,
) -> int {
    chebyshev(home_x(cols, cell_x, e), home_y(rows, cell_y, e), cx, cy)
}

/// The inputs of a rebuild are consistent: a grid of at least one cell, and
/// `count` entities for which coordinates and a flag are given.
pub open spec fn rebuild_inputs(
    cols: int,
    rows: int,
    cell_x: Seq<usize>,
    cell_y: Seq<usize>,
    alive: Seq<u8>,
    count: int,
) -> bool {
    &&& cols >= 1
    &&& rows >= 1
    &&& 0 <= count <= usize::MAX
    &&& count <= cell_x.len()
    &&& count <= cell_y.len()
    &&& count <= alive.len()
}

/// A cell number determines its column and row.
proof fn lemma_key_unique(cols: int, x1: int, y1: int, x2: int, y2: int)
    requires
        0 <= x1 < cols,
        0 <= x2 < cols,
        y1 * cols + x1 == y2 * cols + x2,
    ensures
        x1 == x2,
        y1 == y2,
{
    if y1 < y2 {
        assert(y2 * cols >= y1 * cols + cols) by (nonlinear_arith)
            requires
                y1 + 1 <= y2,
                cols > 0,
        ;
    } else if y2 < y1 {
        assert(y1 * cols >= y2 * cols + cols) by (nonlinear_arith)
            requires
                y2 + 1 <= y1,
                cols > 0,
        ;
    }
}

/// Cell `(x, y)` of the grid has a number inside the grid.
proof fn lemma_key_in_grid(cols: int, rows: int, x: int, y: int)
    requires
        0 <= x < cols,
        0 <= y < rows,
    ensures
        0 <= y * cols + x < cols * rows,
{
    assert(0 <= y * cols && y * cols + cols <= cols * rows) by (nonlinear_arith)
        requires
            0 <= y,
            y + 1 <= rows,
            cols > 0,
    ;
}

/// A cell's list holds exactly the live entities filed under that cell, and
/// none of them twice.
pub proof fn lemma_occupants_members(
    cols: int,
    rows: int,
    cell_x: Seq<usize>,
    cell_y: Seq<usize>,
    alive: Seq<u8>,
    count: int,
    key: int,
    e: usize,
)
    requires
        rebuild_inputs(cols, rows, cell_x, cell_y, alive, count),
    ensures
        occupants(cols, rows, cell_x, cell_y, alive, count, key).contains(e) <==> is_live(
            alive,
            count,
            e as int,
        ) && cell_key(cols, rows, cell_x[e as int] as int, cell_y[e as int] as int) == key,
        occupants(cols, rows, cell_x, cell_y, alive, count, key).no_duplicates(),
    decreases count,
{
    if count > 0 {
        let i = count - 1;
        let earlier = occupants(cols, rows, cell_x, cell_y, alive, i, key);
        lemma_occupants_members(cols, rows, cell_x, cell_y, alive, i, key, e);
        if alive[i] != 0 && cell_key(cols, rows, cell_x[i] as int, cell_y[i] as int) == key {
            lemma_seq_concat_contains_all_elements(seq![i as usize], earlier, e);
            assert(seq![i as usize].contains(e) <==> e == i) by {
                if e == i {
                    assert(seq![i as usize][0] == e);
                }
            }
            let single = seq![i as usize];
            assert forall|a: int, b: int|
                0 <= a < single.len() && 0 <= b < earlier.len() implies #[trigger] single[a]
                != #[trigger] earlier[b] by {
                lemma_occupants_members(cols, rows, cell_x, cell_y, alive, i, key, earlier[b]);
            }
            lemma_no_dup_in_concat(single, earlier);
        }
    }
}

/// A row scan over a rebuilt index meets exactly the live entities filed
/// under the scanned cells of that row which the scan takes, none twice.
pub proof fn lemma_row_members(
    cols: int,
    rows: int,
    cell_x: Seq<usize>,
    cell_y: Seq<usize>,
    alive: Seq<u8>,
    count: int,
    ring: Option<(int, int, int)>,
    y: int,
    x0: int,
    x_end: int,
    e: usize,
)
    requires
        rebuild_inputs(cols, rows, cell_x, cell_y, alive, count),
        0 <= y < rows,
        0 <= x0,
        x_end <= cols,
    ensures
        scan_row(grid_of(cols, rows, cell_x, cell_y, alive, count), cols, ring, y, x0, x_end).contains(
            e,
        ) <==> {
            &&& is_live(alive, count, e as int)
            &&& home_y(rows, cell_y, e as int) == y
            &&& x0 <= home_x(cols, cell_x, e as int) < x_end
            &&& takes_cell(ring, home_x(cols, cell_x, e as int), y)
        },
        scan_row(
            grid_of(cols, rows, cell_x, cell_y, alive, count),
            cols,
            ring,
            y,
            x0,
            x_end,
        ).no_duplicates(),
    decreases x_end - x0,
{
    let grid = grid_of(cols, rows, cell_x, cell_y, alive, count);
    if x_end > x0 {
        let x = x_end - 1;
        let before = scan_row(grid, cols, ring, y, x0, x);
        lemma_row_members(cols, rows, cell_x, cell_y, alive, count, ring, y, x0, x, e);
        lemma_key_in_grid(cols, rows, x, y);
        let key = y * cols + x;
        let here = grid[key];
        lemma_occupants_members(cols, rows, cell_x, cell_y, alive, count, key, e);
        if is_live(alive, count, e as int) {
            let hx = home_x(cols, cell_x, e as int);
            let hy = home_y(rows, cell_y, e as int);
            if hy * cols + hx == key {
                lemma_key_unique(cols, hx, hy, x, y);
            }
        }
        if takes_cell(ring, x, y) {
            lemma_seq_concat_contains_all_elements(before, here, e);
            assert forall|a: int, b: int|
                0 <= a < before.len() && 0 <= b < here.len() implies #[trigger] before[a]
                != #[trigger] here[b] by {
                lemma_row_members(
                    cols,
                    rows,
                    cell_x,
                    cell_y,
                    alive,
                    count,
                    ring,
                    y,
                    x0,
                    x,
                    before[a],
                );
                lemma_occupants_members(cols, rows, cell_x, cell_y, alive, count, key, here[b]);
                let f = here[b] as int;
                lemma_key_unique(cols, home_x(cols, cell_x, f), home_y(rows, cell_y, f), x, y);
            }
            lemma_no_dup_in_concat(before, here);
        }
    }
}

/// A scan over a window of a rebuilt index meets exactly the live entities
/// filed under the cells of the window which the scan takes, none twice.
pub proof fn lemma_window_members(
    cols: int,
    rows: int,
    cell_x: Seq<usize>,
    cell_y: Seq<usize>,
    alive: Seq<u8>,
    count: int,
    ring: Option<(int, int, int)>,
    x0: int,
    x_end: int,
    y0: int,
    y_end: int,
    e: usize,
)
    requires
        rebuild_inputs(cols, rows, cell_x, cell_y, alive, count),
        0 <= x0,
        x_end <= cols,
        0 <= y0,
        y_end <= rows,
    ensures
        scan_rows(
            grid_of(cols, rows, cell_x, cell_y, alive, count),
            cols,
            ring,
            x0,
            x_end,
            y0,
            y_end,
        ).contains(e) <==> {
            &&& is_live(alive, count, e as int)
            &&& x0 <= home_x(cols, cell_x, e as int) < x_end
            &&& y0 <= home_y(rows, cell_y, e as int) < y_end
            &&& takes_cell(ring, home_x(cols, cell_x, e as int), home_y(rows, cell_y, e as int))
        },
        scan_rows(
            grid_of(cols, rows, cell_x, cell_y, alive, count),
            cols,
            ring,
            x0,
            x_end,
            y0,
            y_end,
        ).no_duplicates(),
    decreases y_end - y0,
{
    let grid = grid_of(cols, rows, cell_x, cell_y, alive, count);
    if y_end > y0 {
        let y = y_end - 1;
        let above = scan_rows(grid, cols, ring, x0, x_end, y0, y);
        let row = scan_row(grid, cols, ring, y, x0, x_end);
        lemma_window_members(cols, rows, cell_x, cell_y, alive, count, ring, x0, x_end, y0, y, e);
        lemma_row_members(cols, rows, cell_x, cell_y, alive, count, ring, y, x0, x_end, e);
        lemma_seq_concat_contains_all_elements(above, row, e);
        assert forall|a: int, b: int|
            0 <= a < above.len() && 0 <= b < row.len() implies #[trigger] above[a]
            != #[trigger] row[b] by {
            lemma_window_members(
                cols,
                rows,
                cell_x,
                cell_y,
                alive,
                count,
                ring,
                x0,
                x_end,
                y0,
                y,
                above[a],
            );
            lemma_row_members(cols, rows, cell_x, cell_y, alive, count, ring, y, x0, x_end, row[b]);
        }
        lemma_no_dup_in_concat(above, row);
    }
}

/// A ring scan over a window of a rebuilt index, out to ring `ring_end - 1`,
/// meets exactly the live entities filed under cells of the window at
/// distance below `ring_end`, none twice.
pub proof fn lemma_rings_members(
    cols: int,
    rows: int,
    cell_x: Seq<usize>,
    cell_y: Seq<usize>,
    alive: Seq<u8>,
    count: int,
    cx: int,
    cy: int,
    x0: int,
    x_end: int,
    y0: int,
    y_end: int,
    ring_end: int,
    e: usize,
)
    requires
        rebuild_inputs(cols, rows, cell_x, cell_y, alive, count),
        0 <= x0,
        x_end <= cols,
        0 <= y0,
        y_end <= rows,
    ensures
        rings_below(
            grid_of(cols, rows, cell_x, cell_y, alive, count),
            cols,
            cx,
            cy,
            x0,
            x_end,
            y0,
            y_end,
            ring_end,
        ).contains(e) <==> {
            &&& is_live(alive, count, e as int)
            &&& x0 <= home_x(cols, cell_x, e as int) < x_end
            &&& y0 <= home_y(rows, cell_y, e as int) < y_end
            &&& home_ring(cols, rows, cell_x, cell_y, cx, cy, e as int) < ring_end
        },
        rings_below(
            grid_of(cols, rows, cell_x, cell_y, alive, count),
            cols,
            cx,
            cy,
            x0,
            x_end,
            y0,
            y_end,
            ring_end,
        ).no_duplicates(),
    decreases ring_end,
{
    let grid = grid_of(cols, rows, cell_x, cell_y, alive, count);
    if ring_end > 0 {
        let r = ring_end - 1;
        let sel = Some((cx, cy, r));
        let inner = rings_below(grid, cols, cx, cy, x0, x_end, y0, y_end, r);
        let outer = scan_rows(grid, cols, sel, x0, x_end, y0, y_end);
        lemma_rings_members(cols, rows, cell_x, cell_y, alive, count, cx, cy, x0, x_end, y0, y_end, r, e);
        lemma_window_members(cols, rows, cell_x, cell_y, alive, count, sel, x0, x_end, y0, y_end, e);
        lemma_seq_concat_contains_all_elements(inner, outer, e);
        assert forall|a: int, b: int|
            0 <= a < inner.len() && 0 <= b < outer.len() implies #[trigger] inner[a]
            != #[trigger] outer[b] by {
            lemma_rings_members(
                cols,
                rows,
                cell_x,
                cell_y,
                alive,
                count,
                cx,
                cy,
                x0,
                x_end,
                y0,
                y_end,
                r,
                inner[a],
            );
            lemma_window_members(
                cols,
                rows,
                cell_x,
                cell_y,
                alive,
                count,
                sel,
                x0,
                x_end,
                y0,
                y_end,
                outer[b],
            );
        }
        lemma_no_dup_in_concat(inner, outer);
    }
}

/// In a ring scan no entity comes before one of a nearer ring.
pub proof fn lemma_rings_sorted(
    cols: int,
    rows: int,
    cell_x: Seq<usize>,
    cell_y: Seq<usize>,
    alive: Seq<u8>,
    count: int,
    cx: int,
    cy: int,
    x0: int,
    x_end: int,
    y0: int,
    y_end: int,
    ring_end: int,
    a: int,
    b: int,
)
    requires
        rebuild_inputs(cols, rows, cell_x, cell_y, alive, count),
        0 <= x0,
        x_end <= cols,
        0 <= y0,
        y_end <= rows,
        0 <= a <= b < rings_below(
            grid_of(cols, rows, cell_x, cell_y, alive, count),
            cols,
            cx,
            cy,
            x0,
            x_end,
            y0,
            y_end,
            ring_end,
        ).len(),
    ensures
        ({
            let order = rings_below(
                grid_of(cols, rows, cell_x, cell_y, alive, count),
                cols,
                cx,
                cy,
                x0,
                x_end,
                y0,
                y_end,
                ring_end,
            );
            home_ring(cols, rows, cell_x, cell_y, cx, cy, order[a] as int) <= home_ring(
                cols,
                rows,
                cell_x,
                cell_y,
                cx,
                cy,
                order[b] as int,
            )
        }),
    decreases ring_end,
{
    let grid = grid_of(cols, rows, cell_x, cell_y, alive, count);
    if ring_end > 0 {
        let r = ring_end - 1;
        let sel = Some((cx, cy, r));
        let inner = rings_below(grid, cols, cx, cy, x0, x_end, y0, y_end, r);
        let outer = scan_rows(grid, cols, sel, x0, x_end, y0, y_end);
        if b < inner.len() {
            lemma_rings_sorted(
                cols,
                rows,
                cell_x,
                cell_y,
                alive,
                count,
                cx,
                cy,
                x0,
                x_end,
                y0,
                y_end,
                r,
                a,
                b,
            );
        } else {
            let eb = outer[b - inner.len()];
            lemma_window_members(cols, rows, cell_x, cell_y, alive, count, sel, x0, x_end, y0, y_end, eb);
            if a < inner.len() {
                let ea = inner[a];
                lemma_rings_members(
                    cols,
                    rows,
                    cell_x,
                    cell_y,
                    alive,
                    count,
                    cx,
                    cy,
                    x0,
                    x_end,
                    y0,
                    y_end,
                    r,
                    ea,
                );
            } else {
                let ea = outer[a - inner.len()];
                lemma_window_members(
                    cols,
                    rows,
                    cell_x,
                    cell_y,
                    alive,
                    count,
                    sel,
                    x0,
                    x_end,
                    y0,
                    y_end,
                    ea,
                );
            }
        }
    }
}

/// The answers count the candidates that pass: where every answer is what
/// `accept` says of the candidate, as many answers are `true` as candidates
/// pass `accept`.
pub proof fn lemma_count_is_filter_len(
    visited: Seq<usize>,
    verdicts: Seq<bool>,
    accept: spec_fn(usize) -> bool,
)
    requires
        visited.len() == verdicts.len(),
        forall|k: int| 0 <= k < visited.len() ==> verdicts[k] == accept(#[trigger] visited[k]),
    ensures
        accepted_count(verdicts) == visited.filter(accept).len(),
    decreases visited.len(),
{
    reveal(Seq::filter);
    if visited.len() > 0 {
        lemma_count_is_filter_len(visited.drop_last(), verdicts.drop_last(), accept);
    }
}

/// Budgeted acceptance.  Where the callback's answer depends on the
/// candidate alone, a budgeted scan accepts the first `limit` of the
/// candidates that pass, in scan order, or all of them where fewer pass.
pub proof fn lemma_budget_takes_first_acceptable(
    candidates: Seq<usize>,
    limit: int,
    visited: Seq<usize>,
    verdicts: Seq<bool>,
    accept: spec_fn(usize) -> bool,
)
    requires
        0 <= limit,
        limited_scan(candidates, limit, visited, verdicts),
        forall|k: int| 0 <= k < visited.len() ==> verdicts[k] == accept(#[trigger] visited[k]),
    ensures
        accepted_count(verdicts) == least(limit, candidates.filter(accept).len() as int),
        visited.filter(accept) == candidates.filter(accept).take(accepted_count(verdicts) as int),
{
    lemma_count_is_filter_len(visited, verdicts, accept);
    visited.lemma_filter_monotone(candidates, accept);
    if visited.len() == candidates.len() {
        assert(visited =~= candidates);
    }
}

impl SpatialHash {
    /// The index is what a rebuild leaves for these entities.
    pub open spec fn holds(
        &self,
        cell_x: Seq<usize>,
        cell_y: Seq<usize>,
        alive: Seq<u8>,
        count: int,
    ) -> bool {
        &&& self.wf()
        &&& rebuild_inputs(self.cols() as int, self.rows() as int, cell_x, cell_y, alive, count)
        &&& self@ == grid_of(self.cols() as int, self.rows() as int, cell_x, cell_y, alive, count)
    }

    /// The cell that entity `e` is filed under lies in `range`.
    pub open spec fn in_range(
        &self,
        cell_x: Seq<usize>,
        cell_y: Seq<usize>,
        range: CellRange,
        e: int,
    ) -> bool {
        &&& range.x0 <= home_x(self.cols() as int, cell_x, e) <= range.x1
        &&& range.y0 <= home_y(self.rows() as int, cell_y, e) <= range.y1
    }

    /// The ring of entity `e` around the centre of a ring scan.
    pub open spec fn ring_of(
        &self,
        cell_x: Seq<usize>,
        cell_y: Seq<usize>,
        center_x: usize,
        center_y: usize,
        e: int,
    ) -> int {
        home_ring(
            self.cols() as int,
            self.rows() as int,
            cell_x,
            cell_y,
            self.center(center_x, center_y).0,
            self.center(center_x, center_y).1,
            e,
        )
    }

    /// Index correctness.  After a rebuild, a query over a range of cells
    /// returns every live entity whose cell lies in the range, returns
    /// nothing else, and returns nothing twice.
    pub proof fn lemma_query_is_exact(
        &self,
        cell_x: Seq<usize>,
        cell_y: Seq<usize>,
        alive: Seq<u8>,
        count: int,
        range: CellRange,
        e: usize,
    )
        requires
            self.holds(cell_x, cell_y, alive, count),
        ensures
            self.box_entities(range).contains(e) <==> is_live(alive, count, e as int)
                && self.in_range(cell_x, cell_y, range, e as int),
            self.box_entities(range).no_duplicates(),
    {
        self.lemma_view_len();
        lemma_window_members(
            self.cols() as int,
            self.rows() as int,
            cell_x,
            cell_y,
            alive,
            count,
            None,
            range.x0 as int,
            self.x_end(range),
            range.y0 as int,
            self.y_end(range),
            e,
        );
    }

    /// A ring scan leaves nothing out.  After a rebuild, the ring order over
    /// a range holds the same entities as a query over that range, each once.
    pub proof fn lemma_ring_order_covers_range(
        &self,
        cell_x: Seq<usize>,
        cell_y: Seq<usize>,
        alive: Seq<u8>,
        count: int,
        range: CellRange,
        center_x: usize,
        center_y: usize,
        e: usize,
    )
        requires
            self.holds(cell_x, cell_y, alive, count),
        ensures
            self.ring_order(range, center_x, center_y).contains(e) <==> self.box_entities(
                range,
            ).contains(e),
            self.ring_order(range, center_x, center_y).no_duplicates(),
    {
        self.lemma_view_len();
        self.lemma_query_is_exact(cell_x, cell_y, alive, count, range, e);
        let (cx, cy) = self.center(center_x, center_y);
        lemma_rings_members(
            self.cols() as int,
            self.rows() as int,
            cell_x,
            cell_y,
            alive,
            count,
            cx,
            cy,
            range.x0 as int,
            self.x_end(range),
            range.y0 as int,
            self.y_end(range),
            farthest_ring(
                cx,
                cy,
                range.x0 as int,
                self.x_end(range),
                range.y0 as int,
                self.y_end(range),
            ) + 1,
            e,
        );
    }

    /// Ring order.  After a rebuild, a ring scan never hands out an entity
    /// before one that is filed in a nearer ring.
    pub proof fn lemma_ring_order_nearest_first(
        &self,
        cell_x: Seq<usize>,
        cell_y: Seq<usize>,
        alive: Seq<u8>,
        count: int,
        range: CellRange,
        center_x: usize,
        center_y: usize,
        a: int,
        b: int,
    )
        requires
            self.holds(cell_x, cell_y, alive, count),
            0 <= a <= b < self.ring_order(range, center_x, center_y).len(),
        ensures
            self.ring_of(
                cell_x,
                cell_y,
                center_x,
                center_y,
                self.ring_order(range, center_x, center_y)[a] as int,
            ) <= self.ring_of(
                cell_x,
                cell_y,
                center_x,
                center_y,
                self.ring_order(range, center_x, center_y)[b] as int,
            ),
    {
        self.lemma_view_len();
        let (cx, cy) = self.center(center_x, center_y);
        lemma_rings_sorted(
            self.cols() as int,
            self.rows() as int,
            cell_x,
            cell_y,
            alive,
            count,
            cx,
            cy,
            range.x0 as int,
            self.x_end(range),
            range.y0 as int,
            self.y_end(range),
            farthest_ring(
                cx,
                cy,
                range.x0 as int,
                self.x_end(range),
                range.y0 as int,
                self.y_end(range),
            ) + 1,
            a,
            b,
        );
    }

    /// Budget cut-off.  Whatever a budgeted scan visited before it stopped
    /// is filed at least as near to the centre as every candidate of the
    /// range that it did not reach.
    pub proof fn lemma_budget_prefers_near(
        &self,
        cell_x: Seq<usize>,
        cell_y: Seq<usize>,
        alive: Seq<u8>,
        count: int,
        range: CellRange,
        center_x: usize,
        center_y: usize,
        limit: int,
        visited: Seq<usize>,
        verdicts: Seq<bool>,
        k: int,
        missed: int,
    )
        requires
            self.holds(cell_x, cell_y, alive, count),
            limited_scan(self.ring_order(range, center_x, center_y), limit, visited, verdicts),
            0 <= k < visited.len(),
            visited.len() <= missed < self.ring_order(range, center_x, center_y).len(),
        ensures
            self.ring_of(cell_x, cell_y, center_x, center_y, visited[k] as int) <= self.ring_of(
                cell_x,
                cell_y,
                center_x,
                center_y,
                self.ring_order(range, center_x, center_y)[missed] as int,
            ),
    {
        self.lemma_ring_order_nearest_first(
            cell_x,
            cell_y,
            alive,
            count,
            range,
            center_x,
            center_y,
            k,
            missed,
        );
    }
}

} // verus!
