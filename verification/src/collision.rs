//! Terrain traversability.  A static grid of flags answers whether a cell can
//! be entered, a small lookup cache remembers recent answers, and a blocked
//! move is resolved in three tiers: the move itself, a slide along one axis,
//! an escape along the first open one of eight compass probes.

use vstd::prelude::*;

verus! {

/// The lookup cache never has more slots than this.
pub const CACHE_LIMIT: usize = 10000;

/// Number of compass directions probed for an escape.
pub const ESCAPE_PROBES: usize = 8;

/// The grid cells of the points that decide one entity's move: where the full
/// step would end, where a horizontal-only and a vertical-only step would
/// end, and the eight escape probes in compass order, starting at angle 0 and
/// advancing by an eighth of a turn.
#[derive(Clone, Copy, Debug)]
pub struct MoveProbes {
    pub direct: (usize, usize),
    pub horizontal: (usize, usize),
    pub vertical: (usize, usize),
    pub escape: [(usize, usize); 8],
}

/// How an attempted move is resolved.
#[derive(Clone, Copy, Debug, PartialEq, Eq)]
pub enum MoveOutcome {
    /// The full step is accepted.
    Direct,
    /// Only the horizontal part of the step is taken; the entity bounces
    /// vertically.
    SlideHorizontal,
    /// Only the vertical part of the step is taken; the entity bounces
    /// horizontally.
    SlideVertical,
    /// No step is taken; the entity heads for the escape probe of this
    /// number.
    Escape(usize),
    /// No step is taken and no probe is open; the entity turns around.
    Trapped,
}

/// The flag of every cell: a cell is traversable exactly when its byte is 1.
pub open spec fn flags_of(data: Seq<u8>) -> Seq<bool> {
    Seq::new(data.len(), |i: int| data[i] == 1)
}

/// The terrain: one traversability flag per grid cell, and a cache of
/// recent lookups.
pub struct BiomeCollisionMap {
    traversability: Vec<u8>,
    grid_width: usize,
    grid_height: usize,
    cache: Vec<Option<(usize, bool)>>,
    cache_generation: u32,
}

impl View for BiomeCollisionMap {
    type V = Seq<bool>;

    /// The flag of every cell, row by row.
    closed spec fn view(&self) -> Seq<bool> {
        flags_of(self.traversability@)
    }
}

impl BiomeCollisionMap {
    /// Number of columns of the grid.
    pub closed spec fn spec_grid_width(&self) -> usize {
        self.grid_width
    }

    /// Number of rows of the grid.
    pub closed spec fn spec_grid_height(&self) -> usize {
        self.grid_height
    }

    /// How often the cache has been cleared, counted modulo 2^32.
    pub closed spec fn spec_cache_generation(&self) -> u32 {
        self.cache_generation
    }

    /// No cache slot holds an answer.
    pub closed spec fn cache_is_empty(&self) -> bool {
        forall|s: int| 0 <= s < self.cache@.len() ==> #[trigger] self.cache@[s] is None
    }

    /// The grid has one flag per cell, and every answer in the cache sits in
    /// the slot of its cell and agrees with the grid.
    pub closed spec fn wf(&self) -> bool {
        &&& self.traversability@.len() == self.grid_width * self.grid_height
        &&& self.cache@.len() == if self.traversability@.len() < CACHE_LIMIT {
            self.traversability@.len()
        } else {
            CACHE_LIMIT as nat
        }
        &&& forall|s: int|
            0 <= s < self.cache@.len() ==> match #[trigger] self.cache@[s] {
                Some((cell, open)) => {
                    &&& cell < self.traversability@.len()
                    &&& (cell as int) % (self.cache@.len() as int) == s
                    &&& open == (self.traversability@[cell as int] == 1)
                },
                None => true,
            }
    }

    /// A well-formed map has one flag per cell.
    pub proof fn lemma_view_len(&self)
        requires
            self.wf(),
        ensures
            self@.len() == self.spec_grid_width() * self.spec_grid_height(),
    {
    }

    /// Whether grid cell `(x, y)` can be entered.  A cell outside the grid
    /// cannot.
    pub open spec fn traversable_at(&self, x: int, y: int) -> bool {
        &&& 0 <= x < self.grid_width()
        &&& 0 <= y < self.grid_height()
        &&& self@[y * self.grid_width() + x]
    }

    /// Number of columns of the grid.
    #[verifier::when_used_as_spec(spec_grid_width)]
    pub fn grid_width(&self) -> (width: usize)
        ensures
            width == self.spec_grid_width(),
    {
        self.grid_width
    }

    /// Number of rows of the grid.
    #[verifier::when_used_as_spec(spec_grid_height)]
    pub fn grid_height(&self) -> (height: usize)
        ensures
            height == self.spec_grid_height(),
    {
        self.grid_height
    }

    /// How often the cache has been cleared, counted modulo 2^32.
    #[verifier::when_used_as_spec(spec_cache_generation)]
    pub fn cache_generation(&self) -> (generation: u32)
        ensures
            generation == self.spec_cache_generation(),
    {
        self.cache_generation
    }

    /// A map over a grid of `grid_width` by `grid_height` cells with the
    /// given flags, one byte per cell, row by row, and an empty cache.
    pub fn new(traversability_data: &[u8], grid_width: usize, grid_height: usize) -> (map:
        BiomeCollisionMap)
        requires
            traversability_data@.len() == grid_width * grid_height,
        ensures
            map.wf(),
            map.grid_width() == grid_width,
            map.grid_height() == grid_height,
            map.cache_generation() == 0,
            map.cache_is_empty(),
            map@ == flags_of(traversability_data@),
    {
        let cells: usize = traversability_data.len();
        let mut traversability: Vec<u8> = Vec::with_capacity(cells);
        let mut i: usize = 0;
        while i < cells
            invariant
                i <= cells,
                cells == traversability_data@.len(),
                traversability@ == traversability_data@.take(i as int),
            decreases cells - i,
        {
            traversability.push(traversability_data[i]);
            i += 1;
        }
        let cache_size: usize = if cells < CACHE_LIMIT { cells } else { CACHE_LIMIT };
        let mut cache: Vec<Option<(usize, bool)>> = Vec::with_capacity(cache_size);
        let mut s: usize = 0;
        while s < cache_size
            invariant
                s <= cache_size,
                cache@.len() == s,
                forall|k: int| 0 <= k < s ==> #[trigger] cache@[k] is None,
            decreases cache_size - s,
        {
            cache.push(None);
            s += 1;
        }
        BiomeCollisionMap { traversability, grid_width, grid_height, cache, cache_generation: 0 }
    }

    /// Answers whether grid cell `(grid_x, grid_y)` can be entered, from the
    /// cache where it knows the cell, else from the grid, remembering the
    /// answer.  The grid itself is untouched.
    pub fn is_traversable(&mut self, grid_x: usize, grid_y: usize) -> (open: bool)
        requires
            old(self).wf(),
        ensures
            final(self).wf(),
            final(self)@ == old(self)@,
            final(self).grid_width() == old(self).grid_width(),
            final(self).grid_height() == old(self).grid_height(),
            final(self).cache_generation() == old(self).cache_generation(),
            open == old(self).traversable_at(grid_x as int, grid_y as int),
    {
        if grid_x >= self.grid_width || grid_y >= self.grid_height {
            return false;
        }
        let cells: usize = self.traversability.len();
        assert(0 <= grid_y * self.grid_width && grid_y * self.grid_width + grid_x < self.grid_width
            * self.grid_height) by (nonlinear_arith)
            requires
                grid_x < self.grid_width,
                grid_y < self.grid_height,
        ;
        let idx: usize = grid_y * self.grid_width + grid_x;
        let slot: usize = idx % self.cache.len();
        match self.cache[slot] {
            Some((cell, open)) => {
                if cell == idx {
                    return open;
                }
            },
            None => {},
        }
        let open: bool = self.traversability[idx] == 1;
        self.cache.set(slot, Some((idx, open)));
        open
    }

    /// Answers a batch of lookups.  `cells` holds the grid coordinates of the
    /// points flattened as `x, y, x, y, ..`; a trailing odd value is ignored.
    /// The answer for each point is 1 where its cell can be entered, else 0.
    pub fn check_positions(&mut self, cells: &[usize]) -> (results: Vec<u8>)
        requires
            old(self).wf(),
        ensures
            final(self).wf(),
            final(self)@ == old(self)@,
            final(self).grid_width() == old(self).grid_width(),
            final(self).grid_height() == old(self).grid_height(),
            final(self).cache_generation() == old(self).cache_generation(),
            results@.len() == cells@.len() / 2,
            forall|i: int|
                0 <= i < results@.len() ==> #[trigger] results@[i] == if old(self).traversable_at(
                    cells@[2 * i] as int,
                    cells@[2 * i + 1] as int,
                ) {
                    1u8
                } else {
                    0u8
                },
    {
        let count: usize = cells.len() / 2;
        let mut results: Vec<u8> = Vec::with_capacity(count);
        let mut i: usize = 0;
        while i < count
            invariant
                i <= count,
                count == cells@.len() / 2,
                cells@.len() <= usize::MAX,
                self.wf(),
                self@ == old(self)@,
                self.grid_width() == old(self).grid_width(),
                self.grid_height() == old(self).grid_height(),
                self.cache_generation() == old(self).cache_generation(),
                results@.len() == i,
                forall|k: int|
                    0 <= k < i ==> #[trigger] results@[k] == if old(self).traversable_at(
                        cells@[2 * k] as int,
                        cells@[2 * k + 1] as int,
                    ) {
                        1u8
                    } else {
                        0u8
                    },
            decreases count - i,
        {
            let open = self.is_traversable(cells[i * 2], cells[i * 2 + 1]);
            results.push(if open { 1 } else { 0 });
            i += 1;
        }
        results
    }

    /// Forgets every cached answer and counts the clearing.
    pub fn clear_cache(&mut self)
        requires
            old(self).wf(),
        ensures
            final(self).wf(),
            final(self).cache_is_empty(),
            final(self)@ == old(self)@,
            final(self).grid_width() == old(self).grid_width(),
            final(self).grid_height() == old(self).grid_height(),
            final(self).cache_generation() == if old(self).cache_generation() == u32::MAX {
                0u32
            } else {
                (old(self).cache_generation() + 1) as u32
            },
    {
        let slots: usize = self.cache.len();
        let mut s: usize = 0;
        while s < slots
            invariant
                s <= slots,
                slots == self.cache@.len(),
                self.traversability == old(self).traversability,
                self.grid_width == old(self).grid_width,
                self.grid_height == old(self).grid_height,
                self.cache_generation == old(self).cache_generation,
                forall|k: int| 0 <= k < s ==> #[trigger] self.cache@[k] is None,
            decreases slots - s,
        {
            self.cache.set(s, None);
            s += 1;
        }
        self.cache_generation = if self.cache_generation == u32::MAX {
            0
        } else {
            self.cache_generation + 1
        };
    }

    /// Replaces the whole grid by `new_data` if it has one byte per cell, and
    /// clears the cache.  Data of any other length changes nothing.  Returns
    /// whether the grid was replaced.
    pub fn update_traversability(&mut self, new_data: &[u8]) -> (replaced: bool)
        requires
            old(self).wf(),
        ensures
            final(self).wf(),
            final(self).grid_width() == old(self).grid_width(),
            final(self).grid_height() == old(self).grid_height(),
            replaced == (new_data@.len() == old(self)@.len()),
            replaced ==> final(self)@ == flags_of(new_data@) && final(self).cache_is_empty()
                && final(self).cache_generation() == if old(self).cache_generation() == u32::MAX {
                0u32
            } else {
                (old(self).cache_generation() + 1) as u32
            },
            !replaced ==> *final(self) == *old(self),
    {
        let cells: usize = self.traversability.len();
        if new_data.len() != cells {
            return false;
        }
        self.clear_cache();
        let mut i: usize = 0;
        while i < cells
            invariant
                i <= cells,
                cells == new_data@.len(),
                cells == self.traversability@.len(),
                cells == self.grid_width * self.grid_height,
                self.cache@.len() == old(self).cache@.len(),
                self.cache_is_empty(),
                self.grid_width == old(self).grid_width,
                self.grid_height == old(self).grid_height,
                self.cache_generation == if old(self).cache_generation == u32::MAX {
                    0u32
                } else {
                    (old(self).cache_generation + 1) as u32
                },
                forall|k: int| 0 <= k < i ==> #[trigger] self.traversability@[k] == new_data@[k],
            decreases cells - i,
        {
            self.traversability.set(i, new_data[i]);
            i += 1;
        }
        true
    }

    /// Resolves one entity's move: the full step if its cell is open, else a
    /// horizontal slide, else a vertical slide, else an escape towards the
    /// first open probe in compass order, else trapped.  Cells are looked up
    /// only as far as needed.
    pub fn resolve_move(&mut self, probes: &MoveProbes) -> (outcome: MoveOutcome)
        requires
            old(self).wf(),
        ensures
            final(self).wf(),
            final(self)@ == old(self)@,
            final(self).grid_width() == old(self).grid_width(),
            final(self).grid_height() == old(self).grid_height(),
            final(self).cache_generation() == old(self).cache_generation(),
            old(self).move_resolves(*probes, outcome),
    {
        if self.is_traversable(probes.direct.0, probes.direct.1) {
            return MoveOutcome::Direct;
        }
        if self.is_traversable(probes.horizontal.0, probes.horizontal.1) {
            return MoveOutcome::SlideHorizontal;
        }
        if self.is_traversable(probes.vertical.0, probes.vertical.1) {
            return MoveOutcome::SlideVertical;
        }
        let mut k: usize = 0;
        while k < ESCAPE_PROBES
            invariant
                k <= ESCAPE_PROBES,
                self.wf(),
                self@ == old(self)@,
                self.grid_width() == old(self).grid_width(),
                self.grid_height() == old(self).grid_height(),
                self.cache_generation() == old(self).cache_generation(),
                !old(self).traversable_at(probes.direct.0 as int, probes.direct.1 as int),
                !old(self).traversable_at(probes.horizontal.0 as int, probes.horizontal.1 as int),
                !old(self).traversable_at(probes.vertical.0 as int, probes.vertical.1 as int),
                forall|j: int|
                    0 <= j < k ==> !old(self).traversable_at(
                        (#[trigger] probes.escape[j]).0 as int,
                        probes.escape[j].1 as int,
                    ),
            decreases ESCAPE_PROBES - k,
        {
            let probe = probes.escape[k];
            if self.is_traversable(probe.0, probe.1) {
                return MoveOutcome::Escape(k);
            }
            k += 1;
        }
        MoveOutcome::Trapped
    }

    /// `outcome` is how the three tiers resolve a move with these probes:
    /// the first of direct step, horizontal slide and vertical slide whose
    /// cell is open, else the first open escape probe, else trapped.
    pub open spec fn move_resolves(&self, probes: MoveProbes, outcome: MoveOutcome) -> bool {
        let direct = self.traversable_at(probes.direct.0 as int, probes.direct.1 as int);
        let horizontal = self.traversable_at(
            probes.horizontal.0 as int,
            probes.horizontal.1 as int,
        );
        let vertical = self.traversable_at(probes.vertical.0 as int, probes.vertical.1 as int);
        match outcome {
            MoveOutcome::Direct => direct,
            MoveOutcome::SlideHorizontal => !direct && horizontal,
            MoveOutcome::SlideVertical => !direct && !horizontal && vertical,
            MoveOutcome::Escape(k) => {
                &&& !direct && !horizontal && !vertical
                &&& k < 8
                &&& self.traversable_at(
                    probes.escape[k as int].0 as int,
                    probes.escape[k as int].1 as int,
                )
                &&& forall|j: int|
                    0 <= j < k ==> !self.traversable_at(
                        (#[trigger] probes.escape[j]).0 as int,
                        probes.escape[j].1 as int,
                    )
            },
            MoveOutcome::Trapped => {
                &&& !direct && !horizontal && !vertical
                &&& forall|j: int|
                    0 <= j < 8 ==> !self.traversable_at(
                        (#[trigger] probes.escape[j]).0 as int,
                        probes.escape[j].1 as int,
                    )
            },
        }
    }
}

impl BiomeCollisionMap {
    /// The three tiers leave no choice: a move has one outcome.
    pub proof fn lemma_outcome_is_unique(&self, probes: MoveProbes, a: MoveOutcome, b: MoveOutcome)
        requires
            self.move_resolves(probes, a),
            self.move_resolves(probes, b),
        ensures
            a == b,
    {
    }

    /// Fallback ordering.  Where the full step and both slides are blocked
    /// and exactly one escape probe is open, the move is resolved as an
    /// escape towards that probe and towards no other.
    pub proof fn lemma_escape_follows_open_probe(
        &self,
        probes: MoveProbes,
        outcome: MoveOutcome,
        k: usize,
    )
        requires
            self.move_resolves(probes, outcome),
            !self.traversable_at(probes.direct.0 as int, probes.direct.1 as int),
            !self.traversable_at(probes.horizontal.0 as int, probes.horizontal.1 as int),
            !self.traversable_at(probes.vertical.0 as int, probes.vertical.1 as int),
            k < 8,
            forall|j: int|
                0 <= j < 8 ==> (self.traversable_at(
                    (#[trigger] probes.escape[j]).0 as int,
                    probes.escape[j].1 as int,
                ) <==> j == k),
        ensures
            outcome == MoveOutcome::Escape(k),
    {
        assert(self.traversable_at(
            probes.escape[k as int].0 as int,
            probes.escape[k as int].1 as int,
        ));
    }
}

/// Resolves the move of every live entity of a batch against the terrain,
/// entity by entity in order, each as [`BiomeCollisionMap::resolve_move`]
/// does.  A dead entity is skipped: no cell is looked up for it and it has no
/// outcome.
pub fn apply_collision_constraints(
    collision_map: &mut BiomeCollisionMap,
    alive: &[u8],
    probes: &[MoveProbes],
) -> (outcomes: Vec<Option<MoveOutcome>>)
    requires
        old(collision_map).wf(),
        alive@.len() == probes@.len(),
    ensures
        final(collision_map).wf(),
        final(collision_map)@ == old(collision_map)@,
        final(collision_map).grid_width() == old(collision_map).grid_width(),
        final(collision_map).grid_height() == old(collision_map).grid_height(),
        final(collision_map).cache_generation() == old(collision_map).cache_generation(),
        outcomes@.len() == probes@.len(),
        forall|i: int|
            0 <= i < probes@.len() ==> match #[trigger] outcomes@[i] {
                Some(outcome) => alive@[i] != 0 && old(collision_map).move_resolves(
                    probes@[i],
                    outcome,
                ),
                None => alive@[i] == 0,
            },
{
    let count: usize = probes.len();
    let mut outcomes: Vec<Option<MoveOutcome>> = Vec::with_capacity(count);
    let mut i: usize = 0;
    while i < count
        invariant
            i <= count,
            count == probes@.len(),
            count == alive@.len(),
            collision_map.wf(),
            collision_map@ == old(collision_map)@,
            collision_map.grid_width() == old(collision_map).grid_width(),
            collision_map.grid_height() == old(collision_map).grid_height(),
            collision_map.cache_generation() == old(collision_map).cache_generation(),
            outcomes@.len() == i,
            forall|k: int|
                0 <= k < i ==> match #[trigger] outcomes@[k] {
                    Some(outcome) => alive@[k] != 0 && old(collision_map).move_resolves(
                        probes@[k],
                        outcome,
                    ),
                    None => alive@[k] == 0,
                },
        decreases count - i,
    {
        if alive[i] != 0 {
            let outcome = collision_map.resolve_move(&probes[i]);
            outcomes.push(Some(outcome));
        } else {
            outcomes.push(None);
        }
        i += 1;
    }
    outcomes
}

} // verus!
