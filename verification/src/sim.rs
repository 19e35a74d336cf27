//! The entity store.  Entities live in parallel columns of one fixed
//! capacity, identified by their index; the first `count` slots are active.
//! The element type of the numeric columns is the caller's.

use crate::movement::{gene_offset, GENES_PER_ENTITY, GENE_METABOLISM, GENE_SPEED};
use crate::physics::{batch_end, integrate_batch};
use crate::spatial_hash::SpatialHash;
use vstd::prelude::*;

verus! {

/// The contents of an entity store.
pub struct SimView<T> {
    pub capacity: nat,
    pub count: nat,
    pub pos_x: Seq<T>,
    pub pos_y: Seq<T>,
    pub vel_x: Seq<T>,
    pub vel_y: Seq<T>,
    pub energy: Seq<T>,
    pub age: Seq<T>,
    pub alive: Seq<u8>,
    pub tribe_id: Seq<u16>,
    pub genes: Seq<T>,
    /// The cells under which the entities were filed at the last rebuild of
    /// the index.
    pub cell_x: Seq<usize>,
    pub cell_y: Seq<usize>,
    /// The spatial index, cell by cell.
    pub index: Seq<Seq<usize>>,
}

/// The entity store: parallel columns of one capacity, and the spatial
/// index over them.
pub struct SimCore<T> {
    pos_x: Vec<T>,
    pos_y: Vec<T>,
    vel_x: Vec<T>,
    vel_y: Vec<T>,
    energy: Vec<T>,
    age: Vec<T>,
    alive: Vec<u8>,
    tribe_id: Vec<u16>,
    genes: Vec<T>,
    spatial_hash: SpatialHash,
    cell_x: Vec<usize>,
    cell_y: Vec<usize>,
    capacity: usize,
    count: usize,
}

impl<T> View for SimCore<T> {
    type V = SimView<T>;

    closed spec fn view(&self) -> SimView<T> {
        SimView {
            capacity: self.capacity as nat,
            count: self.count as nat,
            pos_x: self.pos_x@,
            pos_y: self.pos_y@,
            vel_x: self.vel_x@,
            vel_y: self.vel_y@,
            energy: self.energy@,
            age: self.age@,
            alive: self.alive@,
            tribe_id: self.tribe_id@,
            genes: self.genes@,
            cell_x: self.cell_x@,
            cell_y: self.cell_y@,
            index: self.spatial_hash@,
        }
    }
}

/// A column of `n` copies of `value`.
fn filled<T: Copy>(value: T, n: usize) -> (column: Vec<T>)
    ensures
        column@ == Seq::new(n as nat, |i: int| value),
{
    let mut column: Vec<T> = Vec::with_capacity(n);
    let mut i: usize = 0;
    while i < n
        invariant
            i <= n,
            column@ == Seq::new(i as nat, |k: int| value),
        decreases n - i,
    {
        column.push(value);
        i += 1;
    }
    column
}

/// `target` with its first `n` slots taken from `source`.
pub open spec fn overwritten<A>(target: Seq<A>, source: Seq<A>, n: int) -> Seq<A> {
    source.take(n) + target.skip(n)
}

/// The smaller of two lengths.
pub open spec fn shorter(a: nat, b: nat) -> nat {
    if a <= b {
        a
    } else {
        b
    }
}

/// Copies the first `n` slots of `source` over those of `target`.
fn copy_prefix<A: Copy>(target: &mut Vec<A>, source: &[A], n: usize)
    requires
        n <= old(target)@.len(),
        n <= source@.len(),
    ensures
        final(target)@ == overwritten(old(target)@, source@, n as int),
{
    let mut i: usize = 0;
    while i < n
        invariant
            i <= n,
            n <= source@.len(),
            target@.len() == old(target)@.len(),
            n <= target@.len(),
            target@ == overwritten(old(target)@, source@, i as int),
        decreases n - i,
    {
        target.set(i, source[i]);
        i += 1;
    }
}

/// Copies the first `n` slots of `source` over those of the buffer `target`.
fn copy_out<A: Copy>(target: &mut [A], source: &Vec<A>, n: usize)
    requires
        n <= old(target)@.len(),
        n <= source@.len(),
    ensures
        final(target)@ == overwritten(old(target)@, source@, n as int),
{
    let mut i: usize = 0;
    while i < n
        invariant
            i <= n,
            n <= source@.len(),
            target@.len() == old(target)@.len(),
            n <= target@.len(),
            target@ == overwritten(old(target)@, source@, i as int),
        decreases n - i,
    {
        target[i] = source[i];
        i += 1;
    }
}

/// The smaller of two lengths.
fn min_len(a: usize, b: usize) -> (least: usize)
    ensures
        least == shorter(a as nat, b as nat),
{
    if a <= b {
        a
    } else {
        b
    }
}

impl<T: Copy> SimCore<T> {
    /// Every column has one slot per entity of the capacity, the gene buffer
    /// nine, the active slots are a prefix, and the index is sound and sized
    /// for the capacity.
    pub closed spec fn wf(&self) -> bool {
        &&& self.count <= self.capacity
        &&& self.pos_x@.len() == self.capacity
        &&& self.pos_y@.len() == self.capacity
        &&& self.vel_x@.len() == self.capacity
        &&& self.vel_y@.len() == self.capacity
        &&& self.energy@.len() == self.capacity
        &&& self.age@.len() == self.capacity
        &&& self.alive@.len() == self.capacity
        &&& self.tribe_id@.len() == self.capacity
        &&& self.cell_x@.len() == self.capacity
        &&& self.cell_y@.len() == self.capacity
        &&& self.genes@.len() == self.capacity * GENES_PER_ENTITY
        &&& self.spatial_hash.wf()
        &&& self.spatial_hash.capacity() == self.capacity
    }

    /// What well-formedness means for the contents.
    pub open spec fn view_wf(view: SimView<T>) -> bool {
        &&& view.count <= view.capacity
        &&& view.pos_x.len() == view.capacity
        &&& view.pos_y.len() == view.capacity
        &&& view.vel_x.len() == view.capacity
        &&& view.vel_y.len() == view.capacity
        &&& view.energy.len() == view.capacity
        &&& view.age.len() == view.capacity
        &&& view.alive.len() == view.capacity
        &&& view.tribe_id.len() == view.capacity
        &&& view.cell_x.len() == view.capacity
        &&& view.cell_y.len() == view.capacity
        &&& view.genes.len() == view.capacity * GENES_PER_ENTITY
    }

    /// The contents of a well-formed store are well-formed.
    pub proof fn lemma_view_wf(&self)
        requires
            self.wf(),
        ensures
            Self::view_wf(self@),
            self.spec_spatial_hash().wf(),
            self.spec_spatial_hash()@ == self@.index,
            self.spec_spatial_hash().capacity() == self@.capacity,
    {
    }

    /// The spatial index of the store.
    pub closed spec fn spec_spatial_hash(&self) -> SpatialHash {
        self.spatial_hash
    }

    /// A store for up to `capacity` entities over a grid of `cols` by `rows`
    /// cells, with no active slot.  Every numeric slot holds `zero`, except
    /// energy, which holds `initial_energy`; no entity is alive, every tribe
    /// is 0, and the index is empty.
    pub fn new(capacity: usize, cols: usize, rows: usize, zero: T, initial_energy: T) -> (core:
        SimCore<T>)
        requires
            capacity <= i32::MAX,
            capacity * GENES_PER_ENTITY <= usize::MAX,
            (if cols == 0 { 1 } else { cols as int }) * (if rows == 0 { 1 } else { rows as int }) <= usize::MAX,
        ensures
            core.wf(),
            core@.capacity == capacity,
            core@.count == 0,
            core@.pos_x == Seq::new(capacity as nat, |i: int| zero),
            core@.pos_y == Seq::new(capacity as nat, |i: int| zero),
            core@.vel_x == Seq::new(capacity as nat, |i: int| zero),
            core@.vel_y == Seq::new(capacity as nat, |i: int| zero),
            core@.energy == Seq::new(capacity as nat, |i: int| initial_energy),
            core@.age == Seq::new(capacity as nat, |i: int| zero),
            core@.alive == Seq::new(capacity as nat, |i: int| 0u8),
            core@.tribe_id == Seq::new(capacity as nat, |i: int| 0u16),
            core@.genes == Seq::new((capacity * GENES_PER_ENTITY) as nat, |i: int| zero),
            core.spec_spatial_hash().cols() == (if cols == 0 { 1 } else { cols }),
            core.spec_spatial_hash().rows() == (if rows == 0 { 1 } else { rows }),
            forall|key: int| 0 <= key < core@.index.len() ==> #[trigger] core@.index[key].len() == 0,
    {
        SimCore {
            pos_x: filled(zero, capacity),
            pos_y: filled(zero, capacity),
            vel_x: filled(zero, capacity),
            vel_y: filled(zero, capacity),
            energy: filled(initial_energy, capacity),
            age: filled(zero, capacity),
            alive: filled(0u8, capacity),
            tribe_id: filled(0u16, capacity),
            genes: filled(zero, capacity * GENES_PER_ENTITY),
            spatial_hash: SpatialHash::new(cols, rows, capacity),
            cell_x: filled(0usize, capacity),
            cell_y: filled(0usize, capacity),
            capacity,
            count: 0,
        }
    }

    /// Sets the number of active slots, never beyond the capacity.
    pub fn set_count(&mut self, count: usize)
        requires
            old(self).wf(),
        ensures
            final(self).wf(),
            final(self)@ == (SimView {
                count: if count <= old(self)@.capacity {
                    count as nat
                } else {
                    old(self)@.capacity
                },
                ..old(self)@
            }),
            final(self).spec_spatial_hash() == old(self).spec_spatial_hash(),
    {
        self.count = if count <= self.capacity { count } else { self.capacity };
    }

    /// Number of active slots.
    pub fn count(&self) -> (count: usize)
        ensures
            count == self@.count,
    {
        self.count
    }

    /// Number of slots.
    pub fn capacity(&self) -> (capacity: usize)
        ensures
            capacity == self@.capacity,
    {
        self.capacity
    }

    /// The spatial index, as the last rebuild left it.
    pub fn spatial_hash(&self) -> (hash: &SpatialHash)
        ensures
            *hash == self.spec_spatial_hash(),
    {
        &self.spatial_hash
    }

    /// Horizontal positions, one per slot.
    pub fn pos_x(&self) -> (column: &[T])
        ensures
            column@ == self@.pos_x,
    {
        self.pos_x.as_slice()
    }

    /// Vertical positions, one per slot.
    pub fn pos_y(&self) -> (column: &[T])
        ensures
            column@ == self@.pos_y,
    {
        self.pos_y.as_slice()
    }

    /// Horizontal velocities, one per slot.
    pub fn vel_x(&self) -> (column: &[T])
        ensures
            column@ == self@.vel_x,
    {
        self.vel_x.as_slice()
    }

    /// Vertical velocities, one per slot.
    pub fn vel_y(&self) -> (column: &[T])
        ensures
            column@ == self@.vel_y,
    {
        self.vel_y.as_slice()
    }

    /// Energies, one per slot.
    pub fn energy(&self) -> (column: &[T])
        ensures
            column@ == self@.energy,
    {
        self.energy.as_slice()
    }

    /// Ages, one per slot.
    pub fn age(&self) -> (column: &[T])
        ensures
            column@ == self@.age,
    {
        self.age.as_slice()
    }

    /// Liveness flags, one per slot; 0 marks a dead entity.
    pub fn alive(&self) -> (column: &[u8])
        ensures
            column@ == self@.alive,
    {
        self.alive.as_slice()
    }

    /// Tribe numbers, one per slot.
    pub fn tribe_id(&self) -> (column: &[u16])
        ensures
            column@ == self@.tribe_id,
    {
        self.tribe_id.as_slice()
    }

    /// Genes, nine per slot.
    pub fn genes(&self) -> (column: &[T])
        ensures
            column@ == self@.genes,
    {
        self.genes.as_slice()
    }

    /// How many entities a bulk load takes over: as many as every supplied
    /// buffer holds and the capacity allows.  A gene buffer holds an entity
    /// only with all nine genes.
    pub open spec fn loadable(
        capacity: nat,
        pos_x: Seq<T>,
        pos_y: Seq<T>,
        vel_x: Seq<T>,
        vel_y: Seq<T>,
        energy: Seq<T>,
        alive: Seq<u8>,
        tribe_id: Seq<u16>,
        genes: Seq<T>,
    ) -> nat {
        shorter(
            shorter(
                shorter(shorter(capacity, pos_x.len()), shorter(pos_y.len(), vel_x.len())),
                shorter(shorter(vel_y.len(), energy.len()), shorter(alive.len(), tribe_id.len())),
            ),
            genes.len() / 9,
        )
    }

    /// Loads entities in bulk.  Takes over the first
    /// [`loadable`](Self::loadable) entities of the supplied buffers, makes
    /// exactly those slots active, and leaves every other slot, the ages and
    /// the index as they were.  Returns the number of entities taken over, so
    /// that a caller can tell a truncated load.
    pub fn load_from_buffers(
        &mut self,
        pos_x: &[T],
        pos_y: &[T],
        vel_x: &[T],
        vel_y: &[T],
        energy: &[T],
        alive: &[u8],
        tribe_id: &[u16],
        genes: &[T],
    ) -> (loaded: usize)
        requires
            old(self).wf(),
        ensures
            final(self).wf(),
            final(self).spec_spatial_hash() == old(self).spec_spatial_hash(),
            loaded == Self::loadable(
                old(self)@.capacity,
                pos_x@,
                pos_y@,
                vel_x@,
                vel_y@,
                energy@,
                alive@,
                tribe_id@,
                genes@,
            ),
            final(self)@ == (SimView {
                count: loaded as nat,
                pos_x: overwritten(old(self)@.pos_x, pos_x@, loaded as int),
                pos_y: overwritten(old(self)@.pos_y, pos_y@, loaded as int),
                vel_x: overwritten(old(self)@.vel_x, vel_x@, loaded as int),
                vel_y: overwritten(old(self)@.vel_y, vel_y@, loaded as int),
                energy: overwritten(old(self)@.energy, energy@, loaded as int),
                alive: overwritten(old(self)@.alive, alive@, loaded as int),
                tribe_id: overwritten(old(self)@.tribe_id, tribe_id@, loaded as int),
                genes: overwritten(old(self)@.genes, genes@, loaded * 9),
                ..old(self)@
            }),
    {
        let a: usize = min_len(min_len(self.capacity, pos_x.len()), min_len(pos_y.len(), vel_x.len()));
        let b: usize = min_len(
            min_len(vel_y.len(), energy.len()),
            min_len(alive.len(), tribe_id.len()),
        );
        let count: usize = min_len(min_len(a, b), genes.len() / GENES_PER_ENTITY);
        copy_prefix(&mut self.pos_x, pos_x, count);
        copy_prefix(&mut self.pos_y, pos_y, count);
        copy_prefix(&mut self.vel_x, vel_x, count);
        copy_prefix(&mut self.vel_y, vel_y, count);
        copy_prefix(&mut self.energy, energy, count);
        copy_prefix(&mut self.alive, alive, count);
        copy_prefix(&mut self.tribe_id, tribe_id, count);
        copy_prefix(&mut self.genes, genes, count * GENES_PER_ENTITY);
        self.count = count;
        count
    }

    /// Writes positions and velocities out in bulk: the first `written`
    /// active slots of each column, where `written` is as many as are active
    /// and as every buffer holds.  The rest of each buffer is untouched.
    pub fn write_to_buffers(
        &self,
        pos_x: &mut [T],
        pos_y: &mut [T],
        vel_x: &mut [T],
        vel_y: &mut [T],
    ) -> (written: usize)
        requires
            self.wf(),
        ensures
            written == shorter(
                shorter(self@.count, old(pos_x)@.len()),
                shorter(shorter(old(pos_y)@.len(), old(vel_x)@.len()), old(vel_y)@.len()),
            ),
            final(pos_x)@ == overwritten(old(pos_x)@, self@.pos_x, written as int),
            final(pos_y)@ == overwritten(old(pos_y)@, self@.pos_y, written as int),
            final(vel_x)@ == overwritten(old(vel_x)@, self@.vel_x, written as int),
            final(vel_y)@ == overwritten(old(vel_y)@, self@.vel_y, written as int),
    {
        let count: usize = min_len(
            min_len(self.count, pos_x.len()),
            min_len(min_len(pos_y.len(), vel_x.len()), vel_y.len()),
        );
        copy_out(pos_x, &self.pos_x, count);
        copy_out(pos_y, &self.pos_y, count);
        copy_out(vel_x, &self.vel_x, count);
        copy_out(vel_y, &self.vel_y, count);
        count
    }

    /// Rebuilds the spatial index from the current positions.  `locate`
    /// answers the grid coordinates of a position; it is asked once for every
    /// live active entity, and the index then files each of them under the
    /// cell it answered.  Entities themselves are untouched.
    pub fn rebuild_spatial_hash<F: FnMut(T, T) -> (usize, usize)>(&mut self, locate: F)
        requires
            old(self).wf(),
            forall|x: T, y: T| call_requires(locate, (x, y)),
        ensures
            final(self).wf(),
            final(self)@ == (SimView {
                cell_x: final(self)@.cell_x,
                cell_y: final(self)@.cell_y,
                index: final(self)@.index,
                ..old(self)@
            }),
            final(self).spec_spatial_hash().cols() == old(self).spec_spatial_hash().cols(),
            final(self).spec_spatial_hash().rows() == old(self).spec_spatial_hash().rows(),
            final(self).spec_spatial_hash().holds(
                final(self)@.cell_x,
                final(self)@.cell_y,
                final(self)@.alive,
                final(self)@.count as int,
            ),
            forall|i: int|
                0 <= i < old(self)@.count && old(self)@.alive[i] != 0 ==> call_ensures(
                    locate,
                    (old(self)@.pos_x[i], old(self)@.pos_y[i]),
                    (#[trigger] final(self)@.cell_x[i], final(self)@.cell_y[i]),
                ),
    {
        let count: usize = self.count;
        let mut find = locate;
        let mut i: usize = 0;
        while i < count
            invariant
                i <= count,
                count == self.count,
                self.wf(),
                find == locate,
                forall|x: T, y: T| call_requires(locate, (x, y)),
                self@ == (SimView { cell_x: self@.cell_x, cell_y: self@.cell_y, ..old(self)@ }),
                self.spatial_hash == old(self).spatial_hash,
                forall|e: int|
                    0 <= e < i && old(self)@.alive[e] != 0 ==> call_ensures(
                        locate,
                        (old(self)@.pos_x[e], old(self)@.pos_y[e]),
                        (#[trigger] self@.cell_x[e], self@.cell_y[e]),
                    ),
            decreases count - i,
        {
            if self.alive[i] != 0 {
                let (cx, cy) = find(self.pos_x[i], self.pos_y[i]);
                self.cell_x.set(i, cx);
                self.cell_y.set(i, cy);
            }
            i += 1;
        }
        proof {
            self.spatial_hash.lemma_view_len();
        }
        self.spatial_hash.rebuild(
            self.cell_x.as_slice(),
            self.cell_y.as_slice(),
            self.alive.as_slice(),
            count,
        );
        proof {
            self.spatial_hash.lemma_view_len();
        }
    }

    /// The end of the range that a batch over the active slots really covers.
    pub open spec fn active_end(&self, end_idx: usize) -> int {
        batch_end(end_idx as int, self@.count as int)
    }

    /// Integrates a batch.  Every live active entity of the range
    /// `start_idx .. end_idx` is advanced once by `step`, which receives the
    /// entity's position, velocity, speed gene and metabolism gene and
    /// answers its new position and velocity.  Dead entities keep their data,
    /// and nothing else changes.
    pub fn integrate_physics_batch<F: FnMut(T, T, T, T, T, T) -> (T, T, T, T)>(
        &mut self,
        start_idx: usize,
        end_idx: usize,
        step: F,
    )
        requires
            old(self).wf(),
            forall|px: T, py: T, vx: T, vy: T, speed: T, metabolism: T|
                call_requires(step, (px, py, vx, vy, speed, metabolism)),
        ensures
            final(self).wf(),
            final(self).spec_spatial_hash() == old(self).spec_spatial_hash(),
            final(self)@ == (SimView {
                pos_x: final(self)@.pos_x,
                pos_y: final(self)@.pos_y,
                vel_x: final(self)@.vel_x,
                vel_y: final(self)@.vel_y,
                ..old(self)@
            }),
            forall|i: int|
                0 <= i < old(self)@.capacity && !old(self).integrates(start_idx, end_idx, i) ==> {
                    &&& #[trigger] final(self)@.pos_x[i] == old(self)@.pos_x[i]
                    &&& final(self)@.pos_y[i] == old(self)@.pos_y[i]
                    &&& final(self)@.vel_x[i] == old(self)@.vel_x[i]
                    &&& final(self)@.vel_y[i] == old(self)@.vel_y[i]
                },
            forall|i: int|
                old(self).integrates(start_idx, end_idx, i) ==> call_ensures(
                    step,
                    (
                        old(self)@.pos_x[i],
                        old(self)@.pos_y[i],
                        old(self)@.vel_x[i],
                        old(self)@.vel_y[i],
                        old(self)@.genes[gene_offset(i, GENE_SPEED as int)],
                        old(self)@.genes[gene_offset(i, GENE_METABOLISM as int)],
                    ),
                    (
                        #[trigger] final(self)@.pos_x[i],
                        final(self)@.pos_y[i],
                        final(self)@.vel_x[i],
                        final(self)@.vel_y[i],
                    ),
                ),
    {
        let end: usize = if end_idx < self.count { end_idx } else { self.count };
        integrate_batch(
            self.pos_x.as_mut_slice(),
            self.pos_y.as_mut_slice(),
            self.vel_x.as_mut_slice(),
            self.vel_y.as_mut_slice(),
            self.alive.as_slice(),
            self.genes.as_slice(),
            start_idx,
            end,
            step,
        );
    }

    /// A batch over `start_idx .. end_idx` integrates entity `i`: it is an
    /// active slot of the range and flagged alive.
    pub open spec fn integrates(&self, start_idx: usize, end_idx: usize, i: int) -> bool {
        start_idx <= i < self.active_end(end_idx) && self@.alive[i] != 0
    }

    /// How many of the entities `lo .. hi` are flagged alive.
    pub open spec fn live_between(alive: Seq<u8>, lo: int, hi: int) -> nat
        decreases hi - lo,
    {
        if hi <= lo {
            0
        } else {
            Self::live_between(alive, lo, hi - 1) + if alive[hi - 1] != 0 {
                1nat
            } else {
                0nat
            }
        }
    }

    /// Steering entity `i` leads from `before` to `after`: a dead entity
    /// changes nothing; for a live one `steer` saw the store as it was and
    /// its answer became the entity's velocity, and nothing else changed.
    pub open spec fn steered_one<F: FnMut(&SimCore<T>, usize) -> (T, T)>(
        steer: F,
        before: SimCore<T>,
        after: SimCore<T>,
        i: int,
    ) -> bool {
        &&& after.spec_spatial_hash() == before.spec_spatial_hash()
        &&& if before@.alive[i] == 0 {
            after@ == before@
        } else {
            &&& call_ensures(steer, (&before, i as usize), (after@.vel_x[i], after@.vel_y[i]))
            &&& after@ == (SimView {
                vel_x: before@.vel_x.update(i, after@.vel_x[i]),
                vel_y: before@.vel_y.update(i, after@.vel_y[i]),
                ..before@
            })
        }
    }

    /// Steering the entities `lo .. hi` one after the other, in index order,
    /// leads from `before` to `after`.  Each entity is steered on the store
    /// as its predecessors left it.
    pub open spec fn steered_batch<F: FnMut(&SimCore<T>, usize) -> (T, T)>(
        steer: F,
        before: SimCore<T>,
        after: SimCore<T>,
        lo: int,
        hi: int,
    ) -> bool
        decreases hi - lo,
    {
        if hi <= lo {
            after@ == before@ && after.spec_spatial_hash() == before.spec_spatial_hash()
        } else {
            exists|mid: SimCore<T>|
                {
                    &&& Self::steered_batch(steer, before, mid, lo, hi - 1)
                    &&& #[trigger] mid.wf()
                    &&& Self::steered_one(steer, mid, after, hi - 1)
                }
        }
    }

    /// Steers a batch.  Every live active entity of the range
    /// `start_idx .. end_idx` is handed to `steer` in index order, together
    /// with the store as it then is, and the velocity that `steer` answers
    /// becomes the entity's velocity.  Returns how many entities were steered.
    pub fn process_movement_batch<F: FnMut(&SimCore<T>, usize) -> (T, T)>(
        &mut self,
        start_idx: usize,
        end_idx: usize,
        steer: F,
    ) -> (steered: usize)
        requires
            old(self).wf(),
            forall|core: SimCore<T>, i: usize|
                core.wf() && i < core@.count && core@.alive[i as int] != 0 ==> call_requires(
                    steer,
                    (&core, i),
                ),
        ensures
            final(self).wf(),
            Self::steered_batch(
                steer,
                *old(self),
                *final(self),
                start_idx as int,
                old(self).active_end(end_idx),
            ),
            steered == Self::live_between(
                old(self)@.alive,
                start_idx as int,
                old(self).active_end(end_idx),
            ),
    {
        let end: usize = if end_idx < self.count { end_idx } else { self.count };
        let mut drive = steer;
        let mut steered: usize = 0;
        let mut i: usize = start_idx;
        while i < end
            invariant
                start_idx <= i,
                i <= end || i == start_idx,
                end == old(self).active_end(end_idx),
                end <= self.count,
                self.wf(),
                self@.count == old(self)@.count,
                self@.alive == old(self)@.alive,
                drive == steer,
                forall|core: SimCore<T>, e: usize|
                    core.wf() && e < core@.count && core@.alive[e as int] != 0 ==> call_requires(
                        steer,
                        (&core, e),
                    ),
                Self::steered_batch(steer, *old(self), *self, start_idx as int, i as int),
                steered == Self::live_between(old(self)@.alive, start_idx as int, i as int),
                steered <= i - start_idx,
            decreases end - i,
        {
            if self.alive[i] != 0 {
                let (vx, vy) = drive(&*self, i);
                self.vel_x.set(i, vx);
                self.vel_y.set(i, vy);
                steered += 1;
            }
            i += 1;
        }
        steered
    }

    /// Steering writes velocities only.  Whatever `steer` answers, a batch
    /// leaves positions, energies, ages, flags, tribes, genes, counts and the
    /// index as they were, and touches no velocity outside the live entities
    /// of its range.
    pub proof fn lemma_steering_writes_own_velocity<F: FnMut(&SimCore<T>, usize) -> (T, T)>(
        steer: F,
        before: SimCore<T>,
        after: SimCore<T>,
        lo: int,
        hi: int,
    )
        requires
            Self::steered_batch(steer, before, after, lo, hi),
            Self::view_wf(before@),
            0 <= lo,
            hi <= before@.capacity,
        ensures
            after@ == (SimView { vel_x: after@.vel_x, vel_y: after@.vel_y, ..before@ }),
            after.spec_spatial_hash() == before.spec_spatial_hash(),
            after@.vel_x.len() == before@.vel_x.len(),
            after@.vel_y.len() == before@.vel_y.len(),
            forall|e: int|
                0 <= e < before@.capacity && !(lo <= e < hi && before@.alive[e] != 0) ==> {
                    &&& #[trigger] after@.vel_x[e] == before@.vel_x[e]
                    &&& after@.vel_y[e] == before@.vel_y[e]
                },
        decreases hi - lo,
    {
        if hi > lo {
            let mid = choose|mid: SimCore<T>|
                {
                    &&& Self::steered_batch(steer, before, mid, lo, hi - 1)
                    &&& #[trigger] mid.wf()
                    &&& Self::steered_one(steer, mid, after, hi - 1)
                };
            Self::lemma_steering_writes_own_velocity(steer, before, mid, lo, hi - 1);
        }
    }
}

} // verus!
