//! The decisions of the steering pass.  For one entity and the candidates
//! that a budgeted ring scan handed over, decide who is admitted as a
//! neighbour, who is retained, who is flocked with, who is kept at a distance
//! and who is hunted.  Distances, angles and scores are measured by the
//! caller and arrive here as flags and ranks.

use vstd::prelude::*;

verus! {

/// Number of genes stored for every entity.
pub const GENES_PER_ENTITY: usize = 9;

/// At most this many neighbours are retained per entity.
pub const MAX_NEIGHBORS: usize = 20;

/// A steering scan stops after admitting this many candidates.
pub const SCAN_BUDGET: usize = 40;

/// Positions of the genes within an entity's gene vector.
pub const GENE_SPEED: usize = 0;

pub const GENE_VISION: usize = 1;

pub const GENE_METABOLISM: usize = 2;

pub const GENE_REPRO_CHANCE: usize = 3;

pub const GENE_AGGRESSION: usize = 4;

pub const GENE_COHESION: usize = 5;

pub const GENE_FOOD_STANDARDS: usize = 6;

pub const GENE_DIET: usize = 7;

pub const GENE_VIEW_ANGLE: usize = 8;

/// Offset of gene `gene_idx` of entity `entity_idx` in a flattened gene
/// buffer.
pub open spec fn gene_offset(entity_idx: int, gene_idx: int) -> int {
    entity_idx * 9 + gene_idx
}

/// Reads one gene of one entity out of a flattened gene buffer.
pub fn get_gene<T: Copy>(genes: &[T], entity_idx: usize, gene_idx: usize) -> (gene: T)
    requires
        gene_idx < GENES_PER_ENTITY,
        gene_offset(entity_idx as int, gene_idx as int) < genes@.len(),
    ensures
        gene == genes@[gene_offset(entity_idx as int, gene_idx as int)],
{
    assert(genes@.len() == genes.len());
    genes[entity_idx * GENES_PER_ENTITY + gene_idx]
}

/// What an entity perceives of one candidate.
#[derive(Clone, Copy, Debug)]
pub struct Sighting {
    /// The candidate is no farther than the extended hunting range.
    pub within_reach: bool,
    /// The candidate's bearing lies inside the view cone.
    pub in_view: bool,
    /// The candidate is close enough to be sensed whatever the facing.
    pub peripheral: bool,
    /// The candidate is nearer than the normal vision range.
    pub within_vision: bool,
    /// The candidate is inside the close range in which allies repel each
    /// other, and not at the very same spot.
    pub crowding: bool,
    /// Where the candidate's hunting score ranks: a smaller rank is a better
    /// target, and `None` marks a score that can never win.
    pub prey_rank: Option<u32>,
}

/// The outcome of one entity's steering decisions.
#[derive(Debug)]
pub struct SteeringPlan {
    /// The neighbours retained: the first admitted candidates within normal
    /// vision, at most `MAX_NEIGHBORS`.
    pub neighbors: Vec<usize>,
    /// The allies to align to and to gather with.
    pub allies: Vec<usize>,
    /// The allies to keep apart from.
    pub crowding: Vec<usize>,
    /// The target to pursue, if any.
    pub prey: Option<usize>,
}

/// Entity `i` admits candidate `j` as a neighbour: it is another entity,
/// within reach, and either in the view cone or close enough to be sensed
/// without being seen.
pub open spec fn spec_admits(i: usize, j: usize, sighting: Sighting) -> bool {
    j != i && sighting.within_reach && (sighting.in_view || sighting.peripheral)
}

/// Decides whether entity `i` admits candidate `j`.
#[verifier::when_used_as_spec(spec_admits)]
pub fn admits(i: usize, j: usize, sighting: Sighting) -> (admitted: bool)
    ensures
        admitted == spec_admits(i, j, sighting),
{
    j != i && sighting.within_reach && (sighting.in_view || sighting.peripheral)
}

/// Candidate number `k` is retained as a neighbour if the cap allows.
pub open spec fn is_near(sightings: Seq<Sighting>, k: int) -> bool {
    sightings[k].within_vision
}

/// Candidate number `k` is of entity `i`'s tribe and within normal vision.
pub open spec fn is_flockmate(
    tribe_id: Seq<u16>,
    i: int,
    accepted: Seq<usize>,
    sightings: Seq<Sighting>,
    k: int,
) -> bool {
    tribe_id[accepted[k] as int] == tribe_id[i] && sightings[k].within_vision
}

/// Candidate number `k` is a flockmate inside the repelling range.
pub open spec fn is_crowding(
    tribe_id: Seq<u16>,
    i: int,
    accepted: Seq<usize>,
    sightings: Seq<Sighting>,
    k: int,
) -> bool {
    is_flockmate(tribe_id, i, accepted, sightings, k) && sightings[k].crowding
}

/// Candidate number `k` can be hunted: the entity hunts, the candidate is
/// of another tribe and in view, and its score can win.
pub open spec fn is_quarry(
    tribe_id: Seq<u16>,
    i: int,
    should_hunt: bool,
    accepted: Seq<usize>,
    sightings: Seq<Sighting>,
    k: int,
) -> bool {
    &&& should_hunt
    &&& tribe_id[accepted[k] as int] != tribe_id[i]
    &&& sightings[k].in_view
    &&& sightings[k].prey_rank is Some
}

/// The first `n` items that are marked, in order.
pub open spec fn picked(items: Seq<usize>, marks: Seq<bool>, n: int) -> Seq<usize>
    decreases n,
{
    if n <= 0 {
        Seq::empty()
    } else {
        let before = picked(items, marks, n - 1);
        if marks[n - 1] {
            before.push(items[n - 1])
        } else {
            before
        }
    }
}

/// At most the first `cap` items.
pub open spec fn capped(items: Seq<usize>, cap: int) -> Seq<usize> {
    if items.len() <= cap {
        items
    } else {
        items.take(cap)
    }
}

/// Among the first `n` candidates, the number of the marked one with the
/// smallest rank, the earliest where ranks tie.
pub open spec fn best_target(marks: Seq<bool>, sightings: Seq<Sighting>, n: int) -> Option<int>
    decreases n,
{
    if n <= 0 {
        None
    } else {
        let before = best_target(marks, sightings, n - 1);
        if marks[n - 1] && (before is None || sightings[n - 1].prey_rank->0
            < sightings[before->0].prey_rank->0) {
            Some(n - 1)
        } else {
            before
        }
    }
}

/// Which candidates are within normal vision.
pub open spec fn near_marks(sightings: Seq<Sighting>) -> Seq<bool> {
    Seq::new(sightings.len(), |k: int| is_near(sightings, k))
}

/// Which candidates are flockmates.
pub open spec fn flock_marks(
    tribe_id: Seq<u16>,
    i: int,
    accepted: Seq<usize>,
    sightings: Seq<Sighting>,
) -> Seq<bool> {
    Seq::new(sightings.len(), |k: int| is_flockmate(tribe_id, i, accepted, sightings, k))
}

/// Which candidates are flockmates inside the repelling range.
pub open spec fn crowd_marks(
    tribe_id: Seq<u16>,
    i: int,
    accepted: Seq<usize>,
    sightings: Seq<Sighting>,
) -> Seq<bool> {
    Seq::new(sightings.len(), |k: int| is_crowding(tribe_id, i, accepted, sightings, k))
}

/// Which candidates can be hunted.
pub open spec fn quarry_marks(
    tribe_id: Seq<u16>,
    i: int,
    should_hunt: bool,
    accepted: Seq<usize>,
    sightings: Seq<Sighting>,
) -> Seq<bool> {
    Seq::new(sightings.len(), |k: int| is_quarry(tribe_id, i, should_hunt, accepted, sightings, k))
}

/// Decides entity `i`'s steering from the candidates it admitted, given in
/// the order in which the scan handed them over, and what it perceived of
/// each.  Allies within normal vision are flocked with, those of them in the
/// repelling range are kept apart from, the first `MAX_NEIGHBORS` candidates
/// within normal vision are retained, and a hunting entity pursues the
/// best-ranked candidate of another tribe in view, the earliest among equals.
pub fn process_entity_movement(
    i: usize,
    tribe_id: &[u16],
    should_hunt: bool,
    accepted: &[usize],
    sightings: &[Sighting],
) -> (plan: SteeringPlan)
    requires
        i < tribe_id@.len(),
        accepted@.len() == sightings@.len(),
        forall|k: int| 0 <= k < accepted@.len() ==> #[trigger] accepted@[k] < tribe_id@.len(),
    ensures
        plan.neighbors@ == capped(
            picked(accepted@, near_marks(sightings@), accepted@.len() as int),
            MAX_NEIGHBORS as int,
        ),
        plan.allies@ == picked(
            accepted@,
            flock_marks(tribe_id@, i as int, accepted@, sightings@),
            accepted@.len() as int,
        ),
        plan.crowding@ == picked(
            accepted@,
            crowd_marks(tribe_id@, i as int, accepted@, sightings@),
            accepted@.len() as int,
        ),
        plan.prey == match best_target(
            quarry_marks(tribe_id@, i as int, should_hunt, accepted@, sightings@),
            sightings@,
            accepted@.len() as int,
        ) {
            Some(k) => Some(accepted@[k]),
            None => None,
        },
{
    let count: usize = accepted.len();
    let my_tribe: u16 = tribe_id[i];
    let ghost near = near_marks(sightings@);
    let ghost flock = flock_marks(tribe_id@, i as int, accepted@, sightings@);
    let ghost crowd = crowd_marks(tribe_id@, i as int, accepted@, sightings@);
    let ghost quarry = quarry_marks(tribe_id@, i as int, should_hunt, accepted@, sightings@);
    let mut neighbors: Vec<usize> = Vec::with_capacity(MAX_NEIGHBORS);
    let mut allies: Vec<usize> = Vec::new();
    let mut crowding: Vec<usize> = Vec::new();
    let mut best: Option<usize> = None;
    let mut best_rank: u32 = 0;
    let mut k: usize = 0;
    while k < count
        invariant
            k <= count,
            count == accepted@.len(),
            count == sightings@.len(),
            i < tribe_id@.len(),
            my_tribe == tribe_id@[i as int],
            forall|m: int| 0 <= m < accepted@.len() ==> #[trigger] accepted@[m] < tribe_id@.len(),
            near == near_marks(sightings@),
            flock == flock_marks(tribe_id@, i as int, accepted@, sightings@),
            crowd == crowd_marks(tribe_id@, i as int, accepted@, sightings@),
            quarry == quarry_marks(tribe_id@, i as int, should_hunt, accepted@, sightings@),
            neighbors@ == capped(picked(accepted@, near, k as int), MAX_NEIGHBORS as int),
            allies@ == picked(accepted@, flock, k as int),
            crowding@ == picked(accepted@, crowd, k as int),
            match best_target(quarry, sightings@, k as int) {
                Some(b) => best == Some(b as usize) && 0 <= b < k && sightings@[b].prey_rank
                    == Some(best_rank),
                None => best is None,
            },
        decreases count - k,
    {
        let j: usize = accepted[k];
        let seen: Sighting = sightings[k];
        let is_ally: bool = tribe_id[j] == my_tribe;
        if seen.within_vision && neighbors.len() < MAX_NEIGHBORS {
            neighbors.push(j);
        }
        if is_ally && seen.within_vision {
            allies.push(j);
            if seen.crowding {
                crowding.push(j);
            }
        }
        if should_hunt && !is_ally && seen.in_view {
            match seen.prey_rank {
                Some(rank) => {
                    if best.is_none() || rank < best_rank {
                        best = Some(k);
                        best_rank = rank;
                    }
                },
                None => {},
            }
        }
        k += 1;
    }
    let prey: Option<usize> = match best {
        Some(b) => Some(accepted[b]),
        None => None,
    };
    SteeringPlan { neighbors, allies, crowding, prey }
}

/// Greedy target choice.  The chosen target is a candidate that can be
/// hunted; no candidate that can be hunted ranks better, and none that ranks
/// the same was handed over earlier.  Without a choice, no candidate can be
/// hunted.
pub proof fn lemma_best_target_is_first_minimum(
    marks: Seq<bool>,
    sightings: Seq<Sighting>,
    n: int,
    m: int,
)
    requires
        0 <= m < n,
    ensures
        match best_target(marks, sightings, n) {
            Some(b) => {
                &&& 0 <= b < n
                &&& marks[b]
                &&& marks[m] ==> sightings[b].prey_rank->0 <= sightings[m].prey_rank->0
                &&& marks[m] && m < b ==> sightings[b].prey_rank->0 < sightings[m].prey_rank->0
            },
            None => !marks[m],
        },
    decreases n,
{
    if m < n - 1 {
        lemma_best_target_is_first_minimum(marks, sightings, n - 1, m);
    } else if n - 1 > 0 {
        lemma_best_target_is_first_minimum(marks, sightings, n - 1, 0);
    }
}

/// Picking keeps order and invents nothing: every picked item is a marked
/// one of the first `n`.
pub proof fn lemma_picked_are_marked(items: Seq<usize>, marks: Seq<bool>, n: int, p: int)
    requires
        0 <= p < picked(items, marks, n).len(),
    ensures
        exists|k: int| 0 <= k < n && #[trigger] marks[k] && items[k] == picked(items, marks, n)[p],
    decreases n,
{
    if n > 0 {
        let before = picked(items, marks, n - 1);
        if p < before.len() {
            lemma_picked_are_marked(items, marks, n - 1, p);
        }
    }
}

} // verus!
