use sim_core::collision::{apply_collision_constraints, BiomeCollisionMap, MoveOutcome, MoveProbes};
use sim_core::movement::{
    admits, get_gene, process_entity_movement, Sighting, SteeringPlan, GENE_DIET,
    GENE_METABOLISM, GENE_SPEED, GENE_VIEW_ANGLE, GENE_VISION, SCAN_BUDGET,
};
use sim_core::sim::SimCore;
use sim_core::spatial_hash::CellRange;

const CELL: f32 = 50.0;
const WORLD: f32 = 1000.0;

fn cell_of(x: f32, y: f32) -> (usize, usize) {
    ((x / CELL) as usize, (y / CELL) as usize)
}

fn terrain_cell(x: f32, y: f32) -> (usize, usize) {
    let wx = ((x % WORLD) + WORLD) % WORLD;
    let wy = ((y % WORLD) + WORLD) % WORLD;
    cell_of(wx, wy)
}

fn probes_for(x: f32, y: f32, vx: f32, vy: f32, dt: f32) -> MoveProbes {
    let (nx, ny) = (x + vx * dt, y + vy * dt);
    let mut escape = [(0usize, 0usize); 8];
    for k in 0..8 {
        let angle = (k as f32 * 45.0).to_radians();
        escape[k] = terrain_cell(x + angle.cos() * CELL * 2.0, y + angle.sin() * CELL * 2.0);
    }
    MoveProbes {
        direct: terrain_cell(nx, ny),
        horizontal: terrain_cell(nx, y),
        vertical: terrain_cell(x, ny),
        escape,
    }
}

fn rank_of(score: f32) -> Option<u32> {
    if score < f32::MAX {
        let bits = (if score == 0.0 { 0.0 } else { score }).to_bits();
        Some(if bits & 0x8000_0000 != 0 { !bits } else { bits | 0x8000_0000 })
    } else {
        None
    }
}

struct Steering {
    plan: SteeringPlan,
    separation: (f32, f32),
    pursuit: (f32, f32),
    hunting_threshold: f32,
}

fn steer(core: &SimCore<f32>, i: usize) -> Steering {
    let (pos_x, pos_y) = (core.pos_x(), core.pos_y());
    let (vel_x, vel_y) = (core.vel_x(), core.vel_y());
    let (energy, tribe_id, genes) = (core.energy(), core.tribe_id(), core.genes());
    let hash = core.spatial_hash();
    let (px, py) = (pos_x[i], pos_y[i]);
    let vision = get_gene(genes, i, GENE_VISION);
    let effective_speed =
        get_gene(genes, i, GENE_SPEED) * (get_gene(genes, i, GENE_METABOLISM) / 0.15).min(1.0);
    let carnivore_level = get_gene(genes, i, GENE_DIET).max(0.0);
    let hunting_threshold = 95.0 - carnivore_level * 35.0;
    let should_hunt = carnivore_level > 0.2 && energy[i] < hunting_threshold;
    let heading = vel_y[i].atan2(vel_x[i]);
    let view_cos = (get_gene(genes, i, GENE_VIEW_ANGLE).to_radians() / 2.0).cos();
    let hunt_vision = if should_hunt { vision * 1.5 } else { vision };
    let reach = vision.max(hunt_vision);
    let range = CellRange {
        x0: ((px - reach) / CELL).max(0.0) as usize,
        y0: ((py - reach) / CELL).max(0.0) as usize,
        x1: ((px + reach) / CELL).min(hash.cols() as f32 - 1.0) as usize,
        y1: ((py + reach) / CELL).min(hash.rows() as f32 - 1.0) as usize,
    };
    let (cx, cy) = cell_of(px, py);
    let mut accepted = Vec::new();
    let mut sightings = Vec::new();
    hash.for_each_neighbor_limited(range, cx, cy, SCAN_BUDGET, |j| {
        let (dx, dy) = (pos_x[j] - px, pos_y[j] - py);
        let dist_sq = dx * dx + dy * dy;
        let in_view = (dx * heading.cos() + dy * heading.sin()) / dist_sq.sqrt() > view_cos;
        let is_ally = tribe_id[j] == tribe_id[i];
        let prey_rank = if should_hunt && !is_ally && in_view {
            let their_speed = get_gene(genes, j, GENE_SPEED);
            let catch =
                if their_speed > 0.0 { (effective_speed / their_speed).min(1.0) } else { 1.0 };
            rank_of(dist_sq / (energy[j] * catch + 1.0))
        } else {
            None
        };
        let sighting = Sighting {
            within_reach: !(dist_sq > hunt_vision * hunt_vision),
            in_view,
            peripheral: !(dist_sq > vision * vision * 0.25),
            within_vision: dist_sq < vision * vision,
            crowding: dist_sq < 400.0 && dist_sq > 0.0001,
            prey_rank,
        };
        if admits(i, j, sighting) {
            accepted.push(j);
            sightings.push(sighting);
            true
        } else {
            false
        }
    });
    let plan = process_entity_movement(i, tribe_id, should_hunt, &accepted, &sightings);
    let mut separation = (0.0f32, 0.0f32);
    for &j in &plan.crowding {
        let (dx, dy) = (pos_x[j] - px, pos_y[j] - py);
        let force = 1.0 / (dx * dx + dy * dy).sqrt();
        separation.0 -= dx * force;
        separation.1 -= dy * force;
    }
    let mut pursuit = (0.0f32, 0.0f32);
    if let Some(prey) = plan.prey {
        let (dx, dy) = (pos_x[prey] - px, pos_y[prey] - py);
        let dist = (dx * dx + dy * dy).sqrt();
        if dist > 0.001 {
            let desperation = ((hunting_threshold - energy[i]) / hunting_threshold).max(0.0);
            pursuit = (dx / dist * (3.0 + desperation * 2.0), dy / dist * (3.0 + desperation * 2.0));
        }
    }
    Steering { plan, separation, pursuit, hunting_threshold }
}

fn world(entities: &[(f32, f32, f32, f32, f32, u16, f32)]) -> SimCore<f32> {
    // (x, y, vx, vy, energy, tribe, diet)
    let n = entities.len();
    let mut core: SimCore<f32> = SimCore::new(n, 20, 20, 0.0, 50.0);
    let mut genes = Vec::new();
    for e in entities {
        genes.extend_from_slice(&[20.0, 50.0, 0.15, 0.02, 0.5, 0.5, 0.3, e.6, 120.0]);
    }
    let column = |f: fn(&(f32, f32, f32, f32, f32, u16, f32)) -> f32| -> Vec<f32> {
        entities.iter().map(f).collect()
    };
    let tribes: Vec<u16> = entities.iter().map(|e| e.5).collect();
    let loaded = core.load_from_buffers(
        &column(|e| e.0),
        &column(|e| e.1),
        &column(|e| e.2),
        &column(|e| e.3),
        &column(|e| e.4),
        &vec![1u8; n],
        &tribes,
        &genes,
    );
    assert_eq!(loaded, n);
    core.rebuild_spatial_hash(|x, y| cell_of(x, y));
    core
}

#[test]
fn a_lone_entity_on_open_terrain_steps_ahead() {
    let mut core = world(&[(500.0, 500.0, 10.0, 0.0, 50.0, 0, -0.5)]);
    assert_eq!(core.spatial_hash().cols(), 20);
    assert_eq!(core.spatial_hash().rows(), 20);
    let mut terrain = BiomeCollisionMap::new(&vec![1u8; 400], 20, 20);
    let probes = probes_for(500.0, 500.0, 10.0, 0.0, 1.0);
    assert_eq!(probes.direct, (10, 10));
    let outcomes = apply_collision_constraints(&mut terrain, core.alive(), &[probes]);
    assert_eq!(outcomes, vec![Some(MoveOutcome::Direct)]);
    let mut wrapped = false;
    core.integrate_physics_batch(0, 1, |px, py, vx, vy, speed, metabolism| {
        let cap = speed * (metabolism / 0.15).min(1.0);
        assert!((vx * vx + vy * vy).sqrt() <= cap);
        let (nx, ny) = (px + vx * 1.0, py + vy * 1.0);
        wrapped = nx < 0.0 || nx >= WORLD || ny < 0.0 || ny >= WORLD;
        (nx, ny, vx, vy)
    });
    assert!(!wrapped);
    assert_eq!((core.pos_x()[0], core.pos_y()[0]), (510.0, 500.0));
    assert_eq!((core.vel_x()[0], core.vel_y()[0]), (10.0, 0.0));
}

#[test]
fn two_close_allies_push_each_other_apart() {
    let core = world(&[
        (100.0, 100.0, 1.0, 0.0, 50.0, 0, -0.5),
        (105.0, 100.0, -1.0, 0.0, 50.0, 0, -0.5),
    ]);
    let left = steer(&core, 0);
    let right = steer(&core, 1);
    assert_eq!(left.plan.crowding, vec![1]);
    assert_eq!(right.plan.crowding, vec![0]);
    assert_eq!(left.plan.allies, vec![1]);
    assert_eq!(right.plan.allies, vec![0]);
    assert!(left.separation.0 < 0.0);
    assert!(right.separation.0 > 0.0);
    assert!((left.separation.0 + 1.0).abs() < 1e-5);
    assert!((right.separation.0 - 1.0).abs() < 1e-5);
    assert_eq!(left.plan.prey, None);
}

#[test]
fn a_hungry_hunter_turns_towards_its_prey() {
    let core = world(&[
        (300.0, 300.0, 1.0, 0.0, 10.0, 1, 0.8),
        (360.0, 300.0, 0.0, 0.0, 40.0, 2, -0.5),
    ]);
    let hunter = steer(&core, 0);
    assert!((hunter.hunting_threshold - 67.0).abs() < 1e-4);
    assert_eq!(hunter.plan.prey, Some(1));
    assert!(hunter.plan.neighbors.is_empty());
    assert!(hunter.pursuit.0 > 0.0);
    assert!(hunter.pursuit.1.abs() < 1e-5);
    let prey = steer(&core, 1);
    assert_eq!(prey.plan.prey, None);
}

#[test]
fn a_hunter_prefers_the_easier_of_two_targets() {
    // same distance; the first target carries less energy and so scores worse
    let core = world(&[
        (300.0, 300.0, 1.0, 0.0, 10.0, 1, 0.8),
        (340.0, 310.0, 0.0, 0.0, 5.0, 2, -0.5),
        (340.0, 290.0, 0.0, 0.0, 90.0, 2, -0.5),
    ]);
    let hunter = steer(&core, 0);
    assert_eq!(hunter.plan.prey, Some(2));
}

#[test]
fn a_fed_hunter_leaves_strangers_alone() {
    let core = world(&[
        (300.0, 300.0, 1.0, 0.0, 90.0, 1, 0.8),
        (340.0, 300.0, 0.0, 0.0, 40.0, 2, -0.5),
    ]);
    let hunter = steer(&core, 0);
    assert_eq!(hunter.plan.prey, None);
    assert_eq!(hunter.plan.neighbors, vec![1]);
    assert!(hunter.plan.allies.is_empty());
}

#[test]
fn a_walled_in_entity_heads_for_the_only_gap() {
    // everything is blocked but the terrain cell two cells to the west
    let (x, y) = (525.0f32, 525.0f32);
    let probes = probes_for(x, y, 10.0, 5.0, 1.0);
    let gap = probes.escape[4];
    let mut data = vec![0u8; 400];
    data[gap.1 * 20 + gap.0] = 1;
    let mut terrain = BiomeCollisionMap::new(&data, 20, 20);
    let outcome = terrain.resolve_move(&probes);
    assert_eq!(outcome, MoveOutcome::Escape(4));
    let angle = (4.0f32 * 45.0).to_radians();
    let velocity = (angle.cos() * 30.0, angle.sin() * 30.0);
    assert!((velocity.0 + 30.0).abs() < 1e-3);
    assert!(velocity.1.abs() < 1e-3);
}
