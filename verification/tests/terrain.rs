use sim_core::collision::{
    apply_collision_constraints, BiomeCollisionMap, MoveOutcome, MoveProbes, CACHE_LIMIT,
    ESCAPE_PROBES,
};

fn open_map(width: usize, height: usize) -> BiomeCollisionMap {
    BiomeCollisionMap::new(&vec![1u8; width * height], width, height)
}

fn map_with_blocked(width: usize, height: usize, blocked: &[(usize, usize)]) -> BiomeCollisionMap {
    let mut data = vec![1u8; width * height];
    for &(x, y) in blocked {
        data[y * width + x] = 0;
    }
    BiomeCollisionMap::new(&data, width, height)
}

fn probes_at(direct: (usize, usize), escape: [(usize, usize); 8]) -> MoveProbes {
    MoveProbes { direct, horizontal: direct, vertical: direct, escape }
}

#[test]
fn new_map_keeps_its_dimensions() {
    let map = open_map(20, 10);
    assert_eq!(map.grid_width(), 20);
    assert_eq!(map.grid_height(), 10);
    assert_eq!(map.cache_generation(), 0);
}

#[test]
fn only_the_byte_one_is_traversable() {
    let mut map = BiomeCollisionMap::new(&[1, 0, 2, 255, 1, 1], 3, 2);
    assert!(map.is_traversable(0, 0));
    assert!(!map.is_traversable(1, 0));
    assert!(!map.is_traversable(2, 0));
    assert!(!map.is_traversable(0, 1));
    assert!(map.is_traversable(1, 1));
    assert!(map.is_traversable(2, 1));
}

#[test]
fn cells_outside_the_grid_are_blocked() {
    let mut map = open_map(4, 3);
    assert!(!map.is_traversable(4, 0));
    assert!(!map.is_traversable(0, 3));
    assert!(!map.is_traversable(usize::MAX, usize::MAX));
    assert!(map.is_traversable(3, 2));
}

#[test]
fn an_empty_grid_blocks_everything() {
    let mut map = BiomeCollisionMap::new(&[], 0, 0);
    assert!(!map.is_traversable(0, 0));
    let mut map = BiomeCollisionMap::new(&[], 5, 0);
    assert!(!map.is_traversable(2, 0));
}

#[test]
fn repeated_lookups_agree() {
    let mut map = map_with_blocked(5, 5, &[(2, 2)]);
    for _ in 0..3 {
        assert!(!map.is_traversable(2, 2));
        assert!(map.is_traversable(2, 3));
    }
}

#[test]
fn cache_slots_shared_by_two_cells_do_not_mix_them_up() {
    // 200 x 100 cells: cell 0 and cell CACHE_LIMIT share a cache slot
    let width = 200;
    let height = 100;
    assert!(width * height > CACHE_LIMIT);
    let shared = (CACHE_LIMIT % width, CACHE_LIMIT / width);
    let mut map = map_with_blocked(width, height, &[shared]);
    assert!(map.is_traversable(0, 0));
    assert!(!map.is_traversable(shared.0, shared.1));
    assert!(map.is_traversable(0, 0));
    assert!(!map.is_traversable(shared.0, shared.1));
}

#[test]
fn check_positions_answers_pair_by_pair() {
    let mut map = map_with_blocked(4, 4, &[(1, 1), (3, 0)]);
    let answers = map.check_positions(&[0, 0, 1, 1, 3, 0, 2, 3, 9, 9]);
    assert_eq!(answers, vec![1, 0, 0, 1, 0]);
}

#[test]
fn check_positions_ignores_a_trailing_half_pair() {
    let mut map = open_map(4, 4);
    assert_eq!(map.check_positions(&[1, 1, 2]), vec![1]);
    assert_eq!(map.check_positions(&[3]), Vec::<u8>::new());
    assert_eq!(map.check_positions(&[]), Vec::<u8>::new());
}

#[test]
fn clear_cache_counts_and_keeps_the_grid() {
    let mut map = map_with_blocked(3, 3, &[(1, 1)]);
    assert!(!map.is_traversable(1, 1));
    map.clear_cache();
    assert_eq!(map.cache_generation(), 1);
    map.clear_cache();
    assert_eq!(map.cache_generation(), 2);
    assert!(!map.is_traversable(1, 1));
    assert!(map.is_traversable(0, 1));
}

#[test]
fn update_replaces_the_grid_and_drops_cached_answers() {
    let mut map = open_map(3, 2);
    assert!(map.is_traversable(1, 1));
    assert!(map.is_traversable(2, 0));
    let replaced = map.update_traversability(&[1, 1, 0, 1, 0, 1]);
    assert!(replaced);
    assert_eq!(map.cache_generation(), 1);
    assert!(!map.is_traversable(1, 1));
    assert!(!map.is_traversable(2, 0));
    assert!(map.is_traversable(0, 0));
}

#[test]
fn update_with_other_dimensions_changes_nothing() {
    let mut map = map_with_blocked(3, 2, &[(0, 0)]);
    assert!(!map.is_traversable(0, 0));
    assert!(!map.update_traversability(&[1, 1, 1, 1, 1]));
    assert!(!map.update_traversability(&[1, 1, 1, 1, 1, 1, 1]));
    assert!(!map.update_traversability(&[]));
    assert_eq!(map.cache_generation(), 0);
    assert!(!map.is_traversable(0, 0));
    assert!(map.is_traversable(1, 0));
}

#[test]
fn an_open_step_is_taken_directly() {
    let mut map = open_map(20, 20);
    let probes = probes_at((10, 10), [(0, 0); 8]);
    assert_eq!(map.resolve_move(&probes), MoveOutcome::Direct);
}

#[test]
fn a_blocked_step_slides_horizontally_first() {
    let mut map = map_with_blocked(10, 10, &[(5, 5)]);
    let probes = MoveProbes {
        direct: (5, 5),
        horizontal: (5, 4),
        vertical: (4, 5),
        escape: [(0, 0); 8],
    };
    assert_eq!(map.resolve_move(&probes), MoveOutcome::SlideHorizontal);
}

#[test]
fn a_blocked_horizontal_slide_falls_back_to_vertical() {
    let mut map = map_with_blocked(10, 10, &[(5, 5), (5, 4)]);
    let probes = MoveProbes {
        direct: (5, 5),
        horizontal: (5, 4),
        vertical: (4, 5),
        escape: [(0, 0); 8],
    };
    assert_eq!(map.resolve_move(&probes), MoveOutcome::SlideVertical);
}

#[test]
fn escape_takes_the_first_open_probe_in_compass_order() {
    let mut map = map_with_blocked(10, 10, &[(5, 5), (6, 5), (6, 6)]);
    let escape = [(6, 5), (6, 6), (5, 6), (4, 6), (4, 5), (4, 4), (5, 4), (6, 4)];
    let probes = probes_at((5, 5), escape);
    assert_eq!(map.resolve_move(&probes), MoveOutcome::Escape(2));
}

#[test]
fn escape_follows_the_only_open_probe() {
    for open in 0..ESCAPE_PROBES {
        let escape = [(6, 5), (6, 6), (5, 6), (4, 6), (4, 5), (4, 4), (5, 4), (6, 4)];
        let mut blocked = vec![(5, 5)];
        for (k, cell) in escape.iter().enumerate() {
            if k != open {
                blocked.push(*cell);
            }
        }
        let mut map = map_with_blocked(10, 10, &blocked);
        assert_eq!(map.resolve_move(&probes_at((5, 5), escape)), MoveOutcome::Escape(open));
    }
}

#[test]
fn a_walled_in_entity_is_trapped() {
    let mut map = BiomeCollisionMap::new(&vec![0u8; 100], 10, 10);
    let escape = [(6, 5), (6, 6), (5, 6), (4, 6), (4, 5), (4, 4), (5, 4), (6, 4)];
    assert_eq!(map.resolve_move(&probes_at((5, 5), escape)), MoveOutcome::Trapped);
}

#[test]
fn probes_outside_the_grid_count_as_blocked() {
    let mut map = open_map(4, 4);
    let probes = MoveProbes {
        direct: (4, 0),
        horizontal: (9, 9),
        vertical: (0, 4),
        escape: [(4, 4), (5, 5), (3, 3), (0, 0), (0, 0), (0, 0), (0, 0), (0, 0)],
    };
    assert_eq!(map.resolve_move(&probes), MoveOutcome::Escape(2));
}

#[test]
fn a_batch_is_resolved_entity_by_entity() {
    let mut map = map_with_blocked(10, 10, &[(5, 5), (6, 5)]);
    let escape = [(6, 5), (6, 6), (5, 6), (4, 6), (4, 5), (4, 4), (5, 4), (6, 4)];
    let batch = [
        probes_at((1, 1), escape),
        MoveProbes { direct: (5, 5), horizontal: (4, 5), vertical: (5, 4), escape },
        MoveProbes { direct: (5, 5), horizontal: (6, 5), vertical: (5, 4), escape },
        probes_at((5, 5), escape),
    ];
    let outcomes = apply_collision_constraints(&mut map, &[1u8; 4], &batch);
    assert_eq!(
        outcomes,
        vec![
            Some(MoveOutcome::Direct),
            Some(MoveOutcome::SlideHorizontal),
            Some(MoveOutcome::SlideVertical),
            Some(MoveOutcome::Escape(1)),
        ]
    );
}

#[test]
fn dead_entities_of_a_batch_have_no_outcome() {
    let mut map = map_with_blocked(10, 10, &[(5, 5)]);
    let escape = [(6, 5), (6, 6), (5, 6), (4, 6), (4, 5), (4, 4), (5, 4), (6, 4)];
    let batch = [probes_at((1, 1), escape), probes_at((5, 5), escape), probes_at((2, 2), escape)];
    let outcomes = apply_collision_constraints(&mut map, &[0, 1, 0], &batch);
    assert_eq!(outcomes, vec![None, Some(MoveOutcome::Escape(0)), None]);
}

#[test]
fn an_empty_batch_has_no_outcomes() {
    let mut map = open_map(2, 2);
    assert!(apply_collision_constraints(&mut map, &[], &[]).is_empty());
}
