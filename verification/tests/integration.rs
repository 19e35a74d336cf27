use sim_core::physics::{integrate_batch, integrate_batch_simd};

fn wrap(position: f32, extent: f32) -> f32 {
    if position < 0.0 {
        let wrapped = position + extent;
        if wrapped >= extent {
            0.0
        } else {
            wrapped
        }
    } else if position >= extent {
        position - extent
    } else {
        position
    }
}

fn step(
    px: f32,
    py: f32,
    vx: f32,
    vy: f32,
    speed: f32,
    metabolism: f32,
    world: (f32, f32),
    dt: f32,
) -> (f32, f32, f32, f32) {
    let cap = speed * (metabolism / 0.15).min(1.0);
    let mag = (vx * vx + vy * vy).sqrt();
    let (vx, vy) = if mag > cap && mag > 0.0001 {
        (vx * (cap / mag), vy * (cap / mag))
    } else {
        (vx, vy)
    };
    (wrap(px + vx * dt, world.0), wrap(py + vy * dt, world.1), vx, vy)
}

fn genes_for(entities: &[(f32, f32)]) -> Vec<f32> {
    let mut genes = Vec::new();
    for &(speed, metabolism) in entities {
        genes.extend_from_slice(&[speed, 50.0, metabolism, 0.02, 0.5, 0.5, 0.3, -0.5, 120.0]);
    }
    genes
}

#[test]
fn a_free_entity_moves_by_its_velocity() {
    let (mut px, mut py) = (vec![500.0f32], vec![500.0f32]);
    let (mut vx, mut vy) = (vec![10.0f32], vec![0.0f32]);
    let genes = genes_for(&[(20.0, 0.15)]);
    integrate_batch(&mut px, &mut py, &mut vx, &mut vy, &[1u8; 1], &genes, 0, 1, |a, b, c, d, s, m| {
        step(a, b, c, d, s, m, (1000.0, 1000.0), 1.0)
    });
    assert_eq!((px[0], py[0]), (510.0, 500.0));
    assert_eq!((vx[0], vy[0]), (10.0, 0.0));
}

#[test]
fn velocity_is_scaled_down_to_the_cap() {
    let (mut px, mut py) = (vec![100.0f32], vec![100.0f32]);
    let (mut vx, mut vy) = (vec![30.0f32], vec![40.0f32]);
    let genes = genes_for(&[(20.0, 0.075)]);
    integrate_batch(&mut px, &mut py, &mut vx, &mut vy, &[1u8; 1], &genes, 0, 1, |a, b, c, d, s, m| {
        step(a, b, c, d, s, m, (1000.0, 1000.0), 1.0)
    });
    assert!((vx[0] - 6.0).abs() < 1e-4);
    assert!((vy[0] - 8.0).abs() < 1e-4);
    assert!((vx[0] * vx[0] + vy[0] * vy[0]).sqrt() <= 10.0 + 1e-4);
    assert!((px[0] - 106.0).abs() < 1e-3);
    assert!((py[0] - 108.0).abs() < 1e-3);
}

#[test]
fn metabolism_above_the_reference_grants_no_speed() {
    let (mut px, mut py) = (vec![0.0f32], vec![0.0f32]);
    let (mut vx, mut vy) = (vec![100.0f32], vec![0.0f32]);
    let genes = genes_for(&[(20.0, 0.9)]);
    integrate_batch(&mut px, &mut py, &mut vx, &mut vy, &[1u8; 1], &genes, 0, 1, |a, b, c, d, s, m| {
        step(a, b, c, d, s, m, (1000.0, 1000.0), 0.5)
    });
    assert!((vx[0] - 20.0).abs() < 1e-4);
    assert!((px[0] - 10.0).abs() < 1e-4);
}

#[test]
fn positions_wrap_once_around_the_world() {
    let (mut px, mut py) = (vec![995.0f32, 2.0], vec![2.0f32, 995.0]);
    let (mut vx, mut vy) = (vec![10.0f32, -10.0], vec![-10.0f32, 10.0]);
    let genes = genes_for(&[(50.0, 0.15), (50.0, 0.15)]);
    integrate_batch(&mut px, &mut py, &mut vx, &mut vy, &[1u8; 2], &genes, 0, 2, |a, b, c, d, s, m| {
        step(a, b, c, d, s, m, (1000.0, 1000.0), 1.0)
    });
    assert_eq!((px[0], py[0]), (5.0, 992.0));
    assert_eq!((px[1], py[1]), (992.0, 5.0));
    for e in 0..2 {
        assert!(0.0 <= px[e] && px[e] < 1000.0);
        assert!(0.0 <= py[e] && py[e] < 1000.0);
    }
}

#[test]
fn a_batch_touches_only_its_range() {
    let mut px: Vec<f32> = vec![1.0, 2.0, 3.0, 4.0, 5.0];
    let mut py: Vec<f32> = vec![1.0; 5];
    let mut vx: Vec<f32> = vec![1.0; 5];
    let mut vy: Vec<f32> = vec![0.0; 5];
    let genes = genes_for(&[(20.0, 0.15); 5]);
    integrate_batch(&mut px, &mut py, &mut vx, &mut vy, &[1u8; 5], &genes, 1, 3, |a, b, c, d, s, m| {
        step(a, b, c, d, s, m, (1000.0, 1000.0), 1.0)
    });
    assert_eq!(px, vec![1.0, 3.0, 4.0, 4.0, 5.0]);
    assert_eq!(py, vec![1.0; 5]);
}

#[test]
fn a_batch_reads_each_entity_s_own_genes() {
    let mut px: Vec<f32> = vec![0.0; 3];
    let mut py: Vec<f32> = vec![0.0; 3];
    let mut vx: Vec<f32> = vec![100.0; 3];
    let mut vy: Vec<f32> = vec![0.0; 3];
    let genes = genes_for(&[(10.0, 0.15), (20.0, 0.15), (40.0, 0.075)]);
    integrate_batch(&mut px, &mut py, &mut vx, &mut vy, &[1u8; 3], &genes, 0, 3, |a, b, c, d, s, m| {
        step(a, b, c, d, s, m, (1000.0, 1000.0), 1.0)
    });
    assert!((vx[0] - 10.0).abs() < 1e-4);
    assert!((vx[1] - 20.0).abs() < 1e-4);
    assert!((vx[2] - 20.0).abs() < 1e-4);
}

#[test]
fn a_batch_beyond_the_columns_is_cut_off() {
    let mut px: Vec<f32> = vec![0.0; 2];
    let mut py: Vec<f32> = vec![0.0; 2];
    let mut vx: Vec<f32> = vec![1.0; 2];
    let mut vy: Vec<f32> = vec![1.0; 2];
    let genes = genes_for(&[(20.0, 0.15); 2]);
    let mut calls = 0;
    integrate_batch(&mut px, &mut py, &mut vx, &mut vy, &[1u8; 2], &genes, 1, 99, |a, b, c, d, s, m| {
        calls += 1;
        step(a, b, c, d, s, m, (1000.0, 1000.0), 1.0)
    });
    assert_eq!(calls, 1);
    assert_eq!(px, vec![0.0, 1.0]);
}

#[test]
fn an_empty_batch_calls_nobody() {
    let mut px: Vec<f32> = vec![0.0; 2];
    let mut py: Vec<f32> = vec![0.0; 2];
    let mut vx: Vec<f32> = vec![1.0; 2];
    let mut vy: Vec<f32> = vec![1.0; 2];
    let mut calls = 0;
    integrate_batch(&mut px, &mut py, &mut vx, &mut vy, &[1u8; 2], &[], 2, 1, |a, b, c, d, _, _| {
        calls += 1;
        (a, b, c, d)
    });
    integrate_batch(&mut px, &mut py, &mut vx, &mut vy, &[1u8; 2], &[], 5, 9, |a, b, c, d, _, _| {
        calls += 1;
        (a, b, c, d)
    });
    assert_eq!(calls, 0);
    assert_eq!(px, vec![0.0; 2]);
}

type Quad = (f32, f32, f32, f32);

fn lanes(px: Quad, py: Quad, vx: Quad, vy: Quad, world: (f32, f32), dt: f32) -> (Quad, Quad) {
    (
        (
            wrap(px.0 + vx.0 * dt, world.0),
            wrap(px.1 + vx.1 * dt, world.0),
            wrap(px.2 + vx.2 * dt, world.0),
            wrap(px.3 + vx.3 * dt, world.0),
        ),
        (
            wrap(py.0 + vy.0 * dt, world.1),
            wrap(py.1 + vy.1 * dt, world.1),
            wrap(py.2 + vy.2 * dt, world.1),
            wrap(py.3 + vy.3 * dt, world.1),
        ),
    )
}

#[test]
fn lanes_take_groups_of_four_and_singles_the_rest() {
    let n = 11;
    let mut px: Vec<f32> = (0..n).map(|e| e as f32).collect();
    let mut py: Vec<f32> = vec![10.0; n];
    let vx: Vec<f32> = vec![1.0; n];
    let vy: Vec<f32> = vec![-1.0; n];
    let mut lane_calls = 0;
    let mut single_calls = 0;
    integrate_batch_simd(
        &mut px,
        &mut py,
        &vx,
        &vy,
        &[1u8; 11],
        |a, b, c, d| {
            lane_calls += 1;
            lanes(a, b, c, d, (100.0, 100.0), 2.0)
        },
        |a, b, c, d| {
            single_calls += 1;
            (wrap(a + c * 2.0, 100.0), wrap(b + d * 2.0, 100.0))
        },
    );
    assert_eq!(lane_calls, 2);
    assert_eq!(single_calls, 3);
    let expected: Vec<f32> = (0..n).map(|e| e as f32 + 2.0).collect();
    assert_eq!(px, expected);
    assert_eq!(py, vec![8.0; n]);
}

#[test]
fn lanes_and_singles_agree_with_the_plain_step() {
    let n = 7;
    let start_x: Vec<f32> = vec![99.0, 0.5, 50.0, 98.5, 1.0, 99.5, 0.0];
    let start_y: Vec<f32> = vec![0.5, 99.0, 50.0, 1.0, 98.5, 0.0, 99.5];
    let vx: Vec<f32> = vec![2.0, -2.0, 1.0, 3.0, -3.0, 1.0, -1.0];
    let vy: Vec<f32> = vec![-2.0, 2.0, 1.0, -3.0, 3.0, -1.0, 1.0];
    let (mut px, mut py) = (start_x.clone(), start_y.clone());
    integrate_batch_simd(
        &mut px,
        &mut py,
        &vx,
        &vy,
        &[1u8; 7],
        |a, b, c, d| lanes(a, b, c, d, (100.0, 100.0), 1.0),
        |a, b, c, d| (wrap(a + c, 100.0), wrap(b + d, 100.0)),
    );
    for e in 0..n {
        assert_eq!(px[e], wrap(start_x[e] + vx[e], 100.0));
        assert_eq!(py[e], wrap(start_y[e] + vy[e], 100.0));
        assert!(0.0 <= px[e] && px[e] < 100.0);
        assert!(0.0 <= py[e] && py[e] < 100.0);
    }
}

#[test]
fn fewer_than_four_entities_go_through_singles_only() {
    let mut px: Vec<f32> = vec![1.0, 2.0, 3.0];
    let mut py: Vec<f32> = vec![1.0, 2.0, 3.0];
    let mut lane_calls = 0;
    integrate_batch_simd(
        &mut px,
        &mut py,
        &[1.0, 1.0, 1.0],
        &[0.0, 0.0, 0.0],
        &[1u8; 3],
        |a, b, _, _| {
            lane_calls += 1;
            (a, b)
        },
        |a, b, c, d| (a + c, b + d),
    );
    assert_eq!(lane_calls, 0);
    assert_eq!(px, vec![2.0, 3.0, 4.0]);
}

#[test]
fn a_dead_entity_keeps_its_stale_data() {
    let (mut px, mut py) = (vec![500.0f32], vec![500.0f32]);
    let (mut vx, mut vy) = (vec![10.0f32], vec![0.0f32]);
    let genes = genes_for(&[(20.0, 0.15)]);
    let mut calls = 0;
    integrate_batch(&mut px, &mut py, &mut vx, &mut vy, &[0u8], &genes, 0, 1, |a, b, c, d, s, m| {
        calls += 1;
        step(a, b, c, d, s, m, (1000.0, 1000.0), 1.0)
    });
    assert_eq!(calls, 0);
    assert_eq!((px[0], py[0]), (500.0, 500.0));
    assert_eq!((vx[0], vy[0]), (10.0, 0.0));
}

#[test]
fn a_batch_advances_only_its_live_entities() {
    let mut px: Vec<f32> = vec![1.0, 2.0, 3.0, 4.0];
    let mut py: Vec<f32> = vec![0.0; 4];
    let mut vx: Vec<f32> = vec![100.0; 4];
    let mut vy: Vec<f32> = vec![0.0; 4];
    let genes = genes_for(&[(20.0, 0.15); 4]);
    integrate_batch(
        &mut px,
        &mut py,
        &mut vx,
        &mut vy,
        &[1, 0, 0, 1],
        &genes,
        0,
        4,
        |a, b, c, d, s, m| step(a, b, c, d, s, m, (1000.0, 1000.0), 1.0),
    );
    assert_eq!(px, vec![21.0, 2.0, 3.0, 24.0]);
    assert_eq!(vx, vec![20.0, 100.0, 100.0, 20.0]);
}

#[test]
fn a_tiny_negative_coordinate_wraps_inside_the_world() {
    let (mut px, mut py) = (vec![0.0f32], vec![0.0f32]);
    let (mut vx, mut vy) = (vec![-1e-9f32], vec![-1e-9f32]);
    let genes = genes_for(&[(20.0, 0.15)]);
    integrate_batch(&mut px, &mut py, &mut vx, &mut vy, &[1u8], &genes, 0, 1, |a, b, c, d, s, m| {
        step(a, b, c, d, s, m, (1000.0, 1000.0), 1.0)
    });
    assert!(0.0 <= px[0] && px[0] < 1000.0);
    assert!(0.0 <= py[0] && py[0] < 1000.0);
}

#[test]
fn a_group_with_a_dead_member_goes_through_singles() {
    let n = 9;
    let mut px: Vec<f32> = (0..n).map(|e| e as f32).collect();
    let mut py: Vec<f32> = vec![10.0; n];
    let vx: Vec<f32> = vec![1.0; n];
    let vy: Vec<f32> = vec![1.0; n];
    let alive = [1u8, 1, 1, 1, 1, 0, 1, 1, 0];
    let mut lane_calls = 0;
    let mut singles = Vec::new();
    integrate_batch_simd(
        &mut px,
        &mut py,
        &vx,
        &vy,
        &alive,
        |a, b, c, d| {
            lane_calls += 1;
            lanes(a, b, c, d, (100.0, 100.0), 1.0)
        },
        |a, b, c, d| {
            singles.push(a);
            (wrap(a + c, 100.0), wrap(b + d, 100.0))
        },
    );
    assert_eq!(lane_calls, 1);
    assert_eq!(singles, vec![4.0, 6.0, 7.0]);
    assert_eq!(px, vec![1.0, 2.0, 3.0, 4.0, 5.0, 5.0, 7.0, 8.0, 8.0]);
    assert_eq!(py, vec![11.0, 11.0, 11.0, 11.0, 11.0, 10.0, 11.0, 11.0, 10.0]);
}

#[test]
fn dead_entities_are_skipped_by_lanes_and_singles() {
    let mut px: Vec<f32> = vec![1.0; 6];
    let mut py: Vec<f32> = vec![2.0; 6];
    let mut lane_calls = 0;
    let mut single_calls = 0;
    integrate_batch_simd(
        &mut px,
        &mut py,
        &[5.0; 6],
        &[5.0; 6],
        &[0u8; 6],
        |a, b, _, _| {
            lane_calls += 1;
            (a, b)
        },
        |a, b, c, d| {
            single_calls += 1;
            (a + c, b + d)
        },
    );
    assert_eq!(lane_calls + single_calls, 0);
    assert_eq!(px, vec![1.0; 6]);
    assert_eq!(py, vec![2.0; 6]);
}
