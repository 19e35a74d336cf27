use sim_core::types::EntityGenes;
use sim_core::movement::{
    admits, get_gene, process_entity_movement, Sighting, GENES_PER_ENTITY, GENE_DIET,
    GENE_METABOLISM, GENE_SPEED, GENE_VIEW_ANGLE, MAX_NEIGHBORS, SCAN_BUDGET,
};

fn seen() -> Sighting {
    Sighting {
        within_reach: true,
        in_view: true,
        peripheral: false,
        within_vision: true,
        crowding: false,
        prey_rank: None,
    }
}

#[test]
fn budgets_are_twenty_and_forty() {
    assert_eq!(MAX_NEIGHBORS, 20);
    assert_eq!(SCAN_BUDGET, 2 * MAX_NEIGHBORS);
    assert_eq!(GENES_PER_ENTITY, 9);
}

#[test]
fn get_gene_reads_the_flattened_buffer() {
    let genes: Vec<f32> = (0..27).map(|g| g as f32).collect();
    assert_eq!(get_gene(&genes, 0, GENE_SPEED), 0.0);
    assert_eq!(get_gene(&genes, 1, GENE_METABOLISM), 11.0);
    assert_eq!(get_gene(&genes, 2, GENE_DIET), 25.0);
    assert_eq!(get_gene(&genes, 2, GENE_VIEW_ANGLE), 26.0);
}

#[test]
fn an_entity_does_not_admit_itself() {
    assert!(!admits(3, 3, seen()));
    assert!(admits(3, 4, seen()));
}

#[test]
fn a_candidate_out_of_reach_is_rejected() {
    let far = Sighting { within_reach: false, ..seen() };
    assert!(!admits(0, 1, far));
}

#[test]
fn a_candidate_out_of_view_is_admitted_only_when_close() {
    let behind = Sighting { in_view: false, peripheral: false, ..seen() };
    let touching = Sighting { in_view: false, peripheral: true, ..seen() };
    assert!(!admits(0, 1, behind));
    assert!(admits(0, 1, touching));
}

#[test]
fn allies_within_vision_are_flocked_with() {
    let tribes = [7u16, 7, 8, 7, 7];
    let beyond = Sighting { within_vision: false, ..seen() };
    let plan = process_entity_movement(0, &tribes, false, &[1, 2, 3, 4], &[
        seen(),
        seen(),
        beyond,
        seen(),
    ]);
    assert_eq!(plan.allies, vec![1, 4]);
    assert_eq!(plan.neighbors, vec![1, 2, 4]);
    assert!(plan.crowding.is_empty());
    assert_eq!(plan.prey, None);
}

#[test]
fn only_crowding_allies_repel() {
    let tribes = [1u16, 1, 1, 2];
    let close = Sighting { crowding: true, ..seen() };
    let plan = process_entity_movement(0, &tribes, false, &[1, 2, 3], &[close, seen(), close]);
    assert_eq!(plan.allies, vec![1, 2]);
    assert_eq!(plan.crowding, vec![1]);
}

#[test]
fn at_most_twenty_neighbors_are_retained() {
    let tribes = vec![0u16; 41];
    let accepted: Vec<usize> = (1..=40).collect();
    let sightings = vec![seen(); 40];
    let plan = process_entity_movement(0, &tribes, false, &accepted, &sightings);
    assert_eq!(plan.neighbors, (1..=20).collect::<Vec<usize>>());
    assert_eq!(plan.allies.len(), 40);
}

#[test]
fn a_hunter_pursues_the_best_ranked_stranger() {
    let tribes = [0u16, 1, 1, 0, 1];
    let ranked = |rank: u32| Sighting { prey_rank: Some(rank), ..seen() };
    let plan = process_entity_movement(0, &tribes, true, &[1, 2, 3, 4], &[
        ranked(50),
        ranked(20),
        ranked(1),
        ranked(30),
    ]);
    assert_eq!(plan.prey, Some(2));
}

#[test]
fn equal_ranks_go_to_the_earlier_candidate() {
    let tribes = [0u16, 1, 1, 1];
    let ranked = |rank: u32| Sighting { prey_rank: Some(rank), ..seen() };
    let plan =
        process_entity_movement(0, &tribes, true, &[3, 1, 2], &[ranked(9), ranked(4), ranked(4)]);
    assert_eq!(plan.prey, Some(1));
}

#[test]
fn prey_must_be_in_view_and_rankable() {
    let tribes = [0u16, 1, 1, 1];
    let unseen = Sighting { in_view: false, peripheral: true, prey_rank: Some(0), ..seen() };
    let hopeless = Sighting { prey_rank: None, ..seen() };
    let fair = Sighting { prey_rank: Some(900), ..seen() };
    let plan = process_entity_movement(0, &tribes, true, &[1, 2, 3], &[unseen, hopeless, fair]);
    assert_eq!(plan.prey, Some(3));
}

#[test]
fn prey_may_lie_beyond_normal_vision() {
    let tribes = [0u16, 1];
    let distant = Sighting { within_vision: false, prey_rank: Some(5), ..seen() };
    let plan = process_entity_movement(0, &tribes, true, &[1], &[distant]);
    assert_eq!(plan.prey, Some(1));
    assert!(plan.neighbors.is_empty());
}

#[test]
fn a_sated_entity_hunts_nobody() {
    let tribes = [0u16, 1];
    let target = Sighting { prey_rank: Some(0), ..seen() };
    let plan = process_entity_movement(0, &tribes, false, &[1], &[target]);
    assert_eq!(plan.prey, None);
}

#[test]
fn no_candidates_make_an_empty_plan() {
    let plan = process_entity_movement(0, &[3u16], true, &[], &[]);
    assert!(plan.neighbors.is_empty());
    assert!(plan.allies.is_empty());
    assert!(plan.crowding.is_empty());
    assert_eq!(plan.prey, None);
}

#[test]
fn gene_records_follow_the_buffer_layout() {
    let genes: Vec<f32> = (0..27).map(|g| g as f32).collect();
    let record = EntityGenes::read(&genes, 1);
    assert_eq!(record.speed, 9.0);
    assert_eq!(record.vision, 10.0);
    assert_eq!(record.metabolism, 11.0);
    assert_eq!(record.repro_chance, 12.0);
    assert_eq!(record.aggression, 13.0);
    assert_eq!(record.cohesion, 14.0);
    assert_eq!(record.food_standards, 15.0);
    assert_eq!(record.diet, 16.0);
    assert_eq!(record.view_angle, 17.0);
}

#[test]
fn writing_a_gene_record_touches_only_its_entity() {
    let mut genes: Vec<f32> = vec![0.0; 27];
    let record = EntityGenes {
        speed: 20.0,
        vision: 50.0,
        metabolism: 0.15,
        repro_chance: 0.02,
        aggression: 0.5,
        cohesion: 0.5,
        food_standards: 0.3,
        diet: -0.5,
        view_angle: 120.0,
    };
    record.write(&mut genes, 2);
    assert_eq!(&genes[..18], &[0.0; 18]);
    assert_eq!(&genes[18..], &[20.0, 50.0, 0.15, 0.02, 0.5, 0.5, 0.3, -0.5, 120.0]);
}
