//! The gene record of one entity and its place in a flattened gene buffer.

use crate::movement::{
    gene_offset, GENES_PER_ENTITY, GENE_AGGRESSION, GENE_COHESION, GENE_DIET, GENE_FOOD_STANDARDS,
    GENE_METABOLISM, GENE_REPRO_CHANCE, GENE_SPEED, GENE_VIEW_ANGLE, GENE_VISION,
};
use vstd::prelude::*;

verus! {

/// The nine genes of one entity, by name.
#[derive(Debug)]
pub struct EntityGenes<T> {
    pub speed: T,
    pub vision: T,
    pub metabolism: T,
    pub repro_chance: T,
    pub aggression: T,
    pub cohesion: T,
    pub food_standards: T,
    pub diet: T,
    pub view_angle: T,
}

impl<T: Copy> EntityGenes<T> {
    /// The genes in the order in which a gene buffer holds them.
    pub open spec fn as_seq(self) -> Seq<T> {
        seq![
            self.speed,
            self.vision,
            self.metabolism,
            self.repro_chance,
            self.aggression,
            self.cohesion,
            self.food_standards,
            self.diet,
            self.view_angle,
        ]
    }

    /// The genes of entity `entity_idx`, read from a flattened gene buffer.
    pub fn read(genes: &[T], entity_idx: usize) -> (record: EntityGenes<T>)
        requires
            gene_offset(entity_idx as int, GENES_PER_ENTITY as int) <= genes@.len(),
        ensures
            record.as_seq() == genes@.subrange(
                gene_offset(entity_idx as int, 0),
                gene_offset(entity_idx as int, GENES_PER_ENTITY as int),
            ),
    {
        assert(genes@.len() == genes.len());
        let base: usize = entity_idx * GENES_PER_ENTITY;
        let record = EntityGenes {
            speed: genes[base + GENE_SPEED],
            vision: genes[base + GENE_VISION],
            metabolism: genes[base + GENE_METABOLISM],
            repro_chance: genes[base + GENE_REPRO_CHANCE],
            aggression: genes[base + GENE_AGGRESSION],
            cohesion: genes[base + GENE_COHESION],
            food_standards: genes[base + GENE_FOOD_STANDARDS],
            diet: genes[base + GENE_DIET],
            view_angle: genes[base + GENE_VIEW_ANGLE],
        };
        record
    }

    /// Writes the genes into the slots of entity `entity_idx` of a flattened
    /// gene buffer and leaves every other slot as it was.
    pub fn write(&self, genes: &mut [T], entity_idx: usize)
        requires
            gene_offset(entity_idx as int, GENES_PER_ENTITY as int) <= old(genes)@.len(),
        ensures
            final(genes)@ == old(genes)@.subrange(0, gene_offset(entity_idx as int, 0))
                + self.as_seq() + old(genes)@.subrange(
                gene_offset(entity_idx as int, GENES_PER_ENTITY as int),
                old(genes)@.len() as int,
            ),
    {
        assert(genes@.len() == genes.len());
        let base: usize = entity_idx * GENES_PER_ENTITY;
        genes[base + GENE_SPEED] = self.speed;
        genes[base + GENE_VISION] = self.vision;
        genes[base + GENE_METABOLISM] = self.metabolism;
        genes[base + GENE_REPRO_CHANCE] = self.repro_chance;
        genes[base + GENE_AGGRESSION] = self.aggression;
        genes[base + GENE_COHESION] = self.cohesion;
        genes[base + GENE_FOOD_STANDARDS] = self.food_standards;
        genes[base + GENE_DIET] = self.diet;
        genes[base + GENE_VIEW_ANGLE] = self.view_angle;
    }
}

} // verus!
