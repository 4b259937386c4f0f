use vstd::prelude::*;

use std::collections::HashMap;

use crate::types::{ParticleTypeId, TypeEntity};

verus! {

broadcast use {
    vstd::std_specs::hash::axiom_usize_obeys_hash_table_key_model,
    vstd::std_specs::hash::axiom_random_state_builds_valid_hashers,
    vstd::std_specs::hash::axiom_maps_deref_key_to_value,
    vstd::std_specs::hash::axiom_contains_deref_key,
};

/// The registered particle types: each identifier that has been registered, with
/// the entity that stands for its type.
pub struct ParticleTypeRegistry {
    entities: HashMap<usize, TypeEntity>,
}

impl View for ParticleTypeRegistry {
    type V = Map<usize, TypeEntity>;

    closed spec fn view(&self) -> Map<usize, TypeEntity> {
        self.entities@
    }
}

impl ParticleTypeRegistry {
    /// A registry with no particle type in it.
    pub fn new() -> (r: ParticleTypeRegistry)
        ensures
            r@ == Map::<usize, TypeEntity>::empty(),
    {
        ParticleTypeRegistry { entities: HashMap::new() }
    }

    /// Register `id` as the type that `entity` stands for; an earlier entry for `id`
    /// is replaced.
    pub fn insert(&mut self, id: ParticleTypeId, entity: TypeEntity)
        ensures
            final(self)@ == old(self)@.insert(id.raw, entity),
    {
        self.entities.insert(id.raw, entity);
    }

    /// The entity registered for `id`, if any.
    pub fn get(&self, id: ParticleTypeId) -> (e: Option<TypeEntity>)
        ensures
            e == (if self@.contains_key(id.raw) { Some(self@[id.raw]) } else { None::<TypeEntity> }),
    {
        match self.entities.get(&id.raw) {
            Some(e) => Some(*e),
            None => None,
        }
    }

    /// Whether `id` is registered.
    pub fn contains(&self, id: ParticleTypeId) -> (b: bool)
        ensures
            b == self@.contains_key(id.raw),
    {
        self.entities.contains_key(&id.raw)
    }
}

} // verus!
