//! Contact reactions between falling-sand particle types.
//!
//! A particle type carries a `ContactReaction`: a list of rules saying what happens
//! when a particle of that type touches a particle of a target type. The library
//! resolves those rules against a registry of particle types, decides which rule
//! fires for a pair of touching particles, and computes the spawn and despawn
//! signals (burst spray included) that a firing produces.

pub mod burst;
pub mod firing;
pub mod reaction;
pub mod registry;
pub mod resolve;
pub mod scan;
pub mod signals;
pub mod types;

pub use types::{
    law_float_bits_equality, law_rule_equality_compares_every_field, ContactBurst,
    ContactOutcome, ContactRule, GridPos, ParticleTypeId, TypeEntity, DEFAULT_RADIUS_BITS,
};
pub use reaction::{law_reaction_equality_is_rule_by_rule, ContactReaction};
pub use registry::ParticleTypeRegistry;
pub use resolve::{
    law_resolution_is_rule_for_rule, law_resolution_keeps_the_rule, law_resolution_of_pushed_rule,
    law_resolution_survives_registration, resolve_contact_rule,
    try_resolve, ResolvedContactReaction, ResolvedContactRule,
};
pub use signals::{
    apply_outcome, fire_contact, law_outcome_emits_at_most_one_signal, law_outcome_signals,
    law_outcome_signals_follow_the_cell, DespawnParticleSignal,
    SpawnParticleSignal, SpawnRequest,
};
pub use burst::{
    law_burst_fills_distinct_empty_neighbors, law_burst_size, law_moore_cells_row_by_row,
    moore_neighborhood, place_burst,
};
pub use firing::{
    fire_rule, law_burst_independent_of_outcomes, law_firing_replaces_only_participants,
    law_firing_signals,
};
pub use scan::{
    law_at_most_one_reaction, law_candidate_is_a_match, law_chance_decides_firing, law_firing_ends_scan,
    law_firing_needs_matching_neighbor, law_unfired_match_marks_dirty, next_candidate, ContactScan, ScanAction,
};
