use falling_sand_contact::{
    fire_rule, moore_neighborhood, ContactBurst, ContactOutcome, DespawnParticleSignal, GridPos,
    ParticleTypeId, ResolvedContactRule, SpawnParticleSignal, TypeEntity,
};

fn rule(burst: Option<ContactBurst>) -> ResolvedContactRule {
    ResolvedContactRule {
        target_type: TypeEntity { bits: 3 },
        source_outcome: ContactOutcome::Becomes(ParticleTypeId::from_raw(10)),
        target_outcome: ContactOutcome::Destroy,
        chance_bits: 1.0f64.to_bits(),
        radius_bits: 1.0f32.to_bits(),
        burst,
    }
}

#[test]
fn firing_with_burst_emits_outcomes_then_burst() {
    let origin = GridPos::new(5, 5);
    let neighbor = GridPos::new(6, 5);
    let order = moore_neighborhood(origin);
    let empty = vec![true, false, true, false, false, false, false, false];
    let mut spawn: Vec<SpawnParticleSignal> = Vec::new();
    let mut despawn: Vec<DespawnParticleSignal> = Vec::new();
    let r = rule(Some(ContactBurst { particle: ParticleTypeId::from_raw(20), count: 5 }));
    fire_rule(&r, origin, neighbor, &order, &empty, &mut spawn, &mut despawn);
    assert_eq!(spawn.len(), 3);
    assert_eq!(spawn[0].particle_type, ParticleTypeId::from_raw(10));
    assert_eq!(spawn[0].positions, vec![origin]);
    assert!(spawn[0].overwrite_existing);
    assert_eq!(spawn[1].particle_type, ParticleTypeId::from_raw(20));
    assert_eq!(spawn[1].positions, vec![order[0]]);
    assert!(!spawn[1].overwrite_existing);
    assert_eq!(spawn[2].positions, vec![order[2]]);
    assert_eq!(despawn, vec![DespawnParticleSignal::from_position(neighbor)]);
}

#[test]
fn firing_without_burst_ignores_the_neighbourhood() {
    let mut spawn: Vec<SpawnParticleSignal> = Vec::new();
    let mut despawn: Vec<DespawnParticleSignal> = Vec::new();
    fire_rule(&rule(None), GridPos::new(0, 0), GridPos::new(0, 1), &vec![], &vec![], &mut spawn, &mut despawn);
    assert_eq!(spawn.len(), 1);
    assert_eq!(spawn[0].positions, vec![GridPos::new(0, 0)]);
    assert_eq!(despawn, vec![DespawnParticleSignal::from_position(GridPos::new(0, 1))]);
}
