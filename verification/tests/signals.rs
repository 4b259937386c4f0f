use falling_sand_contact::{
    apply_outcome, fire_contact, ContactBurst, ContactOutcome, DespawnParticleSignal, GridPos,
    ParticleTypeId, ResolvedContactRule, SpawnParticleSignal, TypeEntity,
};

#[test]
fn outcomes_emit_independent_spawn_and_despawn_signals() {
    let mut spawn: Vec<SpawnParticleSignal> = Vec::new();
    let mut despawn: Vec<DespawnParticleSignal> = Vec::new();
    apply_outcome(ContactOutcome::Unchanged, GridPos::new(0, 0), &mut spawn, &mut despawn);
    apply_outcome(ContactOutcome::Destroy, GridPos::new(1, 1), &mut spawn, &mut despawn);
    apply_outcome(
        ContactOutcome::Becomes(ParticleTypeId::from_raw(42)),
        GridPos::new(1, 0),
        &mut spawn,
        &mut despawn,
    );

    assert_eq!(spawn.len(), 1);
    assert_eq!(spawn[0].particle_type, ParticleTypeId::from_raw(42));
    assert_eq!(spawn[0].positions, [GridPos::new(1, 0)]);
    assert!(spawn[0].overwrite_existing);
    assert_eq!(despawn.len(), 1);
}

#[test]
fn destroy_despawns_at_its_position() {
    let mut spawn = Vec::new();
    let mut despawn = Vec::new();
    apply_outcome(ContactOutcome::Destroy, GridPos::new(-3, 9), &mut spawn, &mut despawn);
    assert!(spawn.is_empty());
    assert_eq!(despawn, vec![DespawnParticleSignal::from_position(GridPos::new(-3, 9))]);
}

#[test]
fn unchanged_emits_nothing() {
    let mut spawn = Vec::new();
    let mut despawn = Vec::new();
    apply_outcome(ContactOutcome::Unchanged, GridPos::new(5, 5), &mut spawn, &mut despawn);
    assert!(spawn.is_empty());
    assert!(despawn.is_empty());
}

#[test]
fn spawn_constructors_differ_only_in_overwrite() {
    let a = SpawnParticleSignal::new(ParticleTypeId::from_raw(3), GridPos::new(2, 4));
    let b = SpawnParticleSignal::overwrite_existing(ParticleTypeId::from_raw(3), GridPos::new(2, 4));
    assert!(!a.overwrite_existing);
    assert!(b.overwrite_existing);
    assert_eq!(a.positions, b.positions);
    assert_eq!(a.particle_type, b.particle_type);
}

#[test]
fn firing_applies_source_then_target_outcome() {
    let rule = ResolvedContactRule {
        target_type: TypeEntity { bits: 11 },
        source_outcome: ContactOutcome::Becomes(ParticleTypeId::from_raw(8)),
        target_outcome: ContactOutcome::Becomes(ParticleTypeId::from_raw(9)),
        chance_bits: 1.0f64.to_bits(),
        radius_bits: 1.0f32.to_bits(),
        burst: Some(ContactBurst { particle: ParticleTypeId::from_raw(4), count: 2 }),
    };
    let mut spawn = Vec::new();
    let mut despawn = Vec::new();
    fire_contact(&rule, GridPos::new(0, 0), GridPos::new(1, 0), &mut spawn, &mut despawn);
    assert_eq!(spawn.len(), 2);
    assert_eq!(spawn[0].particle_type, ParticleTypeId::from_raw(8));
    assert_eq!(spawn[0].positions, vec![GridPos::new(0, 0)]);
    assert_eq!(spawn[1].particle_type, ParticleTypeId::from_raw(9));
    assert_eq!(spawn[1].positions, vec![GridPos::new(1, 0)]);
    assert!(despawn.is_empty());

    let rule2 = ResolvedContactRule {
        source_outcome: ContactOutcome::Destroy,
        target_outcome: ContactOutcome::Destroy,
        ..rule
    };
    let mut spawn2 = Vec::new();
    let mut despawn2 = Vec::new();
    fire_contact(&rule2, GridPos::new(0, 0), GridPos::new(0, -1), &mut spawn2, &mut despawn2);
    assert!(spawn2.is_empty());
    assert_eq!(
        despawn2,
        vec![
            DespawnParticleSignal { position: GridPos::new(0, 0) },
            DespawnParticleSignal { position: GridPos::new(0, -1) }
        ]
    );
}
