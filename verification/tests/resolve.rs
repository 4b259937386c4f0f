use falling_sand_contact::{
    resolve_contact_rule, try_resolve, ContactBurst, ContactOutcome, ContactReaction, ContactRule,
    ParticleTypeId, ParticleTypeRegistry, TypeEntity,
};

fn id(n: usize) -> ParticleTypeId {
    ParticleTypeId::from_raw(n)
}

fn registry(ids: &[usize]) -> ParticleTypeRegistry {
    let mut r = ParticleTypeRegistry::new();
    for &n in ids {
        r.insert(id(n), TypeEntity { bits: 1000 + n as u64 });
    }
    r
}

fn full_rule() -> ContactRule {
    ContactRule {
        target: id(1),
        source_outcome: ContactOutcome::Becomes(id(2)),
        target_outcome: ContactOutcome::Becomes(id(3)),
        chance_bits: 0.25f64.to_bits(),
        radius_bits: 2.5f32.to_bits(),
        burst: Some(ContactBurst { particle: id(4), count: 3 }),
    }
}

#[test]
fn registry_get_and_contains() {
    let mut r = registry(&[1]);
    assert_eq!(r.get(id(1)), Some(TypeEntity { bits: 1001 }));
    assert_eq!(r.get(id(2)), None);
    assert!(r.contains(id(1)));
    assert!(!r.contains(id(2)));
    r.insert(id(1), TypeEntity { bits: 5 });
    assert_eq!(r.get(id(1)), Some(TypeEntity { bits: 5 }));
}

#[test]
fn resolves_when_every_named_type_is_registered() {
    let reg = registry(&[1, 2, 3, 4]);
    let resolved = resolve_contact_rule(&full_rule(), &reg).unwrap();
    assert_eq!(resolved.target_type, TypeEntity { bits: 1001 });
    assert_eq!(resolved.source_outcome, ContactOutcome::Becomes(id(2)));
    assert_eq!(resolved.target_outcome, ContactOutcome::Becomes(id(3)));
    assert_eq!(f64::from_bits(resolved.chance_bits), 0.25);
    assert_eq!(f32::from_bits(resolved.radius_bits), 2.5);
    assert_eq!(resolved.burst, Some(ContactBurst { particle: id(4), count: 3 }));
}

#[test]
fn missing_target_fails() {
    assert!(resolve_contact_rule(&full_rule(), &registry(&[2, 3, 4])).is_none());
}

#[test]
fn missing_source_product_fails() {
    assert!(resolve_contact_rule(&full_rule(), &registry(&[1, 3, 4])).is_none());
}

#[test]
fn missing_target_product_fails() {
    assert!(resolve_contact_rule(&full_rule(), &registry(&[1, 2, 4])).is_none());
}

#[test]
fn missing_burst_particle_fails() {
    assert!(resolve_contact_rule(&full_rule(), &registry(&[1, 2, 3])).is_none());
}

#[test]
fn unchanged_and_destroy_name_no_product() {
    let rule = ContactRule {
        target: id(1),
        source_outcome: ContactOutcome::Destroy,
        target_outcome: ContactOutcome::Unchanged,
        ..ContactRule::default()
    };
    let resolved = resolve_contact_rule(&rule, &registry(&[1])).unwrap();
    assert_eq!(resolved.target_type, TypeEntity { bits: 1001 });
    assert_eq!(resolved.source_outcome, ContactOutcome::Destroy);
}

#[test]
fn reaction_resolves_rule_for_rule_in_order() {
    let a = ContactRule { target: id(2), ..ContactRule::default() };
    let b = ContactRule { target: id(1), ..ContactRule::default() };
    let reaction = ContactReaction::new(vec![a, b]);
    let resolved = try_resolve(&reaction, &registry(&[1, 2])).unwrap();
    assert_eq!(resolved.rules.len(), 2);
    assert_eq!(resolved.rules[0].target_type, TypeEntity { bits: 1002 });
    assert_eq!(resolved.rules[1].target_type, TypeEntity { bits: 1001 });
}

#[test]
fn one_unresolvable_rule_fails_the_whole_reaction() {
    let a = ContactRule { target: id(1), ..ContactRule::default() };
    let b = ContactRule { target: id(9), ..ContactRule::default() };
    let reaction = ContactReaction::new(vec![a, b]);
    assert!(try_resolve(&reaction, &registry(&[1, 2])).is_none());
}

#[test]
fn empty_reaction_always_resolves() {
    let resolved = try_resolve(&ContactReaction::default(), &ParticleTypeRegistry::new()).unwrap();
    assert!(resolved.rules.is_empty());
}

#[test]
fn registering_a_type_later_lets_resolution_succeed_and_keeps_it() {
    let reaction = ContactReaction::new(vec![full_rule()]);
    let mut reg = registry(&[1, 2, 3]);
    assert!(try_resolve(&reaction, &reg).is_none());
    reg.insert(id(4), TypeEntity { bits: 1004 });
    let first = try_resolve(&reaction, &reg).unwrap();
    reg.insert(id(77), TypeEntity { bits: 77 });
    let second = try_resolve(&reaction, &reg).unwrap();
    assert_eq!(first.rules.len(), second.rules.len());
    assert_eq!(first.rules[0].target_type, second.rules[0].target_type);
    assert_eq!(first.rules[0].burst, second.rules[0].burst);
    assert_eq!(first.rules[0].chance_bits, second.rules[0].chance_bits);
}
