use falling_sand_contact::{
    ContactBurst, ContactOutcome, ContactReaction, ContactRule, ParticleTypeId,
    DEFAULT_RADIUS_BITS,
};

fn rule(id: usize) -> ContactRule {
    ContactRule {
        target: ParticleTypeId::from_raw(id),
        source_outcome: ContactOutcome::Becomes(ParticleTypeId::from_raw(id + 100)),
        ..ContactRule::default()
    }
}

#[test]
fn with_rule_and_mutable_iteration_update_rules() {
    let mut reactions = ContactReaction::default().with_rule(rule(1));
    for rule in reactions.iter_mut() {
        rule.chance_bits = 0.5f64.to_bits();
    }

    assert_eq!(reactions.len(), 1);
    assert_eq!(f64::from_bits(reactions.iter().next().unwrap().chance_bits), 0.5);
}

#[test]
fn default_rule_has_unit_radius_zero_chance_and_no_burst() {
    let r = ContactRule::default();
    assert_eq!(f32::from_bits(r.radius_bits), 1.0);
    assert_eq!(DEFAULT_RADIUS_BITS, 1.0f32.to_bits());
    assert_eq!(ContactRule::default_radius_bits(), 1.0f32.to_bits());
    assert_eq!(f64::from_bits(r.chance_bits), 0.0);
    assert_eq!(r.source_outcome, ContactOutcome::Unchanged);
    assert_eq!(r.target_outcome, ContactOutcome::Unchanged);
    assert_eq!(r.target, ParticleTypeId::default());
    assert_eq!(r.burst, None);
}

#[test]
fn default_outcome_is_unchanged_and_default_burst_is_empty() {
    assert_eq!(ContactOutcome::default(), ContactOutcome::Unchanged);
    let b = ContactBurst::default();
    assert_eq!(b.count, 0);
    assert_eq!(b.particle, ParticleTypeId::from_raw(0));
}

#[test]
fn push_and_with_rule_append_in_order() {
    let mut a = ContactReaction::default();
    assert!(a.is_empty());
    a.push(rule(1));
    a.push(rule(2));
    let b = ContactReaction::default().with_rule(rule(1)).with_rule(rule(2));
    assert!(!a.is_empty());
    assert_eq!(a.len(), 2);
    assert_eq!(a.as_ref(), b.as_ref());
    assert_eq!(a.as_ref()[0].target, ParticleTypeId::from_raw(1));
    assert_eq!(a.as_ref()[1].target, ParticleTypeId::from_raw(2));
}

#[test]
fn new_and_extend_keep_rule_order() {
    let mut r = ContactReaction::new(vec![rule(3), rule(4)]);
    r.extend(vec![rule(5)]);
    let targets: Vec<usize> = r.iter().map(|x| x.target.raw).collect();
    assert_eq!(targets, vec![3, 4, 5]);
    let by_ref: Vec<usize> = (&r).into_iter().map(|x| x.target.raw).collect();
    assert_eq!(by_ref, vec![3, 4, 5]);
    let owned: Vec<ContactRule> = r.into_iter().collect();
    assert_eq!(owned, vec![rule(3), rule(4), rule(5)]);
}

#[test]
fn rules_field_is_public() {
    let r = ContactReaction::new(vec![rule(7)]);
    assert_eq!(r.rules.len(), 1);
    assert_eq!(
        r.rules[0].source_outcome,
        ContactOutcome::Becomes(ParticleTypeId::from_raw(107))
    );
}

#[test]
fn rule_equality_compares_chance_and_radius_as_floats() {
    let a = ContactRule { chance_bits: 0.0f64.to_bits(), ..rule(1) };
    let b = ContactRule { chance_bits: (-0.0f64).to_bits(), ..rule(1) };
    assert_eq!(a, b);
    let c = ContactRule { radius_bits: (-0.0f32).to_bits(), ..rule(1) };
    let d = ContactRule { radius_bits: 0.0f32.to_bits(), ..rule(1) };
    assert_eq!(c, d);
    let nan = ContactRule { chance_bits: f64::NAN.to_bits(), ..rule(1) };
    assert_ne!(nan, nan);
    let nan_radius = ContactRule { radius_bits: f32::NAN.to_bits(), ..rule(1) };
    assert_ne!(nan_radius, nan_radius);
    assert_ne!(rule(1), rule(2));
    assert_ne!(ContactRule { chance_bits: 0.5f64.to_bits(), ..rule(1) }, rule(1));
    let burst = ContactRule {
        burst: Some(ContactBurst { particle: ParticleTypeId::from_raw(3), count: 1 }),
        ..rule(1)
    };
    assert_ne!(burst, rule(1));
    assert_eq!(burst, burst);
}

#[test]
fn reaction_equality_is_rule_by_rule() {
    let a = ContactReaction::new(vec![rule(1), ContactRule { chance_bits: 0.0f64.to_bits(), ..rule(2) }]);
    let b = ContactReaction::new(vec![rule(1), ContactRule { chance_bits: (-0.0f64).to_bits(), ..rule(2) }]);
    assert_eq!(a, b);
    assert_eq!(a.clone(), a);
    assert_ne!(a, ContactReaction::new(vec![rule(1)]));
    assert_ne!(a, ContactReaction::new(vec![rule(2), rule(1)]));
    assert_eq!(ContactReaction::default(), ContactReaction::new(vec![]));
}

#[test]
fn rewriting_every_rule_through_iter_mut_keeps_order_and_length() {
    let mut r = ContactReaction::new(vec![rule(1), rule(2), rule(3)]);
    for x in r.iter_mut() {
        x.target = ParticleTypeId::from_raw(x.target.raw * 10);
    }
    assert_eq!(r.len(), 3);
    let targets: Vec<usize> = r.iter().map(|x| x.target.raw).collect();
    assert_eq!(targets, vec![10, 20, 30]);
}
