use vstd::prelude::*;

use crate::reaction::ContactReaction;
use crate::registry::ParticleTypeRegistry;
use crate::types::{ContactBurst, ContactOutcome, ContactRule, ParticleTypeId, TypeEntity};

verus! {

/// A contact rule whose target type has been resolved to the entity that stands for it.
#[derive(Clone, Copy, Debug)]
pub struct ResolvedContactRule {
    pub target_type: TypeEntity,
    pub source_outcome: ContactOutcome,
    pub target_outcome: ContactOutcome,
    pub chance_bits: u64,
    pub radius_bits: u32,
    pub burst: Option<ContactBurst>,
}

/// The resolved form of a `ContactReaction`, rule for rule and in the same order.
#[derive(Clone, Debug)]
pub struct ResolvedContactReaction {
    pub rules: Vec<ResolvedContactRule>,
}

impl View for ResolvedContactReaction {
    type V = Seq<ResolvedContactRule>;

    open spec fn view(&self) -> Seq<ResolvedContactRule> {
        self.rules@
    }
}

/// `id` has been registered.
pub open spec fn registered(reg: Map<usize, TypeEntity>, id: ParticleTypeId) -> bool {
    reg.contains_key(id.raw)
}

/// The particle type that an outcome produces, if it produces one, is registered.
pub open spec fn outcome_resolvable(reg: Map<usize, TypeEntity>, o: ContactOutcome) -> bool {
    match o {
        ContactOutcome::Becomes(t) => registered(reg, t),
        _ => true,
    }
}

/// Every particle type that a rule names (its target, the products of its two
/// outcomes, the particle of its burst) is registered.
pub open spec fn rule_resolvable(reg: Map<usize, TypeEntity>, r: ContactRule) -> bool {
    &&& registered(reg, r.target)
    &&& outcome_resolvable(reg, r.source_outcome)
    &&& outcome_resolvable(reg, r.target_outcome)
    &&& match r.burst {
        Some(b) => registered(reg, b.particle),
        None => true,
    }
}

/// The resolved form of a rule: its target replaced by the registered entity, the
/// rest carried over.
pub open spec fn resolve_rule(reg: Map<usize, TypeEntity>, r: ContactRule) -> ResolvedContactRule {
    ResolvedContactRule {
        target_type: reg[r.target.raw],
        source_outcome: r.source_outcome,
        target_outcome: r.target_outcome,
        chance_bits: r.chance_bits,
        radius_bits: r.radius_bits,
        burst: r.burst,
    }
}

/// Every rule of the list resolves.
pub open spec fn rules_resolvable(reg: Map<usize, TypeEntity>, rules: Seq<ContactRule>) -> bool {
    forall|i: int| 0 <= i < rules.len() ==> #[trigger] rule_resolvable(reg, rules[i])
}

/// The rules resolved one by one, in order.
pub open spec fn resolve_rules(reg: Map<usize, TypeEntity>, rules: Seq<ContactRule>) -> Seq<
    ResolvedContactRule,
> {
    rules.map_values(|r: ContactRule| resolve_rule(reg, r))
}

fn resolve_outcome(registry: &ParticleTypeRegistry, o: ContactOutcome) -> (ok: bool)
    ensures
        ok == outcome_resolvable(registry@, o),
{
    match o {
        ContactOutcome::Becomes(t) => registry.contains(t),
        _ => true,
    }
}

/// Resolve one rule against the registry: `None` when a type it names is not registered.
pub fn resolve_contact_rule(rule: &ContactRule, registry: &ParticleTypeRegistry) -> (r: Option<
    ResolvedContactRule,
>)
    ensures
        r is Some <==> rule_resolvable(registry@, *rule),
        r matches Some(x) ==> x == resolve_rule(registry@, *rule),
{
    let target_type = match registry.get(rule.target) {
        Some(e) => e,
        None => return None,
    };
    if !resolve_outcome(registry, rule.source_outcome) {
        return None;
    }
    if !resolve_outcome(registry, rule.target_outcome) {
        return None;
    }
    if let Some(burst) = &rule.burst {
        if !registry.contains(burst.particle) {
            return None;
        }
    }
    Some(
        ResolvedContactRule {
            target_type,
            source_outcome: rule.source_outcome,
            target_outcome: rule.target_outcome,
            chance_bits: rule.chance_bits,
            radius_bits: rule.radius_bits,
            burst: rule.burst,
        },
    )
}

/// Attempt to resolve every rule of a reaction. Returns `None` exactly when some
/// target, some product of an outcome or some burst particle is not registered;
/// otherwise the resolved rules, one for each rule and in the same order.
pub fn try_resolve(contact: &ContactReaction, registry: &ParticleTypeRegistry) -> (r: Option<
    ResolvedContactReaction,
>)
    ensures
        r is Some <==> rules_resolvable(registry@, contact@),
        r matches Some(x) ==> x@ == resolve_rules(registry@, contact@),
{
    let n = contact.rules.len();
    let mut resolved_rules: Vec<ResolvedContactRule> = Vec::with_capacity(n);
    let mut i: usize = 0;
    while i < n
        invariant
            n == contact@.len(),
            0 <= i <= n,
            resolved_rules@.len() == i,
            forall|j: int| 0 <= j < i ==> #[trigger] rule_resolvable(registry@, contact@[j]),
            forall|j: int|
                0 <= j < i ==> #[trigger] resolved_rules@[j] == resolve_rule(
                    registry@,
                    contact@[j],
                ),
        decreases n - i,
    {
        match resolve_contact_rule(&contact.rules[i], registry) {
            Some(x) => resolved_rules.push(x),
            None => return None,
        }
        i = i + 1;
    }
    assert(resolved_rules@ =~= resolve_rules(registry@, contact@));
    Some(ResolvedContactReaction { rules: resolved_rules })
}

/// Resolving a rule replaces only its target: the resolved rule targets the entity
/// registered for the rule's target, and keeps the rule's two outcomes, chance, radius
/// and burst exactly; and a rule resolves exactly when its target, each type one of
/// its outcomes turns a particle into, and its burst's particle are all registered.
pub proof fn law_resolution_keeps_the_rule(reg: Map<usize, TypeEntity>, r: ContactRule)
    ensures
        rule_resolvable(reg, r) <==> {
            &&& reg.contains_key(r.target.raw)
            &&& r.source_outcome matches ContactOutcome::Becomes(t) ==> reg.contains_key(t.raw)
            &&& r.target_outcome matches ContactOutcome::Becomes(t) ==> reg.contains_key(t.raw)
            &&& r.burst matches Some(b) ==> reg.contains_key(b.particle.raw)
        },
        resolve_rule(reg, r).target_type == reg[r.target.raw],
        resolve_rule(reg, r).source_outcome == r.source_outcome,
        resolve_rule(reg, r).target_outcome == r.target_outcome,
        resolve_rule(reg, r).chance_bits == r.chance_bits,
        resolve_rule(reg, r).radius_bits == r.radius_bits,
        resolve_rule(reg, r).burst == r.burst,
{
}

/// A reaction resolves exactly when each of its rules does, the last one included; and
/// it resolves rule for rule: as many resolved rules as rules, the `i`-th
/// targeting the entity registered for the `i`-th rule's target and keeping that rule's
/// outcomes, chance, radius and burst.
pub proof fn law_resolution_is_rule_for_rule(reg: Map<usize, TypeEntity>, rules: Seq<ContactRule>)
    ensures
        rules_resolvable(reg, rules) <==> forall|i: int|
            0 <= i < rules.len() ==> rule_resolvable(reg, #[trigger] rules[i]),
        resolve_rules(reg, rules).len() == rules.len(),
        forall|i: int|
            0 <= i < rules.len() ==> {
                let x = #[trigger] resolve_rules(reg, rules)[i];
                &&& x.target_type == reg[rules[i].target.raw]
                &&& x.source_outcome == rules[i].source_outcome
                &&& x.target_outcome == rules[i].target_outcome
                &&& x.chance_bits == rules[i].chance_bits
                &&& x.radius_bits == rules[i].radius_bits
                &&& x.burst == rules[i].burst
            },
{
}

/// Registering more particle types never undoes a resolution: a reaction that
/// resolves against a registry resolves, to the same rules, against any registry
/// that keeps its entries.
pub proof fn law_resolution_survives_registration(
    before: Map<usize, TypeEntity>,
    after: Map<usize, TypeEntity>,
    rules: Seq<ContactRule>,
)
    requires
        before.submap_of(after),
        rules_resolvable(before, rules),
    ensures
        rules_resolvable(after, rules),
        resolve_rules(after, rules) == resolve_rules(before, rules),
{
    assert forall|i: int| 0 <= i < rules.len() implies #[trigger] rule_resolvable(
        after,
        rules[i],
    ) by {
        let r = rules[i];
        assert(rule_resolvable(before, r));
        assert(before.dom().contains(r.target.raw));
        assert(after.dom().contains(r.target.raw));
        if let ContactOutcome::Becomes(t) = r.source_outcome {
            assert(before.dom().contains(t.raw));
            assert(after.dom().contains(t.raw));
        }
        if let ContactOutcome::Becomes(t) = r.target_outcome {
            assert(before.dom().contains(t.raw));
            assert(after.dom().contains(t.raw));
        }
        if let Some(b) = r.burst {
            assert(before.dom().contains(b.particle.raw));
            assert(after.dom().contains(b.particle.raw));
        }
    }
    assert forall|i: int| 0 <= i < rules.len() implies resolve_rules(after, rules)[i]
        == resolve_rules(before, rules)[i] by {
        assert(rule_resolvable(before, rules[i]));
        let k = rules[i].target.raw;
        assert(before.dom().contains(k));
        assert(after.dom().contains(k));
        assert(after[k] == before[k]);
    }
    assert(resolve_rules(after, rules) =~= resolve_rules(before, rules));
}

/// Resolution goes rule by rule: a reaction with one more rule resolves exactly when
/// the shorter one and the new rule do, and its resolution is the shorter one's
/// followed by the new rule's.
pub proof fn law_resolution_of_pushed_rule(
    reg: Map<usize, TypeEntity>,
    rules: Seq<ContactRule>,
    rule: ContactRule,
)
    ensures
        rules_resolvable(reg, rules.push(rule)) <==> (rules_resolvable(reg, rules)
            && rule_resolvable(reg, rule)),
        resolve_rules(reg, rules.push(rule)) == resolve_rules(reg, rules).push(
            resolve_rule(reg, rule),
        ),
{
    let p = rules.push(rule);
    if rules_resolvable(reg, p) {
        assert forall|i: int| 0 <= i < rules.len() implies #[trigger] rule_resolvable(
            reg,
            rules[i],
        ) by {
            assert(p[i] == rules[i]);
        }
        assert(p[rules.len() as int] == rule);
    }
    if rules_resolvable(reg, rules) && rule_resolvable(reg, rule) {
        assert forall|i: int| 0 <= i < p.len() implies #[trigger] rule_resolvable(reg, p[i]) by {
            if i < rules.len() {
                assert(p[i] == rules[i]);
            }
        }
    }
    assert(resolve_rules(reg, p) =~= resolve_rules(reg, rules).push(resolve_rule(reg, rule)));
}

} // verus!
