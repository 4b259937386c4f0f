use vstd::prelude::*;

use crate::burst::{
    burst_requests, burst_targets, count_flagged, empty_cells, law_burst_size,
    lemma_empty_cells_count, min_nat, place_burst,
};
use crate::resolve::ResolvedContactRule;
use crate::signals::{
    contact_spawns, fire_contact, firing_despawns, outcome_despawns, outcome_spawns,
    spawn_requests, DespawnParticleSignal,
    SpawnParticleSignal, SpawnRequest,
};
use crate::types::{ContactBurst, ContactOutcome, GridPos};

verus! {

/// The spawn requests of a rule firing between the source at `origin` and the target
/// at `neighbor`: the source's outcome, then the target's, then, when the rule has a
/// burst, its particles in the first empty cells of `order`.
pub open spec fn firing_spawns(
    rule: ResolvedContactRule,
    origin: GridPos,
    neighbor: GridPos,
    order: Seq<GridPos>,
    empty: Seq<bool>,
) -> Seq<SpawnRequest> {
    contact_spawns(rule, origin, neighbor) + match rule.burst {
        Some(b) => burst_requests(b, burst_targets(order, empty, b.count as nat)),
        None => Seq::empty(),
    }
}

/// Emit every signal of a rule firing between the source particle at `origin` and the
/// target particle at `neighbor`: the source's outcome, the target's outcome, and then,
/// only when the rule has a burst, the burst into the empty cells of `order` (the
/// source's neighbourhood in the caller's random order; `empty[i]` tells whether
/// `order[i]` is empty). Without a burst, `order` and `empty` are not looked at.
pub fn fire_rule(
    rule: &ResolvedContactRule,
    origin: GridPos,
    neighbor: GridPos,
    order: &Vec<GridPos>,
    empty: &Vec<bool>,
    spawn: &mut Vec<SpawnParticleSignal>,
    despawn: &mut Vec<DespawnParticleSignal>,
)
    requires
        rule.burst is Some ==> order@.len() == empty@.len(),
    ensures
        spawn_requests(final(spawn)@) == spawn_requests(old(spawn)@) + firing_spawns(
            *rule,
            origin,
            neighbor,
            order@,
            empty@,
        ),
        final(despawn)@ == old(despawn)@ + firing_despawns(*rule, origin, neighbor),
{
    fire_contact(rule, origin, neighbor, spawn, despawn);
    let ghost mid = spawn_requests(spawn@);
    match rule.burst {
        Some(b) => {
            place_burst(b, order, empty, spawn);
        },
        None => {
            assert(spawn_requests(spawn@) =~= mid + Seq::<SpawnRequest>::empty());
        },
    }
    assert(spawn_requests(spawn@) =~= spawn_requests(old(spawn)@) + firing_spawns(
        *rule,
        origin,
        neighbor,
        order@,
        empty@,
    ));
    assert(despawn@ =~= old(despawn)@ + firing_despawns(*rule, origin, neighbor));
}

/// A firing touches only its two participants: every despawn it asks for is at the
/// source's or the target's cell, and every spawn that replaces a particle is a single
/// particle at one of those two cells; the burst never replaces anything.
pub proof fn law_firing_replaces_only_participants(
    rule: ResolvedContactRule,
    origin: GridPos,
    neighbor: GridPos,
    order: Seq<GridPos>,
    empty: Seq<bool>,
)
    ensures
        forall|k: int|
            0 <= k < firing_despawns(rule, origin, neighbor).len() ==> {
                let p = (#[trigger] firing_despawns(rule, origin, neighbor)[k]).position;
                p == origin || p == neighbor
            },
        forall|k: int|
            0 <= k < firing_spawns(rule, origin, neighbor, order, empty).len() && (
            #[trigger] firing_spawns(rule, origin, neighbor, order, empty)[k]).2 ==> {
                let cells = firing_spawns(rule, origin, neighbor, order, empty)[k].1;
                cells == seq![origin] || cells == seq![neighbor]
            },
{
    let s0 = outcome_spawns(rule.source_outcome, origin);
    let s1 = outcome_spawns(rule.target_outcome, neighbor);
    let b = match rule.burst {
        Some(bu) => burst_requests(bu, burst_targets(order, empty, bu.count as nat)),
        None => Seq::<SpawnRequest>::empty(),
    };
    let all = firing_spawns(rule, origin, neighbor, order, empty);
    assert(all == s0 + s1 + b);
    assert forall|k: int| 0 <= k < all.len() && (#[trigger] all[k]).2 implies all[k].1 == seq![
        origin,
    ] || all[k].1 == seq![neighbor] by {
        if k < s0.len() {
            assert(all[k] == s0[k]);
        } else if k < s0.len() + s1.len() {
            assert(all[k] == s1[k - s0.len()]);
        } else {
            assert(all[k] == b[k - s0.len() - s1.len()]);
        }
    }
    let d0 = outcome_despawns(rule.source_outcome, origin);
    let d1 = outcome_despawns(rule.target_outcome, neighbor);
    let d = firing_despawns(rule, origin, neighbor);
    assert forall|k: int| 0 <= k < d.len() implies {
        let p = (#[trigger] d[k]).position;
        p == origin || p == neighbor
    } by {
        if k < d0.len() {
            assert(d[k] == d0[k]);
        } else {
            assert(d[k] == d1[k - d0.len()]);
        }
    }
}

/// How many spawns an outcome makes: one when it turns the particle into another type.
pub open spec fn becomes_count(o: ContactOutcome) -> nat {
    if o is Becomes {
        1
    } else {
        0
    }
}

/// How many particles a burst places among the cells `empty` flags: its count, or all
/// the flagged cells when there are fewer.
pub open spec fn burst_size(burst: Option<ContactBurst>, empty: Seq<bool>) -> nat {
    match burst {
        Some(b) => min_nat(b.count as nat, count_flagged(empty)),
        None => 0,
    }
}

/// The signals of a firing, request by request: first a replacing spawn of the new type
/// at the source's cell when the source becomes another type, then one at the target's
/// cell when the target does, then, whatever the two outcomes are, one non-replacing
/// spawn of the burst's particle in each of the first `min(count, flagged cells)` cells
/// of `order` that are flagged empty, in order; and a despawn at the source's cell when
/// the source is destroyed, then one at the target's cell when the target is.
pub proof fn law_firing_signals(
    rule: ResolvedContactRule,
    origin: GridPos,
    neighbor: GridPos,
    order: Seq<GridPos>,
    empty: Seq<bool>,
)
    requires
        order.len() == empty.len(),
    ensures
        firing_spawns(rule, origin, neighbor, order, empty).len() == becomes_count(
            rule.source_outcome,
        ) + becomes_count(rule.target_outcome) + burst_size(rule.burst, empty),
        rule.source_outcome matches ContactOutcome::Becomes(t) ==> firing_spawns(
            rule,
            origin,
            neighbor,
            order,
            empty,
        )[0] == (t, seq![origin], true),
        rule.target_outcome matches ContactOutcome::Becomes(t) ==> firing_spawns(
            rule,
            origin,
            neighbor,
            order,
            empty,
        )[becomes_count(rule.source_outcome) as int] == (t, seq![neighbor], true),
        rule.burst matches Some(b) ==> forall|k: int|
            0 <= k < burst_size(rule.burst, empty) ==> #[trigger] firing_spawns(
                rule,
                origin,
                neighbor,
                order,
                empty,
            )[becomes_count(rule.source_outcome) + becomes_count(rule.target_outcome) + k] == (
                b.particle,
                seq![empty_cells(order, empty)[k]],
                false,
            ),
        firing_despawns(rule, origin, neighbor).len() == (if rule.source_outcome
            == ContactOutcome::Destroy {
            1nat
        } else {
            0nat
        }) + (if rule.target_outcome == ContactOutcome::Destroy {
            1nat
        } else {
            0nat
        }),
        rule.source_outcome == ContactOutcome::Destroy ==> firing_despawns(
            rule,
            origin,
            neighbor,
        )[0].position == origin,
        rule.target_outcome == ContactOutcome::Destroy ==> firing_despawns(
            rule,
            origin,
            neighbor,
        ).last().position == neighbor,
        contact_spawns(rule, origin, neighbor) == firing_spawns(
            rule,
            origin,
            neighbor,
            order,
            empty,
        ).take((becomes_count(rule.source_outcome) + becomes_count(rule.target_outcome)) as int),
{
    let s0 = outcome_spawns(rule.source_outcome, origin);
    let s1 = outcome_spawns(rule.target_outcome, neighbor);
    let f = firing_spawns(rule, origin, neighbor, order, empty);
    assert(contact_spawns(rule, origin, neighbor) == s0 + s1);
    lemma_empty_cells_count(order, empty);
    if let Some(b) = rule.burst {
        law_burst_size(order, empty, b.count as nat);
        let t = burst_targets(order, empty, b.count as nat);
        let bp = burst_requests(b, t);
        assert(f == s0 + s1 + bp);
        assert forall|k: int| 0 <= k < burst_size(rule.burst, empty) implies #[trigger] f[s0.len() + s1.len() + k]
            == (b.particle, seq![empty_cells(order, empty)[k]], false) by {
            assert(f[s0.len() + s1.len() + k] == bp[k]);
            assert(t[k] == empty_cells(order, empty)[k]);
        }
    } else {
        assert(f == s0 + s1 + Seq::<SpawnRequest>::empty());
    }
    if let ContactOutcome::Becomes(t) = rule.target_outcome {
        assert(f[s0.len() as int] == s1[0]);
    }
    if let ContactOutcome::Becomes(t) = rule.source_outcome {
        assert(f[0] == s0[0]);
    }
    assert(f.take((s0.len() + s1.len()) as int) =~= s0 + s1);
}

/// The burst of a firing does not depend on the two outcomes: two rules with the same
/// burst, fired at the same cells into the same neighbourhood, end their spawns with
/// the same burst requests, as many as the burst places.
pub proof fn law_burst_independent_of_outcomes(
    r1: ResolvedContactRule,
    r2: ResolvedContactRule,
    origin: GridPos,
    neighbor: GridPos,
    order: Seq<GridPos>,
    empty: Seq<bool>,
)
    requires
        order.len() == empty.len(),
        r1.burst == r2.burst,
    ensures
        firing_spawns(r1, origin, neighbor, order, empty).len() >= burst_size(r1.burst, empty),
        firing_spawns(r2, origin, neighbor, order, empty).len() >= burst_size(r1.burst, empty),
        firing_spawns(r1, origin, neighbor, order, empty).skip(
            firing_spawns(r1, origin, neighbor, order, empty).len() - burst_size(r1.burst, empty),
        ) == firing_spawns(r2, origin, neighbor, order, empty).skip(
            firing_spawns(r2, origin, neighbor, order, empty).len() - burst_size(r1.burst, empty),
        ),
{
    law_firing_signals(r1, origin, neighbor, order, empty);
    law_firing_signals(r2, origin, neighbor, order, empty);
    let n = burst_size(r1.burst, empty);
    let f1 = firing_spawns(r1, origin, neighbor, order, empty);
    let f2 = firing_spawns(r2, origin, neighbor, order, empty);
    let a = f1.skip(f1.len() - n);
    let b = f2.skip(f2.len() - n);
    if let Some(bu) = r1.burst {
        assert forall|k: int| 0 <= k < n implies a[k] == b[k] by {
            let o1 = becomes_count(r1.source_outcome) + becomes_count(r1.target_outcome);
            let o2 = becomes_count(r2.source_outcome) + becomes_count(r2.target_outcome);
            assert(a[k] == f1[o1 + k]);
            assert(b[k] == f2[o2 + k]);
        }
    }
    assert(a =~= b);
}

} // verus!
