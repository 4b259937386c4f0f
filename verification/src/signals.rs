use vstd::prelude::*;

use crate::resolve::ResolvedContactRule;
use crate::types::{ContactOutcome, GridPos, ParticleTypeId};

verus! {

/// A request to spawn particles of one type at the given cells.
pub struct SpawnParticleSignal {
    pub particle_type: ParticleTypeId,
    pub positions: Vec<GridPos>,
    /// Whether a particle already in a cell is replaced.
    pub overwrite_existing: bool,
}

/// What a spawn request asks for: the type, the cells in order, and whether present
/// particles are replaced.
pub type SpawnRequest = (ParticleTypeId, Seq<GridPos>, bool);

impl View for SpawnParticleSignal {
    type V = SpawnRequest;

    open spec fn view(&self) -> SpawnRequest {
        (self.particle_type, self.positions@, self.overwrite_existing)
    }
}

impl SpawnParticleSignal {
    /// Spawn one particle of `particle_type` at `position`, into an empty cell only.
    pub fn new(particle_type: ParticleTypeId, position: GridPos) -> (s: SpawnParticleSignal)
        ensures
            s@ == (particle_type, seq![position], false),
    {
        let mut positions: Vec<GridPos> = Vec::new();
        positions.push(position);
        SpawnParticleSignal { particle_type, positions, overwrite_existing: false }
    }

    /// Spawn one particle of `particle_type` at `position`, replacing what is there.
    pub fn overwrite_existing(particle_type: ParticleTypeId, position: GridPos) -> (s:
        SpawnParticleSignal)
        ensures
            s@ == (particle_type, seq![position], true),
    {
        let mut positions: Vec<GridPos> = Vec::new();
        positions.push(position);
        SpawnParticleSignal { particle_type, positions, overwrite_existing: true }
    }
}

/// A request to remove the particle at a cell.
#[derive(Clone, Copy, Debug, PartialEq, Eq, Structural)]
pub struct DespawnParticleSignal {
    pub position: GridPos,
}

impl DespawnParticleSignal {
    /// Remove the particle at `position`.
    pub fn from_position(position: GridPos) -> (d: DespawnParticleSignal)
        ensures
            d.position == position,
    {
        DespawnParticleSignal { position }
    }
}

/// The requests of a list of spawn signals, in order.
pub open spec fn spawn_requests(s: Seq<SpawnParticleSignal>) -> Seq<SpawnRequest> {
    s.map_values(|x: SpawnParticleSignal| x@)
}

/// The spawn requests that an outcome at `position` makes: one that replaces the
/// particle there when it becomes another type, none otherwise.
pub open spec fn outcome_spawns(outcome: ContactOutcome, position: GridPos) -> Seq<SpawnRequest> {
    match outcome {
        ContactOutcome::Becomes(t) => seq![(t, seq![position], true)],
        _ => Seq::empty(),
    }
}

/// The despawn requests that an outcome at `position` makes: one when the particle is
/// destroyed, none otherwise.
pub open spec fn outcome_despawns(outcome: ContactOutcome, position: GridPos) -> Seq<
    DespawnParticleSignal,
> {
    match outcome {
        ContactOutcome::Destroy => seq![DespawnParticleSignal { position }],
        _ => Seq::empty(),
    }
}

/// The spawn requests of a rule firing between the source at `origin` and the target
/// at `neighbor`, burst aside: the source's outcome, then the target's.
pub open spec fn contact_spawns(rule: ResolvedContactRule, origin: GridPos, neighbor: GridPos) -> Seq<
    SpawnRequest,
> {
    outcome_spawns(rule.source_outcome, origin) + outcome_spawns(rule.target_outcome, neighbor)
}

/// The despawn requests of a rule firing: the source's outcome, then the target's.
pub open spec fn firing_despawns(rule: ResolvedContactRule, origin: GridPos, neighbor: GridPos) -> Seq<
    DespawnParticleSignal,
> {
    outcome_despawns(rule.source_outcome, origin) + outcome_despawns(rule.target_outcome, neighbor)
}

proof fn lemma_spawn_requests_push(s: Seq<SpawnParticleSignal>, x: SpawnParticleSignal)
    ensures
        spawn_requests(s.push(x)) == spawn_requests(s).push(x@),
{
    assert(spawn_requests(s.push(x)) =~= spawn_requests(s).push(x@));
}

/// Emit the signals of one participant's outcome: nothing when it is unchanged, a
/// despawn at `position` when it is destroyed, a replacing spawn of the new type at
/// `position` when it becomes another type.
pub fn apply_outcome(
    outcome: ContactOutcome,
    position: GridPos,
    spawn: &mut Vec<SpawnParticleSignal>,
    despawn: &mut Vec<DespawnParticleSignal>,
)
    ensures
        spawn_requests(final(spawn)@) == spawn_requests(old(spawn)@) + outcome_spawns(
            outcome,
            position,
        ),
        final(despawn)@ == old(despawn)@ + outcome_despawns(outcome, position),
{
    match outcome {
        ContactOutcome::Unchanged => {
            assert(spawn_requests(spawn@) =~= spawn_requests(spawn@) + outcome_spawns(
                outcome,
                position,
            ));
            assert(despawn@ =~= despawn@ + outcome_despawns(outcome, position));
        },
        ContactOutcome::Destroy => {
            despawn.push(DespawnParticleSignal::from_position(position));
            assert(spawn_requests(spawn@) =~= spawn_requests(spawn@) + outcome_spawns(
                outcome,
                position,
            ));
            assert(final(despawn)@ =~= old(despawn)@ + outcome_despawns(outcome, position));
        },
        ContactOutcome::Becomes(particle_type) => {
            let ghost before = spawn@;
            let s = SpawnParticleSignal::overwrite_existing(particle_type, position);
            spawn.push(s);
            proof {
                lemma_spawn_requests_push(before, s);
            }
            assert(spawn_requests(spawn@) =~= spawn_requests(before) + outcome_spawns(
                outcome,
                position,
            ));
            assert(despawn@ =~= despawn@ + outcome_despawns(outcome, position));
        },
    }
}

/// Emit the signals of a rule firing between the source particle at `origin` and the
/// target particle at `neighbor`: the source's outcome first, then the target's.
pub fn fire_contact(
    rule: &ResolvedContactRule,
    origin: GridPos,
    neighbor: GridPos,
    spawn: &mut Vec<SpawnParticleSignal>,
    despawn: &mut Vec<DespawnParticleSignal>,
)
    ensures
        spawn_requests(final(spawn)@) == spawn_requests(old(spawn)@) + contact_spawns(
            *rule,
            origin,
            neighbor,
        ),
        final(despawn)@ == old(despawn)@ + firing_despawns(*rule, origin, neighbor),
{
    apply_outcome(rule.source_outcome, origin, spawn, despawn);
    apply_outcome(rule.target_outcome, neighbor, spawn, despawn);
    assert(spawn_requests(spawn@) =~= spawn_requests(old(spawn)@) + contact_spawns(
        *rule,
        origin,
        neighbor,
    ));
    assert(despawn@ =~= old(despawn)@ + firing_despawns(*rule, origin, neighbor));
}

/// Each outcome emits at most one signal, and never both a spawn and a despawn.
pub proof fn law_outcome_emits_at_most_one_signal(outcome: ContactOutcome, position: GridPos)
    ensures
        outcome_spawns(outcome, position).len() + outcome_despawns(outcome, position).len() <= 1,
        outcome == ContactOutcome::Unchanged ==> outcome_spawns(outcome, position).len() == 0
            && outcome_despawns(outcome, position).len() == 0,
{
}

/// What one participant's outcome emits, at every cell `p`: nothing when it is left
/// unchanged; exactly one despawn, at `p`, when it is destroyed; exactly one spawn when
/// it becomes type `t`, of `t`, at `p` alone, replacing the particle there.
pub proof fn law_outcome_signals(outcome: ContactOutcome, p: GridPos)
    ensures
        outcome == ContactOutcome::Unchanged ==> outcome_spawns(outcome, p).len() == 0
            && outcome_despawns(outcome, p).len() == 0,
        outcome == ContactOutcome::Destroy ==> outcome_spawns(outcome, p).len() == 0
            && outcome_despawns(outcome, p).len() == 1 && outcome_despawns(outcome, p)[0].position
            == p,
        outcome matches ContactOutcome::Becomes(t) ==> {
            &&& outcome_despawns(outcome, p).len() == 0
            &&& outcome_spawns(outcome, p).len() == 1
            &&& outcome_spawns(outcome, p)[0].0 == t
            &&& outcome_spawns(outcome, p)[0].1 == seq![p]
            &&& outcome_spawns(outcome, p)[0].2
        },
{
}

/// An outcome emits the same signals wherever the participant is: moving it from `p`
/// to `q` changes only the cell the signals name, never their number, type or whether
/// a spawn replaces.
pub proof fn law_outcome_signals_follow_the_cell(outcome: ContactOutcome, p: GridPos, q: GridPos)
    ensures
        outcome_spawns(outcome, p).len() == outcome_spawns(outcome, q).len(),
        outcome_despawns(outcome, p).len() == outcome_despawns(outcome, q).len(),
        forall|k: int|
            0 <= k < outcome_spawns(outcome, p).len() ==> {
                &&& (#[trigger] outcome_spawns(outcome, p)[k]).0 == outcome_spawns(outcome, q)[k].0
                &&& outcome_spawns(outcome, p)[k].2 == outcome_spawns(outcome, q)[k].2
                &&& outcome_spawns(outcome, p)[k].1 == seq![p]
                &&& outcome_spawns(outcome, q)[k].1 == seq![q]
            },
        forall|k: int|
            0 <= k < outcome_despawns(outcome, p).len() ==> (#[trigger] outcome_despawns(
                outcome,
                p,
            )[k]).position == p && outcome_despawns(outcome, q)[k].position == q,
{
}

} // verus!
