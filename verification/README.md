# falling_sand_contact

Contact reactions between particle types of a falling-sand simulation, verified with Verus.

- `src/types.rs`: particle type identifiers, grid cells, outcomes, bursts and rules.
- `src/reaction.rs`: `ContactReaction`, the ordered list of a type's rules.
- `src/registry.rs`: the registry from type identifiers to the entities that stand for them.
- `src/resolve.rs`: resolving a reaction against the registry, with its laws.
- `src/signals.rs`: the spawn and despawn signals an outcome and a firing emit.
- `src/burst.rs`: the Moore neighbourhood and the placement of burst particles, with its laws.
- `src/firing.rs`: every signal of a rule firing, burst included, with its law.
- `src/scan.rs`: the state machine that decides, neighbour by neighbour and draw by draw,
  which rule fires for a particle, with the laws over a whole scan: a particle reacts at
  most once, only with a matching neighbour, by the first applicable rule whose draw comes
  out; the scan ends with the firing; a rule's chance decides whether it fires; and an
  unfired match marks the particle dirty.
- `app/`: the serde and bevy component copies of the types, the `f32` radius test, and the
  per-particle driver that feeds the scan with neighbours and random draws.
