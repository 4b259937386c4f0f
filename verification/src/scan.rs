use vstd::prelude::*;

use crate::resolve::{ResolvedContactReaction, ResolvedContactRule};
use crate::types::{f64_bits_at_least_one, f64_bits_at_most_zero, GridPos, TypeEntity};

verus! {

/// Rule `i` applies to a neighbour of type `t`: it exists, the neighbour lies within
/// its radius (`in_range[i]`), and `t` is its target type.
pub open spec fn is_candidate(
    rules: Seq<ResolvedContactRule>,
    in_range: Seq<bool>,
    t: TypeEntity,
    i: int,
) -> bool {
    &&& 0 <= i < rules.len()
    &&& i < in_range.len()
    &&& in_range[i]
    &&& rules[i].target_type == t
}

/// A rule applies to a neighbour exactly when it is one of the rules, the neighbour is
/// flagged within its radius, and the neighbour's type is the rule's target.
pub proof fn law_candidate_is_a_match(
    rules: Seq<ResolvedContactRule>,
    in_range: Seq<bool>,
    t: TypeEntity,
    i: int,
)
    ensures
        is_candidate(rules, in_range, t, i) <==> (0 <= i < rules.len() && 0 <= i < in_range.len()
            && in_range[i] && rules[i].target_type == t),
{
}

/// The first rule at or after `start` that applies to a neighbour of type `t`.
pub open spec fn first_candidate(
    rules: Seq<ResolvedContactRule>,
    in_range: Seq<bool>,
    t: TypeEntity,
    start: int,
) -> Option<int>
    decreases rules.len() - start,
{
    if start < 0 || start >= rules.len() {
        None
    } else if is_candidate(rules, in_range, t, start) {
        Some(start)
    } else {
        first_candidate(rules, in_range, t, start + 1)
    }
}

/// `first_candidate` is the least applicable rule at or after `start`, and `None`
/// exactly when no rule from `start` on applies.
pub proof fn lemma_first_candidate(
    rules: Seq<ResolvedContactRule>,
    in_range: Seq<bool>,
    t: TypeEntity,
    start: int,
)
    requires
        0 <= start,
    ensures
        first_candidate(rules, in_range, t, start) matches Some(k) ==> start <= k && is_candidate(
            rules,
            in_range,
            t,
            k,
        ) && forall|j: int| start <= j < k ==> !is_candidate(rules, in_range, t, j),
        first_candidate(rules, in_range, t, start) is None ==> forall|j: int|
            start <= j ==> !is_candidate(rules, in_range, t, j),
    decreases rules.len() - start,
{
    if start < rules.len() && !is_candidate(rules, in_range, t, start) {
        lemma_first_candidate(rules, in_range, t, start + 1);
    }
}

/// The index of the first rule at or after `start` whose target is `t` and within
/// whose radius the neighbour lies, if there is one.
pub fn next_candidate(
    rules: &Vec<ResolvedContactRule>,
    in_range: &Vec<bool>,
    t: TypeEntity,
    start: usize,
) -> (r: Option<usize>)
    requires
        in_range@.len() == rules@.len(),
    ensures
        r matches Some(k) ==> first_candidate(rules@, in_range@, t, start as int) == Some(
            k as int,
        ),
        r is None ==> first_candidate(rules@, in_range@, t, start as int) is None,
        r matches Some(k) ==> start <= k && is_candidate(rules@, in_range@, t, k as int) && forall|
            j: int,
        |
            start <= j < k ==> !is_candidate(rules@, in_range@, t, j),
        r is None ==> forall|j: int| start <= j ==> !is_candidate(rules@, in_range@, t, j),
{
    let n = rules.len();
    let mut i = start;
    while i < n
        invariant
            n == rules@.len(),
            n == in_range@.len(),
            start <= i,
            first_candidate(rules@, in_range@, t, start as int) == first_candidate(
                rules@,
                in_range@,
                t,
                i as int,
            ),
        decreases n - i,
    {
        if in_range[i] && rules[i].target_type == t {
            proof {
                lemma_first_candidate(rules@, in_range@, t, start as int);
            }
            return Some(i);
        }
        i = i + 1;
    }
    proof {
        lemma_first_candidate(rules@, in_range@, t, start as int);
    }
    None
}

/// What the caller does next while scanning the neighbours of one particle.
#[derive(Clone, Copy, Debug, PartialEq, Eq, Structural)]
pub enum ScanAction {
    /// Hand over the next neighbour, or finish if there is none.
    NextNeighbor,
    /// Draw a random outcome with the chance of the given rule and hand it back.
    Roll { rule: usize },
    /// Mark the particle dirty, then draw for the given rule and hand the outcome back.
    MarkDirtyAndRoll { rule: usize },
    /// Mark the particle dirty, then hand over the next neighbour.
    MarkDirtyAndNext,
    /// The rule fires between the particle and the neighbour at the given cell.
    Fire { rule: usize, neighbor: GridPos },
}

/// A draw that is awaited: for the neighbour at `neighbor`, of type `neighbor_type`,
/// with per-rule range flags `in_range`, the chance of rule `rule` is being drawn.
pub struct PendingRoll {
    pub neighbor: GridPos,
    pub neighbor_type: TypeEntity,
    pub in_range: Seq<bool>,
    pub rule: int,
}

/// The state of the scan of one particle's neighbours.
pub struct ScanState {
    pub origin: GridPos,
    pub reacted: bool,
    pub pending: Option<PendingRoll>,
}

/// A draw is awaited only while the particle has not reacted yet.
pub open spec fn scan_wf(s: ScanState) -> bool {
    s.reacted ==> s.pending is None
}

/// The scan meets a neighbour at `neighbor` of type `neighbor_type` (`None` when the
/// cell holds no particle with a type). Once the particle has reacted, and for the
/// particle's own cell or an untyped neighbour, nothing happens; otherwise the first
/// applicable rule is drawn for, if there is one.
pub open spec fn visit_step(
    s: ScanState,
    rules: Seq<ResolvedContactRule>,
    neighbor: GridPos,
    neighbor_type: Option<TypeEntity>,
    in_range: Seq<bool>,
) -> (ScanState, ScanAction) {
    if s.reacted || s.pending is Some || neighbor == s.origin || neighbor_type is None {
        (s, ScanAction::NextNeighbor)
    } else {
        let t = neighbor_type->0;
        match first_candidate(rules, in_range, t, 0) {
            None => (s, ScanAction::NextNeighbor),
            Some(k) => (
                ScanState {
                    pending: Some(PendingRoll { neighbor, neighbor_type: t, in_range, rule: k }),
                    ..s
                },
                ScanAction::Roll { rule: k as usize },
            ),
        }
    }
}

/// The draw for the awaited rule came out `success`. On success the rule fires and
/// the particle has reacted; on failure the particle is marked dirty and the next
/// applicable rule for the same neighbour is drawn for, if there is one.
pub open spec fn roll_step(s: ScanState, rules: Seq<ResolvedContactRule>, success: bool) -> (
    ScanState,
    ScanAction,
) {
    match s.pending {
        None => (s, ScanAction::NextNeighbor),
        Some(p) => if success {
            (
                ScanState { reacted: true, pending: None, ..s },
                ScanAction::Fire { rule: p.rule as usize, neighbor: p.neighbor },
            )
        } else {
            match first_candidate(rules, p.in_range, p.neighbor_type, p.rule + 1) {
                Some(k) => (
                    ScanState { pending: Some(PendingRoll { rule: k, ..p }), ..s },
                    ScanAction::MarkDirtyAndRoll { rule: k as usize },
                ),
                None => (ScanState { pending: None, ..s }, ScanAction::MarkDirtyAndNext),
            }
        },
    }
}

/// What the caller hands to the scan.
pub enum ScanEvent {
    /// A neighbour: its cell, its type if it has one, and for each rule whether it lies
    /// within that rule's radius.
    Neighbor(GridPos, Option<TypeEntity>, Seq<bool>),
    /// The outcome of the awaited draw.
    Rolled(bool),
}

/// The state reached and the actions asked for when the scan takes `events` in turn.
pub open spec fn run_scan(s: ScanState, rules: Seq<ResolvedContactRule>, events: Seq<ScanEvent>) -> (
    ScanState,
    Seq<ScanAction>,
)
    decreases events.len(),
{
    if events.len() == 0 {
        (s, Seq::empty())
    } else {
        let (s1, a) = match events[0] {
            ScanEvent::Neighbor(pos, t, r) => visit_step(s, rules, pos, t, r),
            ScanEvent::Rolled(b) => roll_step(s, rules, b),
        };
        let (t, rest) = run_scan(s1, rules, events.drop_first());
        (t, seq![a] + rest)
    }
}

/// The number of firings among the actions.
pub open spec fn fire_count(actions: Seq<ScanAction>) -> nat
    decreases actions.len(),
{
    if actions.len() == 0 {
        0
    } else {
        (if actions[0] is Fire { 1nat } else { 0nat }) + fire_count(actions.drop_first())
    }
}

/// A particle reacts at most once per scan: whatever neighbours and draws come, the
/// scan of a particle fires at most one rule, none once it has reacted, and it has
/// reacted when it has fired.
pub proof fn law_at_most_one_reaction(
    s: ScanState,
    rules: Seq<ResolvedContactRule>,
    events: Seq<ScanEvent>,
)
    requires
        scan_wf(s),
    ensures
        scan_wf(run_scan(s, rules, events).0),
        fire_count(run_scan(s, rules, events).1) <= 1,
        s.reacted ==> fire_count(run_scan(s, rules, events).1) == 0,
        s.reacted ==> run_scan(s, rules, events).0.reacted,
        fire_count(run_scan(s, rules, events).1) == 1 ==> run_scan(s, rules, events).0.reacted,
    decreases events.len(),
{
    if events.len() > 0 {
        let (s1, a) = match events[0] {
            ScanEvent::Neighbor(pos, t, r) => visit_step(s, rules, pos, t, r),
            ScanEvent::Rolled(b) => roll_step(s, rules, b),
        };
        law_at_most_one_reaction(s1, rules, events.drop_first());
        let (t, rest) = run_scan(s1, rules, events.drop_first());
        let acts = seq![a] + rest;
        assert(acts[0] == a);
        assert(acts.drop_first() =~= rest);
    }
}

/// One neighbour as the caller hands it to the scan: its cell, its type if it has one,
/// and for each rule whether it lies within that rule's radius.
pub type NeighborInfo = (GridPos, Option<TypeEntity>, Seq<bool>);

/// The scan is well formed and an awaited draw is for an applicable rule.
pub open spec fn scan_ok(s: ScanState, rules: Seq<ResolvedContactRule>) -> bool {
    &&& scan_wf(s)
    &&& s.pending matches Some(p) ==> is_candidate(rules, p.in_range, p.neighbor_type, p.rule)
}

/// The draws the caller makes for neighbour `i` until the scan asks for the next
/// neighbour: each awaited draw for rule `r` comes out `draw(i, r)`. (For one neighbour
/// each rule is drawn for at most once, so `draw` may answer every draw freely.)
pub open spec fn settle(
    s: ScanState,
    rules: Seq<ResolvedContactRule>,
    i: int,
    draw: spec_fn(int, int) -> bool,
) -> (ScanState, Seq<ScanAction>)
    decreases (match s.pending {
        Some(p) => rules.len() - p.rule,
        None => 0,
    }),
{
    match s.pending {
        Some(p) => if 0 <= p.rule < rules.len() {
            let (s1, a) = roll_step(s, rules, draw(i, p.rule));
            proof {
                lemma_first_candidate(rules, p.in_range, p.neighbor_type, p.rule + 1);
            }
            let (s2, rest) = settle(s1, rules, i, draw);
            (s2, seq![a] + rest)
        } else {
            (s, Seq::empty())
        },
        None => (s, Seq::empty()),
    }
}

/// The scan of a particle as the caller runs it over `neighbors` from index `i` on:
/// each neighbour is handed over, then the draws it asks for are answered by `draw`.
pub open spec fn drive(
    s: ScanState,
    rules: Seq<ResolvedContactRule>,
    neighbors: Seq<NeighborInfo>,
    i: int,
    draw: spec_fn(int, int) -> bool,
) -> (ScanState, Seq<ScanAction>)
    decreases neighbors.len() - i,
{
    if i < 0 || i >= neighbors.len() {
        (s, Seq::empty())
    } else {
        let (pos, t, r) = neighbors[i];
        let (s1, a) = visit_step(s, rules, pos, t, r);
        let (s2, drawn) = settle(s1, rules, i, draw);
        let (s3, rest) = drive(s2, rules, neighbors, i + 1, draw);
        (s3, seq![a] + drawn + rest)
    }
}

proof fn lemma_fire_count_concat(a: Seq<ScanAction>, b: Seq<ScanAction>)
    ensures
        fire_count(a + b) == fire_count(a) + fire_count(b),
    decreases a.len(),
{
    if a.len() > 0 {
        lemma_fire_count_concat(a.drop_first(), b);
        assert((a + b).drop_first() =~= a.drop_first() + b);
        assert((a + b)[0] == a[0]);
    } else {
        assert(a + b =~= b);
    }
}

proof fn lemma_fire_count_one(a: ScanAction)
    ensures
        fire_count(seq![a]) == if a is Fire { 1nat } else { 0nat },
{
    assert(seq![a].drop_first() =~= Seq::<ScanAction>::empty());
    assert(fire_count(Seq::<ScanAction>::empty()) == 0);
    assert(seq![a][0] == a);
}

/// The draws of `draw` respect the rules' chances: a chance of at most `0.0` never
/// comes out, a chance of at least `1.0` always does.
pub open spec fn draws_respect_chances(
    rules: Seq<ResolvedContactRule>,
    draw: spec_fn(int, int) -> bool,
) -> bool {
    &&& forall|i: int, r: int|
        0 <= r < rules.len() && f64_bits_at_most_zero(rules[r].chance_bits) ==> !#[trigger] draw(
            i,
            r,
        )
    &&& forall|i: int, r: int|
        0 <= r < rules.len() && f64_bits_at_least_one(rules[r].chance_bits) ==> #[trigger] draw(
            i,
            r,
        )
}

proof fn lemma_settle(
    s: ScanState,
    rules: Seq<ResolvedContactRule>,
    i: int,
    draw: spec_fn(int, int) -> bool,
)
    requires
        scan_ok(s, rules),
        rules.len() <= usize::MAX,
    ensures
        settle(s, rules, i, draw).0.pending is None,
        scan_wf(settle(s, rules, i, draw).0),
        settle(s, rules, i, draw).0.origin == s.origin,
        s.reacted ==> settle(s, rules, i, draw).0.reacted,
        fire_count(settle(s, rules, i, draw).1) == if settle(s, rules, i, draw).0.reacted
            && !s.reacted {
            1nat
        } else {
            0nat
        },
        forall|k: int|
            0 <= k < settle(s, rules, i, draw).1.len() ==> (#[trigger] settle(
                s,
                rules,
                i,
                draw,
            ).1[k] matches ScanAction::Fire { rule, .. } ==> rule < rules.len() && draw(
                i,
                rule as int,
            )),
        forall|r: int|
            #![trigger is_candidate(rules, s.pending->0.in_range, s.pending->0.neighbor_type, r)]
            (s.pending matches Some(p) && p.rule <= r && is_candidate(
                rules,
                p.in_range,
                p.neighbor_type,
                r,
            ) && draw(i, r)) ==> settle(s, rules, i, draw).0.reacted,
    decreases (match s.pending {
        Some(p) => rules.len() - p.rule,
        None => 0,
    }),
{
    match s.pending {
        None => {
            assert(fire_count(Seq::<ScanAction>::empty()) == 0);
        },
        Some(p) => {
            let (s1, a) = roll_step(s, rules, draw(i, p.rule));
            lemma_first_candidate(rules, p.in_range, p.neighbor_type, p.rule + 1);
            lemma_settle(s1, rules, i, draw);
            let (s2, rest) = settle(s1, rules, i, draw);
            let acts = seq![a] + rest;
            assert(settle(s, rules, i, draw) == (s2, acts));
            lemma_fire_count_concat(seq![a], rest);
            lemma_fire_count_one(a);
            assert forall|k: int| 0 <= k < acts.len() implies (#[trigger] acts[k] matches ScanAction::Fire {
                rule,
                ..
            } ==> rule < rules.len() && draw(i, rule as int)) by {
                if k > 0 {
                    assert(acts[k] == rest[k - 1]);
                }
            }
            assert forall|r: int|
                #![trigger is_candidate(rules, s.pending->0.in_range, s.pending->0.neighbor_type, r)]
                (s.pending matches Some(p) && p.rule <= r && is_candidate(
                    rules,
                    p.in_range,
                    p.neighbor_type,
                    r,
                ) && draw(i, r)) implies s2.reacted by {
                if !draw(i, p.rule) {
                    assert(r != p.rule);
                    let k = first_candidate(rules, p.in_range, p.neighbor_type, p.rule + 1)->0;
                    assert(k <= r);
                    assert(s1.pending->0.rule == k);
                    assert(is_candidate(rules, s1.pending->0.in_range, s1.pending->0.neighbor_type, r));
                }
            }
        },
    }
}

proof fn lemma_drive(
    s: ScanState,
    rules: Seq<ResolvedContactRule>,
    neighbors: Seq<NeighborInfo>,
    i: int,
    draw: spec_fn(int, int) -> bool,
)
    requires
        scan_wf(s),
        s.pending is None,
        0 <= i,
        rules.len() <= usize::MAX,
    ensures
        drive(s, rules, neighbors, i, draw).0.pending is None,
        scan_wf(drive(s, rules, neighbors, i, draw).0),
        drive(s, rules, neighbors, i, draw).0.origin == s.origin,
        s.reacted ==> drive(s, rules, neighbors, i, draw).0.reacted,
        fire_count(drive(s, rules, neighbors, i, draw).1) == if drive(
            s,
            rules,
            neighbors,
            i,
            draw,
        ).0.reacted && !s.reacted {
            1nat
        } else {
            0nat
        },
        forall|k: int|
            0 <= k < drive(s, rules, neighbors, i, draw).1.len() ==> (#[trigger] drive(
                s,
                rules,
                neighbors,
                i,
                draw,
            ).1[k] matches ScanAction::Fire { rule, .. } ==> rule < rules.len() && exists|j: int|
                #[trigger] draw(j, rule as int)),
        forall|j: int, r: int|
            #![trigger is_candidate(rules, neighbors[j].2, neighbors[j].1->0, r), draw(j, r)]
            i <= j < neighbors.len() && neighbors[j].0 != s.origin && neighbors[j].1 is Some
                && is_candidate(rules, neighbors[j].2, neighbors[j].1->0, r) && draw(j, r)
                ==> drive(s, rules, neighbors, i, draw).0.reacted,
    decreases neighbors.len() - i,
{
    if i >= neighbors.len() {
        assert(fire_count(Seq::<ScanAction>::empty()) == 0);
    } else {
        let (pos, t, r) = neighbors[i];
        let (s1, a) = visit_step(s, rules, pos, t, r);
        if !s.reacted && pos != s.origin && t is Some {
            lemma_first_candidate(rules, r, t->0, 0);
        }
        lemma_settle(s1, rules, i, draw);
        let (s2, drawn) = settle(s1, rules, i, draw);
        lemma_drive(s2, rules, neighbors, i + 1, draw);
        let (s3, rest) = drive(s2, rules, neighbors, i + 1, draw);
        let acts = seq![a] + drawn + rest;
        assert(drive(s, rules, neighbors, i, draw) == (s3, acts));
        lemma_fire_count_concat(seq![a] + drawn, rest);
        lemma_fire_count_concat(seq![a], drawn);
        lemma_fire_count_one(a);
        assert(!(a is Fire));
        assert forall|k: int| 0 <= k < acts.len() implies (#[trigger] acts[k] matches ScanAction::Fire {
            rule,
            ..
        } ==> rule < rules.len() && exists|j: int| #[trigger] draw(j, rule as int)) by {
            if k > 0 && k < 1 + drawn.len() {
                assert(acts[k] == drawn[k - 1]);
                if let ScanAction::Fire { rule, .. } = drawn[k - 1] {
                    assert(draw(i, rule as int));
                }
            } else if k >= 1 + drawn.len() {
                assert(acts[k] == rest[k - 1 - drawn.len()]);
            }
        }
        assert forall|j: int, rr: int|
            #![trigger is_candidate(rules, neighbors[j].2, neighbors[j].1->0, rr), draw(j, rr)]
            i <= j < neighbors.len() && neighbors[j].0 != s.origin && neighbors[j].1 is Some
                && is_candidate(rules, neighbors[j].2, neighbors[j].1->0, rr) && draw(j, rr)
                implies s3.reacted by {
            if j == i {
                if !s.reacted {
                    let k = first_candidate(rules, r, t->0, 0)->0;
                    assert(k <= rr);
                    assert(is_candidate(rules, s1.pending->0.in_range, s1.pending->0.neighbor_type, rr));
                }
            } else {
                assert(neighbors[j].0 != s2.origin);
            }
        }
    }
}

/// What the chance of a rule promises, over a whole scan: when every draw respects the
/// rules' chances, a rule whose chance is at most `0.0` (the default) never fires, and
/// as soon as some neighbour other than the particle itself has a rule that applies to
/// it with a chance of at least `1.0`, exactly one rule fires.
pub proof fn law_chance_decides_firing(
    s: ScanState,
    rules: Seq<ResolvedContactRule>,
    neighbors: Seq<NeighborInfo>,
    draw: spec_fn(int, int) -> bool,
)
    requires
        !s.reacted,
        s.pending is None,
        rules.len() <= usize::MAX,
        draws_respect_chances(rules, draw),
    ensures
        fire_count(drive(s, rules, neighbors, 0, draw).1) <= 1,
        forall|k: int|
            0 <= k < drive(s, rules, neighbors, 0, draw).1.len() ==> (#[trigger] drive(
                s,
                rules,
                neighbors,
                0,
                draw,
            ).1[k] matches ScanAction::Fire { rule, .. } ==> rule < rules.len()
                && !f64_bits_at_most_zero(rules[rule as int].chance_bits)),
        (exists|j: int, r: int|
            0 <= j < neighbors.len() && neighbors[j].0 != s.origin && neighbors[j].1 is Some
                && #[trigger] is_candidate(rules, neighbors[j].2, neighbors[j].1->0, r)
                && f64_bits_at_least_one(rules[r].chance_bits)) ==> fire_count(
            drive(s, rules, neighbors, 0, draw).1,
        ) == 1,
{
    lemma_drive(s, rules, neighbors, 0, draw);
    let acts = drive(s, rules, neighbors, 0, draw).1;
    assert forall|k: int| 0 <= k < acts.len() implies (#[trigger] acts[k] matches ScanAction::Fire {
        rule,
        ..
    } ==> rule < rules.len() && !f64_bits_at_most_zero(rules[rule as int].chance_bits)) by {
        if let ScanAction::Fire { rule, .. } = acts[k] {
            let j = choose|j: int| #[trigger] draw(j, rule as int);
            assert(draw(j, rule as int));
        }
    }
    if exists|j: int, r: int|
        0 <= j < neighbors.len() && neighbors[j].0 != s.origin && neighbors[j].1 is Some
            && #[trigger] is_candidate(rules, neighbors[j].2, neighbors[j].1->0, r)
            && f64_bits_at_least_one(rules[r].chance_bits) {
        let (j, r) = choose|j: int, r: int|
            0 <= j < neighbors.len() && neighbors[j].0 != s.origin && neighbors[j].1 is Some
                && #[trigger] is_candidate(rules, neighbors[j].2, neighbors[j].1->0, r)
                && f64_bits_at_least_one(rules[r].chance_bits);
        assert(draw(j, r));
    }
}

/// Rule `rule` fired against neighbour `j` as the first of that neighbour's applicable
/// rules to come out: the neighbour sits at `neighbor`, is not the particle's own cell,
/// has a type that the rule targets, lies within the rule's radius, the draw for the
/// rule came out, and every earlier rule that applies to it was drawn without success.
pub open spec fn fired_against(
    rules: Seq<ResolvedContactRule>,
    neighbors: Seq<NeighborInfo>,
    origin: GridPos,
    draw: spec_fn(int, int) -> bool,
    j: int,
    rule: int,
    neighbor: GridPos,
) -> bool {
    &&& 0 <= j < neighbors.len()
    &&& neighbors[j].0 == neighbor
    &&& neighbor != origin
    &&& neighbors[j].1 is Some
    &&& is_candidate(rules, neighbors[j].2, neighbors[j].1->0, rule)
    &&& draw(j, rule)
    &&& forall|rr: int|
        0 <= rr < rule && is_candidate(rules, neighbors[j].2, neighbors[j].1->0, rr) ==> !draw(
            j,
            rr,
        )
}

/// The action marks the particle dirty.
pub open spec fn marks_dirty(a: ScanAction) -> bool {
    a is MarkDirtyAndRoll || a is MarkDirtyAndNext
}

proof fn lemma_settle_order(
    s: ScanState,
    rules: Seq<ResolvedContactRule>,
    i: int,
    draw: spec_fn(int, int) -> bool,
)
    requires
        scan_ok(s, rules),
        rules.len() <= usize::MAX,
        s.pending matches Some(p) ==> forall|rr: int|
            0 <= rr < p.rule && is_candidate(rules, p.in_range, p.neighbor_type, rr) ==> !draw(
                i,
                rr,
            ),
    ensures
        forall|k: int|
            0 <= k < settle(s, rules, i, draw).1.len() ==> (#[trigger] settle(
                s,
                rules,
                i,
                draw,
            ).1[k] matches ScanAction::Fire { rule, neighbor } ==> {
                &&& s.pending matches Some(p) && neighbor == p.neighbor && is_candidate(
                    rules,
                    p.in_range,
                    p.neighbor_type,
                    rule as int,
                ) && draw(i, rule as int) && forall|rr: int|
                    0 <= rr < rule && is_candidate(rules, p.in_range, p.neighbor_type, rr)
                        ==> !draw(i, rr)
                &&& k == settle(s, rules, i, draw).1.len() - 1
                &&& settle(s, rules, i, draw).0.reacted
            }),
        s.pending is Some ==> settle(s, rules, i, draw).1.len() >= 1 && (settle(
            s,
            rules,
            i,
            draw,
        ).1[0] is Fire || marks_dirty(settle(s, rules, i, draw).1[0])),
    decreases (match s.pending {
        Some(p) => rules.len() - p.rule,
        None => 0,
    }),
{
    match s.pending {
        None => {},
        Some(p) => {
            let (s1, a) = roll_step(s, rules, draw(i, p.rule));
            lemma_first_candidate(rules, p.in_range, p.neighbor_type, p.rule + 1);
            lemma_settle(s1, rules, i, draw);
            lemma_settle_order(s1, rules, i, draw);
            let (s2, rest) = settle(s1, rules, i, draw);
            let acts = seq![a] + rest;
            assert(settle(s, rules, i, draw) == (s2, acts));
            assert(acts[0] == a);
            assert forall|k: int| 0 <= k < acts.len() implies (#[trigger] acts[k] matches ScanAction::Fire {
                rule,
                neighbor,
            } ==> {
                &&& s.pending matches Some(p) && neighbor == p.neighbor && is_candidate(
                    rules,
                    p.in_range,
                    p.neighbor_type,
                    rule as int,
                ) && draw(i, rule as int) && forall|rr: int|
                    0 <= rr < rule && is_candidate(rules, p.in_range, p.neighbor_type, rr)
                        ==> !draw(i, rr)
                &&& k == acts.len() - 1
                &&& s2.reacted
            }) by {
                if k == 0 {
                    if draw(i, p.rule) {
                        assert(s1.pending is None);
                        assert(rest.len() == 0);
                    }
                } else {
                    assert(acts[k] == rest[k - 1]);
                }
            }
        },
    }
}

proof fn lemma_drive_reacted(
    s: ScanState,
    rules: Seq<ResolvedContactRule>,
    neighbors: Seq<NeighborInfo>,
    i: int,
    draw: spec_fn(int, int) -> bool,
)
    requires
        s.reacted,
        s.pending is None,
    ensures
        forall|k: int|
            0 <= k < drive(s, rules, neighbors, i, draw).1.len() ==> #[trigger] drive(
                s,
                rules,
                neighbors,
                i,
                draw,
            ).1[k] == ScanAction::NextNeighbor,
    decreases neighbors.len() - i,
{
    if 0 <= i < neighbors.len() {
        lemma_drive_reacted(s, rules, neighbors, i + 1, draw);
        let (rest_s, rest) = drive(s, rules, neighbors, i + 1, draw);
        let acts = seq![ScanAction::NextNeighbor] + Seq::<ScanAction>::empty() + rest;
        assert(drive(s, rules, neighbors, i, draw).1 == acts);
        assert forall|k: int| 0 <= k < acts.len() implies #[trigger] acts[k]
            == ScanAction::NextNeighbor by {
            if k > 0 {
                assert(acts[k] == rest[k - 1]);
            }
        }
    }
}

proof fn lemma_drive_order(
    s: ScanState,
    rules: Seq<ResolvedContactRule>,
    neighbors: Seq<NeighborInfo>,
    i: int,
    draw: spec_fn(int, int) -> bool,
)
    requires
        scan_wf(s),
        s.pending is None,
        0 <= i,
        rules.len() <= usize::MAX,
    ensures
        forall|k: int|
            0 <= k < drive(s, rules, neighbors, i, draw).1.len() ==> (#[trigger] drive(
                s,
                rules,
                neighbors,
                i,
                draw,
            ).1[k] matches ScanAction::Fire { rule, neighbor } ==> exists|j: int|
                i <= j && #[trigger] fired_against(
                    rules,
                    neighbors,
                    s.origin,
                    draw,
                    j,
                    rule as int,
                    neighbor,
                )),
        forall|k1: int, k2: int|
            0 <= k1 < k2 < drive(s, rules, neighbors, i, draw).1.len() && (#[trigger] drive(
                s,
                rules,
                neighbors,
                i,
                draw,
            ).1[k1]) is Fire ==> #[trigger] drive(s, rules, neighbors, i, draw).1[k2]
                == ScanAction::NextNeighbor,
        !s.reacted && (forall|k: int|
            0 <= k < drive(s, rules, neighbors, i, draw).1.len() ==> !(#[trigger] drive(
                s,
                rules,
                neighbors,
                i,
                draw,
            ).1[k] is Fire)) && (exists|j: int, r: int|
            i <= j < neighbors.len() && neighbors[j].0 != s.origin && neighbors[j].1 is Some
                && #[trigger] is_candidate(rules, neighbors[j].2, neighbors[j].1->0, r))
            ==> exists|k: int|
            0 <= k < drive(s, rules, neighbors, i, draw).1.len() && marks_dirty(
                #[trigger] drive(s, rules, neighbors, i, draw).1[k],
            ),
    decreases neighbors.len() - i,
{
    if i < neighbors.len() {
        let (pos, t, r) = neighbors[i];
        let (s1, a) = visit_step(s, rules, pos, t, r);
        if !s.reacted && pos != s.origin && t is Some {
            lemma_first_candidate(rules, r, t->0, 0);
        }
        lemma_settle(s1, rules, i, draw);
        lemma_settle_order(s1, rules, i, draw);
        let (s2, drawn) = settle(s1, rules, i, draw);
        lemma_drive_order(s2, rules, neighbors, i + 1, draw);
        if s2.reacted {
            lemma_drive_reacted(s2, rules, neighbors, i + 1, draw);
        }
        let (s3, rest) = drive(s2, rules, neighbors, i + 1, draw);
        let acts = seq![a] + drawn + rest;
        assert(drive(s, rules, neighbors, i, draw) == (s3, acts));
        assert(acts[0] == a);
        assert(!(a is Fire));
        assert forall|k: int| 0 <= k < acts.len() implies (#[trigger] acts[k] matches ScanAction::Fire {
            rule,
            neighbor,
        } ==> exists|j: int|
            i <= j && #[trigger] fired_against(
                rules,
                neighbors,
                s.origin,
                draw,
                j,
                rule as int,
                neighbor,
            )) by {
            if 1 <= k < 1 + drawn.len() {
                assert(acts[k] == drawn[k - 1]);
                if let ScanAction::Fire { rule, neighbor } = drawn[k - 1] {
                    assert(fired_against(rules, neighbors, s.origin, draw, i, rule as int, neighbor));
                }
            } else if k >= 1 + drawn.len() {
                assert(acts[k] == rest[k - 1 - drawn.len()]);
            }
        }
        assert forall|k1: int, k2: int|
            0 <= k1 < k2 < acts.len() && (#[trigger] acts[k1]) is Fire implies #[trigger] acts[k2]
                == ScanAction::NextNeighbor by {
            if 1 <= k1 < 1 + drawn.len() {
                assert(acts[k1] == drawn[k1 - 1]);
                assert(k1 - 1 == drawn.len() - 1);
                assert(acts[k2] == rest[k2 - 1 - drawn.len()]);
            } else if k1 >= 1 + drawn.len() {
                assert(acts[k1] == rest[k1 - 1 - drawn.len()]);
                assert(acts[k2] == rest[k2 - 1 - drawn.len()]);
            }
        }
        if !s.reacted && (forall|k: int| 0 <= k < acts.len() ==> !(#[trigger] acts[k] is Fire)) && (
        exists|j: int, rr: int|
            i <= j < neighbors.len() && neighbors[j].0 != s.origin && neighbors[j].1 is Some
                && #[trigger] is_candidate(rules, neighbors[j].2, neighbors[j].1->0, rr)) {
            let (j, rr) = choose|j: int, rr: int|
                i <= j < neighbors.len() && neighbors[j].0 != s.origin && neighbors[j].1 is Some
                    && #[trigger] is_candidate(rules, neighbors[j].2, neighbors[j].1->0, rr);
            if j == i {
                assert(s1.pending is Some);
                assert(drawn.len() >= 1);
                assert(acts[1] == drawn[0]);
                assert(!(acts[1] is Fire));
                assert(marks_dirty(acts[1]));
            } else {
                assert forall|k: int| 0 <= k < rest.len() implies !(#[trigger] rest[k] is Fire) by {
                    assert(acts[k + 1 + drawn.len()] == rest[k]);
                }
                assert(!s2.reacted) by {
                    if s2.reacted {
                        assert(fire_count(drawn) == 1);
                        lemma_fire_count_positive(drawn);
                        let k = choose|k: int| 0 <= k < drawn.len() && #[trigger] drawn[k] is Fire;
                        assert(acts[k + 1] == drawn[k]);
                    }
                }
                assert(neighbors[j].0 != s2.origin);
                let k = choose|k: int| 0 <= k < rest.len() && marks_dirty(#[trigger] rest[k]);
                assert(acts[k + 1 + drawn.len()] == rest[k]);
            }
        }
    }
}

proof fn lemma_fire_count_positive(a: Seq<ScanAction>)
    requires
        fire_count(a) > 0,
    ensures
        exists|k: int| 0 <= k < a.len() && #[trigger] a[k] is Fire,
    decreases a.len(),
{
    if !(a[0] is Fire) {
        lemma_fire_count_positive(a.drop_first());
        let k = choose|k: int| 0 <= k < a.drop_first().len() && #[trigger] a.drop_first()[k] is Fire;
        assert(a[k + 1] == a.drop_first()[k]);
    }
}

/// A rule fires only against a neighbour that is not the particle itself, whose type
/// the rule targets and which lies within the rule's radius; and rules are tried in
/// order: the rule that fires is the first of that neighbour's applicable rules whose
/// draw came out.
pub proof fn law_firing_needs_matching_neighbor(
    s: ScanState,
    rules: Seq<ResolvedContactRule>,
    neighbors: Seq<NeighborInfo>,
    draw: spec_fn(int, int) -> bool,
)
    requires
        !s.reacted,
        s.pending is None,
        rules.len() <= usize::MAX,
    ensures
        forall|k: int|
            0 <= k < drive(s, rules, neighbors, 0, draw).1.len() ==> (#[trigger] drive(
                s,
                rules,
                neighbors,
                0,
                draw,
            ).1[k] matches ScanAction::Fire { rule, neighbor } ==> exists|j: int|
                #[trigger] fired_against(
                    rules,
                    neighbors,
                    s.origin,
                    draw,
                    j,
                    rule as int,
                    neighbor,
                )),
{
    lemma_drive_order(s, rules, neighbors, 0, draw);
}

/// The first successful draw ends the processing of the particle: after a firing the
/// scan only asks for further neighbours, drawing for no rule and marking nothing.
pub proof fn law_firing_ends_scan(
    s: ScanState,
    rules: Seq<ResolvedContactRule>,
    neighbors: Seq<NeighborInfo>,
    draw: spec_fn(int, int) -> bool,
)
    requires
        !s.reacted,
        s.pending is None,
        rules.len() <= usize::MAX,
    ensures
        forall|k1: int, k2: int|
            0 <= k1 < k2 < drive(s, rules, neighbors, 0, draw).1.len() && (#[trigger] drive(
                s,
                rules,
                neighbors,
                0,
                draw,
            ).1[k1]) is Fire ==> #[trigger] drive(s, rules, neighbors, 0, draw).1[k2]
                == ScanAction::NextNeighbor,
{
    lemma_drive_order(s, rules, neighbors, 0, draw);
}

/// A particle that touches a neighbour with an applicable rule and does not react is
/// marked dirty, so that it is looked at again.
pub proof fn law_unfired_match_marks_dirty(
    s: ScanState,
    rules: Seq<ResolvedContactRule>,
    neighbors: Seq<NeighborInfo>,
    draw: spec_fn(int, int) -> bool,
)
    requires
        !s.reacted,
        s.pending is None,
        rules.len() <= usize::MAX,
    ensures
        (forall|k: int|
            0 <= k < drive(s, rules, neighbors, 0, draw).1.len() ==> !(#[trigger] drive(
                s,
                rules,
                neighbors,
                0,
                draw,
            ).1[k] is Fire)) && (exists|j: int, r: int|
            0 <= j < neighbors.len() && neighbors[j].0 != s.origin && neighbors[j].1 is Some
                && #[trigger] is_candidate(rules, neighbors[j].2, neighbors[j].1->0, r))
            ==> exists|k: int|
            0 <= k < drive(s, rules, neighbors, 0, draw).1.len() && marks_dirty(
                #[trigger] drive(s, rules, neighbors, 0, draw).1[k],
            ),
{
    lemma_drive_order(s, rules, neighbors, 0, draw);
}

struct ExecPending {
    neighbor: GridPos,
    neighbor_type: TypeEntity,
    in_range: Vec<bool>,
    rule: usize,
}

/// The scan of one particle's neighbours for a contact reaction: it is handed the
/// neighbours one by one and the outcomes of the draws it asks for, and says what to
/// do next.
pub struct ContactScan {
    origin: GridPos,
    reacted: bool,
    pending: Option<ExecPending>,
}

impl View for ContactScan {
    type V = ScanState;

    closed spec fn view(&self) -> ScanState {
        ScanState {
            origin: self.origin,
            reacted: self.reacted,
            pending: match self.pending {
                None => None,
                Some(p) => Some(
                    PendingRoll {
                        neighbor: p.neighbor,
                        neighbor_type: p.neighbor_type,
                        in_range: p.in_range@,
                        rule: p.rule as int,
                    },
                ),
            },
        }
    }
}

impl ContactScan {
    /// Start the scan of the particle at `origin`: it has not reacted and awaits no draw.
    pub fn new(origin: GridPos) -> (s: ContactScan)
        ensures
            s@.origin == origin,
            !s@.reacted,
            s@.pending is None,
    {
        ContactScan { origin, reacted: false, pending: None }
    }

    /// The cell of the particle being scanned.
    pub fn origin(&self) -> (p: GridPos)
        ensures
            p == self@.origin,
    {
        self.origin
    }

    /// Whether a rule has fired for this particle.
    pub fn has_reacted(&self) -> (b: bool)
        ensures
            b == self@.reacted,
    {
        self.reacted
    }

    /// Whether a draw is awaited.
    pub fn awaits_roll(&self) -> (b: bool)
        ensures
            b == self@.pending is Some,
    {
        self.pending.is_some()
    }

    /// Hand over the next neighbour: its cell, its type if it has one, and for each
    /// rule of `rules` whether the neighbour lies within that rule's radius.
    pub fn visit(
        &mut self,
        rules: &ResolvedContactReaction,
        neighbor: GridPos,
        neighbor_type: Option<TypeEntity>,
        in_range: Vec<bool>,
    ) -> (a: ScanAction)
        requires
            old(self)@.pending is None,
            in_range@.len() == rules@.len(),
        ensures
            (final(self)@, a) == visit_step(old(self)@, rules@, neighbor, neighbor_type, in_range@),
            a matches ScanAction::Roll { rule } ==> is_candidate(
                rules@,
                in_range@,
                neighbor_type->0,
                rule as int,
            ),
            final(self)@.pending matches Some(p) ==> p.in_range.len() == rules@.len()
                && is_candidate(rules@, p.in_range, p.neighbor_type, p.rule),
    {
        if self.reacted || neighbor == self.origin {
            return ScanAction::NextNeighbor;
        }
        let t = match neighbor_type {
            Some(t) => t,
            None => return ScanAction::NextNeighbor,
        };
        match next_candidate(&rules.rules, &in_range, t, 0) {
            None => ScanAction::NextNeighbor,
            Some(k) => {
                self.pending = Some(ExecPending { neighbor, neighbor_type: t, in_range, rule: k });
                ScanAction::Roll { rule: k }
            },
        }
    }

    /// Hand back the outcome of the awaited draw.
    pub fn rolled(&mut self, rules: &ResolvedContactReaction, success: bool) -> (a: ScanAction)
        requires
            old(self)@.pending matches Some(p) && p.in_range.len() == rules@.len() && is_candidate(
                rules@,
                p.in_range,
                p.neighbor_type,
                p.rule,
            ),
        ensures
            (final(self)@, a) == roll_step(old(self)@, rules@, success),
            a matches ScanAction::MarkDirtyAndRoll { rule } ==> final(self)@.pending matches Some(
                p,
            ) && is_candidate(rules@, p.in_range, p.neighbor_type, rule as int),
            final(self)@.pending matches Some(p) ==> p.in_range.len() == rules@.len()
                && is_candidate(rules@, p.in_range, p.neighbor_type, p.rule),
            a matches ScanAction::Fire { rule, neighbor } ==> old(self)@.pending matches Some(p)
                && p.neighbor == neighbor && p.rule == rule && is_candidate(
                rules@,
                p.in_range,
                p.neighbor_type,
                rule as int,
            ),
    {
        let p = match self.pending.take() {
            Some(p) => p,
            None => return ScanAction::NextNeighbor,
        };
        let n = rules.rules.len();
        assert(p.rule < n);
        if success {
            self.reacted = true;
            return ScanAction::Fire { rule: p.rule, neighbor: p.neighbor };
        }
        match next_candidate(&rules.rules, &p.in_range, p.neighbor_type, p.rule + 1) {
            Some(k) => {
                self.pending = Some(
                    ExecPending {
                        neighbor: p.neighbor,
                        neighbor_type: p.neighbor_type,
                        in_range: p.in_range,
                        rule: k,
                    },
                );
                ScanAction::MarkDirtyAndRoll { rule: k }
            },
            None => ScanAction::MarkDirtyAndNext,
        }
    }
}

} // verus!
