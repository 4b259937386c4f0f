use vstd::prelude::*;

use crate::signals::{spawn_requests, SpawnParticleSignal, SpawnRequest};
use crate::types::{ContactBurst, GridPos};

verus! {

/// `p` is one of the eight cells around `origin` (its Moore neighbourhood).
pub open spec fn is_moore_neighbor(origin: GridPos, p: GridPos) -> bool {
    &&& -1 <= p.x - origin.x <= 1
    &&& -1 <= p.y - origin.y <= 1
    &&& p != origin
}

/// The eight cells of `origin`'s Moore neighbourhood, row by row from the lower left:
/// `(-1,-1) (0,-1) (1,-1) (-1,0) (1,0) (-1,1) (0,1) (1,1)` relative to `origin`.
pub open spec fn moore_cells(origin: GridPos) -> Seq<GridPos> {
    let x = origin.x as int;
    let y = origin.y as int;
    seq![
        GridPos { x: (x - 1) as i32, y: (y - 1) as i32 },
        GridPos { x: x as i32, y: (y - 1) as i32 },
        GridPos { x: (x + 1) as i32, y: (y - 1) as i32 },
        GridPos { x: (x - 1) as i32, y: y as i32 },
        GridPos { x: (x + 1) as i32, y: y as i32 },
        GridPos { x: (x - 1) as i32, y: (y + 1) as i32 },
        GridPos { x: x as i32, y: (y + 1) as i32 },
        GridPos { x: (x + 1) as i32, y: (y + 1) as i32 },
    ]
}

/// The neighbourhood lists the eight distinct cells around `origin`, each a Moore
/// neighbour, row by row (lower `y` first) and, within a row, by increasing `x`.
pub proof fn law_moore_cells_row_by_row(origin: GridPos)
    requires
        has_full_neighborhood(origin),
    ensures
        moore_cells(origin).len() == 8,
        forall|k: int| 0 <= k < 8 ==> is_moore_neighbor(origin, #[trigger] moore_cells(origin)[k]),
        forall|k: int, l: int|
            0 <= k < l < 8 ==> (#[trigger] moore_cells(origin)[k]).y < (#[trigger] moore_cells(
                origin,
            )[l]).y || (moore_cells(origin)[k].y == moore_cells(origin)[l].y && moore_cells(
                origin,
            )[k].x < moore_cells(origin)[l].x),
{
}

/// The coordinates of `origin` have a neighbour on every side within `i32`.
pub open spec fn has_full_neighborhood(origin: GridPos) -> bool {
    &&& i32::MIN < origin.x < i32::MAX
    &&& i32::MIN < origin.y < i32::MAX
}

/// The Moore neighbourhood of `origin`, in the order of `moore_cells`.
pub fn moore_neighborhood(origin: GridPos) -> (cells: Vec<GridPos>)
    requires
        has_full_neighborhood(origin),
    ensures
        cells@ == moore_cells(origin),
{
    let x = origin.x;
    let y = origin.y;
    let mut cells: Vec<GridPos> = Vec::with_capacity(8);
    cells.push(GridPos::new(x - 1, y - 1));
    cells.push(GridPos::new(x, y - 1));
    cells.push(GridPos::new(x + 1, y - 1));
    cells.push(GridPos::new(x - 1, y));
    cells.push(GridPos::new(x + 1, y));
    cells.push(GridPos::new(x - 1, y + 1));
    cells.push(GridPos::new(x, y + 1));
    cells.push(GridPos::new(x + 1, y + 1));
    assert(cells@ =~= moore_cells(origin));
    cells
}

/// The cells of `order` that `empty` marks as empty, in the order of `order`.
pub open spec fn empty_cells(order: Seq<GridPos>, empty: Seq<bool>) -> Seq<GridPos>
    decreases order.len(),
{
    if order.len() == 0 {
        Seq::empty()
    } else {
        let before = empty_cells(order.drop_last(), empty.take(order.len() - 1));
        if empty[order.len() - 1] {
            before.push(order.last())
        } else {
            before
        }
    }
}

/// The number of cells that `empty` flags as empty.
pub open spec fn count_flagged(empty: Seq<bool>) -> nat
    decreases empty.len(),
{
    if empty.len() == 0 {
        0
    } else {
        count_flagged(empty.drop_last()) + if empty.last() {
            1nat
        } else {
            0nat
        }
    }
}

/// There are as many empty cells in `order` as `empty` flags.
pub proof fn lemma_empty_cells_count(order: Seq<GridPos>, empty: Seq<bool>)
    requires
        order.len() == empty.len(),
    ensures
        empty_cells(order, empty).len() == count_flagged(empty),
    decreases order.len(),
{
    if order.len() > 0 {
        assert(empty.take(order.len() - 1) =~= empty.drop_last());
        lemma_empty_cells_count(order.drop_last(), empty.drop_last());
    }
}

/// The smaller of two numbers.
pub open spec fn min_nat(a: nat, b: nat) -> nat {
    if a <= b { a } else { b }
}

/// The cells a burst fills: the first `count` empty cells in the given order, or all
/// of them when there are fewer.
pub open spec fn burst_targets(order: Seq<GridPos>, empty: Seq<bool>, count: nat) -> Seq<GridPos> {
    let cells = empty_cells(order, empty);
    cells.take(min_nat(count, cells.len()) as int)
}

/// The spawn requests of a burst of `particle` into the given cells: one particle per
/// cell, each into an empty cell only.
pub open spec fn burst_requests(burst: ContactBurst, cells: Seq<GridPos>) -> Seq<SpawnRequest> {
    cells.map_values(|p: GridPos| (burst.particle, seq![p], false))
}

proof fn lemma_empty_cells_step(order: Seq<GridPos>, empty: Seq<bool>, i: int)
    requires
        order.len() == empty.len(),
        0 <= i < order.len(),
    ensures
        empty_cells(order.take(i + 1), empty.take(i + 1)) == if empty[i] {
            empty_cells(order.take(i), empty.take(i)).push(order[i])
        } else {
            empty_cells(order.take(i), empty.take(i))
        },
{
    let o = order.take(i + 1);
    let e = empty.take(i + 1);
    assert(o.drop_last() =~= order.take(i));
    assert(e.take(i) =~= empty.take(i));
}

proof fn lemma_empty_cells_prefix(order: Seq<GridPos>, empty: Seq<bool>, i: int)
    requires
        order.len() == empty.len(),
        0 <= i <= order.len(),
    ensures
        empty_cells(order.take(i), empty.take(i)).len() <= empty_cells(order, empty).len(),
        empty_cells(order.take(i), empty.take(i)) == empty_cells(order, empty).take(
            empty_cells(order.take(i), empty.take(i)).len() as int,
        ),
    decreases order.len() - i,
{
    if i == order.len() {
        assert(order.take(i) =~= order);
        assert(empty.take(i) =~= empty);
        let c = empty_cells(order, empty);
        assert(c.take(c.len() as int) =~= c);
    } else {
        lemma_empty_cells_prefix(order, empty, i + 1);
        lemma_empty_cells_step(order, empty, i);
        let a = empty_cells(order.take(i), empty.take(i));
        let b = empty_cells(order.take(i + 1), empty.take(i + 1));
        let c = empty_cells(order, empty);
        assert(b == c.take(b.len() as int));
        assert(a =~= c.take(a.len() as int));
    }
}

proof fn lemma_empty_cells_len(order: Seq<GridPos>, empty: Seq<bool>)
    ensures
        empty_cells(order, empty).len() <= order.len(),
    decreases order.len(),
{
    if order.len() > 0 {
        lemma_empty_cells_len(order.drop_last(), empty.take(order.len() - 1));
    }
}

proof fn lemma_empty_cells_members(order: Seq<GridPos>, empty: Seq<bool>)
    ensures
        forall|k: int|
            0 <= k < empty_cells(order, empty).len() ==> order.contains(
                #[trigger] empty_cells(order, empty)[k],
            ),
    decreases order.len(),
{
    if order.len() > 0 {
        let n = order.len() - 1;
        let o = order.drop_last();
        let e = empty.take(n as int);
        lemma_empty_cells_members(o, e);
        let c = empty_cells(order, empty);
        let p = empty_cells(o, e);
        assert forall|k: int| 0 <= k < c.len() implies order.contains(#[trigger] c[k]) by {
            if k < p.len() {
                assert(c[k] == p[k]);
                assert(o.contains(p[k]));
                let j = choose|j: int| 0 <= j < o.len() && o[j] == p[k];
                assert(order[j] == o[j]);
            } else {
                assert(c[k] == order[n as int]);
            }
        }
    }
}

/// `p` is a cell of `order` that `empty` flags as empty.
pub open spec fn flagged_empty(order: Seq<GridPos>, empty: Seq<bool>, p: GridPos) -> bool {
    exists|j: int| 0 <= j < order.len() && empty[j] && #[trigger] order[j] == p
}

proof fn lemma_empty_cells_flagged(order: Seq<GridPos>, empty: Seq<bool>)
    requires
        order.len() == empty.len(),
    ensures
        forall|k: int|
            0 <= k < empty_cells(order, empty).len() ==> flagged_empty(
                order,
                empty,
                #[trigger] empty_cells(order, empty)[k],
            ),
    decreases order.len(),
{
    if order.len() > 0 {
        let n = order.len() - 1;
        let o = order.drop_last();
        let e = empty.take(n as int);
        lemma_empty_cells_flagged(o, e);
        let c = empty_cells(order, empty);
        let p = empty_cells(o, e);
        assert forall|k: int| 0 <= k < c.len() implies flagged_empty(order, empty, #[trigger] c[k]) by {
            if k < p.len() {
                assert(c[k] == p[k]);
                assert(flagged_empty(o, e, p[k]));
                let j = choose|j: int| 0 <= j < o.len() && e[j] && #[trigger] o[j] == p[k];
                assert(order[j] == o[j] && empty[j] == e[j]);
            } else {
                assert(c[k] == order[n as int]);
                assert(empty[n as int]);
            }
        }
    }
}

proof fn lemma_empty_cells_distinct(order: Seq<GridPos>, empty: Seq<bool>)
    requires
        order.len() == empty.len(),
        order.no_duplicates(),
    ensures
        empty_cells(order, empty).no_duplicates(),
    decreases order.len(),
{
    if order.len() > 0 {
        let n = order.len() - 1;
        let o = order.drop_last();
        let e = empty.take(n as int);
        assert(o.no_duplicates()) by {
            assert forall|a: int, b: int| 0 <= a < o.len() && 0 <= b < o.len() && a != b implies o[a]
                != o[b] by {
                assert(o[a] == order[a] && o[b] == order[b]);
            }
        }
        lemma_empty_cells_distinct(o, e);
        lemma_empty_cells_members(o, e);
        let p = empty_cells(o, e);
        if empty[n as int] {
            assert forall|k: int| 0 <= k < p.len() implies p[k] != order[n as int] by {
                assert(o.contains(p[k]));
                let j = choose|j: int| 0 <= j < o.len() && o[j] == p[k];
                assert(o[j] == order[j]);
            }
            let c = p.push(order[n as int]);
            assert forall|a: int, b: int| 0 <= a < c.len() && 0 <= b < c.len() && a != b implies c[a]
                != c[b] by {
                if a < p.len() && b < p.len() {
                } else if a < p.len() {
                    assert(c[b] == order[n as int]);
                    assert(c[a] == p[a]);
                } else if b < p.len() {
                    assert(c[a] == order[n as int]);
                    assert(c[b] == p[b]);
                }
            }
        }
    }
}

/// Spawn a burst into the first empty cells of `order`: walking `order`, every cell
/// that `empty` marks as empty gets one particle of the burst's type (without
/// replacing anything), until `count` particles have been placed or the cells run
/// out. `order` is the neighbourhood of the source in the order the caller has
/// chosen (shuffled), `empty[i]` whether `order[i]` is an empty cell.
pub fn place_burst(
    burst: ContactBurst,
    order: &Vec<GridPos>,
    empty: &Vec<bool>,
    spawn: &mut Vec<SpawnParticleSignal>,
)
    requires
        order@.len() == empty@.len(),
    ensures
        spawn_requests(final(spawn)@) == spawn_requests(old(spawn)@) + burst_requests(
            burst,
            burst_targets(order@, empty@, burst.count as nat),
        ),
{
    let n = order.len();
    let mut remaining: u8 = burst.count;
    let mut i: usize = 0;
    let ghost start = spawn@;
    loop
        invariant_except_break
            n == order@.len(),
            n == empty@.len(),
            0 <= i <= n,
            empty_cells(order@.take(i as int), empty@.take(i as int)).len() + remaining
                == burst.count,
            spawn_requests(spawn@) == spawn_requests(start) + burst_requests(
                burst,
                empty_cells(order@.take(i as int), empty@.take(i as int)),
            ),
        ensures
            spawn_requests(spawn@) == spawn_requests(start) + burst_requests(
                burst,
                burst_targets(order@, empty@, burst.count as nat),
            ),
        decreases n - i,
    {
        if remaining == 0 || i == n {
            proof {
                lemma_empty_cells_prefix(order@, empty@, i as int);
                if i == n {
                    assert(order@.take(i as int) =~= order@);
                    assert(empty@.take(i as int) =~= empty@);
                    let c = empty_cells(order@, empty@);
                    assert(c.take(c.len() as int) =~= c);
                }
            }
            break;
        }
        proof {
            lemma_empty_cells_step(order@, empty@, i as int);
        }
        if empty[i] {
            let ghost before = spawn@;
            let s = SpawnParticleSignal::new(burst.particle, order[i]);
            spawn.push(s);
            remaining = remaining - 1;
            proof {
                let c0 = empty_cells(order@.take(i as int), empty@.take(i as int));
                let c1 = c0.push(order@[i as int]);
                assert(spawn_requests(spawn@) =~= spawn_requests(before).push(s@));
                assert(burst_requests(burst, c1) =~= burst_requests(burst, c0).push(s@));
            }
        }
        i = i + 1;
    }
}

/// A burst never spawns more than it asks for nor more than there are empty cells,
/// and it spawns as many as both allow: exactly `min(count, empty cells)`.
pub proof fn law_burst_size(order: Seq<GridPos>, empty: Seq<bool>, count: nat)
    requires
        order.len() == empty.len(),
    ensures
        burst_targets(order, empty, count).len() == min_nat(
            count,
            empty_cells(order, empty).len(),
        ),
        burst_targets(order, empty, count).len() <= order.len(),
{
    lemma_empty_cells_len(order, empty);
}

/// A burst around `origin` fills only cells of `origin`'s Moore neighbourhood that are
/// flagged empty, each at most once, and so at most eight of them.
pub proof fn law_burst_fills_distinct_empty_neighbors(
    origin: GridPos,
    order: Seq<GridPos>,
    empty: Seq<bool>,
    count: nat,
)
    requires
        has_full_neighborhood(origin),
        order.to_multiset() == moore_cells(origin).to_multiset(),
        order.len() == empty.len(),
    ensures
        burst_targets(order, empty, count).no_duplicates(),
        burst_targets(order, empty, count).len() <= 8,
        forall|k: int|
            0 <= k < burst_targets(order, empty, count).len() ==> is_moore_neighbor(
                origin,
                #[trigger] burst_targets(order, empty, count)[k],
            ),
        forall|k: int|
            0 <= k < burst_targets(order, empty, count).len() ==> flagged_empty(
                order,
                empty,
                #[trigger] burst_targets(order, empty, count)[k],
            ),
{
    let m = moore_cells(origin);
    assert(m.no_duplicates());
    assert forall|k: int| 0 <= k < m.len() implies is_moore_neighbor(origin, #[trigger] m[k]) by {
    }
    m.lemma_multiset_has_no_duplicates();
    order.to_multiset_ensures();
    m.to_multiset_ensures();
    order.lemma_multiset_has_no_duplicates_conv();
    lemma_empty_cells_members(order, empty);
    lemma_empty_cells_distinct(order, empty);
    lemma_empty_cells_len(order, empty);
    lemma_empty_cells_flagged(order, empty);
    let c = empty_cells(order, empty);
    let t = burst_targets(order, empty, count);
    assert forall|k: int| 0 <= k < t.len() implies flagged_empty(order, empty, #[trigger] t[k]) by {
        assert(t[k] == c[k]);
        assert(flagged_empty(order, empty, c[k]));
    }
    assert forall|k: int| 0 <= k < t.len() implies is_moore_neighbor(origin, #[trigger] t[k]) by {
        assert(t[k] == c[k]);
        assert(order.contains(c[k]));
        assert(order.to_multiset().count(c[k]) > 0);
        assert(m.to_multiset().count(c[k]) > 0);
        assert(m.contains(c[k]));
        let i = choose|i: int| 0 <= i < m.len() && m[i] == c[k];
        assert(is_moore_neighbor(origin, m[i]));
    }
    assert forall|a: int, b: int| 0 <= a < t.len() && 0 <= b < t.len() && a != b implies t[a]
        != t[b] by {
        assert(t[a] == c[a] && t[b] == c[b]);
    }
}

} // verus!
