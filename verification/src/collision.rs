//! The collision pass: which entries of the ledger a tick destroys.

use crate::binary32::{is_nan, lemma_half_is_one_half, less, lt, value, HALF};
use crate::numerics::{measures, Numerics};
use crate::simulation::{Entity, EntityState, SimulationEntity};
use vstd::arithmetic::power2::pow2;
use vstd::prelude::*;

verus! {

/// The distance below which two actors of different kinds destroy each other:
/// one half, as a binary32 encoding.
pub const REACH: u32 = HALF;

/// Whether the encoded distance is below [`REACH`].
pub open spec fn within_reach(distance: u32) -> bool {
    less(distance, REACH)
}

/// Decides [`within_reach`].
pub fn is_within_reach(distance: u32) -> (near: bool)
    ensures
        near == within_reach(distance),
{
    lt(distance, REACH)
}

/// A distance is within reach if and only if it is a number below one half:
/// twice its value is less than 2^149 units of 2^-149.
pub proof fn lemma_reach_is_one_half(distance: u32)
    ensures
        within_reach(distance) <==> !is_nan(distance) && 2 * value(distance) < pow2(149),
{
    lemma_half_is_one_half();
}

/// The two indices with the lower one first: the order in which a pair is
/// measured.
pub open spec fn lower_first(i: int, j: int) -> (int, int) {
    if i < j {
        (i, j)
    } else {
        (j, i)
    }
}

/// Whether `survey` holds, for every pair of entries of different kinds, a
/// distance that `numerics` may give from the entry with the lower index to
/// the other.
pub open spec fn surveys<N: Numerics>(
    numerics: &N,
    ledger: Seq<SimulationEntity>,
    survey: Map<(int, int), u32>,
) -> bool {
    forall|i: int, j: int|
        0 <= i < j < ledger.len() && ledger[i].data.kind != ledger[j].data.kind ==> {
            &&& #[trigger] survey.dom().contains((i, j))
            &&& measures(
                numerics,
                ledger[i].data.position,
                ledger[j].data.position,
                survey[(i, j)],
            )
        }
}

/// Whether `other` is an entry of another kind than entry `k` that the survey
/// has within reach of it.
pub open spec fn hits(
    ledger: Seq<SimulationEntity>,
    survey: Map<(int, int), u32>,
    k: int,
    other: int,
) -> bool {
    &&& 0 <= other < ledger.len()
    &&& other != k
    &&& ledger[k].data.kind != ledger[other].data.kind
    &&& within_reach(survey[lower_first(k, other)])
}

/// Whether the survey has an entry of another kind within reach of entry `k`.
pub open spec fn is_hit(
    ledger: Seq<SimulationEntity>,
    survey: Map<(int, int), u32>,
    k: int,
) -> bool {
    exists|other: int| hits(ledger, survey, k, other)
}

/// Whether `after` is `before` with the entries destroyed that the survey
/// hits: the snapshots are the same, and an entry is destroyed in `after` if
/// and only if it was destroyed in `before` or is hit.
pub open spec fn resolves(
    before: Seq<SimulationEntity>,
    after: Seq<SimulationEntity>,
    survey: Map<(int, int), u32>,
) -> bool {
    &&& after.len() == before.len()
    &&& forall|k: int| 0 <= k < before.len() ==> (#[trigger] after[k]).data == before[k].data
    &&& forall|k: int|
        0 <= k < before.len() ==> ((#[trigger] after[k]).state == EntityState::Destroyed <==> {
            ||| before[k].state == EntityState::Destroyed
            ||| is_hit(before, survey, k)
        })
}

/// Whether `after` is what the collision pass may make of `before`: there is
/// a survey of `before`, one distance for each pair of different kinds, and
/// `after` is `before` with all those entries destroyed that it hits.
pub open spec fn collided<N: Numerics>(
    numerics: &N,
    before: Seq<SimulationEntity>,
    after: Seq<SimulationEntity>,
) -> bool {
    exists|survey: Map<(int, int), u32>|
        surveys(numerics, before, survey) && #[trigger] resolves(before, after, survey)
}

/// Whether `a` and `b` are of different kinds and every distance that
/// `numerics` may measure from `a` to `b` is within reach.
pub open spec fn must_collide<N: Numerics>(numerics: &N, a: Entity, b: Entity) -> bool {
    &&& a.kind != b.kind
    &&& forall|d: u32| #[trigger] measures(numerics, a.position, b.position, d) ==> within_reach(d)
}

/// The collision pass destroys both entries of a pair of different kinds
/// that cannot but measure within reach.
pub proof fn lemma_near_pair_is_destroyed<N: Numerics>(
    numerics: &N,
    before: Seq<SimulationEntity>,
    after: Seq<SimulationEntity>,
    i: int,
    j: int,
)
    requires
        collided(numerics, before, after),
        0 <= i < j < before.len(),
        must_collide(numerics, before[i].data, before[j].data),
    ensures
        after[i].state == EntityState::Destroyed,
        after[j].state == EntityState::Destroyed,
{
    let survey = choose|survey: Map<(int, int), u32>|
        surveys(numerics, before, survey) && #[trigger] resolves(before, after, survey);
    assert(survey.dom().contains((i, j)));
    assert(hits(before, survey, i, j));
    assert(hits(before, survey, j, i));
}

/// The collision pass destroys nothing where all entries are of one kind,
/// however close they are.
pub proof fn lemma_one_kind_is_spared<N: Numerics>(
    numerics: &N,
    before: Seq<SimulationEntity>,
    after: Seq<SimulationEntity>,
)
    requires
        collided(numerics, before, after),
        forall|i: int, j: int|
            0 <= i < j < before.len() ==> before[i].data.kind == before[j].data.kind,
    ensures
        after == before,
{
    let survey = choose|survey: Map<(int, int), u32>|
        surveys(numerics, before, survey) && #[trigger] resolves(before, after, survey);
    assert forall|k: int| 0 <= k < before.len() implies after[k] == before[k] by {
        assert forall|other: int| !hits(before, survey, k, other) by {
            if 0 <= other < before.len() && other != k {
                if other < k {
                    assert(before[other].data.kind == before[k].data.kind);
                } else {
                    assert(before[k].data.kind == before[other].data.kind);
                }
            }
        }
        assert(after[k].data == before[k].data);
    }
    assert(after =~= before);
}

/// The collision pass restores no entry that was destroyed.
pub proof fn lemma_destroyed_stays<N: Numerics>(
    numerics: &N,
    before: Seq<SimulationEntity>,
    after: Seq<SimulationEntity>,
    k: int,
)
    requires
        collided(numerics, before, after),
        0 <= k < before.len(),
        before[k].state == EntityState::Destroyed,
    ensures
        after[k].state == EntityState::Destroyed,
{
}

/// Whether `pair` comes before the pair `(i, j)` in the order in which the
/// pass goes through the pairs.
spec fn seen(i: int, j: int, pair: (int, int)) -> bool {
    pair.0 < i || (pair.0 == i && pair.1 < j)
}

/// Whether the survey has an entry of another kind within reach of entry `k`
/// in a pair that comes before `(i, j)`.
spec fn hit_before(
    ledger: Seq<SimulationEntity>,
    survey: Map<(int, int), u32>,
    i: int,
    j: int,
    k: int,
) -> bool {
    exists|other: int| #[trigger]
        hits(ledger, survey, k, other) && seen(i, j, lower_first(k, other))
}

/// Whether the pass has done the pairs before `(i, j)`: the survey holds a
/// distance for each of them that is of different kinds, and `now` is
/// `before` with the entries destroyed that the survey hits in them.
spec fn done_before<N: Numerics>(
    numerics: &N,
    before: Seq<SimulationEntity>,
    now: Seq<SimulationEntity>,
    survey: Map<(int, int), u32>,
    i: int,
    j: int,
) -> bool {
    &&& now.len() == before.len()
    &&& forall|k: int| 0 <= k < before.len() ==> (#[trigger] now[k]).data == before[k].data
    &&& forall|a: int, b: int|
        0 <= a < b < before.len() && seen(i, j, (a, b)) && before[a].data.kind
            != before[b].data.kind ==> {
            &&& #[trigger] survey.dom().contains((a, b))
            &&& measures(
                numerics,
                before[a].data.position,
                before[b].data.position,
                survey[(a, b)],
            )
        }
    &&& forall|k: int|
        0 <= k < before.len() ==> ((#[trigger] now[k]).state == EntityState::Destroyed <==> {
            ||| before[k].state == EntityState::Destroyed
            ||| hit_before(before, survey, i, j, k)
        })
}

/// The ledger with entry `k` destroyed.
spec fn destroyed(ledger: Seq<SimulationEntity>, k: int) -> Seq<SimulationEntity> {
    ledger.update(k, SimulationEntity { data: ledger[k].data, state: EntityState::Destroyed })
}

/// What one more pair adds: entry `k` is hit before `(i, j + 1)` if and only
/// if it was hit before `(i, j)`, or it is one of the two and the pair is
/// within reach.
proof fn lemma_one_more_pair(
    ledger: Seq<SimulationEntity>,
    survey: Map<(int, int), u32>,
    longer: Map<(int, int), u32>,
    i: int,
    j: int,
    k: int,
)
    requires
        0 <= i < j < ledger.len(),
        forall|a: int, b: int| (a, b) != (i, j) ==> longer[(a, b)] == survey[(a, b)],
    ensures
        hit_before(ledger, longer, i, j + 1, k) <==> {
            ||| hit_before(ledger, survey, i, j, k)
            ||| {
                &&& k == i || k == j
                &&& ledger[i].data.kind != ledger[j].data.kind
                &&& within_reach(longer[(i, j)])
            }
        },
{
    if hit_before(ledger, longer, i, j + 1, k) {
        let other = choose|other: int| #[trigger]
            hits(ledger, longer, k, other) && seen(i, j + 1, lower_first(k, other));
        if lower_first(k, other) != (i, j) {
            assert(hits(ledger, survey, k, other));
        }
    }
    if hit_before(ledger, survey, i, j, k) {
        let other = choose|other: int| #[trigger]
            hits(ledger, survey, k, other) && seen(i, j, lower_first(k, other));
        assert(hits(ledger, longer, k, other));
    }
    if ledger[i].data.kind != ledger[j].data.kind && within_reach(longer[(i, j)]) {
        if k == i {
            assert(hits(ledger, longer, k, j));
        }
        if k == j {
            assert(hits(ledger, longer, k, i));
        }
    }
}

/// The pass has done the pairs before `(i, j + 1)` once it has measured the
/// pair `(i, j)`, where it is of different kinds, and has destroyed both
/// entries, where the distance is within reach.
proof fn lemma_pair_done<N: Numerics>(
    numerics: &N,
    before: Seq<SimulationEntity>,
    was: Seq<SimulationEntity>,
    now: Seq<SimulationEntity>,
    survey: Map<(int, int), u32>,
    longer: Map<(int, int), u32>,
    i: int,
    j: int,
)
    requires
        0 <= i < j < before.len(),
        done_before(numerics, before, was, survey, i, j),
        before[i].data.kind == before[j].data.kind ==> longer == survey && now == was,
        before[i].data.kind != before[j].data.kind ==> {
            &&& longer == survey.insert((i, j), longer[(i, j)])
            &&& measures(numerics, before[i].data.position, before[j].data.position, longer[(i, j)])
            &&& now == if within_reach(longer[(i, j)]) {
                destroyed(destroyed(was, i), j)
            } else {
                was
            }
        },
    ensures
        done_before(numerics, before, now, longer, i, j + 1),
{
    assert forall|a: int, b: int|
        0 <= a < b < before.len() && seen(i, j + 1, (a, b)) && before[a].data.kind
            != before[b].data.kind implies #[trigger] longer.dom().contains((a, b)) && measures(
        numerics,
        before[a].data.position,
        before[b].data.position,
        longer[(a, b)],
    ) by {
        if (a, b) != (i, j) {
            assert(seen(i, j, (a, b)));
            assert(survey.dom().contains((a, b)));
        }
    }
    assert forall|k: int| 0 <= k < before.len() implies ((#[trigger] now[k]).state
        == EntityState::Destroyed <==> before[k].state == EntityState::Destroyed || hit_before(
        before,
        longer,
        i,
        j + 1,
        k,
    )) by {
        lemma_one_more_pair(before, survey, longer, i, j, k);
        assert(was[k].state == EntityState::Destroyed <==> before[k].state
            == EntityState::Destroyed || hit_before(before, survey, i, j, k));
    }
    assert forall|k: int| 0 <= k < before.len() implies (#[trigger] now[k]).data
        == before[k].data by {
        assert(was[k].data == before[k].data);
    }
}

/// What the pass has done before `(i, j)` it has done before `(p, q)`, where
/// the same pairs of the ledger come before the one and before the other.
proof fn lemma_same_pairs<N: Numerics>(
    numerics: &N,
    before: Seq<SimulationEntity>,
    now: Seq<SimulationEntity>,
    survey: Map<(int, int), u32>,
    i: int,
    j: int,
    p: int,
    q: int,
)
    requires
        done_before(numerics, before, now, survey, i, j),
        forall|a: int, b: int|
            0 <= a < b < before.len() ==> seen(i, j, (a, b)) == seen(p, q, (a, b)),
    ensures
        done_before(numerics, before, now, survey, p, q),
{
    assert forall|k: int| 0 <= k < before.len() implies hit_before(before, survey, i, j, k)
        == hit_before(before, survey, p, q, k) by {
        if hit_before(before, survey, i, j, k) {
            let other = choose|other: int| #[trigger]
                hits(before, survey, k, other) && seen(i, j, lower_first(k, other));
            assert(hits(before, survey, k, other) && seen(p, q, lower_first(k, other)));
        }
        if hit_before(before, survey, p, q, k) {
            let other = choose|other: int| #[trigger]
                hits(before, survey, k, other) && seen(p, q, lower_first(k, other));
            assert(hits(before, survey, k, other) && seen(i, j, lower_first(k, other)));
        }
    }
    assert forall|k: int| 0 <= k < before.len() implies ((#[trigger] now[k]).state
        == EntityState::Destroyed <==> before[k].state == EntityState::Destroyed || hit_before(
        before,
        survey,
        p,
        q,
        k,
    )) by {
        assert(hit_before(before, survey, i, j, k) == hit_before(before, survey, p, q, k));
    }
}

/// Once the pass has done all pairs, the ledger is what the collision pass
/// may make of it.
proof fn lemma_all_pairs_done<N: Numerics>(
    numerics: &N,
    before: Seq<SimulationEntity>,
    now: Seq<SimulationEntity>,
    survey: Map<(int, int), u32>,
)
    requires
        done_before(numerics, before, now, survey, before.len() as int, 0),
    ensures
        collided(numerics, before, now),
{
    let n = before.len() as int;
    assert forall|k: int| 0 <= k < n implies hit_before(before, survey, n, 0, k) == is_hit(
        before,
        survey,
        k,
    ) by {
        if is_hit(before, survey, k) {
            let other = choose|other: int| hits(before, survey, k, other);
            assert(hits(before, survey, k, other) && seen(n, 0, lower_first(k, other)));
        }
    }
    assert(surveys(numerics, before, survey));
    assert(resolves(before, now, survey));
}

/// Marks entry `k` of the ledger as destroyed.
fn destroy(ledger: &mut Vec<SimulationEntity>, k: usize)
    requires
        k < old(ledger).len(),
    ensures
        final(ledger)@ == destroyed(old(ledger)@, k as int),
{
    let data = ledger[k].data;
    ledger.set(k, SimulationEntity::new(data, EntityState::Destroyed));
}

/// The collision pass: measures every pair of entries of different kinds
/// once, from the entry with the lower index, and destroys both where the
/// distance is within reach.
pub fn collide<N: Numerics>(ledger: &mut Vec<SimulationEntity>, numerics: &N)
    ensures
        collided(numerics, old(ledger)@, final(ledger)@),
{
    let ghost before = ledger@;
    let ghost mut survey: Map<(int, int), u32> = Map::empty();
    let n = ledger.len();
    let mut i: usize = 0;
    while i < n
        invariant
            i <= n,
            n == before.len(),
            done_before(numerics, before, ledger@, survey, i as int, 0),
        decreases n - i,
    {
        let mut j: usize = i + 1;
        proof {
            lemma_same_pairs(numerics, before, ledger@, survey, i as int, 0, i as int, j as int);
        }
        while j < n
            invariant
                i < j <= n,
                n == before.len(),
                done_before(numerics, before, ledger@, survey, i as int, j as int),
            decreases n - j,
        {
            let ghost was = ledger@;
            let ghost shorter = survey;
            let one = ledger[i].data;
            let two = ledger[j].data;
            if one.kind != two.kind {
                let distance = numerics.distance(one.position, two.position);
                proof {
                    assert(measures(numerics, one.position, two.position, distance));
                    survey = survey.insert((i as int, j as int), distance);
                }
                if is_within_reach(distance) {
                    destroy(ledger, i);
                    destroy(ledger, j);
                }
            }
            proof {
                let now = ledger@;
                lemma_pair_done(numerics, before, was, now, shorter, survey, i as int, j as int);
            }
            j += 1;
        }
        proof {
            lemma_same_pairs(numerics, before, ledger@, survey, i as int, j as int, i + 1, 0);
        }
        i += 1;
    }
    proof {
        lemma_all_pairs_done(numerics, before, ledger@, survey);
    }
}

} // verus!
