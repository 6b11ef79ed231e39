//! What holds of the phases of a tick, whatever the world and whatever the
//! numbers handed in.

use crate::blobs::{first_child, lemma_split_shares_energy, second_child, Birth, Blob, BlobType};
use crate::scalar::Scalar;
use crate::utils::{
    chosen, count_marked, lemma_chosen, lemma_kept_agree, lemma_kept_members, lemma_without_len,
    marked,
};
use crate::world::{
    after_kills, after_reproduction, after_starvation, all_pairs, eaten, feeds, fertile,
    first_unearned, litters, member_fault, menus, menus_upto, nourished, of_kind, parents,
    positions, refuelled, row_pairs, starving, with_energy,
};
use vstd::prelude::*;

verus! {

/// Among the first `upto` agents, the predators and the prey add up.
pub proof fn lemma_kind_counts(blobs: Seq<Blob>, upto: int)
    requires
        0 <= upto <= blobs.len(),
    ensures
        count_marked(of_kind(blobs, BlobType::Predator), upto) + count_marked(
            of_kind(blobs, BlobType::Prey),
            upto,
        ) == upto,
    decreases upto,
{
    if upto > 0 {
        lemma_kind_counts(blobs, upto - 1);
    }
}

/// Every agent is listed once: the list of predators and the list of prey
/// together have as many entries as there are agents, and every agent is
/// found in the list of its species.
pub proof fn lemma_partition(blobs: Seq<Blob>)
    requires
        blobs.len() <= usize::MAX,
    ensures
        positions(blobs, BlobType::Predator).len() + positions(blobs, BlobType::Prey).len()
            == blobs.len(),
        forall|i: int|
            0 <= i < blobs.len() ==> exists|k: int|
                0 <= k < positions(blobs, (#[trigger] blobs[i]).blob_type).len() && positions(
                    blobs,
                    blobs[i].blob_type,
                )[k] == i,
{
    lemma_kind_counts(blobs, blobs.len() as int);
    lemma_chosen(of_kind(blobs, BlobType::Predator), blobs.len() as int);
    lemma_chosen(of_kind(blobs, BlobType::Prey), blobs.len() as int);
    assert forall|i: int| 0 <= i < blobs.len() implies exists|k: int|
        0 <= k < positions(blobs, (#[trigger] blobs[i]).blob_type).len() && positions(
            blobs,
            blobs[i].blob_type,
        )[k] == i by {
        let marks = of_kind(blobs, blobs[i].blob_type);
        lemma_chosen(marks, blobs.len() as int);
        assert(marks[i]);
        let k = choose|k: int|
            0 <= k < chosen(marks, blobs.len() as int).len() && #[trigger] chosen(
                marks,
                blobs.len() as int,
            )[k] == i;
        assert(positions(blobs, blobs[i].blob_type)[k] == i);
    }
}

/// Lists worked out for the world as it stands are sound: no entry of the
/// list of agents of a species has a fault.
pub proof fn lemma_fresh_lists_are_sound(blobs: Seq<Blob>, kind: BlobType, slot: usize)
    requires
        blobs.len() <= usize::MAX,
        slot < positions(blobs, kind).len(),
    ensures
        member_fault(blobs, positions(blobs, kind), slot, kind) is None,
{
    lemma_chosen(of_kind(blobs, kind), blobs.len() as int);
    let at = positions(blobs, kind)[slot as int];
    assert(of_kind(blobs, kind)[at as int]);
}

/// The interactions are exactly the hits: a pair is listed if and only if
/// the table has a hit at that row and column, and no pair is listed twice.
pub proof fn lemma_pairs_are_hits(hits: Seq<Seq<bool>>, rows: int)
    requires
        0 <= rows <= hits.len(),
        hits.len() <= usize::MAX,
        forall|i: int| 0 <= i < hits.len() ==> (#[trigger] hits[i]).len() <= usize::MAX,
    ensures
        forall|k: int|
            0 <= k < all_pairs(hits, rows).len() ==> {
                let pair = #[trigger] all_pairs(hits, rows)[k];
                pair.0 < rows && pair.1 < hits[pair.0 as int].len()
                    && hits[pair.0 as int][pair.1 as int]
            },
        forall|i: int, j: int|
            0 <= i < rows && 0 <= j < hits[i].len() && #[trigger] hits[i][j] ==> exists|k: int|
                0 <= k < all_pairs(hits, rows).len() && #[trigger] all_pairs(hits, rows)[k] == (
                    i as usize,
                    j as usize,
                ),
        forall|k: int, m: int|
            0 <= k < m < all_pairs(hits, rows).len() ==> #[trigger] all_pairs(hits, rows)[k]
                != #[trigger] all_pairs(hits, rows)[m],
    decreases rows,
{
    if rows > 0 {
        lemma_pairs_are_hits(hits, rows - 1);
        let i = rows - 1;
        let row = hits[i];
        let before = all_pairs(hits, rows - 1);
        let added = row_pairs(i as usize, row);
        let now = all_pairs(hits, rows);
        let picks = chosen(row, row.len() as int);
        lemma_chosen(row, row.len() as int);
        assert forall|k: int| 0 <= k < now.len() implies ({
            let pair = #[trigger] now[k];
            pair.0 < rows && pair.1 < hits[pair.0 as int].len() && hits[pair.0 as int][pair.1 as int]
        }) by {
            if k < before.len() {
                assert(now[k] == before[k]);
            } else {
                assert(now[k] == added[k - before.len()]);
                assert(added[k - before.len()] == (i as usize, picks[k - before.len()]));
            }
        }
        assert forall|a: int, j: int|
            0 <= a < rows && 0 <= j < hits[a].len() && #[trigger] hits[a][j] implies exists|k: int|
            0 <= k < now.len() && #[trigger] now[k] == (a as usize, j as usize) by {
            if a < i {
                let k = choose|k: int|
                    0 <= k < before.len() && #[trigger] before[k] == (a as usize, j as usize);
                assert(now[k] == before[k]);
            } else {
                let k = choose|k: int| 0 <= k < picks.len() && #[trigger] picks[k] == j;
                assert(added[k] == (i as usize, picks[k]));
                assert(now[before.len() + k] == added[k]);
            }
        }
        assert forall|k: int, m: int| 0 <= k < m < now.len() implies #[trigger] now[k]
            != #[trigger] now[m] by {
            if m < before.len() {
                assert(now[k] == before[k] && now[m] == before[m]);
            } else {
                assert(now[m] == added[m - before.len()]);
                assert(added[m - before.len()] == (i as usize, picks[m - before.len()]));
                if k < before.len() {
                    assert(now[k] == before[k]);
                    assert(before[k].0 < rows - 1);
                } else {
                    assert(now[k] == added[k - before.len()]);
                    assert(added[k - before.len()] == (i as usize, picks[k - before.len()]));
                }
            }
        }
    }
}

/// The number of entries on the first `upto` menus.
pub open spec fn courses(menus: Seq<Seq<usize>>, upto: int) -> nat
    decreases upto,
{
    if upto <= 0 || upto > menus.len() {
        0
    } else {
        courses(menus, upto - 1) + menus[upto - 1].len()
    }
}

/// One more interaction puts one more entry on the menu of its predator
/// and on no other.
proof fn lemma_one_more_course(
    interactions: Seq<(usize, usize)>,
    predators: nat,
    prey_indexes: Seq<usize>,
    upto: int,
    first: int,
)
    requires
        0 < upto <= interactions.len(),
        0 <= first <= predators,
    ensures
        courses(menus_upto(interactions, predators, prey_indexes, upto), first) == courses(
            menus_upto(interactions, predators, prey_indexes, upto - 1),
            first,
        ) + if interactions[upto - 1].0 < first {
            1nat
        } else {
            0nat
        },
    decreases first,
{
    if first > 0 {
        lemma_one_more_course(interactions, predators, prey_indexes, upto, first - 1);
    }
}

/// The first `upto` interactions put `upto` entries on the menus.
proof fn lemma_courses_upto(
    interactions: Seq<(usize, usize)>,
    predators: nat,
    prey_indexes: Seq<usize>,
    upto: int,
)
    requires
        0 <= upto <= interactions.len(),
        forall|k: int| 0 <= k < interactions.len() ==> (#[trigger] interactions[k]).0 < predators,
    ensures
        courses(menus_upto(interactions, predators, prey_indexes, upto), predators as int) == upto,
    decreases upto,
{
    if upto > 0 {
        lemma_courses_upto(interactions, predators, prey_indexes, upto - 1);
        lemma_one_more_course(interactions, predators, prey_indexes, upto, predators as int);
    } else {
        lemma_no_course(interactions, predators, prey_indexes, predators as int);
    }
}

/// Every interaction is one meal: the menus of all predators together hold
/// exactly one entry for every interaction, also where a prey is hit by
/// several predators or a predator hits several prey.
pub proof fn lemma_one_course_per_interaction(
    interactions: Seq<(usize, usize)>,
    predators: nat,
    prey_indexes: Seq<usize>,
)
    requires
        forall|k: int| 0 <= k < interactions.len() ==> (#[trigger] interactions[k]).0 < predators,
    ensures
        courses(menus(interactions, predators, prey_indexes), predators as int)
            == interactions.len(),
{
    lemma_courses_upto(interactions, predators, prey_indexes, interactions.len() as int);
}

/// Before the first interaction every menu is empty.
proof fn lemma_no_course(
    interactions: Seq<(usize, usize)>,
    predators: nat,
    prey_indexes: Seq<usize>,
    first: int,
)
    requires
        0 <= first <= predators,
    ensures
        courses(menus_upto(interactions, predators, prey_indexes, 0), first) == 0,
    decreases first,
{
    if first > 0 {
        lemma_no_course(interactions, predators, prey_indexes, first - 1);
    }
}

/// What feeding writes: with a list of positions that ascends, the agent at
/// entry `k` of the list gets energy `k` of those handed in, and no agent
/// off the list is touched.
pub proof fn lemma_refuelled(
    blobs: Seq<Blob>,
    indexes: Seq<usize>,
    levels: Seq<Scalar>,
    upto: int,
)
    requires
        0 <= upto <= indexes.len(),
        forall|k: int| 0 <= k < indexes.len() ==> (#[trigger] indexes[k]) < blobs.len(),
        forall|j: int, k: int| 0 <= j < k < indexes.len() ==> indexes[j] < indexes[k],
    ensures
        refuelled(blobs, indexes, levels, upto).len() == blobs.len(),
        forall|k: int|
            0 <= k < upto ==> refuelled(blobs, indexes, levels, upto)[#[trigger] indexes[k] as int]
                == with_energy(blobs[indexes[k] as int], levels[k]),
        forall|i: int|
            0 <= i < blobs.len() && (forall|k: int| 0 <= k < upto ==> indexes[k] != i)
                ==> #[trigger] refuelled(blobs, indexes, levels, upto)[i] == blobs[i],
    decreases upto,
{
    if upto > 0 {
        lemma_refuelled(blobs, indexes, levels, upto - 1);
        let before = refuelled(blobs, indexes, levels, upto - 1);
        let now = refuelled(blobs, indexes, levels, upto);
        assert(before[indexes[upto - 1] as int] == blobs[indexes[upto - 1] as int]);
        assert forall|k: int| 0 <= k < upto implies now[#[trigger] indexes[k] as int]
            == with_energy(blobs[indexes[k] as int], levels[k]) by {
            if k < upto - 1 {
                assert(indexes[k] < indexes[upto - 1]);
            }
        }
    }
}

/// Where no predator is handed an energy that it did not earn, every
/// predator from `from` on that fed on nothing is handed the energy it has.
proof fn lemma_nothing_unearned(
    blobs: Seq<Blob>,
    predator_indexes: Seq<usize>,
    interactions: Seq<(usize, usize)>,
    fed: Seq<Scalar>,
    from: int,
)
    requires
        0 <= from,
        first_unearned(blobs, predator_indexes, interactions, fed, from) is None,
    ensures
        forall|slot: int|
            from <= slot < predator_indexes.len() && !feeds(
                interactions,
                interactions.len() as int,
                slot,
            ) ==> #[trigger] fed[slot] == blobs[predator_indexes[slot] as int].energy,
    decreases predator_indexes.len() - from,
{
    if from < predator_indexes.len() {
        lemma_nothing_unearned(blobs, predator_indexes, interactions, fed, from + 1);
    }
}

/// No energy comes from nothing: a predator without an interaction has
/// after feeding the energy it had before, and is the agent it was.
pub proof fn lemma_unfed_keep_energy(
    blobs: Seq<Blob>,
    predator_indexes: Seq<usize>,
    interactions: Seq<(usize, usize)>,
    fed: Seq<Scalar>,
    slot: int,
)
    requires
        fed.len() == predator_indexes.len(),
        forall|k: int|
            0 <= k < predator_indexes.len() ==> (#[trigger] predator_indexes[k]) < blobs.len(),
        forall|j: int, k: int|
            0 <= j < k < predator_indexes.len() ==> predator_indexes[j] < predator_indexes[k],
        first_unearned(blobs, predator_indexes, interactions, fed, 0) is None,
        0 <= slot < predator_indexes.len(),
        !feeds(interactions, interactions.len() as int, slot),
    ensures
        refuelled(blobs, predator_indexes, fed, fed.len() as int)[predator_indexes[slot] as int]
            == blobs[predator_indexes[slot] as int],
{
    lemma_refuelled(blobs, predator_indexes, fed, fed.len() as int);
    lemma_nothing_unearned(blobs, predator_indexes, interactions, fed, 0);
    assert(fed[slot] == blobs[predator_indexes[slot] as int].energy);
}

/// For every position of a list of `len` agents, whether an interaction has
/// the agent there as its prey.
pub open spec fn victims(
    len: nat,
    interactions: Seq<(usize, usize)>,
    prey_indexes: Seq<usize>,
) -> Seq<bool> {
    Seq::new(len, |b: int| eaten(interactions, prey_indexes).contains(b))
}

/// Every distinct prey that is hit is removed exactly once: the world
/// shrinks by the number of positions that some interaction names as prey,
/// however many interactions name each; an agent that is left stood at a
/// position that no interaction names, and every agent at such a position
/// is left.
pub proof fn lemma_each_prey_removed_once(
    blobs: Seq<Blob>,
    interactions: Seq<(usize, usize)>,
    prey_indexes: Seq<usize>,
)
    ensures
        after_kills(blobs, interactions, prey_indexes).len() + count_marked(
            victims(blobs.len(), interactions, prey_indexes),
            blobs.len() as int,
        ) == blobs.len(),
        forall|k: int|
            0 <= k < after_kills(blobs, interactions, prey_indexes).len() ==> exists|i: int|
                0 <= i < blobs.len() && !eaten(interactions, prey_indexes).contains(i) && blobs[i]
                    == #[trigger] after_kills(blobs, interactions, prey_indexes)[k],
        forall|i: int|
            0 <= i < blobs.len() && !eaten(interactions, prey_indexes).contains(i) ==> exists|
                k: int,
            |
                0 <= k < after_kills(blobs, interactions, prey_indexes).len()
                    && #[trigger] after_kills(blobs, interactions, prey_indexes)[k] == blobs[i],
{
    let gone = eaten(interactions, prey_indexes);
    let marks = victims(blobs.len(), interactions, prey_indexes);
    let left = after_kills(blobs, interactions, prey_indexes);
    lemma_kept_agree(blobs, gone, marked(marks), 0);
    lemma_without_len(blobs, marks, 0);
    lemma_kept_members(blobs, gone, 0);
    assert forall|i: int| 0 <= i < blobs.len() && !gone.contains(i) implies exists|k: int|
        0 <= k < left.len() && #[trigger] left[k] == blobs[i] by {
        let k = choose|k: int| 0 <= k < left.len() && #[trigger] left[k] == blobs[i];
    }
}

/// Starvation leaves no agent below zero energy, and removes no other: an
/// agent is left if and only if its energy was not below zero.
pub proof fn lemma_starvation_leaves_the_fed(blobs: Seq<Blob>)
    ensures
        nourished(after_starvation(blobs)),
        after_starvation(blobs).len() + count_marked(starving(blobs), blobs.len() as int)
            == blobs.len(),
        forall|i: int|
            0 <= i < blobs.len() && !(#[trigger] blobs[i]).starving() ==> exists|k: int|
                0 <= k < after_starvation(blobs).len() && after_starvation(blobs)[k] == blobs[i],
{
    let gone = marked(starving(blobs));
    let left = after_starvation(blobs);
    lemma_kept_members(blobs, gone, 0);
    lemma_without_len(blobs, starving(blobs), 0);
    assert forall|k: int| 0 <= k < left.len() implies !(#[trigger] left[k]).starving() by {
        let i = choose|i: int| 0 <= i < blobs.len() && !gone.contains(i) && blobs[i] == left[k];
        assert(!starving(blobs)[i]);
    }
    assert forall|i: int| 0 <= i < blobs.len() && !(#[trigger] blobs[i]).starving() implies exists|
        k: int,
    | 0 <= k < left.len() && left[k] == blobs[i] by {
        assert(!gone.contains(i));
        let k = choose|k: int| 0 <= k < left.len() && #[trigger] left[k] == blobs[i];
    }
}

/// Every parent has exactly two children among the litters: its first
/// child and its second.
pub proof fn lemma_litters(blobs: Seq<Blob>, parents: Seq<usize>, births: Seq<Birth>, from: int)
    requires
        0 <= from <= parents.len(),
    ensures
        litters(blobs, parents, births, from).len() == 2 * (parents.len() - from),
        forall|k: int|
            from <= k < parents.len() ==> {
                let at = 2 * (parents.len() - 1 - k);
                &&& litters(blobs, parents, births, from)[at] == first_child(
                    blobs[#[trigger] parents[k] as int],
                    births[k],
                )
                &&& litters(blobs, parents, births, from)[at + 1] == second_child(
                    blobs[parents[k] as int],
                    births[k],
                )
            },
    decreases parents.len() - from,
{
    if from < parents.len() {
        lemma_litters(blobs, parents, births, from + 1);
    }
}

/// A split puts two agents in the place of one: the world grows by one
/// agent for every parent.
pub proof fn lemma_reproduction_count(blobs: Seq<Blob>, births: Seq<Birth>)
    requires
        blobs.len() <= usize::MAX,
        births.len() == parents(blobs).len(),
    ensures
        after_reproduction(blobs, births).len() == blobs.len() + births.len(),
{
    lemma_litters(blobs, parents(blobs), births, 0);
    lemma_without_len(blobs, fertile(blobs), 0);
    lemma_chosen(fertile(blobs), blobs.len() as int);
}

/// The two children of every parent share its energy: each gets exactly
/// half, the two halves add up to the energy of the parent, and both are of
/// the species of the parent.
pub proof fn lemma_children_share_energy(blobs: Seq<Blob>, births: Seq<Birth>, k: int)
    requires
        blobs.len() <= usize::MAX,
        births.len() == parents(blobs).len(),
        0 <= k < births.len(),
    ensures
        ({
            let parent = blobs[parents(blobs)[k] as int];
            let first = litters(blobs, parents(blobs), births, 0)[2 * (births.len() - 1 - k)];
            let second = litters(blobs, parents(blobs), births, 0)[2 * (births.len() - 1 - k) + 1];
            &&& parent.fertile()
            &&& first.energy == parent.energy.halved()
            &&& second.energy == parent.energy.halved()
            &&& parent.energy.halved().doubled() == parent.energy
            &&& first.blob_type == parent.blob_type
            &&& second.blob_type == parent.blob_type
        }),
{
    lemma_chosen(fertile(blobs), blobs.len() as int);
    lemma_litters(blobs, parents(blobs), births, 0);
    let parent = blobs[parents(blobs)[k] as int];
    assert(fertile(blobs)[parents(blobs)[k] as int]);
    lemma_split_shares_energy(parent, births[k]);
}

/// Reproduction keeps every energy at or above zero: where no agent was
/// below zero before, none is after. With starvation, which leaves no agent
/// below zero, this makes every energy that the next tick starts with at
/// least zero.
pub proof fn lemma_reproduction_keeps_nourished(blobs: Seq<Blob>, births: Seq<Birth>)
    requires
        blobs.len() <= usize::MAX,
        nourished(blobs),
        births.len() == parents(blobs).len(),
    ensures
        nourished(after_reproduction(blobs, births)),
{
    let list = parents(blobs);
    let kept = crate::utils::without(blobs, marked(fertile(blobs)));
    let born = litters(blobs, list, births, 0);
    lemma_kept_members(blobs, marked(fertile(blobs)), 0);
    lemma_litters(blobs, list, births, 0);
    assert forall|i: int| 0 <= i < (kept + born).len() implies !(#[trigger] (kept + born)[i]).starving() by {
        if i < kept.len() {
            let at = choose|at: int| 0 <= at < blobs.len() && blobs[at] == kept[i];
            assert(!blobs[at].starving());
        } else {
            let m = i - kept.len();
            let k = list.len() - 1 - m / 2;
            lemma_children_share_energy(blobs, births, k);
            lemma_split_shares_energy(blobs[list[k] as int], births[k]);
        }
    }
}

} // verus!
