//! Tools shared by the phases of a tick: capping a coordinate into the
//! world, removing a set of positions from a list without disturbing the
//! others, listing the positions that a mark selects, putting results that
//! arrive in any order back at the position they belong to, and comparing
//! the dimensions of weights.

use crate::scalar::{Scalar, ZERO_BITS};
use vstd::prelude::*;

verus! {

/// A coordinate capped into `[0, limit]`: a value below zero becomes zero,
/// a value above the limit becomes the limit, any other value stays as it
/// is. Nothing wraps around and nothing is reflected.
pub open spec fn capped(value: Scalar, limit: Scalar) -> Scalar {
    if value.negative() {
        Scalar { bits: ZERO_BITS }
    } else if limit.less(value) {
        limit
    } else {
        value
    }
}

pub fn cap(value: Scalar, limit: Scalar) -> (r: Scalar)
    ensures
        r == capped(value, limit),
{
    if value.is_negative() {
        Scalar::zero()
    } else if limit.lt(&value) {
        limit
    } else {
        value
    }
}

/// A capped coordinate lies in the world: where neither the value nor the
/// limit is a NaN and the limit is not below zero, the result is at least
/// zero and at most the limit, and it is the value itself wherever the value
/// already lay in that range.
pub proof fn lemma_capped_in_range(value: Scalar, limit: Scalar)
    requires
        !value.nan(),
        !limit.nan(),
        !limit.negative(),
    ensures
        !capped(value, limit).negative(),
        capped(value, limit).at_most(limit),
        !value.negative() && value.at_most(limit) ==> capped(value, limit) == value,
        value.negative() ==> capped(value, limit).bits == ZERO_BITS,
        limit.less(value) ==> capped(value, limit) == limit,
{
}

/// The items of `s` at positions `from..` that are not in `gone`, in order.
pub open spec fn kept_from<T>(s: Seq<T>, gone: Set<int>, from: int) -> Seq<T>
    decreases s.len() - from,
{
    if from < 0 || from >= s.len() {
        Seq::empty()
    } else if gone.contains(from) {
        kept_from(s, gone, from + 1)
    } else {
        seq![s[from]] + kept_from(s, gone, from + 1)
    }
}

/// `s` with the positions in `gone` taken out; the rest keeps its order.
pub open spec fn without<T>(s: Seq<T>, gone: Set<int>) -> Seq<T> {
    kept_from(s, gone, 0)
}

/// The positions that a list of marks selects.
pub open spec fn marked(marks: Seq<bool>) -> Set<int> {
    Set::new(|i: int| 0 <= i < marks.len() && marks[i])
}

/// How many of the first `upto` marks are set.
pub open spec fn count_marked(marks: Seq<bool>, upto: int) -> nat
    decreases upto,
{
    if upto <= 0 || upto > marks.len() {
        0
    } else if marks[upto - 1] {
        count_marked(marks, upto - 1) + 1
    } else {
        count_marked(marks, upto - 1)
    }
}

/// Where no position in `a..b` is gone, that stretch is kept whole.
pub proof fn lemma_kept_stretch<T>(s: Seq<T>, gone: Set<int>, a: int, b: int)
    requires
        0 <= a <= b <= s.len(),
        forall|i: int| a <= i < b ==> !gone.contains(i),
    ensures
        kept_from(s, gone, a) == s.subrange(a, b) + kept_from(s, gone, b),
    decreases b - a,
{
    if a == b {
        assert(s.subrange(a, b) + kept_from(s, gone, b) =~= kept_from(s, gone, b));
    } else {
        lemma_kept_stretch(s, gone, a + 1, b);
        assert(seq![s[a]] + (s.subrange(a + 1, b) + kept_from(s, gone, b)) =~= s.subrange(a, b)
            + kept_from(s, gone, b));
    }
}

/// What is kept from `from` on depends only on the gone positions from
/// `from` on.
pub proof fn lemma_kept_agree<T>(s: Seq<T>, gone: Set<int>, other: Set<int>, from: int)
    requires
        forall|i: int| from <= i < s.len() ==> gone.contains(i) == other.contains(i),
    ensures
        kept_from(s, gone, from) == kept_from(s, other, from),
    decreases s.len() - from,
{
    if 0 <= from < s.len() {
        lemma_kept_agree(s, gone, other, from + 1);
    }
}

/// Taking out one more position, below every position taken out so far,
/// is one `remove` on the list as it stands.
pub proof fn lemma_remove_below<T>(s: Seq<T>, gone: Set<int>, idx: int, bound: int)
    requires
        0 <= idx < bound <= s.len(),
        forall|i: int| gone.contains(i) ==> bound <= i,
    ensures
        (s.subrange(0, bound) + kept_from(s, gone, bound)).remove(idx) == s.subrange(0, idx)
            + kept_from(s, gone.insert(idx), idx),
{
    let more = gone.insert(idx);
    lemma_kept_stretch(s, more, idx + 1, bound);
    lemma_kept_agree(s, gone, more, bound);
    assert(kept_from(s, more, idx) == kept_from(s, more, idx + 1));
    assert((s.subrange(0, bound) + kept_from(s, gone, bound)).remove(idx) =~= s.subrange(0, idx)
        + (s.subrange(idx + 1, bound) + kept_from(s, gone, bound)));
}

/// The length of what is left is the old length less the number of
/// positions taken out.
pub proof fn lemma_without_len<T>(s: Seq<T>, marks: Seq<bool>, from: int)
    requires
        marks.len() == s.len(),
        0 <= from <= s.len(),
    ensures
        kept_from(s, marked(marks), from).len() + count_marked(marks, s.len() as int) == s.len()
            - from + count_marked(marks, from),
    decreases s.len() - from,
{
    if from < s.len() {
        lemma_without_len(s, marks, from + 1);
        assert(count_marked(marks, from + 1) == count_marked(marks, from) + if marks[from] {
            1nat
        } else {
            0nat
        });
    }
}

/// Every item that is left stood at a position that was not taken out, and
/// every item at such a position is left.
pub proof fn lemma_kept_members<T>(s: Seq<T>, gone: Set<int>, from: int)
    requires
        0 <= from <= s.len(),
    ensures
        forall|k: int|
            0 <= k < kept_from(s, gone, from).len() ==> exists|i: int|
                from <= i < s.len() && !gone.contains(i) && s[i] == #[trigger] kept_from(
                    s,
                    gone,
                    from,
                )[k],
        forall|i: int|
            from <= i < s.len() && !gone.contains(i) ==> exists|k: int|
                0 <= k < kept_from(s, gone, from).len() && #[trigger] kept_from(s, gone, from)[k]
                    == s[i],
    decreases s.len() - from,
{
    if from < s.len() {
        lemma_kept_members(s, gone, from + 1);
        let rest = kept_from(s, gone, from + 1);
        let now = kept_from(s, gone, from);
        if gone.contains(from) {
        } else {
            assert forall|k: int| 0 <= k < now.len() implies exists|i: int|
                from <= i < s.len() && !gone.contains(i) && s[i] == #[trigger] now[k] by {
                if k == 0 {
                    assert(s[from] == now[0]);
                } else {
                    assert(now[k] == rest[k - 1]);
                    let i = choose|i: int|
                        from + 1 <= i < s.len() && !gone.contains(i) && s[i] == rest[k - 1];
                    assert(s[i] == now[k]);
                }
            }
            assert forall|i: int| from <= i < s.len() && !gone.contains(i) implies exists|k: int|
                0 <= k < now.len() && #[trigger] now[k] == s[i] by {
                if i == from {
                    assert(now[0] == s[i]);
                } else {
                    let k = choose|k: int| 0 <= k < rest.len() && #[trigger] rest[k] == s[i];
                    assert(now[k + 1] == s[i]);
                }
            }
        }
    }
}

/// Removes the marked positions from `items`, highest first, so that no
/// removal shifts a position that is still to be removed. A position
/// without a mark stays.
pub fn remove_marked<T>(items: &mut Vec<T>, marks: &Vec<bool>)
    ensures
        final(items)@ == without(old(items)@, marked(marks@)),
{
    let ghost start = items@;
    let ghost mut gone: Set<int> = Set::empty();
    let mut idx: usize = items.len();
    proof {
        assert(items@ =~= start.subrange(0, idx as int) + kept_from(start, gone, idx as int));
    }
    while idx > 0
        invariant
            idx <= start.len(),
            forall|i: int| gone.contains(i) <==> idx <= i < start.len() && marked(marks@).contains(i),
            items@ == start.subrange(0, idx as int) + kept_from(start, gone, idx as int),
        decreases idx,
    {
        idx -= 1;
        if idx < marks.len() && marks[idx] {
            proof {
                lemma_remove_below(start, gone, idx as int, idx as int + 1);
                gone = gone.insert(idx as int);
            }
            let _ = items.remove(idx);
        } else {
            proof {
                assert(start.subrange(0, idx as int + 1) =~= start.subrange(0, idx as int)
                    + seq![start[idx as int]]);
                assert(items@ =~= start.subrange(0, idx as int) + kept_from(
                    start,
                    gone,
                    idx as int,
                ));
            }
        }
    }
    proof {
        lemma_kept_agree(start, gone, marked(marks@), 0);
        assert(start.subrange(0, 0) + kept_from(start, gone, 0) =~= kept_from(start, gone, 0));
    }
}

/// The marked positions below `upto`, in ascending order.
pub open spec fn chosen(marks: Seq<bool>, upto: int) -> Seq<usize>
    decreases upto,
{
    if upto <= 0 || upto > marks.len() {
        Seq::empty()
    } else if marks[upto - 1] {
        chosen(marks, upto - 1).push((upto - 1) as usize)
    } else {
        chosen(marks, upto - 1)
    }
}

/// What `chosen` lists: every entry is a marked position below `upto`, the
/// entries ascend strictly, and no marked position below `upto` is missing.
pub proof fn lemma_chosen(marks: Seq<bool>, upto: int)
    requires
        0 <= upto <= marks.len(),
        marks.len() <= usize::MAX,
    ensures
        chosen(marks, upto).len() <= upto,
        chosen(marks, upto).len() == count_marked(marks, upto),
        forall|k: int|
            0 <= k < chosen(marks, upto).len() ==> 0 <= (#[trigger] chosen(marks, upto)[k]) < upto
                && marks[chosen(marks, upto)[k] as int],
        forall|j: int, k: int|
            0 <= j < k < chosen(marks, upto).len() ==> chosen(marks, upto)[j] < chosen(
                marks,
                upto,
            )[k],
        forall|i: int|
            0 <= i < upto && marks[i] ==> exists|k: int|
                0 <= k < chosen(marks, upto).len() && #[trigger] chosen(marks, upto)[k] == i,
    decreases upto,
{
    if upto > 0 {
        lemma_chosen(marks, upto - 1);
        let before = chosen(marks, upto - 1);
        let now = chosen(marks, upto);
        assert forall|i: int| 0 <= i < upto && marks[i] implies exists|k: int|
            0 <= k < now.len() && #[trigger] now[k] == i by {
            if i < upto - 1 {
                let k = choose|k: int| 0 <= k < before.len() && #[trigger] before[k] == i;
                assert(now[k] == i);
            } else {
                assert(now[now.len() - 1] == i);
            }
        }
    }
}

/// The positions chosen below `upto` open the list of all chosen positions.
pub proof fn lemma_chosen_prefix(marks: Seq<bool>, upto: int, all: int)
    requires
        0 <= upto <= all <= marks.len(),
    ensures
        chosen(marks, upto).len() <= chosen(marks, all).len(),
        chosen(marks, all).subrange(0, chosen(marks, upto).len() as int) == chosen(marks, upto),
    decreases all - upto,
{
    if upto < all {
        lemma_chosen_prefix(marks, upto, all - 1);
        assert(chosen(marks, all).subrange(0, chosen(marks, upto).len() as int) =~= chosen(
            marks,
            all - 1,
        ).subrange(0, chosen(marks, upto).len() as int));
    } else {
        assert(chosen(marks, all).subrange(0, chosen(marks, upto).len() as int) =~= chosen(
            marks,
            upto,
        ));
    }
}

/// Whether some entry of `tagged` carries the tag `k`.
pub open spec fn names<T>(tagged: Seq<(usize, T)>, k: int) -> bool {
    exists|j: int| 0 <= j < tagged.len() && (#[trigger] tagged[j]).0 == k
}

/// Whether the tags of `tagged` name every position of a list as long as
/// `tagged` exactly once.
pub open spec fn indexes_once<T>(tagged: Seq<(usize, T)>) -> bool {
    &&& forall|j: int| 0 <= j < tagged.len() ==> (#[trigger] tagged[j]).0 < tagged.len()
    &&& forall|i: int, j: int|
        0 <= i < j < tagged.len() ==> (#[trigger] tagged[i]).0 != (#[trigger] tagged[j]).0
    &&& forall|k: int| 0 <= k < tagged.len() ==> #[trigger] names(tagged, k)
}

/// Whether `out` holds every payload of `tagged` at the position that its tag
/// names, and nothing else.
pub open spec fn placed_by_tag<T>(tagged: Seq<(usize, T)>, out: Seq<T>) -> bool {
    &&& out.len() == tagged.len()
    &&& forall|j: int|
        0 <= j < tagged.len() ==> (#[trigger] tagged[j]).0 < out.len() && out[tagged[j].0 as int]
            == tagged[j].1
}

/// Puts results that carry the position they belong to back in order of
/// position, whatever order they arrived in. `None` where the tags do not
/// name every position exactly once.
#[verifier::loop_isolation(false)]
pub fn collect_by_index<T>(tagged: Vec<(usize, T)>) -> (ordered: Option<Vec<T>>)
    ensures
        ordered is Some <==> indexes_once(tagged@),
        ordered matches Some(out) ==> placed_by_tag(tagged@, out@),
{
    let ghost all = tagged@;
    let n = tagged.len();
    let mut pending = tagged;
    let mut slots: Vec<Option<T>> = Vec::new();
    while slots.len() < n
        invariant
            slots.len() <= n,
            forall|k: int| 0 <= k < slots.len() ==> slots[k] is None,
        decreases n - slots.len(),
    {
        slots.push(None);
    }
    while pending.len() > 0
        invariant
            slots.len() == n,
            pending.len() <= n,
            pending@ == all.subrange(0, pending.len() as int),
            forall|j: int|
                pending.len() <= j < n ==> (#[trigger] all[j]).0 < n && slots[all[j].0 as int]
                    == Some(all[j].1),
            forall|i: int, j: int|
                pending.len() <= i < j < n ==> (#[trigger] all[i]).0 != (#[trigger] all[j]).0,
            forall|k: int|
                0 <= k < n && slots[k] is Some ==> exists|j: int|
                    pending.len() <= j < n && (#[trigger] all[j]).0 == k,
        decreases pending.len(),
    {
        let ghost j = pending.len() - 1;
        let ghost before = slots@;
        let (tag, payload) = pending.pop().unwrap();
        assert(all[j] == (tag, payload));
        if tag >= n {
            return None;
        }
        if slots[tag].is_some() {
            proof {
                let i = choose|i: int| j < i < n && (#[trigger] all[i]).0 == tag;
                assert(all[j].0 == all[i].0);
            }
            return None;
        }
        slots.set(tag, Some(payload));
        proof {
            assert forall|k: int| 0 <= k < n && slots[k] is Some implies exists|i: int|
                pending.len() <= i < n && (#[trigger] all[i]).0 == k by {
                if k == tag {
                    assert(all[j].0 == k);
                } else {
                    assert(before[k] is Some);
                    let i = choose|i: int| j < i < n && (#[trigger] all[i]).0 == k;
                    assert(all[i].0 == k);
                }
            }
        }
    }
    let mut reversed: Vec<T> = Vec::new();
    let ghost filled = slots@;
    while slots.len() > 0
        invariant
            slots.len() <= n,
            slots@ == filled.subrange(0, slots.len() as int),
            reversed.len() == n - slots.len(),
            forall|k: int| 0 <= k < reversed.len() ==> filled[n - 1 - k] == Some(reversed[k]),
        decreases slots.len(),
    {
        let ghost k = slots.len() - 1;
        match slots.pop().unwrap() {
            Some(payload) => {
                reversed.push(payload);
            },
            None => {
                proof {
                    assert(filled[k] is None);
                    if names(all, k) {
                        let j = choose|j: int| 0 <= j < n && (#[trigger] all[j]).0 == k;
                        assert(filled[all[j].0 as int] is Some);
                    }
                }
                return None;
            },
        }
    }
    let mut out: Vec<T> = Vec::new();
    while reversed.len() > 0
        invariant
            reversed.len() + out.len() == n,
            forall|k: int|
                0 <= k < reversed.len() ==> filled[n - 1 - k] == Some(#[trigger] reversed[k]),
            forall|k: int| 0 <= k < out.len() ==> filled[k] == Some(#[trigger] out[k]),
        decreases reversed.len(),
    {
        let payload = reversed.pop().unwrap();
        out.push(payload);
    }
    proof {
        assert forall|k: int| 0 <= k < n implies #[trigger] names(all, k) by {
            assert(filled[k] == Some(out[k]));
        }
    }
    Some(out)
}

/// The order in which results arrive does not show in what is collected:
/// two lists of tagged results that hold the same entries, in whatever
/// order, are collected into the same list.
pub proof fn lemma_collect_any_order<T>(
    first: Seq<(usize, T)>,
    second: Seq<(usize, T)>,
    out_first: Seq<T>,
    out_second: Seq<T>,
)
    requires
        first.len() == second.len(),
        forall|j: int|
            0 <= j < first.len() ==> exists|i: int|
                0 <= i < second.len() && second[i] == #[trigger] first[j],
        indexes_once(first),
        placed_by_tag(first, out_first),
        placed_by_tag(second, out_second),
    ensures
        out_first == out_second,
{
    assert forall|k: int| 0 <= k < out_first.len() implies out_first[k] == out_second[k] by {
        assert(names(first, k));
        let j = choose|j: int| 0 <= j < first.len() && (#[trigger] first[j]).0 == k;
        let i = choose|i: int| 0 <= i < second.len() && second[i] == first[j];
        assert(second[i].0 == k);
    }
    assert(out_first =~= out_second);
}

/// The lengths of the rows of a matrix.
pub open spec fn row_lengths<T>(matrix: Seq<Vec<T>>) -> Seq<nat> {
    Seq::new(matrix.len(), |r: int| matrix[r].len() as nat)
}

/// The lengths of the rows of a tensor, layer by layer.
pub open spec fn layer_row_lengths<T>(tensor: Seq<Vec<Vec<T>>>) -> Seq<Seq<nat>> {
    Seq::new(tensor.len(), |l: int| row_lengths(tensor[l]@))
}

/// Whether two matrices have the same dimensions: as many rows, and as
/// many entries in every row. Only such matrices can be added entry by
/// entry.
pub fn same_shape<T>(first: &Vec<Vec<T>>, second: &Vec<Vec<T>>) -> (same: bool)
    ensures
        same == (row_lengths(first@) == row_lengths(second@)),
{
    if first.len() != second.len() {
        assert(row_lengths(first@).len() != row_lengths(second@).len());
        return false;
    }
    let mut row: usize = 0;
    while row < first.len()
        invariant
            row <= first.len(),
            first.len() == second.len(),
            forall|r: int| 0 <= r < row ==> first[r].len() == second[r].len(),
        decreases first.len() - row,
    {
        if first[row].len() != second[row].len() {
            assert(row_lengths(first@)[row as int] != row_lengths(second@)[row as int]);
            return false;
        }
        row += 1;
    }
    assert(row_lengths(first@) =~= row_lengths(second@));
    true
}

/// Whether two tensors have the same dimensions: as many layers, and in
/// every layer matrices of the same dimensions.
pub fn same_dimensions<T>(first: &Vec<Vec<Vec<T>>>, second: &Vec<Vec<Vec<T>>>) -> (same: bool)
    ensures
        same == (layer_row_lengths(first@) == layer_row_lengths(second@)),
{
    if first.len() != second.len() {
        assert(layer_row_lengths(first@).len() != layer_row_lengths(second@).len());
        return false;
    }
    let mut layer: usize = 0;
    while layer < first.len()
        invariant
            layer <= first.len(),
            first.len() == second.len(),
            forall|l: int|
                0 <= l < layer ==> row_lengths(first[l]@) == row_lengths(second[l]@),
        decreases first.len() - layer,
    {
        if !same_shape(&first[layer], &second[layer]) {
            assert(layer_row_lengths(first@)[layer as int] != layer_row_lengths(
                second@,
            )[layer as int]);
            return false;
        }
        layer += 1;
    }
    assert(layer_row_lengths(first@) =~= layer_row_lengths(second@));
    true
}

} // verus!
