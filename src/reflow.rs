use vstd::prelude::*;
use crate::geometry::{calculate_child_translation, slot_offset, width_fits, Size};

verus! {

/// Number of slots laid out for `n` children: one more while a card is
/// provisionally inserted at some slot.
pub open spec fn slot_count(n: int, target: Option<usize>) -> int {
    match target {
        None => n,
        Some(_) => n + 1,
    }
}

/// Slot taken by child `i`: children before the insertion point keep their
/// place, the others move one slot to the right.
pub open spec fn slot_of(i: int, target: Option<usize>) -> int {
    match target {
        None => i,
        Some(k) => if i < k { i } else { i + 1 },
    }
}

/// Left edges of `n` children after a reflow towards `target`.
pub open spec fn reflowed(n: nat, target: Option<usize>, s: int, p: int) -> Seq<i64> {
    Seq::new(n, |i: int| slot_offset(slot_count(n as int, target), slot_of(i, target), s, p) as i64)
}

/// Left edges of `n` children in their natural order.
pub open spec fn natural_layout(n: nat, s: int, p: int) -> Seq<i64> {
    reflowed(n, None, s, p)
}

/// The positions of `offsets.len()` children after a reflow towards `target`.
pub open spec fn apply_reorder(offsets: Seq<i64>, target: Option<usize>, s: int, p: int) -> Seq<i64> {
    reflowed(offsets.len(), target, s, p)
}

/// The positions after reflowing `offsets` towards each of `targets` in turn.
pub open spec fn apply_all(offsets: Seq<i64>, targets: Seq<Option<usize>>, s: int, p: int) -> Seq<i64>
    decreases targets.len(),
{
    if targets.len() == 0 {
        offsets
    } else {
        apply_reorder(apply_all(offsets, targets.drop_last(), s, p), targets.last(), s, p)
    }
}

proof fn lemma_apply_all_keeps_count(offsets: Seq<i64>, targets: Seq<Option<usize>>, s: int, p: int)
    ensures
        apply_all(offsets, targets, s, p).len() == offsets.len(),
    decreases targets.len(),
{
    if targets.len() > 0 {
        lemma_apply_all_keeps_count(offsets, targets.drop_last(), s, p);
    }
}

/// Settling to the natural order after any run of provisional insertions
/// gives back exactly the natural layout of the children: nothing drifts.
pub proof fn lemma_settle_restores_natural_layout(
    offsets: Seq<i64>,
    targets: Seq<Option<usize>>,
    s: int,
    p: int,
)
    ensures
        apply_reorder(apply_all(offsets, targets, s, p), None, s, p) == natural_layout(
            offsets.len(),
            s,
            p,
        ),
{
    lemma_apply_all_keeps_count(offsets, targets, s, p);
}

/// Applying the same reflow twice leaves the children where the first one
/// put them.
pub proof fn lemma_reorder_idempotent(offsets: Seq<i64>, target: Option<usize>, s: int, p: int)
    ensures
        apply_reorder(apply_reorder(offsets, target, s, p), target, s, p) == apply_reorder(
            offsets,
            target,
            s,
            p,
        ),
{
}

/// Slot taken by child `i` when a card is provisionally inserted at `target`.
pub fn slot_index(i: usize, target: Option<usize>) -> (r: usize)
    requires
        slot_of(i as int, target) <= usize::MAX,
    ensures
        r == slot_of(i as int, target),
{
    match target {
        None => i,
        Some(k) => if i < k { i } else { i + 1 },
    }
}

/// Moves every child of a container to its slot: the natural layout for
/// `None`, or the layout with room for a card at slot `k` for `Some(k)`.
/// `offsets` holds the children's x-offsets in their stored order; only the
/// values change, never the order or the count.
pub fn reorder_child_transforms(offsets: &mut Vec<i64>, target: Option<usize>, item_size: &Size, padding: u64)
    requires
        slot_count(old(offsets)@.len() as int, target) <= usize::MAX,
        width_fits(slot_count(old(offsets)@.len() as int, target), item_size.x as int, padding as int),
    ensures
        final(offsets)@ == apply_reorder(old(offsets)@, target, item_size.x as int, padding as int),
{
    let ghost s = item_size.x as int;
    let ghost p = padding as int;
    let n = offsets.len();
    let slots = match target {
        None => n,
        Some(_) => n + 1,
    };
    let mut i: usize = 0;
    while i < n
        invariant
            n == offsets@.len(),
            n == old(offsets)@.len(),
            i <= n,
            s == item_size.x as int,
            p == padding as int,
            slots == slot_count(n as int, target),
            width_fits(slots as int, s, p),
            forall|j: int| 0 <= j < i ==> offsets@[j] == reflowed(n as nat, target, s, p)[j],
        decreases n - i,
    {
        let slot = slot_index(i, target);
        let x = calculate_child_translation(slots, slot, item_size, padding);
        offsets[i] = x;
        i += 1;
    }
    proof {
        assert(offsets@ =~= reflowed(n as nat, target, s, p));
    }
}

} // verus!
