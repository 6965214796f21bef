//! Editing a chip's wires from the canvas: deleting one wire also deletes
//! every wire attached to it.
use vstd::prelude::*;
use crate::wires::{
    after_removal, doomed, doomed_mask, doomed_within, kept_positions, lemma_cascade_keeps_attachments,
    mark_all_doomed, num_marked, only, remove_marked, taps, WireDescription,
};

verus! {

/// Removes wire `index` and every wire attached to it, directly or through
/// a chain of attachments (once their anchor is gone there is nowhere
/// sensible left to draw them); the other wires keep their order and their
/// attachment indices are renumbered. Returns how many wires went (none for
/// an index past the end).
pub fn delete_wire<P>(wires: &mut Vec<WireDescription<P>>, index: usize) -> (removed: usize)
    requires
        old(wires)@.len() <= i32::MAX,
    ensures
        index >= old(wires)@.len() ==> removed == 0 && final(wires)@ == old(wires)@,
        index < old(wires)@.len() ==> {
            let m = doomed_mask(old(wires)@, only(index as int));
            &&& removed == num_marked(m)
            &&& final(wires)@ == after_removal(old(wires)@, m)
        },
{
    let n = wires.len();
    if index >= n {
        return 0;
    }
    let ghost seed = only(index as int);
    let mut mask: Vec<bool> = Vec::new();
    let mut i: usize = 0;
    while i < n
        invariant
            i <= n,
            mask@.len() == i,
            forall|j: int| 0 <= j < i ==> !mask@[j],
        decreases n - i,
    {
        mask.push(false);
        i = i + 1;
    }
    mask.set(index, true);
    proof {
        assert(doomed_within(wires@, seed, index as int, 0));
        assert forall|j: int| 0 <= j < n && mask@[j] implies doomed(wires@, seed, j) by {
            assert(j == index);
            assert(doomed_within(wires@, seed, j, 0));
        }
    }
    mark_all_doomed(wires, &mut mask, Ghost(seed));
    remove_marked(wires, &mask)
}

/// After `delete_wire`, no remaining wire is attached to a deleted one:
/// each remaining wire that was attached to a wire of the list is attached
/// to that same wire at its new position.
pub proof fn lemma_delete_wire_keeps_attachments<P>(ws: Seq<WireDescription<P>>, index: int)
    requires
        0 <= index < ws.len(),
        ws.len() <= i32::MAX,
    ensures
        forall|j: int, c: int| 0 <= j < kept_positions(doomed_mask(ws, only(index))).len() && 0 <= c < ws.len()
            && #[trigger] taps(ws[kept_positions(doomed_mask(ws, only(index)))[j]], c)
            ==> exists|k: int| #![trigger kept_positions(doomed_mask(ws, only(index)))[k]] 0 <= k < kept_positions(doomed_mask(ws, only(index))).len()
                && kept_positions(doomed_mask(ws, only(index)))[k] == c
                && taps(after_removal(ws, doomed_mask(ws, only(index)))[j], k),
{
    lemma_cascade_keeps_attachments(ws, only(index));
}

} // verus!
