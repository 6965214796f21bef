//! Wires inside a chip: which pins (or which other wire) each one joins,
//! and renumbering the wires that survive when others are removed, so no
//! wire is left pointing at the wrong one.
use vstd::prelude::*;
use crate::description::{chip_named, find_sub_chip, first_with_id, ChipDescription, ChipLibrary, PinDescription, SubChipDescription};

verus! {

/// A pin, addressed by the id of the (sub-)chip that owns it and the pin's
/// own id.
#[derive(Debug, Clone, Copy, PartialEq, Eq, Structural, Hash)]
pub struct PinAddress {
    pub pin_owner_id: i32,
    pub pin_id: i32,
}

impl PinAddress {
    pub fn new(pin_owner_id: i32, pin_id: i32) -> (a: Self)
        ensures
            a.pin_owner_id == pin_owner_id,
            a.pin_id == pin_id,
    {
        PinAddress { pin_owner_id, pin_id }
    }
}

/// How a wire's ends attach: both to pins, or one end onto another wire.
#[derive(Debug, Clone, Copy, PartialEq, Eq, Structural)]
pub enum WireConnectionType {
    ToPins,
    /// The wire's source end sits on wire `connected_wire_index`: it
    /// carries that wire's signal.
    ToWireSource,
    /// The wire's target end sits on wire `connected_wire_index` (a drawing
    /// attachment only).
    ToWireTarget,
}

/// One wire of a chip. `P` is a point on the canvas; the wire logic here
/// only ever moves points around, never computes with them.
#[derive(Debug, Clone)]
pub struct WireDescription<P> {
    pub source_pin_address: PinAddress,
    pub target_pin_address: PinAddress,
    pub connection_type: WireConnectionType,
    /// Position, in the chip's wire list, of the wire this one is attached
    /// to (meaningful unless `connection_type` is `ToPins`).
    pub connected_wire_index: i32,
    /// Segment of that wire the attachment sits on.
    pub connected_wire_segment_index: i32,
    /// Bend points between the two ends.
    pub points: Vec<P>,
    pub cached_source_point: P,
    pub cached_target_point: P,
}

/// Wire `w` is attached to the wire at position `j`.
pub open spec fn taps<P>(w: WireDescription<P>, j: int) -> bool {
    w.connection_type != WireConnectionType::ToPins && w.connected_wire_index as int == j
}

/// How many entries of `rs` lie below `c`.
pub open spec fn count_below(rs: Seq<usize>, c: int) -> nat
    decreases rs.len(),
{
    if rs.len() == 0 {
        0
    } else {
        count_below(rs.drop_last(), c) + if (rs.last() as int) < c { 1nat } else { 0nat }
    }
}

/// `w` once the wires at the positions `removed` are gone: an attachment
/// index moves down by the number of removed positions below it.
pub open spec fn shifted<P>(w: WireDescription<P>, removed: Seq<usize>) -> WireDescription<P> {
    if w.connection_type == WireConnectionType::ToPins {
        w
    } else {
        WireDescription {
            connected_wire_index: (w.connected_wire_index - count_below(removed, w.connected_wire_index as int)) as i32,
            ..w
        }
    }
}

pub proof fn lemma_count_below_bound(rs: Seq<usize>, c: int)
    ensures
        count_below(rs, c) <= rs.len(),
        c <= 0 ==> count_below(rs, c) == 0,
    decreases rs.len(),
{
    if rs.len() > 0 {
        lemma_count_below_bound(rs.drop_last(), c);
    }
}

proof fn lemma_count_below_step(rs: Seq<usize>, k: int, c: int)
    requires
        0 <= k < rs.len(),
    ensures
        count_below(rs.subrange(0, k + 1), c) == count_below(rs.subrange(0, k), c) + if (rs[k] as int) < c { 1nat } else { 0nat },
{
    assert(rs.subrange(0, k + 1).drop_last() =~= rs.subrange(0, k));
}

/// Hands out the contents of `v`, leaving it empty.
fn take_all<T>(v: &mut Vec<T>) -> (out: Vec<T>)
    ensures
        out@ == old(v)@,
        final(v)@.len() == 0,
{
    let mut out: Vec<T> = Vec::new();
    std::mem::swap(&mut out, v);
    out
}

/// Number of entries of `removed` below `c`.
fn count_removed_below(removed: &[usize], c: i32) -> (n: usize)
    requires
        forall|k: int| 0 <= k < removed@.len() ==> removed@[k] <= i32::MAX,
    ensures
        n == count_below(removed@, c as int),
{
    let mut n: usize = 0;
    let mut k: usize = 0;
    while k < removed.len()
        invariant
            k <= removed@.len(),
            n == count_below(removed@.subrange(0, k as int), c as int),
            n <= k,
            forall|j: int| 0 <= j < removed@.len() ==> removed@[j] <= i32::MAX,
        decreases removed.len() - k,
    {
        proof {
            lemma_count_below_step(removed@, k as int, c as int);
        }
        if (removed[k] as i32) < c {
            n = n + 1;
        }
        k = k + 1;
    }
    assert(removed@.subrange(0, removed@.len() as int) =~= removed@);
    n
}

/// Moves every wire's attachment index down by however many of the
/// `removed` positions lie below it, so attachments keep naming the same
/// wire once those positions are gone from the list.
pub fn shift_connected_indices_after_removal<P>(wires: &mut Vec<WireDescription<P>>, removed: &[usize])
    requires
        removed@.len() <= i32::MAX,
        forall|k: int| 0 <= k < removed@.len() ==> removed@[k] <= i32::MAX,
    ensures
        final(wires)@.len() == old(wires)@.len(),
        forall|i: int| 0 <= i < old(wires)@.len() ==> #[trigger] final(wires)@[i] == shifted(old(wires)@[i], removed@),
{
    let ghost before = wires@;
    let n = wires.len();
    let mut rest = take_all(wires);
    // Shift from the back into `rev`, then restore the order.
    let mut rev: Vec<WireDescription<P>> = Vec::new();
    while rest.len() > 0
        invariant
            rest@.len() <= n == before.len(),
            rest@ == before.subrange(0, rest@.len() as int),
            removed@.len() <= i32::MAX,
            forall|k: int| 0 <= k < removed@.len() ==> removed@[k] <= i32::MAX,
            rev@.len() == n - rest@.len(),
            forall|k: int| 0 <= k < rev@.len() ==> #[trigger] rev@[k] == shifted(before[n - 1 - k], removed@),
        decreases rest.len(),
    {
        let mut w = rest.pop().unwrap();
        if w.connection_type != WireConnectionType::ToPins {
            let c = w.connected_wire_index;
            let shift = count_removed_below(removed, c);
            proof {
                lemma_count_below_bound(removed@, c as int);
            }
            w.connected_wire_index = c - shift as i32;
        }
        rev.push(w);
    }
    while rev.len() > 0
        invariant
            rev@.len() + wires@.len() == n == before.len(),
            forall|k: int| 0 <= k < rev@.len() ==> #[trigger] rev@[k] == shifted(before[n - 1 - k], removed@),
            forall|k: int| 0 <= k < wires@.len() ==> #[trigger] wires@[k] == shifted(before[k], removed@),
        decreases rev.len(),
    {
        let w = rev.pop().unwrap();
        wires.push(w);
    }
}

/// Number of marked entries.
pub open spec fn num_marked(m: Seq<bool>) -> nat
    decreases m.len(),
{
    if m.len() == 0 {
        0
    } else {
        num_marked(m.drop_last()) + if m.last() { 1nat } else { 0nat }
    }
}

/// The marked positions, in increasing order.
pub open spec fn marked_positions(m: Seq<bool>) -> Seq<usize>
    decreases m.len(),
{
    if m.len() == 0 {
        seq![]
    } else if m.last() {
        marked_positions(m.drop_last()).push((m.len() - 1) as usize)
    } else {
        marked_positions(m.drop_last())
    }
}

/// The unmarked positions, in increasing order.
pub open spec fn kept_positions(m: Seq<bool>) -> Seq<int>
    decreases m.len(),
{
    if m.len() == 0 {
        seq![]
    } else if m.last() {
        kept_positions(m.drop_last())
    } else {
        kept_positions(m.drop_last()).push(m.len() - 1)
    }
}

/// The wire list once the wires marked in `m` are gone: the others, in
/// their order, with their attachments renumbered.
pub open spec fn after_removal<P>(ws: Seq<WireDescription<P>>, m: Seq<bool>) -> Seq<WireDescription<P>> {
    kept_positions(m).map_values(|i: int| shifted(ws[i], marked_positions(m)))
}

/// Wire `i` goes along with the wires that `seed` picks: it is picked, or
/// it is attached to a wire that goes, through at most `k` attachments.
pub open spec fn doomed_within<P>(ws: Seq<WireDescription<P>>, seed: spec_fn(int) -> bool, i: int, k: nat) -> bool
    decreases k,
{
    &&& 0 <= i < ws.len()
    &&& (seed(i) || (k > 0 && ws[i].connection_type != WireConnectionType::ToPins
        && doomed_within(ws, seed, ws[i].connected_wire_index as int, (k - 1) as nat)))
}

/// Wire `i` goes along with the wires that `seed` picks.
pub open spec fn doomed<P>(ws: Seq<WireDescription<P>>, seed: spec_fn(int) -> bool, i: int) -> bool {
    exists|k: nat| #[trigger] doomed_within(ws, seed, i, k)
}

/// Which wires go along with the wires that `seed` picks.
pub open spec fn doomed_mask<P>(ws: Seq<WireDescription<P>>, seed: spec_fn(int) -> bool) -> Seq<bool> {
    Seq::new(ws.len(), |i: int| doomed(ws, seed, i))
}

/// Picks the one position `index`.
pub open spec fn only(index: int) -> spec_fn(int) -> bool {
    |i: int| i == index
}

proof fn lemma_num_marked_bound(m: Seq<bool>)
    ensures
        num_marked(m) <= m.len(),
    decreases m.len(),
{
    if m.len() > 0 {
        lemma_num_marked_bound(m.drop_last());
    }
}

proof fn lemma_num_marked_set(m: Seq<bool>, i: int)
    requires
        0 <= i < m.len(),
        !m[i],
    ensures
        num_marked(m.update(i, true)) == num_marked(m) + 1,
    decreases m.len(),
{
    if i == m.len() - 1 {
        assert(m.update(i, true).drop_last() =~= m.drop_last());
    } else {
        assert(m.update(i, true).drop_last() =~= m.drop_last().update(i, true));
        lemma_num_marked_set(m.drop_last(), i);
    }
}

proof fn lemma_count_below_all(rs: Seq<usize>, c: int)
    requires
        forall|a: int| 0 <= a < rs.len() ==> (rs[a] as int) < c,
    ensures
        count_below(rs, c) == rs.len(),
    decreases rs.len(),
{
    if rs.len() > 0 {
        lemma_count_below_all(rs.drop_last(), c);
    }
}

proof fn lemma_count_below_push_above(rs: Seq<usize>, x: usize, c: int)
    requires
        c <= x,
    ensures
        count_below(rs.push(x), c) == count_below(rs, c),
{
    assert(rs.push(x).drop_last() =~= rs);
}

/// What the marked and kept positions are: they split the positions
/// between them, each in increasing order, and the kept position at `a`
/// has exactly `a` kept positions below it (the rest below are marked).
pub proof fn lemma_positions(m: Seq<bool>)
    requires
        m.len() <= usize::MAX,
    ensures
        marked_positions(m).len() == num_marked(m),
        marked_positions(m).len() + kept_positions(m).len() == m.len(),
        forall|a: int| 0 <= a < marked_positions(m).len() ==>
            (#[trigger] marked_positions(m)[a]) < m.len() && m[marked_positions(m)[a] as int],
        forall|a: int| 0 <= a < kept_positions(m).len() ==>
            0 <= #[trigger] kept_positions(m)[a] < m.len() && !m[kept_positions(m)[a]],
        forall|a: int, b: int| 0 <= a < b < marked_positions(m).len() ==>
            marked_positions(m)[a] < marked_positions(m)[b],
        forall|a: int, b: int| 0 <= a < b < kept_positions(m).len() ==>
            kept_positions(m)[a] < kept_positions(m)[b],
        forall|a: int| 0 <= a < kept_positions(m).len() ==>
            #[trigger] kept_positions(m)[a] == a + count_below(marked_positions(m), kept_positions(m)[a]),
        forall|p: int| 0 <= p < m.len() && !m[p] ==> exists|a: int| 0 <= a < kept_positions(m).len() && #[trigger] kept_positions(m)[a] == p,
        forall|p: int| 0 <= p < m.len() && m[p] ==> exists|a: int| 0 <= a < marked_positions(m).len() && #[trigger] marked_positions(m)[a] == p,
    decreases m.len(),
{
    if m.len() > 0 {
        let d = m.drop_last();
        lemma_positions(d);
        let md = marked_positions(d);
        let kd = kept_positions(d);
        let last = m.len() - 1;
        if m.last() {
            assert forall|a: int| 0 <= a < kept_positions(m).len() implies
                #[trigger] kept_positions(m)[a] == a + count_below(marked_positions(m), kept_positions(m)[a]) by {
                lemma_count_below_push_above(md, last as usize, kd[a]);
            }
            assert forall|p: int| 0 <= p < m.len() && m[p] implies exists|a: int| 0 <= a < marked_positions(m).len() && #[trigger] marked_positions(m)[a] == p by {
                if p == last {
                    assert(marked_positions(m)[md.len() as int] == p);
                } else {
                    assert(d[p]);
                    let a = choose|a: int| 0 <= a < md.len() && #[trigger] md[a] == p;
                    assert(marked_positions(m)[a] == p);
                }
            }
            assert forall|p: int| 0 <= p < m.len() && !m[p] implies exists|a: int| 0 <= a < kept_positions(m).len() && #[trigger] kept_positions(m)[a] == p by {
                assert(p != last);
                assert(!d[p]);
                let a = choose|a: int| 0 <= a < kd.len() && #[trigger] kd[a] == p;
                assert(kept_positions(m)[a] == p);
            }
        } else {
            assert forall|a: int| 0 <= a < kept_positions(m).len() implies
                #[trigger] kept_positions(m)[a] == a + count_below(marked_positions(m), kept_positions(m)[a]) by {
                if a == kd.len() {
                    lemma_count_below_all(md, last);
                }
            }
            assert forall|p: int| 0 <= p < m.len() && !m[p] implies exists|a: int| 0 <= a < kept_positions(m).len() && #[trigger] kept_positions(m)[a] == p by {
                if p == last {
                    assert(kept_positions(m)[kd.len() as int] == p);
                } else {
                    assert(!d[p]);
                    let a = choose|a: int| 0 <= a < kd.len() && #[trigger] kd[a] == p;
                    assert(kept_positions(m)[a] == p);
                }
            }
            assert forall|p: int| 0 <= p < m.len() && m[p] implies exists|a: int| 0 <= a < marked_positions(m).len() && #[trigger] marked_positions(m)[a] == p by {
                assert(p != last);
                assert(d[p]);
                let a = choose|a: int| 0 <= a < md.len() && #[trigger] md[a] == p;
                assert(marked_positions(m)[a] == p);
            }
        }
    }
}

/// No unmarked wire is attached to a marked one.
pub open spec fn closed<P>(ws: Seq<WireDescription<P>>, m: Seq<bool>) -> bool {
    forall|i: int| 0 <= i < ws.len() && !m[i] && ws[i].connection_type != WireConnectionType::ToPins
        && 0 <= (#[trigger] ws[i]).connected_wire_index < ws.len() ==> !m[ws[i].connected_wire_index as int]
}

proof fn lemma_closed_contains_doomed<P>(ws: Seq<WireDescription<P>>, seed: spec_fn(int) -> bool, m: Seq<bool>, i: int, k: nat)
    requires
        m.len() == ws.len(),
        forall|j: int| 0 <= j < ws.len() && seed(j) ==> m[j],
        closed(ws, m),
        doomed_within(ws, seed, i, k),
    ensures
        m[i],
    decreases k,
{
    if !seed(i) {
        let c = ws[i].connected_wire_index as int;
        lemma_closed_contains_doomed(ws, seed, m, c, (k - 1) as nat);
    }
}

/// One sweep over the wires: marks each unmarked wire that is attached to
/// a marked one. Says whether it marked anything.
fn mark_pass<P>(wires: &Vec<WireDescription<P>>, mask: &mut Vec<bool>, Ghost(seed): Ghost<spec_fn(int) -> bool>) -> (changed: bool)
    requires
        old(mask)@.len() == wires@.len(),
        forall|i: int| 0 <= i < wires@.len() && old(mask)@[i] ==> doomed(wires@, seed, i),
    ensures
        final(mask)@.len() == wires@.len(),
        forall|i: int| 0 <= i < wires@.len() && final(mask)@[i] ==> doomed(wires@, seed, i),
        forall|i: int| 0 <= i < wires@.len() && old(mask)@[i] ==> final(mask)@[i],
        changed ==> num_marked(final(mask)@) > num_marked(old(mask)@),
        !changed ==> final(mask)@ == old(mask)@ && closed(wires@, final(mask)@),
{
    let n = wires.len();
    let ghost start = mask@;
    let mut changed = false;
    let mut i: usize = 0;
    while i < n
        invariant
            n == wires@.len(),
            mask@.len() == n,
            i <= n,
            forall|j: int| 0 <= j < n && mask@[j] ==> doomed(wires@, seed, j),
            forall|j: int| 0 <= j < n && start[j] ==> mask@[j],
            changed ==> num_marked(mask@) > num_marked(start),
            !changed ==> mask@ == start,
            !changed ==> forall|j: int| 0 <= j < i && !mask@[j] && wires@[j].connection_type != WireConnectionType::ToPins
                && 0 <= (#[trigger] wires@[j]).connected_wire_index < n ==> !mask@[wires@[j].connected_wire_index as int],
        decreases n - i,
    {
        let c = wires[i].connected_wire_index;
        if !mask[i] && wires[i].connection_type != WireConnectionType::ToPins && c >= 0 && (c as usize) < n && mask[c as usize] {
            proof {
                let k = choose|k: nat| #[trigger] doomed_within(wires@, seed, c as int, k);
                assert(doomed_within(wires@, seed, i as int, k + 1));
                lemma_num_marked_set(mask@, i as int);
            }
            mask.set(i, true);
            changed = true;
        }
        i = i + 1;
    }
    changed
}

/// Marks every wire that goes along with the ones already marked: those
/// attached to a marked wire, directly or through a chain of attachments.
pub(crate) fn mark_all_doomed<P>(wires: &Vec<WireDescription<P>>, mask: &mut Vec<bool>, Ghost(seed): Ghost<spec_fn(int) -> bool>)
    requires
        old(mask)@.len() == wires@.len(),
        forall|i: int| 0 <= i < wires@.len() && old(mask)@[i] ==> doomed(wires@, seed, i),
        forall|i: int| 0 <= i < wires@.len() && seed(i) ==> old(mask)@[i],
    ensures
        final(mask)@ == doomed_mask(wires@, seed),
{
    let n = wires.len();
    let mut done = false;
    proof {
        lemma_num_marked_bound(mask@);
    }
    while !done
        invariant
            n == wires@.len(),
            mask@.len() == n,
            num_marked(mask@) <= n,
            forall|i: int| 0 <= i < n && mask@[i] ==> doomed(wires@, seed, i),
            forall|i: int| 0 <= i < n && seed(i) ==> mask@[i],
            done ==> closed(wires@, mask@),
        decreases n - num_marked(mask@) + if done { 0int } else { 1int },
    {
        let changed = mark_pass(wires, mask, Ghost(seed));
        proof {
            lemma_num_marked_bound(mask@);
        }
        if !changed {
            done = true;
        }
    }
    proof {
        assert forall|i: int| 0 <= i < n implies mask@[i] == doomed(wires@, seed, i) by {
            if doomed(wires@, seed, i) {
                let k = choose|k: nat| #[trigger] doomed_within(wires@, seed, i, k);
                lemma_closed_contains_doomed(wires@, seed, mask@, i, k);
            }
        }
        assert(mask@ =~= doomed_mask(wires@, seed));
    }
}

/// Removes the wires that `mask` marks and renumbers the attachments of
/// the others. Returns how many were removed.
pub(crate) fn remove_marked<P>(wires: &mut Vec<WireDescription<P>>, mask: &Vec<bool>) -> (count: usize)
    requires
        old(wires)@.len() == mask@.len(),
        mask@.len() <= i32::MAX,
    ensures
        count == num_marked(mask@),
        final(wires)@ == after_removal(old(wires)@, mask@),
{
    let ghost ws = wires@;
    let ghost m = mask@;
    let n = wires.len();
    let mut removed: Vec<usize> = Vec::new();
    let mut i: usize = 0;
    while i < n
        invariant
            n == ws.len() == m.len(),
            mask@ == m,
            i <= n,
            removed@ == marked_positions(m.subrange(0, i as int)),
        decreases n - i,
    {
        assert(m.subrange(0, i + 1).drop_last() =~= m.subrange(0, i as int));
        if mask[i] {
            removed.push(i);
        }
        i = i + 1;
    }
    assert(m.subrange(0, n as int) =~= m);
    let mut rest = take_all(wires);
    let mut rev: Vec<WireDescription<P>> = Vec::new();
    while rest.len() > 0
        invariant
            rest@.len() <= n == ws.len(),
            rest@ == ws.subrange(0, rest@.len() as int),
            rev@.len() == n - rest@.len(),
            forall|k: int| 0 <= k < rev@.len() ==> #[trigger] rev@[k] == ws[n - 1 - k],
        decreases rest.len(),
    {
        let w = rest.pop().unwrap();
        rev.push(w);
    }
    let mut i: usize = 0;
    while i < n
        invariant
            n == ws.len() == m.len(),
            mask@ == m,
            i <= n,
            rev@.len() == n - i,
            forall|k: int| 0 <= k < rev@.len() ==> #[trigger] rev@[k] == ws[n - 1 - k],
            wires@ == kept_positions(m.subrange(0, i as int)).map_values(|j: int| ws[j]),
        decreases n - i,
    {
        assert(m.subrange(0, i + 1).drop_last() =~= m.subrange(0, i as int));
        let w = rev.pop().unwrap();
        if !mask[i] {
            wires.push(w);
            assert(wires@ =~= kept_positions(m.subrange(0, i + 1)).map_values(|j: int| ws[j]));
        } else {
            assert(wires@ =~= kept_positions(m.subrange(0, i + 1)).map_values(|j: int| ws[j]));
        }
        i = i + 1;
    }
    proof {
        lemma_positions(m);
    }
    let ghost kept = wires@;
    shift_connected_indices_after_removal(wires, removed.as_slice());
    assert(wires@ =~= after_removal(ws, m));
    removed.len()
}

/// Removing wires keeps every other attachment intact: a remaining wire
/// that was attached to a remaining wire is attached to that same wire at
/// its new position, and everything else about the remaining wires stays.
pub proof fn lemma_removal_keeps_attachments<P>(ws: Seq<WireDescription<P>>, m: Seq<bool>)
    requires
        m.len() == ws.len(),
        ws.len() <= i32::MAX,
    ensures
        after_removal(ws, m).len() == kept_positions(m).len(),
        forall|j: int, k: int| 0 <= j < kept_positions(m).len() && 0 <= k < kept_positions(m).len()
            && taps(ws[kept_positions(m)[j]], #[trigger] kept_positions(m)[k])
            ==> taps(#[trigger] after_removal(ws, m)[j], k),
        forall|j: int| 0 <= j < kept_positions(m).len() ==> {
            let (a, b) = (#[trigger] after_removal(ws, m)[j], ws[kept_positions(m)[j]]);
            &&& a.source_pin_address == b.source_pin_address
            &&& a.target_pin_address == b.target_pin_address
            &&& a.connection_type == b.connection_type
            &&& a.connected_wire_segment_index == b.connected_wire_segment_index
            &&& a.points == b.points
            &&& a.cached_source_point == b.cached_source_point
            &&& a.cached_target_point == b.cached_target_point
        },
{
    lemma_positions(m);
    let kept = kept_positions(m);
    let marked = marked_positions(m);
    assert forall|j: int, k: int| 0 <= j < kept.len() && 0 <= k < kept.len()
        && taps(ws[kept[j]], #[trigger] kept[k]) implies taps(#[trigger] after_removal(ws, m)[j], k) by {
        assert(kept[k] == k + count_below(marked, kept[k]));
    }
}

/// Nothing left unmarked by `doomed_mask` is attached to a wire it marks,
/// and every wire `seed` picks is marked.
pub proof fn lemma_doomed_mask_closed<P>(ws: Seq<WireDescription<P>>, seed: spec_fn(int) -> bool)
    ensures
        closed(ws, doomed_mask(ws, seed)),
        forall|i: int| 0 <= i < ws.len() && seed(i) ==> #[trigger] doomed_mask(ws, seed)[i],
{
    let m = doomed_mask(ws, seed);
    assert forall|i: int| 0 <= i < ws.len() && !m[i] && ws[i].connection_type != WireConnectionType::ToPins
        && 0 <= (#[trigger] ws[i]).connected_wire_index < ws.len() implies !m[ws[i].connected_wire_index as int] by {
        let c = ws[i].connected_wire_index as int;
        if m[c] {
            let k = choose|k: nat| #[trigger] doomed_within(ws, seed, c, k);
            assert(doomed_within(ws, seed, i, k + 1));
        }
    }
    assert forall|i: int| 0 <= i < ws.len() && seed(i) implies #[trigger] m[i] by {
        assert(doomed_within(ws, seed, i, 0));
    }
}

/// Ids of a chip's pins: inputs, then outputs.
pub open spec fn pin_ids(c: ChipDescription) -> Seq<i32> {
    c.input_pins@.map_values(|p: PinDescription| p.id) + c.output_pins@.map_values(|p: PinDescription| p.id)
}

/// Ids of the pins of the sub-chip `owner` (looked up in the library by
/// its name); none when it or its chip cannot be found.
pub open spec fn owner_pin_ids(subs: Seq<SubChipDescription>, chips: Seq<ChipDescription>, owner: i32) -> Seq<i32> {
    match first_with_id(subs, owner) {
        Some(s) => match chip_named(chips, s.name@) {
            Some(c) => pin_ids(c),
            None => seq![],
        },
        None => seq![],
    }
}

/// Wire `w` has an end on one of the pins `pins` of the sub-chip `owner`.
pub open spec fn touches<P>(w: WireDescription<P>, owner: i32, pins: Seq<i32>) -> bool {
    ||| w.source_pin_address.pin_owner_id == owner && pins.contains(w.source_pin_address.pin_id)
    ||| w.target_pin_address.pin_owner_id == owner && pins.contains(w.target_pin_address.pin_id)
}

/// Picks wire `index` and every wire with an end on one of `pins` of `owner`.
pub open spec fn bus_seed<P>(ws: Seq<WireDescription<P>>, index: int, owner: i32, pins: Seq<i32>) -> spec_fn(int) -> bool {
    |i: int| i == index || (0 <= i < ws.len() && touches(ws[i], owner, pins))
}

/// Ids of the pins of the sub-chip `owner`, looked up in `library` by the
/// sub-chip's name (inputs, then outputs); empty when either is missing.
pub fn owner_pins(sub_chips: &[SubChipDescription], library: &ChipLibrary, owner: i32) -> (ids: Vec<i32>)
    ensures
        ids@ == owner_pin_ids(sub_chips@, library.chips@, owner),
{
    let i = match find_sub_chip(sub_chips, owner) {
        Some(i) => i,
        None => {
            return Vec::new();
        },
    };
    match library.try_get(sub_chips[i].name.as_str()) {
        Some(c) => {
            let mut ids: Vec<i32> = Vec::new();
            let mut k: usize = 0;
            while k < c.input_pins.len()
                invariant
                    k <= c.input_pins@.len(),
                    ids@ == c.input_pins@.subrange(0, k as int).map_values(|p: PinDescription| p.id),
                decreases c.input_pins.len() - k,
            {
                ids.push(c.input_pins[k].id);
                k = k + 1;
                assert(ids@ =~= c.input_pins@.subrange(0, k as int).map_values(|p: PinDescription| p.id));
            }
            let mut k: usize = 0;
            while k < c.output_pins.len()
                invariant
                    k <= c.output_pins@.len(),
                    ids@ == c.input_pins@.map_values(|p: PinDescription| p.id)
                        + c.output_pins@.subrange(0, k as int).map_values(|p: PinDescription| p.id),
                decreases c.output_pins.len() - k,
            {
                ids.push(c.output_pins[k].id);
                k = k + 1;
                assert(ids@ =~= c.input_pins@.map_values(|p: PinDescription| p.id)
                    + c.output_pins@.subrange(0, k as int).map_values(|p: PinDescription| p.id));
            }
            assert(ids@ =~= pin_ids(*c));
            ids
        },
        None => Vec::new(),
    }
}

fn contains_id(ids: &[i32], id: i32) -> (b: bool)
    ensures
        b == ids@.contains(id),
{
    let mut k: usize = 0;
    while k < ids.len()
        invariant
            k <= ids@.len(),
            forall|j: int| 0 <= j < k ==> ids@[j] != id,
        decreases ids.len() - k,
    {
        if ids[k] == id {
            return true;
        }
        k = k + 1;
    }
    false
}

/// How many leading points of the removed wire's route a detached wire
/// keeps, for its attachment on segment `seg` (a route of `len` points).
pub open spec fn route_len(seg: i32, len: nat) -> int {
    if seg >= 0 {
        if seg + 1 < len { seg + 1 } else { len as int }
    } else {
        len as int
    }
}

/// The stretch of the removed wire's drawn route (`route`, both ends
/// included) that lies between its start and the attachment on segment
/// `seg`, without the start itself.
pub open spec fn route_to_attachment<P>(route: Seq<P>, seg: i32) -> Seq<P> {
    let t = route_len(seg, route.len());
    if t <= 1 { seq![] } else { route.subrange(1, t) }
}

/// `r` is wire `dep`, once detached from the wire `anchor` it was attached
/// to (whose drawn route was `route`): the drawn shape survives as bend
/// points, and the attachment falls back to plain pins (or, for a source
/// attachment onto a wire that was itself attached by its source, moves on
/// to that wire's attachment).
pub open spec fn detached_from<P>(r: WireDescription<P>, dep: WireDescription<P>, anchor: WireDescription<P>, route: Seq<P>, zero: P) -> bool {
    &&& r.source_pin_address == dep.source_pin_address
    &&& r.target_pin_address == dep.target_pin_address
    &&& match dep.connection_type {
        WireConnectionType::ToWireSource => {
            &&& r.points@ == route_to_attachment(route, dep.connected_wire_segment_index) + seq![dep.cached_source_point] + dep.points@
            &&& r.cached_target_point == dep.cached_target_point
            &&& if anchor.connection_type == WireConnectionType::ToWireSource {
                &&& r.connection_type == WireConnectionType::ToWireSource
                &&& r.connected_wire_index == anchor.connected_wire_index
                &&& r.connected_wire_segment_index == anchor.connected_wire_segment_index
                &&& r.cached_source_point == anchor.cached_source_point
            } else {
                &&& r.connection_type == WireConnectionType::ToPins
                &&& r.connected_wire_index == 0
                &&& r.connected_wire_segment_index == 0
                &&& r.cached_source_point == zero
            }
        },
        WireConnectionType::ToWireTarget => {
            &&& r.points@ == dep.points@.push(dep.cached_target_point)
            &&& r.connection_type == WireConnectionType::ToPins
            &&& r.connected_wire_index == 0
            &&& r.connected_wire_segment_index == 0
            &&& r.cached_source_point == dep.cached_source_point
            &&& r.cached_target_point == zero
        },
        WireConnectionType::ToPins => r == dep,
    }
}

/// `ds` is `ws` with every wire attached to wire `index` detached from it.
pub open spec fn all_detached<P>(ds: Seq<WireDescription<P>>, ws: Seq<WireDescription<P>>, index: int, route: Seq<P>, zero: P) -> bool {
    &&& ds.len() == ws.len()
    &&& forall|i: int| 0 <= i < ws.len() ==> if i != index && taps(ws[i], index) {
        detached_from(#[trigger] ds[i], ws[i], ws[index], route, zero)
    } else {
        ds[i] == ws[i]
    }
}

/// Only position `index` marked, among `n`.
pub open spec fn single_mask(n: nat, index: int) -> Seq<bool> {
    Seq::new(n, |i: int| i == index)
}

/// Detaches `dep` from the wire it is attached to, that wire being about
/// to go (its connection kind, attachment and source point are given, and
/// its drawn route `route`).
fn detach_dependent<P: Copy>(
    dep: WireDescription<P>,
    Ghost(anchor): Ghost<WireDescription<P>>,
    anchor_type: WireConnectionType,
    anchor_index: i32,
    anchor_segment: i32,
    anchor_source_point: P,
    route: &[P],
    zero: P,
) -> (r: WireDescription<P>)
    requires
        anchor_type == anchor.connection_type,
        anchor_index == anchor.connected_wire_index,
        anchor_segment == anchor.connected_wire_segment_index,
        anchor_source_point == anchor.cached_source_point,
        dep.connection_type == WireConnectionType::ToWireSource ==> dep.connected_wire_segment_index != -1,
    ensures
        detached_from(r, dep, anchor, route@, zero),
{
    match dep.connection_type {
        WireConnectionType::ToWireSource => {
            let seg = dep.connected_wire_segment_index;
            let len = route.len();
            let t: usize = if seg >= 0 {
                if (seg as usize) + 1 < len { (seg as usize) + 1 } else { len }
            } else {
                len
            };
            let mut points: Vec<P> = Vec::new();
            if t > 1 {
                let mut k: usize = 1;
                while k < t
                    invariant
                        1 <= k <= t <= route@.len(),
                        points@ == route@.subrange(1, k as int),
                    decreases t - k,
                {
                    points.push(route[k]);
                    k = k + 1;
                    assert(points@ =~= route@.subrange(1, k as int));
                }
            }
            assert(points@ =~= route_to_attachment(route@, seg));
            points.push(dep.cached_source_point);
            let ghost head = points@;
            let mut j: usize = 0;
            while j < dep.points.len()
                invariant
                    j <= dep.points@.len(),
                    points@ == head + dep.points@.subrange(0, j as int),
                decreases dep.points.len() - j,
            {
                points.push(dep.points[j]);
                j = j + 1;
                assert(points@ =~= head + dep.points@.subrange(0, j as int));
            }
            assert(points@ =~= route_to_attachment(route@, seg) + seq![dep.cached_source_point] + dep.points@);
            if anchor_type == WireConnectionType::ToWireSource {
                WireDescription {
                    source_pin_address: dep.source_pin_address,
                    target_pin_address: dep.target_pin_address,
                    connection_type: WireConnectionType::ToWireSource,
                    connected_wire_index: anchor_index,
                    connected_wire_segment_index: anchor_segment,
                    points,
                    cached_source_point: anchor_source_point,
                    cached_target_point: dep.cached_target_point,
                }
            } else {
                WireDescription {
                    source_pin_address: dep.source_pin_address,
                    target_pin_address: dep.target_pin_address,
                    connection_type: WireConnectionType::ToPins,
                    connected_wire_index: 0,
                    connected_wire_segment_index: 0,
                    points,
                    cached_source_point: zero,
                    cached_target_point: dep.cached_target_point,
                }
            }
        },
        WireConnectionType::ToWireTarget => {
            let mut points: Vec<P> = Vec::new();
            let mut j: usize = 0;
            while j < dep.points.len()
                invariant
                    j <= dep.points@.len(),
                    points@ == dep.points@.subrange(0, j as int),
                decreases dep.points.len() - j,
            {
                points.push(dep.points[j]);
                j = j + 1;
                assert(points@ =~= dep.points@.subrange(0, j as int));
            }
            points.push(dep.cached_target_point);
            assert(points@ =~= dep.points@.push(dep.cached_target_point));
            WireDescription {
                source_pin_address: dep.source_pin_address,
                target_pin_address: dep.target_pin_address,
                connection_type: WireConnectionType::ToPins,
                connected_wire_index: 0,
                connected_wire_segment_index: 0,
                points,
                cached_source_point: dep.cached_source_point,
                cached_target_point: zero,
            }
        },
        WireConnectionType::ToPins => dep,
    }
}

proof fn lemma_num_marked_none(m: Seq<bool>)
    requires
        forall|i: int| 0 <= i < m.len() ==> !m[i],
    ensures
        num_marked(m) == 0,
    decreases m.len(),
{
    if m.len() > 0 {
        lemma_num_marked_none(m.drop_last());
    }
}

/// `n` unmarked positions.
fn unmarked(n: usize) -> (mask: Vec<bool>)
    ensures
        mask@.len() == n,
        forall|j: int| 0 <= j < n ==> !mask@[j],
{
    let mut mask: Vec<bool> = Vec::new();
    let mut i: usize = 0;
    while i < n
        invariant
            i <= n,
            mask@.len() == i,
            forall|j: int| 0 <= j < i ==> !mask@[j],
        decreases n - i,
    {
        mask.push(false);
        i = i + 1;
    }
    mask
}

/// Removes wire `index`, in one of two ways:
/// - a bus wire (`is_bus`) takes along every wire with an end on one of the
///   pins of the bus origin (the sub-chip at its source end, whose pins are
///   looked up through `sub_chips` and `library`), and every wire attached
///   to a removed one, transitively;
/// - any other wire goes alone, and the wires attached to it are detached:
///   they keep their drawn shape as bend points (`route` is the removed
///   wire's drawn route, both ends included) and take `zero` for the
///   attachment points they no longer use.
///
/// The remaining wires keep their order and their attachment indices are
/// renumbered. Returns how many wires went (none for an index past the
/// end). A segment index of -1 on a wire attached by its source overflows
/// the route arithmetic, so it is left out.
pub fn delete_wire<P: Copy>(
    wires: &mut Vec<WireDescription<P>>,
    index: usize,
    sub_chips: &[SubChipDescription],
    library: &ChipLibrary,
    is_bus: bool,
    route: &[P],
    zero: P,
) -> (removed: usize)
    requires
        old(wires)@.len() <= i32::MAX,
        !is_bus && index < old(wires)@.len() ==> forall|i: int| 0 <= i < old(wires)@.len() && i != index
            && #[trigger] taps(old(wires)@[i], index as int)
            && old(wires)@[i].connection_type == WireConnectionType::ToWireSource
            ==> old(wires)@[i].connected_wire_segment_index != -1,
    ensures
        index >= old(wires)@.len() ==> removed == 0 && final(wires)@ == old(wires)@,
        index < old(wires)@.len() && is_bus ==> {
            let ws = old(wires)@;
            let owner = ws[index as int].source_pin_address.pin_owner_id;
            let m = doomed_mask(ws, bus_seed(ws, index as int, owner, owner_pin_ids(sub_chips@, library.chips@, owner)));
            &&& removed == num_marked(m)
            &&& final(wires)@ == after_removal(ws, m)
        },
        index < old(wires)@.len() && !is_bus ==> {
            &&& removed == 1
            &&& exists|ds: Seq<WireDescription<P>>| #[trigger] all_detached(ds, old(wires)@, index as int, route@, zero)
                && final(wires)@ == after_removal(ds, single_mask(old(wires)@.len(), index as int))
        },
{
    let n = wires.len();
    if index >= n {
        return 0;
    }
    let ghost ws = wires@;
    if is_bus {
        let owner = wires[index].source_pin_address.pin_owner_id;
        let pins = owner_pins(sub_chips, library, owner);
        let ghost seed = bus_seed(ws, index as int, owner, pins@);
        let mut mask: Vec<bool> = Vec::new();
        let mut i: usize = 0;
        while i < n
            invariant
                n == ws.len(),
                wires@ == ws,
                seed == bus_seed(ws, index as int, owner, pins@),
                i <= n,
                mask@.len() == i,
                forall|j: int| 0 <= j < i ==> mask@[j] == seed(j),
            decreases n - i,
        {
            let w = &wires[i];
            let t = i == index
                || (w.source_pin_address.pin_owner_id == owner && contains_id(pins.as_slice(), w.source_pin_address.pin_id))
                || (w.target_pin_address.pin_owner_id == owner && contains_id(pins.as_slice(), w.target_pin_address.pin_id));
            assert(seed(i as int) == (i == index || touches(ws[i as int], owner, pins@)));
            mask.push(t);
            i = i + 1;
        }
        proof {
            assert forall|j: int| 0 <= j < n && mask@[j] implies doomed(ws, seed, j) by {
                assert(doomed_within(ws, seed, j, 0));
            }
        }
        mark_all_doomed(wires, &mut mask, Ghost(seed));
        return remove_marked(wires, &mask);
    }
    let anchor_type = wires[index].connection_type;
    let anchor_index = wires[index].connected_wire_index;
    let anchor_segment = wires[index].connected_wire_segment_index;
    let anchor_source_point = wires[index].cached_source_point;
    let ghost anchor = ws[index as int];
    let mut rest = take_all(wires);
    let mut rev: Vec<WireDescription<P>> = Vec::new();
    while rest.len() > 0
        invariant
            rest@.len() <= n == ws.len(),
            rest@ == ws.subrange(0, rest@.len() as int),
            rev@.len() == n - rest@.len(),
            forall|k: int| 0 <= k < rev@.len() ==> #[trigger] rev@[k] == ws[n - 1 - k],
        decreases rest.len(),
    {
        let w = rest.pop().unwrap();
        rev.push(w);
    }
    let mut i: usize = 0;
    while i < n
        invariant
            n == ws.len(),
            index < n,
            anchor == ws[index as int],
            anchor_type == anchor.connection_type,
            anchor_index == anchor.connected_wire_index,
            anchor_segment == anchor.connected_wire_segment_index,
            anchor_source_point == anchor.cached_source_point,
            forall|k: int| 0 <= k < n && k != index && #[trigger] taps(ws[k], index as int)
                && ws[k].connection_type == WireConnectionType::ToWireSource
                ==> ws[k].connected_wire_segment_index != -1,
            i <= n,
            rev@.len() == n - i,
            forall|k: int| 0 <= k < rev@.len() ==> #[trigger] rev@[k] == ws[n - 1 - k],
            wires@.len() == i,
            forall|k: int| 0 <= k < i ==> if k != index && taps(ws[k], index as int) {
                detached_from(#[trigger] wires@[k], ws[k], anchor, route@, zero)
            } else {
                wires@[k] == ws[k]
            },
        decreases n - i,
    {
        let w = rev.pop().unwrap();
        let c = w.connected_wire_index;
        if i != index && w.connection_type != WireConnectionType::ToPins && c >= 0 && (c as usize) == index {
            assert(taps(ws[i as int], index as int));
            let d = detach_dependent(w, Ghost(anchor), anchor_type, anchor_index, anchor_segment, anchor_source_point, route, zero);
            wires.push(d);
        } else {
            wires.push(w);
        }
        i = i + 1;
    }
    let ghost ds = wires@;
    assert(all_detached(ds, ws, index as int, route@, zero));
    let mut mask = unmarked(n);
    proof {
        lemma_num_marked_none(mask@);
        lemma_num_marked_set(mask@, index as int);
    }
    mask.set(index, true);
    assert(mask@ =~= single_mask(n as nat, index as int));
    remove_marked(wires, &mask)
}

/// Removing the wires that go along with `seed`'s picks leaves no
/// remaining wire attached to a removed one: each remaining wire that was
/// attached to a wire of the list is attached to that same wire at its new
/// position.
pub proof fn lemma_cascade_keeps_attachments<P>(ws: Seq<WireDescription<P>>, seed: spec_fn(int) -> bool)
    requires
        ws.len() <= i32::MAX,
    ensures
        forall|j: int, c: int| 0 <= j < kept_positions(doomed_mask(ws, seed)).len() && 0 <= c < ws.len()
            && #[trigger] taps(ws[kept_positions(doomed_mask(ws, seed))[j]], c)
            ==> exists|k: int| #![trigger kept_positions(doomed_mask(ws, seed))[k]] 0 <= k < kept_positions(doomed_mask(ws, seed)).len()
                && kept_positions(doomed_mask(ws, seed))[k] == c
                && taps(after_removal(ws, doomed_mask(ws, seed))[j], k),
{
    let m = doomed_mask(ws, seed);
    let kept = kept_positions(m);
    lemma_doomed_mask_closed(ws, seed);
    lemma_positions(m);
    lemma_removal_keeps_attachments(ws, m);
    assert forall|j: int, c: int| 0 <= j < kept.len() && 0 <= c < ws.len() && #[trigger] taps(ws[kept[j]], c)
        implies exists|k: int| #![trigger kept[k]] 0 <= k < kept.len() && kept[k] == c && taps(after_removal(ws, m)[j], k) by {
        assert(!m[kept[j]]);
        assert(!m[c]);
        let k = choose|k: int| 0 <= k < kept.len() && #[trigger] kept[k] == c;
        assert(taps(after_removal(ws, m)[j], k));
    }
}

/// Deleting a wire that is not attached to itself, with the wires attached
/// to it detached first, leaves nothing attached to it; every other
/// attachment is kept, renumbered.
pub proof fn lemma_detached_removal_keeps_attachments<P>(
    ds: Seq<WireDescription<P>>,
    ws: Seq<WireDescription<P>>,
    index: int,
    route: Seq<P>,
    zero: P,
)
    requires
        0 <= index < ws.len() <= i32::MAX,
        all_detached(ds, ws, index, route, zero),
        !taps(ws[index], index),
    ensures
        forall|i: int| 0 <= i < ws.len() && i != index ==> !taps(#[trigger] ds[i], index),
        forall|j: int, c: int| 0 <= j < kept_positions(single_mask(ws.len(), index)).len() && 0 <= c < ws.len()
            && #[trigger] taps(ds[kept_positions(single_mask(ws.len(), index))[j]], c)
            ==> exists|k: int| #![trigger kept_positions(single_mask(ws.len(), index))[k]] 0 <= k < kept_positions(single_mask(ws.len(), index)).len()
                && kept_positions(single_mask(ws.len(), index))[k] == c
                && taps(after_removal(ds, single_mask(ws.len(), index))[j], k),
{
    let m = single_mask(ws.len(), index);
    let kept = kept_positions(m);
    assert forall|i: int| 0 <= i < ws.len() && i != index implies !taps(#[trigger] ds[i], index) by {
        if taps(ws[i], index) {
            assert(detached_from(ds[i], ws[i], ws[index], route, zero));
        }
    }
    lemma_positions(m);
    lemma_removal_keeps_attachments(ds, m);
    assert forall|j: int, c: int| 0 <= j < kept.len() && 0 <= c < ws.len() && #[trigger] taps(ds[kept[j]], c)
        implies exists|k: int| #![trigger kept[k]] 0 <= k < kept.len() && kept[k] == c && taps(after_removal(ds, m)[j], k) by {
        assert(kept[j] != index);
        assert(c != index);
        assert(!m[c]);
        let k = choose|k: int| 0 <= k < kept.len() && #[trigger] kept[k] == c;
        assert(taps(after_removal(ds, m)[j], k));
    }
}

} // verus!
