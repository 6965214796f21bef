//! Where each component's and each wire's own geometry lies in a built
//! scene's vertex buffers, so a caller can fade exactly the components
//! being dragged and the wires that run between them.
use std::collections::{HashMap, HashSet};
use std::ops::Range;
use vstd::prelude::*;

verus! {

broadcast use vstd::std_specs::hash::group_hash_axioms;

/// Vertex and label index ranges of one placed sub-chip's own geometry
/// (body, name label, embedded displays).
#[derive(Debug)]
pub struct ComponentSpan {
    pub triangles: Range<usize>,
    pub labels: Range<usize>,
}

/// The component spans of a scene, by sub-chip id.
#[derive(Debug)]
pub struct ComponentSpans {
    pub spans: HashMap<i32, ComponentSpan>,
}

impl ComponentSpans {
    /// No spans.
    pub fn new() -> (s: Self)
        ensures
            s.spans@ == Map::<i32, ComponentSpan>::empty(),
    {
        ComponentSpans { spans: HashMap::new() }
    }

    /// The span of sub-chip `subchip_id`, if recorded.
    pub fn get(&self, subchip_id: i32) -> (r: Option<&ComponentSpan>)
        ensures
            match r {
                Some(span) => self.spans@.contains_key(subchip_id) && *span == self.spans@[subchip_id],
                None => !self.spans@.contains_key(subchip_id),
            },
    {
        self.spans.get(&subchip_id)
    }

    /// Records (or replaces) the span of sub-chip `subchip_id`.
    pub fn insert(&mut self, subchip_id: i32, span: ComponentSpan)
        ensures
            final(self).spans@ == old(self).spans@.insert(subchip_id, span),
    {
        self.spans.insert(subchip_id, span);
    }
}

/// Vertex index range of one wire's own strands, and the owners of the pins
/// at its two ends.
#[derive(Debug)]
pub struct WireEndpoints {
    pub triangles: Range<usize>,
    pub owners: (i32, i32),
}

/// The wire spans of a scene, by wire position.
#[derive(Debug)]
pub struct WireSpans {
    pub spans: HashMap<usize, WireEndpoints>,
}

/// Both ends of `w` belong to components in `owner_ids`.
pub open spec fn runs_within(w: WireEndpoints, owner_ids: Set<i32>) -> bool {
    owner_ids.contains(w.owners.0) && owner_ids.contains(w.owners.1)
}

impl WireSpans {
    /// No spans.
    pub fn new() -> (s: Self)
        ensures
            s.spans@ == Map::<usize, WireEndpoints>::empty(),
    {
        WireSpans { spans: HashMap::new() }
    }

    /// Records (or replaces) the span of wire `wire_idx`.
    pub fn insert(&mut self, wire_idx: usize, span: WireEndpoints)
        ensures
            final(self).spans@ == old(self).spans@.insert(wire_idx, span),
    {
        self.spans.insert(wire_idx, span);
    }

    /// Every wire span whose two ends both belong to `owner_ids`: the wires
    /// internal to a set of carried components, which fade along with them.
    /// In no particular order.
    pub fn fully_within<'a>(&'a self, owner_ids: &HashSet<i32>) -> (r: Vec<&'a WireEndpoints>)
        ensures
            forall|k: int| 0 <= k < r@.len() ==> self.spans@.values().contains(*#[trigger] r@[k])
                && runs_within(*r@[k], owner_ids@),
            forall|w: WireEndpoints| #[trigger] self.spans@.values().contains(w) && runs_within(w, owner_ids@)
                ==> exists|k: int| 0 <= k < r@.len() && *r@[k] == w,
    {
        let mut r: Vec<&'a WireEndpoints> = Vec::new();
        for w in it: self.spans.values()
            invariant
                it.seq().unref().to_set() == self.spans@.values(),
                forall|k: int| 0 <= k < r@.len() ==> self.spans@.values().contains(*#[trigger] r@[k])
                    && runs_within(*r@[k], owner_ids@),
                forall|j: int| 0 <= j < it.index() && runs_within(*#[trigger] it.seq()[j], owner_ids@)
                    ==> exists|k: int| 0 <= k < r@.len() && *r@[k] == *it.seq()[j],
                forall|w: WireEndpoints| #[trigger] self.spans@.values().contains(w) && runs_within(w, owner_ids@)
                    && (exists|j: int| 0 <= j < it.index() && *it.seq()[j] == w)
                    ==> exists|k: int| 0 <= k < r@.len() && *r@[k] == w,
        {
            let ghost before = r@;
            let ghost idx = it.index();
            if owner_ids.contains(&w.owners.0) && owner_ids.contains(&w.owners.1) {
                proof {
                    assert(it.seq().unref()[idx] == *w);
                    assert(it.seq().unref().to_set().contains(*w));
                }
                r.push(w);
                assert(*r@[before.len() as int] == *w);
            }
            assert forall|w: WireEndpoints| #[trigger] self.spans@.values().contains(w) && runs_within(w, owner_ids@)
                && (exists|j: int| 0 <= j <= idx && *it.seq()[j] == w)
                implies exists|k: int| 0 <= k < r@.len() && *r@[k] == w by {
                let j = choose|j: int| 0 <= j <= idx && *it.seq()[j] == w;
                if j < idx {
                    let k = choose|k: int| 0 <= k < before.len() && *before[k] == *it.seq()[j];
                    assert(r@[k] == before[k]);
                } else {
                    assert(*r@[before.len() as int] == *it.seq()[j]);
                }
            }
            assert forall|j: int| 0 <= j <= idx && runs_within(*#[trigger] it.seq()[j], owner_ids@)
                implies exists|k: int| 0 <= k < r@.len() && *r@[k] == *it.seq()[j] by {
                if j < idx {
                    let k = choose|k: int| 0 <= k < before.len() && *before[k] == *it.seq()[j];
                    assert(r@[k] == before[k]);
                } else {
                    assert(*r@[before.len() as int] == *it.seq()[j]);
                }
            }
        }
        r
    }
}

} // verus!
