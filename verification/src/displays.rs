//! Embedded displays: which chips can be shown as a display on another
//! chip's body, resolving a display's driving sub-chip, and the rows of the
//! chip customizer's DISPLAYS list.
use vstd::prelude::*;
use crate::description::{
    bit_count_value, chip_named, find_sub_chip, first_with_id, ChipDescription, ChipLibrary, ChipType,
    PinDescription, SubChipDescription,
};
use crate::text::{chars_of, trim_bounds, trimmed};

verus! {

/// The four builtin display kinds.
pub open spec fn display_type(t: ChipType) -> bool {
    t == ChipType::SevenSegmentDisplay || t == ChipType::DisplayRgb || t == ChipType::DisplayDot
        || t == ChipType::DisplayLed
}

/// A chip that can be shown as an embedded display: a builtin display, or a
/// custom chip that carries displays of its own (placing it brings its
/// whole display tree along).
pub open spec fn embeddable(c: ChipDescription) -> bool {
    display_type(c.chip_type) || (c.chip_type == ChipType::Custom && c.displays@.len() > 0)
}

/// Whether `chip_type` can be placed as an embedded display on another chip.
pub fn is_display_type(chip_type: ChipType) -> (b: bool)
    ensures
        b == display_type(chip_type),
{
    match chip_type {
        ChipType::SevenSegmentDisplay | ChipType::DisplayRgb | ChipType::DisplayDot | ChipType::DisplayLed => true,
        _ => false,
    }
}

/// Whether a whole chip can be shown as an embedded display.
pub fn can_be_embedded_display(desc: &ChipDescription) -> (b: bool)
    ensures
        b == embeddable(*desc),
{
    is_display_type(desc.chip_type) || (desc.chip_type == ChipType::Custom && desc.displays.len() > 0)
}

/// The library chip of the first of `subs` with id `sub_chip_id`, if both
/// exist.
pub open spec fn resolved(subs: Seq<SubChipDescription>, sub_chip_id: i32, chips: Seq<ChipDescription>) -> Option<ChipDescription> {
    match first_with_id(subs, sub_chip_id) {
        Some(s) => chip_named(chips, s.name@),
        None => None,
    }
}

/// The chip driving a display entry: the sub-chip `sub_chip_id` of `owner`
/// (ids are unique per owner), looked up in `library` by name.
pub fn resolve_sub_chip<'a>(owner: &ChipDescription, sub_chip_id: i32, library: &'a ChipLibrary) -> (r: Option<&'a ChipDescription>)
    ensures
        match r {
            Some(c) => resolved(owner.sub_chips@, sub_chip_id, library.chips@) == Some(*c),
            None => resolved(owner.sub_chips@, sub_chip_id, library.chips@) is None,
        },
{
    resolve_sub_chip_id(owner.sub_chips.as_slice(), sub_chip_id, library)
}

/// The chip driving a display entry, given the owner's sub-chip list.
pub fn resolve_sub_chip_id<'a>(owner_sub_chips: &[SubChipDescription], sub_chip_id: i32, library: &'a ChipLibrary) -> (r: Option<&'a ChipDescription>)
    ensures
        match r {
            Some(c) => resolved(owner_sub_chips@, sub_chip_id, library.chips@) == Some(*c),
            None => resolved(owner_sub_chips@, sub_chip_id, library.chips@) is None,
        },
{
    match find_sub_chip(owner_sub_chips, sub_chip_id) {
        Some(i) => library.try_get(owner_sub_chips[i].name.as_str()),
        None => None,
    }
}

/// Total width in bits of a chip's input pins.
pub open spec fn input_bits(pins: Seq<PinDescription>) -> nat
    decreases pins.len(),
{
    if pins.len() == 0 {
        0
    } else {
        input_bits(pins.drop_last()) + bit_count_value(pins.last().bit_count) as nat
    }
}

/// Total input width in bits of a chip that is not simulated yet.
pub fn total_input_bits(draft: &ChipDescription) -> (n: u32)
    requires
        input_bits(draft.input_pins@) <= u32::MAX,
    ensures
        n == input_bits(draft.input_pins@),
{
    let pins = &draft.input_pins;
    let mut n: u32 = 0;
    let mut k: usize = 0;
    while k < pins.len()
        invariant
            k <= pins@.len(),
            pins == &draft.input_pins,
            input_bits(pins@) <= u32::MAX,
            n == input_bits(pins@.subrange(0, k as int)),
        decreases pins.len() - k,
    {
        assert(pins@.subrange(0, k + 1).drop_last() =~= pins@.subrange(0, k as int));
        proof {
            lemma_input_bits_prefix(pins@, k + 1);
        }
        n = n + pins[k].bit_count.to_int();
        k = k + 1;
    }
    assert(pins@.subrange(0, pins@.len() as int) =~= pins@);
    n
}

proof fn lemma_input_bits_prefix(pins: Seq<PinDescription>, k: int)
    requires
        0 <= k <= pins.len(),
    ensures
        input_bits(pins.subrange(0, k)) <= input_bits(pins),
    decreases pins.len(),
{
    if k < pins.len() {
        assert(pins.drop_last().subrange(0, k) =~= pins.subrange(0, k));
        lemma_input_bits_prefix(pins.drop_last(), k);
    } else {
        assert(pins.subrange(0, k) =~= pins);
    }
}

/// One row of the chip customizer's DISPLAYS list: a sub-chip of the chip
/// being customized that can be shown as an embedded display.
#[derive(Debug, Clone, PartialEq)]
pub struct DisplayListEntry {
    pub sub_chip_id: i32,
    /// The instance's label, or its chip's name when the label is missing
    /// or blank.
    pub label: String,
    pub chip_type: ChipType,
    /// Already placed on the body (each sub-chip drives at most one display).
    pub placed: bool,
}

/// The library chip of `s` exists and can be embedded.
pub open spec fn listable(chips: Seq<ChipDescription>, s: SubChipDescription) -> bool {
    match chip_named(chips, s.name@) {
        Some(c) => embeddable(c),
        None => false,
    }
}

/// The sub-chips listed, in the order given by `order` (positions into
/// the sub-chip list): those whose library chip can be embedded.
pub open spec fn listed_subs(subs: Seq<SubChipDescription>, chips: Seq<ChipDescription>, order: Seq<usize>) -> Seq<SubChipDescription>
    decreases order.len(),
{
    if order.len() == 0 {
        seq![]
    } else {
        let rest = listed_subs(subs, chips, order.drop_last());
        let o = order.last() as int;
        if o < subs.len() && listable(chips, subs[o]) {
            rest.push(subs[o])
        } else {
            rest
        }
    }
}

/// `e` is the DISPLAYS row of sub-chip `s` of `draft`.
pub open spec fn is_entry_for(e: DisplayListEntry, draft: ChipDescription, chips: Seq<ChipDescription>, s: SubChipDescription) -> bool {
    let c = chip_named(chips, s.name@).unwrap();
    &&& e.sub_chip_id == s.id
    &&& e.chip_type == c.chip_type
    &&& e.label@ == match s.label {
        Some(l) => if trimmed(l@).len() > 0 { l@ } else { c.name@ },
        None => c.name@,
    }
    &&& e.placed == exists|d: int| 0 <= d < draft.displays@.len() && (#[trigger] draft.displays@[d]).sub_chip_id == s.id
}

/// The rows of the chip customizer's DISPLAYS list for `draft`: every
/// sub-chip whose chip can be shown as an embedded display, in the order
/// `order` gives (the positions of `draft`'s sub-chips in reading order:
/// by x, then by y).
pub fn display_entries(draft: &ChipDescription, library: &ChipLibrary, order: &[usize]) -> (r: Vec<DisplayListEntry>)
    ensures
        r@.len() == listed_subs(draft.sub_chips@, library.chips@, order@).len(),
        forall|k: int| 0 <= k < r@.len() ==> is_entry_for(#[trigger] r@[k], *draft, library.chips@,
            listed_subs(draft.sub_chips@, library.chips@, order@)[k]),
{
    let mut r: Vec<DisplayListEntry> = Vec::new();
    let mut i: usize = 0;
    while i < order.len()
        invariant
            i <= order@.len(),
            r@.len() == listed_subs(draft.sub_chips@, library.chips@, order@.subrange(0, i as int)).len(),
            forall|k: int| 0 <= k < r@.len() ==> is_entry_for(#[trigger] r@[k], *draft, library.chips@,
                listed_subs(draft.sub_chips@, library.chips@, order@.subrange(0, i as int))[k]),
        decreases order.len() - i,
    {
        assert(order@.subrange(0, i + 1).drop_last() =~= order@.subrange(0, i as int));
        let o = order[i];
        if o < draft.sub_chips.len() {
            let sub = &draft.sub_chips[o];
            match library.try_get(sub.name.as_str()) {
                Some(desc) => {
                    if can_be_embedded_display(desc) {
                        let label = match &sub.label {
                            Some(l) => {
                                let cs = chars_of(l.as_str());
                                let (lo, hi) = trim_bounds(&cs, 0, cs.len());
                                assert(cs@.subrange(0, cs.len() as int) =~= l@);
                                if lo < hi {
                                    l.clone()
                                } else {
                                    desc.name.clone()
                                }
                            },
                            None => desc.name.clone(),
                        };
                        let mut placed = false;
                        let mut d: usize = 0;
                        while d < draft.displays.len()
                            invariant
                                d <= draft.displays@.len(),
                                placed == exists|j: int| 0 <= j < d && (#[trigger] draft.displays@[j]).sub_chip_id == sub.id,
                            decreases draft.displays.len() - d,
                        {
                            if draft.displays[d].sub_chip_id == sub.id {
                                placed = true;
                            }
                            d = d + 1;
                        }
                        r.push(DisplayListEntry { sub_chip_id: sub.id, label, chip_type: desc.chip_type, placed });
                    }
                },
                None => {},
            }
        }
        i = i + 1;
    }
    assert(order@.subrange(0, order@.len() as int) =~= order@);
    r
}

} // verus!
