//! Save-format upgrades for chips saved by older versions of the game: the
//! palette gained ORANGE at index 1, and LED sub-chips gained a colour slot
//! in their instance data.
use vstd::prelude::*;
use crate::description::{ChipDescription, Color, PinDescription, SubChipDescription};
use crate::text::eq_ignore_ascii_case;
use crate::version::{current_version, parse_version_text, version_le, version_text, Version};

verus! {

/// Version assumed for chips without a readable version.
pub open spec fn default_chip_version() -> Version {
    Version { major: 2, minor: 0, patch: 0 }
}

/// The last chip format that still needs the palette and LED upgrade.
pub open spec fn last_pre_2_1_5_version() -> Version {
    Version { major: 2, minor: 1, patch: 4 }
}

/// The version a chip was saved with.
pub open spec fn chip_version(c: ChipDescription) -> Version {
    match c.dls_version {
        Some(s) => match parse_version_text(s@) {
            Some(v) => v,
            None => default_chip_version(),
        },
        None => default_chip_version(),
    }
}

/// Chips saved by 2.1.4 or earlier need upgrading.
pub open spec fn needs_upgrade(c: ChipDescription) -> bool {
    version_le(chip_version(c), last_pre_2_1_5_version())
}

/// ORANGE was inserted at palette index 1: every later index moves up one.
pub open spec fn new_pin_colour(c: Color) -> Color {
    if c.index > 0 { Color { index: (c.index + 1) as i32 } } else { c }
}

/// Every colour the upgrade shifts can move up one (the largest `i32`
/// index cannot).
pub open spec fn colours_shiftable(c: ChipDescription) -> bool {
    &&& forall|k: int| 0 <= k < c.input_pins@.len() ==> (#[trigger] c.input_pins@[k]).colour.index < i32::MAX
    &&& forall|k: int| 0 <= k < c.sub_chips@.len() ==> sub_colours_shiftable(#[trigger] c.sub_chips@[k])
}

pub open spec fn sub_colours_shiftable(s: SubChipDescription) -> bool {
    forall|j: int| 0 <= j < s.pin_colour_info@.len() ==> (#[trigger] s.pin_colour_info@[j]).1.index < i32::MAX
}

pub open spec fn pin_upgraded(new: PinDescription, old: PinDescription) -> bool {
    &&& new.name == old.name
    &&& new.id == old.id
    &&& new.bit_count == old.bit_count
    &&& new.colour == new_pin_colour(old.colour)
}

/// An LED sub-chip without instance data gets the default colour slot.
pub open spec fn led_needs_colour_slot(s: SubChipDescription) -> bool {
    eq_ignore_ascii_case(s.name@, "LED"@) && match s.internal_data {
        None => true,
        Some(d) => d@.len() == 0,
    }
}

/// Name, id, label and instance data of an upgraded sub-chip.
pub open spec fn sub_chip_data_upgraded(new: SubChipDescription, old: SubChipDescription) -> bool {
    &&& new.name == old.name
    &&& new.id == old.id
    &&& new.label == old.label
    &&& if led_needs_colour_slot(old) {
        new.internal_data matches Some(d) && d@ == seq![0u32]
    } else {
        new.internal_data == old.internal_data
    }
}

pub open spec fn sub_chip_upgraded(new: SubChipDescription, old: SubChipDescription) -> bool {
    &&& sub_chip_data_upgraded(new, old)
    &&& new.pin_colour_info@.len() == old.pin_colour_info@.len()
    &&& forall|k: int| 0 <= k < old.pin_colour_info@.len() ==> {
        &&& (#[trigger] new.pin_colour_info@[k]).0 == old.pin_colour_info@[k].0
        &&& new.pin_colour_info@[k].1 == new_pin_colour(old.pin_colour_info@[k].1)
    }
}

/// All but the sub-chips of an upgraded chip.
pub open spec fn chip_pins_upgraded(new: ChipDescription, old: ChipDescription) -> bool {
    &&& new.name == old.name
    &&& new.chip_type == old.chip_type
    &&& new.output_pins == old.output_pins
    &&& new.displays == old.displays
    &&& new.dls_version == old.dls_version
    &&& new.input_pins@.len() == old.input_pins@.len()
    &&& forall|k: int| 0 <= k < old.input_pins@.len() ==> pin_upgraded(#[trigger] new.input_pins@[k], old.input_pins@[k])
}

/// `new` is `old` with the palette shift applied to its input pins and its
/// sub-chips' output-pin colours, and LED colour slots added.
pub open spec fn chip_upgraded(new: ChipDescription, old: ChipDescription) -> bool {
    &&& chip_pins_upgraded(new, old)
    &&& new.sub_chips@.len() == old.sub_chips@.len()
    &&& forall|k: int| 0 <= k < old.sub_chips@.len() ==> sub_chip_upgraded(#[trigger] new.sub_chips@[k], old.sub_chips@[k])
}

/// The palette index a pre-2.1.5 colour moves to.
pub fn get_new_pin_colour(col_old: Color) -> (c: Color)
    requires
        col_old.index < i32::MAX,
    ensures
        c == new_pin_colour(col_old),
{
    let colour_index = col_old.to_int();
    Color::from_int(if colour_index > 0 { colour_index + 1 } else { colour_index })
}

fn is_led_name(name: &str) -> (b: bool)
    ensures
        b == eq_ignore_ascii_case(name@, "LED"@),
{
    crate::description::eq_ignore_case(name, "LED")
}

fn upgrade_sub_chip(sub: &mut SubChipDescription)
    requires
        sub_colours_shiftable(*old(sub)),
    ensures
        sub_chip_upgraded(*final(sub), *old(sub)),
{
    let needs_slot = is_led_name(sub.name.as_str()) && match &sub.internal_data {
        None => true,
        Some(data) => data.len() == 0,
    };
    if needs_slot {
        let mut slot: Vec<u32> = Vec::new();
        slot.push(0);
        assert(slot@ =~= seq![0u32]);
        sub.internal_data = Some(slot);
    }
    let ghost before = sub.pin_colour_info@;
    let ghost pre = *sub;
    assert(sub_chip_data_upgraded(pre, *old(sub)));
    let mut k: usize = 0;
    while k < sub.pin_colour_info.len()
        invariant
            *sub == (SubChipDescription { pin_colour_info: sub.pin_colour_info, ..pre }),
            before == old(sub).pin_colour_info@,
            sub_colours_shiftable(*old(sub)),
            sub_chip_data_upgraded(pre, *old(sub)),
            k <= sub.pin_colour_info@.len() == before.len(),
            forall|j: int| k <= j < before.len() ==> #[trigger] sub.pin_colour_info@[j] == before[j],
            forall|j: int| 0 <= j < k ==> {
                &&& (#[trigger] sub.pin_colour_info@[j]).0 == before[j].0
                &&& sub.pin_colour_info@[j].1 == new_pin_colour(before[j].1)
            },
        decreases before.len() - k,
    {
        let (id, colour) = sub.pin_colour_info[k];
        sub.pin_colour_info.set(k, (id, get_new_pin_colour(colour)));
        k = k + 1;
    }
}

/// Applies the pre-2.1.5 palette shift and LED colour slot to one chip.
pub fn update_chip_pre_2_1_5(chip: &mut ChipDescription)
    requires
        colours_shiftable(*old(chip)),
    ensures
        chip_upgraded(*final(chip), *old(chip)),
{
    let ghost pins = chip.input_pins@;
    let ghost pre = *chip;
    let mut k: usize = 0;
    while k < chip.input_pins.len()
        invariant
            *chip == (ChipDescription { input_pins: chip.input_pins, ..pre }),
            pre == *old(chip),
            colours_shiftable(pre),
            pins == old(chip).input_pins@,
            k <= chip.input_pins@.len() == pins.len(),
            forall|j: int| k <= j < pins.len() ==> #[trigger] chip.input_pins@[j] == pins[j],
            forall|j: int| 0 <= j < k ==> pin_upgraded(#[trigger] chip.input_pins@[j], pins[j]),
        decreases pins.len() - k,
    {
        let colour = chip.input_pins[k].colour;
        let pin = &mut chip.input_pins[k];
        pin.colour = get_new_pin_colour(colour);
        k = k + 1;
    }
    let ghost subs = chip.sub_chips@;
    let ghost mid = *chip;
    let mut k: usize = 0;
    while k < chip.sub_chips.len()
        invariant
            *chip == (ChipDescription { sub_chips: chip.sub_chips, ..mid }),
            mid.sub_chips@ == old(chip).sub_chips@,
            subs == old(chip).sub_chips@,
            colours_shiftable(*old(chip)),
            chip_pins_upgraded(mid, *old(chip)),
            k <= chip.sub_chips@.len() == subs.len(),
            forall|j: int| k <= j < subs.len() ==> #[trigger] chip.sub_chips@[j] == subs[j],
            forall|j: int| 0 <= j < k ==> sub_chip_upgraded(#[trigger] chip.sub_chips@[j], subs[j]),
        decreases subs.len() - k,
    {
        assert(sub_colours_shiftable(old(chip).sub_chips@[k as int]));
        upgrade_sub_chip(&mut chip.sub_chips[k]);
        k = k + 1;
    }
}

/// Whether `chip` was saved by 2.1.4 or earlier (unreadable or missing
/// versions count as 2.0.0).
pub fn needs_version_upgrade(chip: &ChipDescription) -> (b: bool)
    ensures
        b == needs_upgrade(*chip),
{
    let chip_version = match &chip.dls_version {
        Some(s) => match Version::try_parse(s.as_str()) {
            Some(v) => v,
            None => Version::new(2, 0, 0),
        },
        None => Version::new(2, 0, 0),
    };
    chip_version.is_at_most(&Version::new(2, 1, 4))
}

/// Whether every colour the upgrade would shift in `chip` can move up one.
pub fn colours_fit(chip: &ChipDescription) -> (b: bool)
    ensures
        b == colours_shiftable(*chip),
{
    let mut k: usize = 0;
    while k < chip.input_pins.len()
        invariant
            k <= chip.input_pins@.len(),
            forall|j: int| 0 <= j < k ==> (#[trigger] chip.input_pins@[j]).colour.index < i32::MAX,
        decreases chip.input_pins.len() - k,
    {
        if chip.input_pins[k].colour.index == i32::MAX {
            return false;
        }
        k = k + 1;
    }
    let mut k: usize = 0;
    while k < chip.sub_chips.len()
        invariant
            k <= chip.sub_chips@.len(),
            forall|j: int| 0 <= j < k ==> sub_colours_shiftable(#[trigger] chip.sub_chips@[j]),
        decreases chip.sub_chips.len() - k,
    {
        let info = &chip.sub_chips[k].pin_colour_info;
        let mut j: usize = 0;
        while j < info.len()
            invariant
                k < chip.sub_chips@.len(),
                *info == chip.sub_chips@[k as int].pin_colour_info,
                j <= info@.len(),
                forall|q: int| 0 <= q < j ==> (#[trigger] info@[q]).1.index < i32::MAX,
            decreases info.len() - j,
        {
            if info[j].1.index == i32::MAX {
                assert(!sub_colours_shiftable(chip.sub_chips@[k as int]));
                return false;
            }
            j = j + 1;
        }
        k = k + 1;
    }
    true
}

/// Migrates every custom chip saved by 2.1.4 or earlier in place and
/// restamps it as 2.1.4; newer chips are left as they are.
pub fn apply_version_changes(custom_chips: &mut Vec<ChipDescription>)
    requires
        forall|i: int| 0 <= i < old(custom_chips)@.len() && needs_upgrade(#[trigger] old(custom_chips)@[i])
            ==> colours_shiftable(old(custom_chips)@[i]),
    ensures
        final(custom_chips)@.len() == old(custom_chips)@.len(),
        forall|i: int| 0 <= i < old(custom_chips)@.len() ==> {
            let o = #[trigger] old(custom_chips)@[i];
            let n = final(custom_chips)@[i];
            if needs_upgrade(o) {
                &&& chip_upgraded(ChipDescription { dls_version: o.dls_version, ..n }, o)
                &&& n.dls_version matches Some(v) && v@ == "2.1.4"@
            } else {
                n == o
            }
        },
{
    let ghost chips = custom_chips@;
    let last_pre = Version::new(2, 1, 4);
    let mut i: usize = 0;
    while i < custom_chips.len()
        invariant
            i <= custom_chips@.len() == chips.len(),
            last_pre == last_pre_2_1_5_version(),
            forall|j: int| 0 <= j < chips.len() && needs_upgrade(#[trigger] chips[j]) ==> colours_shiftable(chips[j]),
            forall|j: int| i <= j < chips.len() ==> #[trigger] custom_chips@[j] == chips[j],
            forall|j: int| 0 <= j < i ==> {
                let o = #[trigger] chips[j];
                let n = custom_chips@[j];
                if needs_upgrade(o) {
                    &&& chip_upgraded(ChipDescription { dls_version: o.dls_version, ..n }, o)
                    &&& n.dls_version matches Some(v) && v@ == "2.1.4"@
                } else {
                    n == o
                }
            },
        decreases chips.len() - i,
    {
        if needs_version_upgrade(&custom_chips[i]) {
            let chip = &mut custom_chips[i];
            update_chip_pre_2_1_5(chip);
            chip.dls_version = Some(last_pre.to_string());
            proof {
                crate::version::lemma_version_text_2_1_4();
            }
        }
        i = i + 1;
    }
}

/// Records that `chip` was saved by this build.
pub fn stamp_current_version(chip: &mut ChipDescription)
    ensures
        *final(chip) == (ChipDescription { dls_version: final(chip).dls_version, ..*old(chip) }),
        final(chip).dls_version matches Some(v) && v@ == version_text(current_version()),
{
    chip.dls_version = Some(crate::version::dls_version().to_string());
}

/// A chip stamped with the current version is never upgraded again: once a
/// migrated chip has been re-saved, loading it applies no further shift.
pub proof fn lemma_restamped_chip_is_current(chip: ChipDescription)
    requires
        chip.dls_version matches Some(v) && v@ == version_text(current_version()),
    ensures
        !needs_upgrade(chip),
{
    crate::version::lemma_parse_version_text(current_version());
}

} // verus!
