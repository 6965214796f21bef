//! Which pin a wire's address refers to, for drawing the wire: the colour
//! and the width of the pin it starts from. An address names either a pin
//! of a placed sub-chip (owner = the sub-chip's id) or one of the chip's
//! own input/output pins (owner = that pin's id).
use vstd::prelude::*;
use crate::description::{chip_named, ChipDescription, ChipLibrary, Color, PinBitCount, PinDescription, SubChipDescription};

verus! {

/// The sub-chip placed under `owner_id`, with the chip it places: the last
/// sub-chip with that id whose chip the library has (sub-chips of unknown
/// chips are not placed).
pub open spec fn placed_owner(subs: Seq<SubChipDescription>, library: Seq<ChipDescription>, owner_id: i32) -> Option<(SubChipDescription, ChipDescription)>
    decreases subs.len(),
{
    if subs.len() == 0 {
        None
    } else if subs.last().id == owner_id && chip_named(library, subs.last().name@) is Some {
        Some((subs.last(), chip_named(library, subs.last().name@).unwrap()))
    } else {
        placed_owner(subs.drop_last(), library, owner_id)
    }
}

/// The first of `pins` with id `id`.
pub open spec fn pin_with_id(pins: Seq<PinDescription>, id: i32) -> Option<PinDescription>
    decreases pins.len(),
{
    if pins.len() == 0 {
        None
    } else if pins[0].id == id {
        Some(pins[0])
    } else {
        pin_with_id(pins.drop_first(), id)
    }
}

/// The colour an instance gives its output pin `pin_id`, if it overrides it.
pub open spec fn colour_override(info: Seq<(i32, Color)>, pin_id: i32) -> Option<Color>
    decreases info.len(),
{
    if info.len() == 0 {
        None
    } else if info[0].0 == pin_id {
        Some(info[0].1)
    } else {
        colour_override(info.drop_first(), pin_id)
    }
}

/// The palette colour of the pin at address (`owner_id`, `pin_id`) inside
/// `chip`: a placed sub-chip's output pin (with the instance's override, if
/// any) or input pin; else the chip's own input or output pin with id
/// `owner_id`; palette colour 0 when nothing matches.
pub open spec fn pin_colour_at(chip: ChipDescription, library: Seq<ChipDescription>, owner_id: i32, pin_id: i32) -> Color {
    match placed_owner(chip.sub_chips@, library, owner_id) {
        Some((sub, desc)) => match pin_with_id(desc.output_pins@, pin_id) {
            Some(p) => match colour_override(sub.pin_colour_info@, p.id) {
                Some(c) => c,
                None => p.colour,
            },
            None => match pin_with_id(desc.input_pins@, pin_id) {
                Some(p) => p.colour,
                None => Color { index: 0 },
            },
        },
        None => match pin_with_id(chip.input_pins@, owner_id) {
            Some(p) => p.colour,
            None => match pin_with_id(chip.output_pins@, owner_id) {
                Some(p) => p.colour,
                None => Color { index: 0 },
            },
        },
    }
}

/// The width of the pin at address (`owner_id`, `pin_id`) inside `chip`,
/// found as for its colour; one bit when nothing matches.
pub open spec fn pin_bit_count_at(chip: ChipDescription, library: Seq<ChipDescription>, owner_id: i32, pin_id: i32) -> PinBitCount {
    match placed_owner(chip.sub_chips@, library, owner_id) {
        Some((_, desc)) => match pin_with_id(desc.output_pins@, pin_id) {
            Some(p) => p.bit_count,
            None => match pin_with_id(desc.input_pins@, pin_id) {
                Some(p) => p.bit_count,
                None => PinBitCount::Bit1,
            },
        },
        None => match pin_with_id(chip.input_pins@, owner_id) {
            Some(p) => p.bit_count,
            None => match pin_with_id(chip.output_pins@, owner_id) {
                Some(p) => p.bit_count,
                None => PinBitCount::Bit1,
            },
        },
    }
}

/// The placed sub-chip under `owner_id` and its chip.
fn find_placed<'a>(chip: &'a ChipDescription, library: &'a ChipLibrary, owner_id: i32) -> (r: Option<(&'a SubChipDescription, &'a ChipDescription)>)
    ensures
        match (r, placed_owner(chip.sub_chips@, library.chips@, owner_id)) {
            (Some((s, d)), Some((ps, pd))) => *s == ps && *d == pd,
            (None, None) => true,
            _ => false,
        },
{
    let subs = &chip.sub_chips;
    let mut i = subs.len();
    assert(subs@.subrange(0, i as int) =~= subs@);
    while i > 0
        invariant
            subs@ == chip.sub_chips@,
            i <= subs@.len(),
            placed_owner(subs@, library.chips@, owner_id) == placed_owner(subs@.subrange(0, i as int), library.chips@, owner_id),
        decreases i,
    {
        assert(subs@.subrange(0, i as int).last() == subs@[i - 1]);
        assert(subs@.subrange(0, i as int).drop_last() =~= subs@.subrange(0, i - 1));
        let sub = &subs[i - 1];
        if sub.id == owner_id {
            match library.try_get(sub.name.as_str()) {
                Some(desc) => return Some((sub, desc)),
                None => {},
            }
        }
        i = i - 1;
    }
    None
}

/// The first of `pins` with id `id`.
fn find_pin(pins: &Vec<PinDescription>, id: i32) -> (r: Option<&PinDescription>)
    ensures
        match (r, pin_with_id(pins@, id)) {
            (Some(p), Some(q)) => *p == q,
            (None, None) => true,
            _ => false,
        },
{
    let mut i: usize = 0;
    assert(pins@.subrange(0, pins@.len() as int) =~= pins@);
    while i < pins.len()
        invariant
            i <= pins@.len(),
            pin_with_id(pins@, id) == pin_with_id(pins@.subrange(i as int, pins@.len() as int), id),
        decreases pins.len() - i,
    {
        assert(pins@.subrange(i as int, pins@.len() as int)[0] == pins@[i as int]);
        assert(pins@.subrange(i as int, pins@.len() as int).drop_first() =~= pins@.subrange(i + 1, pins@.len() as int));
        if pins[i].id == id {
            return Some(&pins[i]);
        }
        i = i + 1;
    }
    None
}

/// The instance's colour for its output pin `pin_id`, or `default_colour`
/// when it has no override for it.
pub fn output_pin_colour(pin_colour_info: &Vec<(i32, Color)>, pin_id: i32, default_colour: Color) -> (c: Color)
    ensures
        c == (match colour_override(pin_colour_info@, pin_id) {
            Some(o) => o,
            None => default_colour,
        }),
{
    let info = pin_colour_info;
    let mut i: usize = 0;
    assert(info@.subrange(0, info@.len() as int) =~= info@);
    while i < info.len()
        invariant
            info@ == pin_colour_info@,
            i <= info@.len(),
            colour_override(info@, pin_id) == colour_override(info@.subrange(i as int, info@.len() as int), pin_id),
        decreases info.len() - i,
    {
        assert(info@.subrange(i as int, info@.len() as int)[0] == info@[i as int]);
        assert(info@.subrange(i as int, info@.len() as int).drop_first() =~= info@.subrange(i + 1, info@.len() as int));
        if info[i].0 == pin_id {
            return info[i].1;
        }
        i = i + 1;
    }
    default_colour
}

/// The palette colour of the pin a wire address refers to.
pub fn resolve_pin_colour(chip: &ChipDescription, library: &ChipLibrary, owner_id: i32, pin_id: i32) -> (c: Color)
    ensures
        c == pin_colour_at(*chip, library.chips@, owner_id, pin_id),
{
    match find_placed(chip, library, owner_id) {
        Some((sub, desc)) => {
            if let Some(pin) = find_pin(&desc.output_pins, pin_id) {
                return output_pin_colour(&sub.pin_colour_info, pin.id, pin.colour);
            }
            if let Some(pin) = find_pin(&desc.input_pins, pin_id) {
                return pin.colour;
            }
            Color { index: 0 }
        },
        None => {
            if let Some(p) = find_pin(&chip.input_pins, owner_id) {
                return p.colour;
            }
            if let Some(p) = find_pin(&chip.output_pins, owner_id) {
                return p.colour;
            }
            Color { index: 0 }
        },
    }
}

/// The width of the pin a wire address refers to.
pub fn resolve_pin_bit_count(chip: &ChipDescription, library: &ChipLibrary, owner_id: i32, pin_id: i32) -> (b: PinBitCount)
    ensures
        b == pin_bit_count_at(*chip, library.chips@, owner_id, pin_id),
{
    match find_placed(chip, library, owner_id) {
        Some((_, desc)) => {
            if let Some(pin) = find_pin(&desc.output_pins, pin_id) {
                return pin.bit_count;
            }
            if let Some(pin) = find_pin(&desc.input_pins, pin_id) {
                return pin.bit_count;
            }
            PinBitCount::Bit1
        },
        None => {
            if let Some(p) = find_pin(&chip.input_pins, owner_id) {
                return p.bit_count;
            }
            if let Some(p) = find_pin(&chip.output_pins, owner_id) {
                return p.bit_count;
            }
            PinBitCount::Bit1
        },
    }
}

} // verus!
