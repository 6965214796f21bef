use logic_sim::description::{ChipDescription, ChipLibrary, ChipType, Color, PinBitCount, PinDescription, SubChipDescription};
use logic_sim::wires::{delete_wire, shift_connected_indices_after_removal, PinAddress, WireConnectionType, WireDescription};

type Point = (f32, f32);
const ZERO: Point = (0.0, 0.0);

fn wire(source: PinAddress, target: PinAddress) -> WireDescription<Point> {
    WireDescription {
        source_pin_address: source,
        target_pin_address: target,
        connection_type: WireConnectionType::ToPins,
        connected_wire_index: 0,
        connected_wire_segment_index: 0,
        points: Vec::new(),
        cached_source_point: ZERO,
        cached_target_point: ZERO,
    }
}

fn tapped(source: PinAddress, target: PinAddress, kind: WireConnectionType, wire_index: i32, segment: i32, at: Point) -> WireDescription<Point> {
    let mut w = wire(source, target);
    w.connection_type = kind;
    w.connected_wire_index = wire_index;
    w.connected_wire_segment_index = segment;
    if kind == WireConnectionType::ToWireSource {
        w.cached_source_point = at;
    } else {
        w.cached_target_point = at;
    }
    w
}

fn pin(name: &str, id: i32) -> PinDescription {
    PinDescription { name: name.to_string(), id, bit_count: PinBitCount::Bit1, colour: Color::from_int(0) }
}

fn nand_desc() -> ChipDescription {
    let mut d = ChipDescription::new("NAND", ChipType::Nand);
    d.input_pins.push(pin("A", 0));
    d.input_pins.push(pin("B", 1));
    d.output_pins.push(pin("OUT", 2));
    d
}

fn sub_chip(name: &str, id: i32, internal_data: Option<Vec<u32>>) -> SubChipDescription {
    SubChipDescription { name: name.to_string(), id, internal_data, label: None, pin_colour_info: vec![] }
}

/// Deleting a wire detaches (rather than deletes) the wires tapping onto
/// it -- whichever side they tap from -- and renumbers surviving taps so
/// they still point at the right anchors.
#[test]
fn delete_wire_cascades_to_target_side_taps_and_renumbers_survivors() {
    let mut sub_chips = Vec::new();
    for id in [1, 2, 3] {
        sub_chips.push(sub_chip("NAND", id, None));
    }

    let mut wires = Vec::new();
    // wire 0: NAND1 -> NAND2 (the deletion target)
    wires.push(wire(PinAddress::new(1, 0), PinAddress::new(2, 0)));
    // wire 1: taps onto wire 0 from its SOURCE side
    let mut source_tap = tapped(PinAddress::new(1, 0), PinAddress::new(3, 1), WireConnectionType::ToWireSource, 0, 0, ZERO);
    source_tap.points = vec![(1.0, 1.0)];
    wires.push(source_tap);
    // wire 2: taps onto wire 0 from its TARGET side
    let mut target_tap = tapped(PinAddress::new(3, 0), PinAddress::new(2, 1), WireConnectionType::ToWireTarget, 0, 0, ZERO);
    target_tap.points = vec![(-1.0, -1.0)];
    wires.push(target_tap);
    // wire 3: independent pin-to-pin wire
    wires.push(wire(PinAddress::new(3, 0), PinAddress::new(3, 1)));

    let mut library = ChipLibrary::new();
    library.add(nand_desc());

    // The deleted wire's drawn route, end to end.
    let route = [(0.0, 0.0), (4.0, 0.0)];
    delete_wire(&mut wires, 0, &sub_chips, &library, false, &route, ZERO);

    // Normal-wire deletion detaches rather than cascades: both tappers
    // survive, re-anchored onto the deleted wire's own endpoints.
    assert_eq!(wires.len(), 3, "anchor gone, both re-anchored survivors + the independent wire remain");

    let survivor_source_tap = wires.iter().find(|w| w.target_pin_address == PinAddress::new(3, 1)).expect("source tap survives");
    assert_eq!(survivor_source_tap.source_pin_address, PinAddress::new(1, 0), "inherits the anchor's source pin");
    assert_eq!(survivor_source_tap.connection_type, WireConnectionType::ToPins, "plain pin connection after detach");
    assert!(!survivor_source_tap.points.is_empty(), "the anchor's route is folded into the bends");

    let survivor_target_tap = wires.iter().find(|w| w.source_pin_address == PinAddress::new(3, 0)).expect("target tap survives");
    assert_eq!(survivor_target_tap.target_pin_address, PinAddress::new(2, 1), "inherits the anchor's target pin");
    assert_eq!(survivor_target_tap.connection_type, WireConnectionType::ToPins);
}

/// Deleting one half of a linked bus pair takes the whole origin net
/// with it: wires touching the origin's pins die together.
#[test]
fn delete_bus_wire_cascades_across_the_origin_net() {
    let mut library = ChipLibrary::new();
    library.add(nand_desc());
    let mut bus = ChipDescription::new("BUS-4", ChipType::Bus4Bit);
    bus.input_pins.push(pin("IN", 0));
    bus.output_pins.push(pin("OUT", 1));
    library.add(bus);
    let mut terminus = ChipDescription::new("BUS-TERMINUS-4", ChipType::BusTerminus4Bit);
    terminus.input_pins.push(pin("IN", 0));
    terminus.output_pins.push(pin("OUT", 1));
    library.add(terminus);

    let mut sub_chips = Vec::new();
    for id in [10, 11] {
        sub_chips.push(sub_chip("NAND", id, None));
    }
    // Linked bus pair at ids 20 (origin) / 21 (terminus).
    sub_chips.push(sub_chip("BUS-4", 20, Some(vec![21])));
    sub_chips.push(sub_chip("BUS-TERMINUS-4", 21, Some(vec![20])));

    let mut wires = Vec::new();
    // The bus wire itself (origin OUT pin 1 -> terminus IN pin 0)...
    wires.push(wire(PinAddress::new(20, 1), PinAddress::new(21, 0)));
    // ...a NAND output wired INTO the origin (merge-at-origin input)...
    wires.push(wire(PinAddress::new(10, 2), PinAddress::new(20, 0)));
    // ...and an unrelated wire.
    wires.push(wire(PinAddress::new(11, 2), PinAddress::new(10, 0)));

    let removed = delete_wire(&mut wires, 0, &sub_chips, &library, true, &[], ZERO);

    assert_eq!(removed, 2);
    assert_eq!(wires.len(), 1, "everything on the origin net goes; only the unrelated wire stays");
    assert_eq!(wires[0].source_pin_address, PinAddress::new(11, 2));
}

#[test]
fn detaching_a_source_tap_folds_the_route_up_to_the_attachment() {
    let mut wires = vec![
        wire(PinAddress::new(1, 0), PinAddress::new(2, 0)),
        wire(PinAddress::new(5, 0), PinAddress::new(6, 0)),
        tapped(PinAddress::new(1, 0), PinAddress::new(3, 1), WireConnectionType::ToWireSource, 0, 1, (2.5, 1.0)),
        tapped(PinAddress::new(7, 0), PinAddress::new(8, 1), WireConnectionType::ToWireTarget, 1, 0, (9.0, 9.0)),
    ];
    wires[2].points = vec![(3.0, 3.0)];
    let route = [(0.0, 0.0), (2.0, 0.0), (2.0, 2.0), (4.0, 2.0)];
    let removed = delete_wire(&mut wires, 0, &[], &ChipLibrary::new(), false, &route, ZERO);
    assert_eq!(removed, 1);
    assert_eq!(wires.len(), 3);
    // The tap on segment 1 keeps the route's bend at (2, 0), then its own
    // attachment point, then its own bends.
    assert_eq!(wires[1].points, vec![(2.0, 0.0), (2.5, 1.0), (3.0, 3.0)]);
    assert_eq!(wires[1].connection_type, WireConnectionType::ToPins);
    assert_eq!(wires[1].cached_source_point, ZERO);
    // The tap onto wire 1 (now at position 0) is renumbered.
    assert_eq!(wires[2].connection_type, WireConnectionType::ToWireTarget);
    assert_eq!(wires[2].connected_wire_index, 0);
}

#[test]
fn a_tap_onto_a_tap_inherits_the_anchors_attachment() {
    let mut wires = vec![
        wire(PinAddress::new(1, 0), PinAddress::new(2, 0)),
        wire(PinAddress::new(9, 0), PinAddress::new(9, 1)),
        tapped(PinAddress::new(1, 0), PinAddress::new(3, 0), WireConnectionType::ToWireSource, 0, 0, (1.0, 0.0)),
        tapped(PinAddress::new(1, 0), PinAddress::new(4, 0), WireConnectionType::ToWireSource, 2, 0, (1.0, 1.0)),
    ];
    delete_wire(&mut wires, 2, &[], &ChipLibrary::new(), false, &[(1.0, 0.0), (1.0, 5.0)], ZERO);
    assert_eq!(wires.len(), 3);
    assert_eq!(wires[2].connection_type, WireConnectionType::ToWireSource);
    assert_eq!(wires[2].connected_wire_index, 0);
    assert_eq!(wires[2].cached_source_point, (1.0, 0.0));
    assert_eq!(wires[2].points, vec![(1.0, 1.0)]);
}

#[test]
fn deleting_past_the_end_changes_nothing() {
    let mut wires = vec![wire(PinAddress::new(1, 0), PinAddress::new(2, 0))];
    assert_eq!(delete_wire(&mut wires, 1, &[], &ChipLibrary::new(), false, &[], ZERO), 0);
    assert_eq!(wires.len(), 1);
}

#[test]
fn shifting_moves_attachments_below_removed_positions() {
    let mut wires = vec![
        tapped(PinAddress::new(1, 0), PinAddress::new(2, 0), WireConnectionType::ToWireSource, 5, 0, ZERO),
        tapped(PinAddress::new(1, 0), PinAddress::new(2, 0), WireConnectionType::ToWireTarget, 1, 0, ZERO),
        wire(PinAddress::new(1, 0), PinAddress::new(2, 0)),
    ];
    wires[2].connected_wire_index = 7;
    shift_connected_indices_after_removal(&mut wires, &[0, 3, 4]);
    assert_eq!(wires[0].connected_wire_index, 2);
    assert_eq!(wires[1].connected_wire_index, 0);
    assert_eq!(wires[2].connected_wire_index, 7, "plain wires keep their index");
}
