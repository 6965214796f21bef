use logic_sim::scene::delete_wire;
use logic_sim::wires::{PinAddress, WireConnectionType, WireDescription};

fn wire(source: i32, target: i32, kind: WireConnectionType, wire_index: i32) -> WireDescription<(i64, i64)> {
    WireDescription {
        source_pin_address: PinAddress::new(source, 0),
        target_pin_address: PinAddress::new(target, 0),
        connection_type: kind,
        connected_wire_index: wire_index,
        connected_wire_segment_index: 0,
        points: Vec::new(),
        cached_source_point: (0, 0),
        cached_target_point: (0, 0),
    }
}

#[test]
fn deleting_a_wire_takes_every_wire_tapped_onto_it_transitively() {
    let mut wires = vec![
        wire(1, 2, WireConnectionType::ToPins, 0),
        wire(3, 4, WireConnectionType::ToPins, 0),
        wire(1, 5, WireConnectionType::ToWireSource, 0),
        wire(1, 6, WireConnectionType::ToWireSource, 2),
        wire(7, 8, WireConnectionType::ToWireTarget, 1),
        wire(9, 9, WireConnectionType::ToWireTarget, 3),
    ];
    assert_eq!(delete_wire(&mut wires, 0), 4);
    assert_eq!(wires.len(), 2);
    assert_eq!(wires[0].source_pin_address.pin_owner_id, 3);
    assert_eq!(wires[1].source_pin_address.pin_owner_id, 7);
    assert_eq!(wires[1].connected_wire_index, 0, "the survivor's anchor moved from position 1 to 0");
}

#[test]
fn deleting_an_untapped_wire_removes_only_it() {
    let mut wires = vec![
        wire(1, 2, WireConnectionType::ToPins, 0),
        wire(3, 4, WireConnectionType::ToPins, 0),
        wire(5, 6, WireConnectionType::ToWireTarget, 1),
    ];
    assert_eq!(delete_wire(&mut wires, 0), 1);
    assert_eq!(wires.len(), 2);
    assert_eq!(wires[1].connected_wire_index, 0);
    assert_eq!(delete_wire(&mut wires, 5), 0);
}
