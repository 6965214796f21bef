use logic_sim::description::ChipType;
use logic_sim::sim::{build_internal_state, RandomSourceError};

#[test]
fn display_buffers_start_zeroed() {
    let s = build_internal_state(ChipType::DisplayRgb, Some(&[5, 6])).unwrap();
    assert_eq!(s.len(), 513);
    assert!(s.iter().all(|&w| w == 0));
    assert_eq!(build_internal_state(ChipType::DisplayDot, None).unwrap().len(), 513);
}

#[test]
fn dev_ram_has_a_zeroed_clock_edge_word_after_its_contents() {
    let s = build_internal_state(ChipType::DevRam8Bit, None).unwrap();
    assert_eq!(s.len(), 257);
    assert_eq!(s[256], 0);
}

#[test]
fn rom_is_always_full_size_with_saved_words_first() {
    let s = build_internal_state(ChipType::Rom256x16, Some(&[7, 8, 9])).unwrap();
    assert_eq!(s.len(), 256);
    assert_eq!(&s[..4], &[7, 8, 9, 0]);
    let long: Vec<u32> = (0..300).collect();
    let s = build_internal_state(ChipType::Rom256x16, Some(&long)).unwrap();
    assert_eq!(s.len(), 256);
    assert_eq!(s[255], 255);
    assert!(build_internal_state(ChipType::Rom256x16, None).unwrap().iter().all(|&w| w == 0));
}

#[test]
fn pulse_state_is_padded_from_its_defaults() {
    assert_eq!(build_internal_state(ChipType::Pulse, None).unwrap(), vec![200, 0, 0]);
    assert_eq!(build_internal_state(ChipType::Pulse, Some(&[50])).unwrap(), vec![50, 0, 0]);
    assert_eq!(build_internal_state(ChipType::Pulse, Some(&[50, 3, 1, 9])).unwrap(), vec![50, 3, 1, 9]);
}

#[test]
fn other_chips_keep_their_saved_words() {
    assert_eq!(build_internal_state(ChipType::Key, Some(&[65])).unwrap(), vec![65]);
    assert!(build_internal_state(ChipType::DisplayLed, Some(&[])).unwrap().is_empty());
    assert!(build_internal_state(ChipType::Nand, None).unwrap().is_empty());
}

#[test]
fn only_the_dev_ram_reads_the_random_source() {
    // Every other kind succeeds without drawing anything.
    for t in [ChipType::Nand, ChipType::Rom256x16, ChipType::Pulse, ChipType::DisplayRgb, ChipType::Key] {
        assert!(build_internal_state(t, None).is_ok());
    }
    let ram: Result<Vec<u32>, RandomSourceError> = build_internal_state(ChipType::DevRam8Bit, None);
    assert_eq!(ram.map(|s| s.len()), Ok(257));
}

use logic_sim::pin_state::PinState;
use logic_sim::sim::{BuzzerNote, ChipIdx, ExternalInput, PinIdx, SimChip, SimPin, Simulator};
use logic_sim::wires::PinAddress;

fn sim_pin(id: i32, parent: usize, is_input: bool, raw: u32) -> SimPin {
    SimPin {
        id,
        parent_chip: ChipIdx(parent),
        is_input,
        state: PinState::from_raw(raw),
        connected_target_pins: Vec::new(),
        last_updated_frame_index: 0,
        latest_source_id: -1,
        latest_source_parent_chip_id: -1,
        num_input_connections: 0,
        num_inputs_received_this_frame: 0,
    }
}

fn sim_chip(chip_type: ChipType, id: i32, inputs: Vec<usize>, outputs: Vec<usize>, internal: Vec<u32>) -> SimChip {
    SimChip {
        chip_type,
        id,
        internal_state: internal,
        is_builtin: chip_type != ChipType::Custom,
        input_pins: inputs.into_iter().map(PinIdx).collect(),
        output_pins: outputs.into_iter().map(PinIdx).collect(),
        sub_chips: Vec::new(),
        num_connected_inputs: 0,
        num_inputs_ready: 0,
    }
}

fn simulator(pins: Vec<SimPin>, chips: Vec<SimChip>) -> Simulator {
    Simulator {
        pins,
        chips,
        root: ChipIdx(0),
        simulation_frame: 0,
        steps_per_clock_transition: 30,
        needs_order_pass: true,
        can_dynamic_reorder_this_frame: false,
        pcg_rng_state: 0,
        rng: rand::SeedableRng::seed_from_u64(7),
        held_keys: Vec::new(),
        key_modifiers: 0,
    }
}

/// A single builtin of kind `t` with `n_in` inputs (raw states `ins`) and
/// `n_out` outputs; pins are numbered inputs first.
fn single(t: ChipType, ins: &[u32], n_out: usize, internal: Vec<u32>) -> Simulator {
    let mut pins = Vec::new();
    for (i, &raw) in ins.iter().enumerate() {
        pins.push(sim_pin(i as i32, 0, true, raw));
    }
    for k in 0..n_out {
        pins.push(sim_pin((ins.len() + k) as i32, 0, false, 0));
    }
    let inputs: Vec<usize> = (0..ins.len()).collect();
    let outputs: Vec<usize> = (ins.len()..ins.len() + n_out).collect();
    simulator(pins, vec![sim_chip(t, 0, inputs, outputs, internal)])
}

fn outputs(sim: &Simulator) -> Vec<u32> {
    sim.chips[0].output_pins.iter().map(|p| sim.pins[p.0].state.raw).collect()
}

#[test]
fn nand_is_low_only_when_both_inputs_are_high() {
    for (a, b, expected) in [(0, 0, 1), (0, 1, 1), (1, 0, 1), (1, 1, 0)] {
        let mut sim = single(ChipType::Nand, &[a, b], 1, Vec::new());
        assert_eq!(sim.process_builtin_chip(ChipIdx(0)), None);
        assert_eq!(outputs(&sim), vec![expected]);
    }
}

#[test]
fn clock_is_high_on_even_half_periods() {
    let mut sim = single(ChipType::Clock, &[], 1, Vec::new());
    sim.steps_per_clock_transition = 2;
    for (frame, expected) in [(0, 1), (1, 1), (2, 0), (3, 0), (4, 1)] {
        sim.simulation_frame = frame;
        sim.process_builtin_chip(ChipIdx(0));
        assert_eq!(outputs(&sim), vec![expected]);
    }
    sim.steps_per_clock_transition = 0;
    sim.simulation_frame = 0;
    sim.process_builtin_chip(ChipIdx(0));
    assert_eq!(outputs(&sim), vec![0]);
}

#[test]
fn pulse_runs_for_its_duration_after_a_rising_edge() {
    let mut sim = single(ChipType::Pulse, &[1], 1, vec![3, 0, 0]);
    let mut seen = Vec::new();
    for _ in 0..4 {
        sim.process_builtin_chip(ChipIdx(0));
        seen.push(outputs(&sim)[0]);
    }
    assert_eq!(seen, vec![1, 1, 1, 0]);
    assert_eq!(sim.chips[0].internal_state, vec![3, 0, 1]);
    // A disconnected input with no pulse running gives a disconnected output.
    sim.pins[0].state = PinState::from_raw(0x10000);
    sim.process_builtin_chip(ChipIdx(0));
    assert_eq!(outputs(&sim), vec![0x10000]);
    assert_eq!(sim.chips[0].internal_state, vec![3, 0, 0]);
}

#[test]
fn splits_put_the_most_significant_bit_first() {
    let mut sim = single(ChipType::Split4To1Bit, &[0b1010], 4, Vec::new());
    sim.process_builtin_chip(ChipIdx(0));
    assert_eq!(outputs(&sim), vec![1, 0, 1, 0]);

    let mut sim = single(ChipType::Split8To1Bit, &[0b1000_0001 | (0b0000_0010 << 16)], 8, Vec::new());
    sim.process_builtin_chip(ChipIdx(0));
    assert_eq!(outputs(&sim), vec![1, 0, 0, 0, 0, 0, 0x10000, 1]);

    let mut sim = single(ChipType::Split8To4Bit, &[0xA5], 2, Vec::new());
    sim.process_builtin_chip(ChipIdx(0));
    assert_eq!(outputs(&sim), vec![0xA, 0x5]);
}

#[test]
fn merges_put_the_first_input_most_significant() {
    let mut sim = single(ChipType::Merge1To4Bit, &[1, 0, 0x10000, 1], 1, Vec::new());
    sim.process_builtin_chip(ChipIdx(0));
    assert_eq!(outputs(&sim), vec![0b1001 | (0b0010 << 16)]);

    let mut sim = single(ChipType::Merge4To8Bit, &[0xA, 0x5], 1, Vec::new());
    sim.process_builtin_chip(ChipIdx(0));
    assert_eq!(outputs(&sim), vec![0xA5]);

    let mut sim = single(ChipType::Merge1To8Bit, &[1, 1, 0, 0, 0, 0, 0, 1], 1, Vec::new());
    sim.process_builtin_chip(ChipIdx(0));
    assert_eq!(outputs(&sim), vec![0b1100_0001]);
}

#[test]
fn tri_state_buffer_disconnects_when_not_enabled() {
    let mut sim = single(ChipType::TriStateBuffer, &[1, 0], 1, Vec::new());
    sim.process_builtin_chip(ChipIdx(0));
    assert_eq!(outputs(&sim), vec![0xFFFF_0000]);
    sim.pins[1].state = PinState::from_raw(1);
    sim.process_builtin_chip(ChipIdx(0));
    assert_eq!(outputs(&sim), vec![1]);
}

#[test]
fn key_chips_read_the_held_keys_and_modifiers() {
    let mut sim = single(ChipType::Key, &[], 1, vec!['A' as u32]);
    sim.process_builtin_chip(ChipIdx(0));
    assert_eq!(outputs(&sim), vec![0]);
    sim.held_keys = vec!['B', 'A'];
    sim.process_builtin_chip(ChipIdx(0));
    assert_eq!(outputs(&sim), vec![1]);

    let mut sim = single(ChipType::KeyMods, &[], 1, Vec::new());
    sim.key_modifiers = 0x1F3;
    sim.process_builtin_chip(ChipIdx(0));
    assert_eq!(outputs(&sim), vec![0xF3]);
}

#[test]
fn rom_outputs_the_high_then_low_byte_of_the_addressed_word() {
    let mut words = vec![0u32; 256];
    words[5] = 0xABCD;
    let mut sim = single(ChipType::Rom256x16, &[5], 2, words);
    sim.process_builtin_chip(ChipIdx(0));
    assert_eq!(outputs(&sim), vec![0xAB, 0xCD]);
}

#[test]
fn buzzer_hands_back_its_note() {
    let mut sim = single(ChipType::Buzzer, &[7, 3], 0, Vec::new());
    assert_eq!(sim.process_builtin_chip(ChipIdx(0)), Some(BuzzerNote { frequency_index: 7, volume_index: 3 }));
}

#[test]
fn ram_writes_only_on_a_rising_clock_edge() {
    // address, data, write enable, reset, clock
    let mut sim = single(ChipType::DevRam8Bit, &[3, 42, 1, 0, 1], 1, vec![0; 257]);
    sim.process_builtin_chip(ChipIdx(0));
    assert_eq!(outputs(&sim), vec![42]);
    assert_eq!(sim.chips[0].internal_state[256], 1);
    sim.pins[1].state = PinState::from_raw(7);
    sim.process_builtin_chip(ChipIdx(0));
    assert_eq!(outputs(&sim), vec![42]);
    // Clock low, then high again with reset: every word is cleared.
    sim.pins[4].state = PinState::from_raw(0);
    sim.process_builtin_chip(ChipIdx(0));
    sim.pins[4].state = PinState::from_raw(1);
    sim.pins[3].state = PinState::from_raw(1);
    sim.process_builtin_chip(ChipIdx(0));
    assert_eq!(outputs(&sim), vec![0]);
    assert!(sim.chips[0].internal_state[..256].iter().all(|&w| w == 0));
}

#[test]
fn dot_display_draws_then_shows_on_refresh() {
    // address, pixel, reset, write, refresh, clock
    let mut sim = single(ChipType::DisplayDot, &[2, 1, 0, 1, 0, 1], 1, vec![0; 513]);
    sim.process_builtin_chip(ChipIdx(0));
    assert_eq!(sim.chips[0].internal_state[258], 1);
    assert_eq!(outputs(&sim), vec![0]);
    sim.pins[5].state = PinState::from_raw(0);
    sim.process_builtin_chip(ChipIdx(0));
    sim.pins[5].state = PinState::from_raw(1);
    sim.pins[3].state = PinState::from_raw(0);
    sim.pins[4].state = PinState::from_raw(1);
    sim.process_builtin_chip(ChipIdx(0));
    assert_eq!(sim.chips[0].internal_state[2], 1);
    assert_eq!(outputs(&sim), vec![1]);
}

#[test]
fn rgb_display_stores_and_shows_a_colour_word() {
    // address, red, green, blue, reset, write, refresh, clock
    let mut sim = single(ChipType::DisplayRgb, &[4, 1, 2, 3, 0, 1, 1, 1], 3, vec![0; 513]);
    sim.process_builtin_chip(ChipIdx(0));
    assert_eq!(sim.chips[0].internal_state[260], 0x321);
    assert_eq!(sim.chips[0].internal_state[4], 0x321);
    assert_eq!(outputs(&sim), vec![1, 2, 3]);
}

#[test]
fn bus_origin_copies_its_input() {
    let mut sim = single(ChipType::Bus8Bit, &[0x1_00FF], 1, Vec::new());
    sim.process_builtin_chip(ChipIdx(0));
    assert_eq!(outputs(&sim), vec![0x1_00FF]);
}

#[test]
fn random_bool_follows_the_pcg_sequence() {
    let mut sim = single(ChipType::Nand, &[0, 0], 1, Vec::new());
    assert!(sim.random_bool());
    assert_eq!(sim.pcg_rng_state, 2891336453);
    sim.pcg_rng_state = 1;
    assert!(!sim.random_bool());
    assert_eq!(sim.pcg_rng_state, 3639132858);
}

#[test]
fn receive_input_copies_then_settles_conflicts() {
    // Chip 0 has input pin 0, driven by pins 1 and 2.
    let mut pins = vec![sim_pin(10, 0, true, 0b01), sim_pin(11, 1, false, 0b01), sim_pin(12, 1, false, 0b10)];
    pins[0].num_input_connections = 2;
    let chips = vec![sim_chip(ChipType::Nand, 5, vec![0], vec![], Vec::new()), sim_chip(ChipType::Custom, 6, vec![], vec![1, 2], Vec::new())];
    let mut sim = simulator(pins, chips);
    sim.simulation_frame = 1;
    sim.pcg_rng_state = 1;
    sim.receive_input(PinIdx(0), PinIdx(1));
    assert_eq!(sim.pins[0].state.raw, 0b01);
    assert_eq!(sim.pins[0].num_inputs_received_this_frame, 1);
    assert_eq!(sim.pins[0].last_updated_frame_index, 1);
    assert_eq!(sim.pins[0].latest_source_id, 11);
    assert_eq!(sim.pins[0].latest_source_parent_chip_id, 6);
    assert_eq!(sim.chips[0].num_inputs_ready, 0);
    // The second input conflicts; the coin (state 1) picks AND.
    sim.receive_input(PinIdx(0), PinIdx(2));
    assert_eq!(sim.pcg_rng_state, 3639132858);
    assert_eq!(sim.pins[0].state.raw, 0);
    assert_eq!(sim.pins[0].latest_source_id, 12);
    assert_eq!(sim.pins[0].num_inputs_received_this_frame, 2);
    assert_eq!(sim.chips[0].num_inputs_ready, 1);
}

#[test]
fn receive_input_keeps_or_of_values_where_a_side_is_disconnected() {
    let pins = vec![sim_pin(10, 0, true, 0b01), sim_pin(11, 0, false, 0b10 | (0b10 << 16))];
    let chips = vec![sim_chip(ChipType::Custom, 5, vec![], vec![], Vec::new())];
    let mut sim = simulator(pins, chips);
    sim.pins[0].num_inputs_received_this_frame = 1;
    sim.pcg_rng_state = 1; // the coin picks AND
    sim.receive_input(PinIdx(0), PinIdx(1));
    // Bit 1 is disconnected on one side: it takes the OR; bit 0 the AND.
    assert_eq!(sim.pins[0].state.raw, 0b10);
}

#[test]
fn pins_and_subchips_are_found_by_address() {
    // Chip 0 (the root) holds subchips 1 (id 7) and 2 (id 8); pin ids are per chip.
    let pins = vec![
        sim_pin(100, 0, true, 0),
        sim_pin(1, 1, true, 0),
        sim_pin(2, 1, false, 0),
        sim_pin(1, 2, true, 0),
    ];
    let mut root = sim_chip(ChipType::Custom, -1, vec![0], vec![], Vec::new());
    root.sub_chips = vec![ChipIdx(1), ChipIdx(2)];
    let chips = vec![root, sim_chip(ChipType::Nand, 7, vec![1], vec![2], Vec::new()), sim_chip(ChipType::Nand, 8, vec![3], vec![], Vec::new())];
    let mut sim = simulator(pins, chips);
    assert_eq!(sim.root(), ChipIdx(0));
    assert_eq!(sim.find_sub_chip(ChipIdx(0), 8), Some(ChipIdx(2)));
    assert_eq!(sim.find_sub_chip(ChipIdx(0), 9), None);
    assert_eq!(sim.find_pin(ChipIdx(0), PinAddress::new(7, 2)), Some(PinIdx(2)));
    assert_eq!(sim.find_pin(ChipIdx(0), PinAddress::new(8, 1)), Some(PinIdx(3)));
    assert_eq!(sim.find_pin(ChipIdx(0), PinAddress::new(100, 0)), Some(PinIdx(0)));
    assert_eq!(sim.find_pin(ChipIdx(0), PinAddress::new(9, 1)), None);
    assert_eq!(sim.pin(PinIdx(2)).id, 2);
    assert_eq!(sim.chip(ChipIdx(1)).id, 7);

    sim.needs_order_pass = false;
    sim.add_connection(ChipIdx(0), PinAddress::new(7, 2), PinAddress::new(8, 1));
    assert_eq!(sim.pins[2].connected_target_pins, vec![PinIdx(3)]);
    assert_eq!(sim.pins[3].num_input_connections, 1);
    assert_eq!(sim.chips[2].num_connected_inputs, 1);
    assert!(sim.needs_order_pass);
    // A second wire into the same pin does not count its chip again.
    sim.add_connection(ChipIdx(0), PinAddress::new(100, 0), PinAddress::new(8, 1));
    assert_eq!(sim.pins[3].num_input_connections, 2);
    assert_eq!(sim.chips[2].num_connected_inputs, 1);
    // A stale address is ignored.
    sim.add_connection(ChipIdx(0), PinAddress::new(9, 9), PinAddress::new(8, 1));
    assert_eq!(sim.pins[3].num_input_connections, 2);
    assert!(sim.chips[1].is_ready());
}

#[test]
fn the_first_ready_subchip_runs_next() {
    let mut root = sim_chip(ChipType::Custom, -1, vec![], vec![], Vec::new());
    root.sub_chips = vec![ChipIdx(1), ChipIdx(2), ChipIdx(3)];
    let mut waiting = sim_chip(ChipType::Nand, 1, vec![], vec![], Vec::new());
    waiting.num_connected_inputs = 2;
    let mut bus = sim_chip(ChipType::Bus1Bit, 2, vec![], vec![], Vec::new());
    bus.num_connected_inputs = 1;
    let ready = sim_chip(ChipType::Nand, 3, vec![], vec![], Vec::new());
    let mut sim = simulator(Vec::new(), vec![root, waiting, bus, ready]);
    assert_eq!(sim.choose_next_sub_chip(ChipIdx(0), 3), 2);
    // None of the first two is ready: the draw picks, skipping the bus origin.
    assert_eq!(sim.choose_next_sub_chip_with(ChipIdx(0), 2, 1), 0);
    assert_eq!(sim.choose_next_sub_chip_with(ChipIdx(0), 2, 4), 0);
    assert!(sim.choose_next_sub_chip(ChipIdx(0), 2) < 2);
    assert_eq!(sim.choose_next_sub_chip(ChipIdx(0), 2), 0);
    // Only the bus origin is left: the draw stands.
    let mut only_bus = sim_chip(ChipType::Custom, -1, vec![], vec![], Vec::new());
    only_bus.sub_chips = vec![ChipIdx(2)];
    sim.chips[0] = only_bus;
    assert_eq!(sim.choose_next_sub_chip_with(ChipIdx(0), 1, 9), 0);
}

#[test]
fn outputs_propagate_to_every_wired_pin_and_reset_the_ready_count() {
    // Chip 0's output pin 0 drives input pins 1 and 2 of chip 1.
    let mut pins = vec![sim_pin(1, 0, false, 1), sim_pin(2, 1, true, 0), sim_pin(3, 1, true, 0)];
    pins[0].connected_target_pins = vec![PinIdx(1), PinIdx(2)];
    pins[1].num_input_connections = 1;
    pins[2].num_input_connections = 1;
    let mut source = sim_chip(ChipType::Nand, 10, vec![], vec![0], Vec::new());
    source.num_inputs_ready = 2;
    let chips = vec![source, sim_chip(ChipType::Nand, 11, vec![1, 2], vec![], Vec::new())];
    let mut sim = simulator(pins, chips);
    sim.simulation_frame = 3;
    sim.propagate_outputs(ChipIdx(0));
    assert_eq!(sim.pins[1].state.raw, 1);
    assert_eq!(sim.pins[2].state.raw, 1);
    assert_eq!(sim.pins[2].latest_source_parent_chip_id, 10);
    assert_eq!(sim.chips[1].num_inputs_ready, 2);
    assert_eq!(sim.chips[0].num_inputs_ready, 0);
    // Chip 1's inputs drive nothing.
    sim.propagate_inputs(ChipIdx(1));
    assert_eq!(sim.chips[1].num_inputs_ready, 2);
}

#[test]
fn a_builtin_step_leaves_every_other_pin_alone() {
    let mut sim = single(ChipType::Nand, &[1, 1], 1, Vec::new());
    sim.pins.push(sim_pin(9, 0, false, 0xABCD));
    sim.pins[3].num_inputs_received_this_frame = 4;
    sim.process_builtin_chip(ChipIdx(0));
    assert_eq!(outputs(&sim), vec![0]);
    assert_eq!(sim.pins[3].state.raw, 0xABCD);
    assert_eq!(sim.pins[3].num_inputs_received_this_frame, 4);
    assert_eq!(sim.pins[0].state.raw, 1);
    assert_eq!(sim.pins[1].state.raw, 1);
}

/// A custom chip (index 1) holding one builtin (index 0) of kind `t` with
/// `n_in` inputs fed from the custom chip's single input pin, and its first
/// output wired to the custom chip's output pin.
fn wrapped(t: ChipType, n_in: usize, internal: Vec<u32>) -> Simulator {
    // Pins: 0 custom input, 1 custom output, then the builtin's inputs, then its output.
    let mut pins = vec![sim_pin(0, 1, true, 0), sim_pin(1, 1, false, 0)];
    for k in 0..n_in {
        let mut p = sim_pin(10 + k as i32, 0, true, 0);
        p.num_input_connections = 1;
        pins.push(p);
    }
    let out = pins.len();
    pins.push(sim_pin(20, 0, false, 0));
    pins[0].connected_target_pins = (2..2 + n_in).map(PinIdx).collect();
    pins[out].connected_target_pins = vec![PinIdx(1)];
    pins[1].num_input_connections = 1;
    let mut inner = sim_chip(t, 5, (2..2 + n_in).collect(), vec![out], internal);
    inner.num_connected_inputs = n_in as i32;
    let mut outer = sim_chip(ChipType::Custom, -1, vec![0], vec![1], Vec::new());
    outer.sub_chips = vec![ChipIdx(0)];
    let mut sim = simulator(pins, vec![inner, outer]);
    sim.root = ChipIdx(1);
    sim
}

#[test]
fn stepping_a_custom_chip_runs_its_subchips_between_its_pins() {
    for (input, expected) in [(1u32, 0u32), (0, 1)] {
        let mut sim = wrapped(ChipType::Nand, 2, Vec::new());
        sim.simulation_frame = 1;
        sim.pins[0].state = PinState::from_raw(input);
        let mut notes = Vec::new();
        sim.step_chip(ChipIdx(1), &mut notes);
        assert_eq!(sim.pins[1].state.raw, expected);
        assert!(notes.is_empty());
        assert_eq!(sim.chips[0].num_inputs_ready, 0);
        assert_eq!(sim.pins[2].num_inputs_received_this_frame, 1);
    }
}

#[test]
fn stepping_collects_the_notes_buzzers_play() {
    let mut sim = wrapped(ChipType::Buzzer, 2, Vec::new());
    sim.chips[0].output_pins.clear();
    sim.simulation_frame = 1;
    sim.pins[0].state = PinState::from_raw(6);
    let mut notes = vec![BuzzerNote { frequency_index: 1, volume_index: 1 }];
    sim.step_chip(ChipIdx(1), &mut notes);
    assert_eq!(notes, vec![BuzzerNote { frequency_index: 1, volume_index: 1 }, BuzzerNote { frequency_index: 6, volume_index: 6 }]);
}

#[test]
fn ordering_step_runs_a_ready_subchip_without_drawing() {
    let mut sim = wrapped(ChipType::Nand, 2, Vec::new());
    sim.simulation_frame = 1;
    sim.pins[0].state = PinState::from_raw(1);
    let mut notes = Vec::new();
    let used = sim.step_chip_reorder_with(ChipIdx(1), &Vec::new(), &mut notes);
    assert_eq!(used, 0);
    assert_eq!(sim.pins[1].state.raw, 0);
    assert!(notes.is_empty());
}

/// Two NAND chips (0 and 1), neither ready, inside a custom chip (2).
fn two_waiting_nands() -> Simulator {
    let mut pins = Vec::new();
    for chip in 0..2usize {
        for k in 0..3 {
            pins.push(sim_pin(k, chip, k < 2, 0));
        }
    }
    let mut a = sim_chip(ChipType::Nand, 10, vec![0, 1], vec![2], Vec::new());
    a.num_connected_inputs = 2;
    let mut b = sim_chip(ChipType::Nand, 11, vec![3, 4], vec![5], Vec::new());
    b.num_connected_inputs = 2;
    let mut outer = sim_chip(ChipType::Custom, -1, vec![], vec![], Vec::new());
    outer.sub_chips = vec![ChipIdx(0), ChipIdx(1)];
    simulator(pins, vec![a, b, outer])
}

#[test]
fn ordering_step_draws_when_no_subchip_is_ready() {
    let mut sim = two_waiting_nands();
    let mut notes = Vec::new();
    // The first word picks place 1 (1 % 2), which already is last.
    assert_eq!(sim.step_chip_reorder_with(ChipIdx(2), &vec![1, 5], &mut notes), 2);
    assert_eq!(sim.chips[2].sub_chips, vec![ChipIdx(0), ChipIdx(1)]);
    assert_eq!(sim.pins[2].state.raw, 1);
    assert_eq!(sim.pins[5].state.raw, 1);

    let mut sim = two_waiting_nands();
    // The first word picks place 0, which moves behind the other.
    assert_eq!(sim.step_chip_reorder_with(ChipIdx(2), &vec![0, 0], &mut notes), 2);
    assert_eq!(sim.chips[2].sub_chips, vec![ChipIdx(1), ChipIdx(0)]);
}

#[test]
fn a_frame_applies_the_external_inputs_then_steps_the_root() {
    for order_pass in [false, true] {
        let mut sim = wrapped(ChipType::Nand, 2, Vec::new());
        sim.needs_order_pass = order_pass;
        let inputs = [
            ExternalInput { address: PinAddress::new(0, 0), state: PinState::from_raw(1) },
            ExternalInput { address: PinAddress::new(9, 9), state: PinState::from_raw(1) },
        ];
        let mut notes = Vec::new();
        let used = sim.run_simulation_step_with(&inputs, 42, &Vec::new(), &mut notes);
        assert_eq!(used, 0);
        assert_eq!(sim.simulation_frame, 1);
        assert!(sim.can_dynamic_reorder_this_frame);
        assert!(!sim.needs_order_pass);
        assert_eq!(sim.pcg_rng_state, 42);
        assert_eq!(sim.pins[0].state.raw, 1);
        assert_eq!(sim.pins[1].state.raw, 0);
        // The next frame is not a hundredth one.
        sim.run_simulation_step_with(&inputs, 7, &Vec::new(), &mut notes);
        assert_eq!(sim.simulation_frame, 2);
        assert!(!sim.can_dynamic_reorder_this_frame);
    }
}
