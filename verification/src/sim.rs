//! The simulation graph: every pin and chip of a built circuit in two flat
//! arenas, indexed rather than referenced, and the step that a builtin chip
//! takes when the simulator reaches it. Also the internal state a builtin
//! chip starts a simulation with: display buffers, RAM contents, ROM words,
//! a pulse chip's settings.
use vstd::prelude::*;
use crate::description::{ChipType, is_bus_origin};
use crate::wires::PinAddress;
use crate::pin_state::{PinState, bits_of, flags_of, parts, high_first_bit, of_bool, field_of};

verus! {

/// Words addressable on an 8-bit address bus.
pub const ADDRESS_SIZE_8BIT: usize = 256;

#[verifier::external_type_specification]
#[verifier::external_body]
pub struct ExRandError(rand::Error);

/// Four bytes from the operating system's random source, read as a `u32`
/// (`RngCore::try_fill_bytes` on `rand::rngs::OsRng`, which asks
/// `getrandom`). When the source cannot be read, its error comes back
/// instead of a panic. Nothing is promised of the value.
#[verifier::external_body]
fn os_random_u32() -> Result<u32, rand::Error> {
    let mut bytes = [0u8; 4];
    rand::RngCore::try_fill_bytes(&mut rand::rngs::OsRng, &mut bytes)?;
    Ok(u32::from_ne_bytes(bytes))
}

/// The operating system's random source could not be read, so the dev
/// RAM's random contents could not be drawn.
#[derive(Debug, Clone, Copy, PartialEq, Eq, Structural)]
pub struct RandomSourceError;

/// A pulse chip's state when none was saved: `[duration, ticks_remaining,
/// input_old]`.
pub open spec fn pulse_default() -> Seq<u32> {
    seq![200u32, 0u32, 0u32]
}

/// What the internal state of a new simulated chip of kind `chip_type`
/// holds, given the instance data saved with it (`saved`):
/// - RGB and dot displays: two zeroed pixel buffers plus one word;
/// - the dev RAM: 256 words of arbitrary (random) contents and a zeroed
///   clock-edge word;
/// - the ROM: 256 words, the saved ones first, the rest zero;
/// - a pulse chip: the saved words, padded out to three from the defaults;
/// - anything else: the saved words, or nothing when none were saved.
pub open spec fn initial_state(chip_type: ChipType, saved: Option<Seq<u32>>, r: Seq<u32>) -> bool {
    match chip_type {
        ChipType::DisplayRgb | ChipType::DisplayDot => r == Seq::new(513, |i: int| 0u32),
        ChipType::DevRam8Bit => r.len() == 257 && r[256] == 0,
        ChipType::Rom256x16 => r.len() == 256 && forall|i: int| 0 <= i < 256 ==> #[trigger] r[i] == match saved {
            Some(s) => if i < s.len() { s[i] } else { 0u32 },
            None => 0u32,
        },
        ChipType::Pulse => match saved {
            Some(s) => if s.len() >= 3 {
                r == s
            } else {
                r.len() == 3 && forall|i: int| 0 <= i < 3 ==> #[trigger] r[i] == if i < s.len() { s[i] } else { pulse_default()[i] }
            },
            None => r == pulse_default(),
        },
        _ => match saved {
            Some(s) => if s.len() > 0 { r == s } else { r.len() == 0 },
            None => r.len() == 0,
        },
    }
}

fn zeros(n: usize) -> (v: Vec<u32>)
    ensures
        v@ == Seq::new(n as nat, |i: int| 0u32),
{
    let mut v: Vec<u32> = Vec::new();
    let mut i: usize = 0;
    while i < n
        invariant
            i <= n,
            v@ == Seq::new(i as nat, |k: int| 0u32),
        decreases n - i,
    {
        v.push(0);
        i = i + 1;
        assert(v@ =~= Seq::new(i as nat, |k: int| 0u32));
    }
    v
}

fn copy_words(s: &[u32]) -> (v: Vec<u32>)
    ensures
        v@ == s@,
{
    let mut v: Vec<u32> = Vec::new();
    let mut i: usize = 0;
    while i < s.len()
        invariant
            i <= s@.len(),
            v@ == s@.subrange(0, i as int),
        decreases s.len() - i,
    {
        v.push(s[i]);
        i = i + 1;
        assert(v@ =~= s@.subrange(0, i as int));
    }
    v
}

/// The internal state a new simulated chip of kind `chip_type` starts
/// with, given the instance data saved with it (`override_state`). Only the
/// dev RAM draws random words; it fails when the system's random source
/// cannot be read.
pub fn build_internal_state(chip_type: ChipType, override_state: Option<&[u32]>) -> (r: Result<Vec<u32>, RandomSourceError>)
    ensures
        match r {
            Ok(v) => initial_state(chip_type, match override_state {
                Some(s) => Some(s@),
                None => None,
            }, v@),
            Err(_) => chip_type == ChipType::DevRam8Bit,
        },
{
    let state = match chip_type {
        ChipType::DisplayRgb | ChipType::DisplayDot => {
            let state = zeros(ADDRESS_SIZE_8BIT * 2 + 1);
            assert(state@ =~= Seq::new(513, |i: int| 0u32));
            state
        },
        ChipType::DevRam8Bit => {
            let mut state: Vec<u32> = Vec::new();
            let mut i: usize = 0;
            while i < ADDRESS_SIZE_8BIT
                invariant
                    i <= ADDRESS_SIZE_8BIT,
                    state@.len() == i,
                    chip_type == ChipType::DevRam8Bit,
                decreases ADDRESS_SIZE_8BIT - i,
            {
                match os_random_u32() {
                    Ok(word) => state.push(word),
                    Err(_) => {
                        return Err(RandomSourceError);
                    },
                }
                i = i + 1;
            }
            // The clock edge state.
            state.push(0);
            state
        },
        ChipType::Rom256x16 => {
            let mut state = zeros(ADDRESS_SIZE_8BIT);
            match override_state {
                Some(saved) => {
                    let mut i: usize = 0;
                    while i < ADDRESS_SIZE_8BIT && i < saved.len()
                        invariant
                            i <= ADDRESS_SIZE_8BIT,
                            i <= saved@.len(),
                            state@.len() == ADDRESS_SIZE_8BIT,
                            forall|k: int| 0 <= k < ADDRESS_SIZE_8BIT ==> #[trigger] state@[k] == if k < i { saved@[k] } else { 0u32 },
                        decreases ADDRESS_SIZE_8BIT - i,
                    {
                        state.set(i, saved[i]);
                        i = i + 1;
                    }
                    assert forall|k: int| 0 <= k < 256 implies #[trigger] state@[k] == if k < saved@.len() { saved@[k] } else { 0u32 } by {
                        assert(state@[k] == if k < i { saved@[k] } else { 0u32 });
                    }
                },
                None => {
                    assert forall|k: int| 0 <= k < 256 implies #[trigger] state@[k] == 0u32 by {}
                },
            }
            state
        },
        ChipType::Pulse => match override_state {
            Some(saved) => {
                if saved.len() >= 3 {
                    copy_words(saved)
                } else {
                    let mut state: Vec<u32> = Vec::new();
                    state.push(200);
                    state.push(0);
                    state.push(0);
                    let mut i: usize = 0;
                    while i < saved.len()
                        invariant
                            saved@.len() < 3,
                            i <= saved@.len(),
                            state@.len() == 3,
                            forall|k: int| 0 <= k < 3 ==> #[trigger] state@[k] == if k < i { saved@[k] } else { pulse_default()[k] },
                        decreases saved.len() - i,
                    {
                        state.set(i, saved[i]);
                        i = i + 1;
                    }
                    state
                }
            },
            None => {
                let mut state: Vec<u32> = Vec::new();
                state.push(200);
                state.push(0);
                state.push(0);
                assert(state@ =~= pulse_default());
                state
            },
        },
        _ => match override_state {
            Some(s) => {
                if s.len() > 0 {
                    copy_words(s)
                } else {
                    Vec::new()
                }
            },
            None => Vec::new(),
        },
    };
    Ok(state)
}


/// A pin's place in the simulator's pin arena.
#[derive(Debug, Clone, Copy, PartialEq, Eq, Structural)]
pub struct PinIdx(pub usize);

/// A chip's place in the simulator's chip arena.
#[derive(Debug, Clone, Copy, PartialEq, Eq, Structural)]
pub struct ChipIdx(pub usize);

/// One pin of the simulation graph.
#[derive(Debug)]
pub struct SimPin {
    pub id: i32,
    pub parent_chip: ChipIdx,
    pub is_input: bool,
    pub state: PinState,
    pub connected_target_pins: Vec<PinIdx>,
    /// Simulation frame on which this pin last received an input.
    pub last_updated_frame_index: u64,
    /// The pin from which this pin last received its input.
    pub latest_source_id: i32,
    pub latest_source_parent_chip_id: i32,
    /// Number of wires that feed a signal into this pin.
    pub num_input_connections: i32,
    pub num_inputs_received_this_frame: i32,
}

/// One chip of the simulation graph.
#[derive(Debug)]
pub struct SimChip {
    pub chip_type: ChipType,
    pub id: i32,
    /// Memory of the builtins that have some (RAM, ROM, displays, pulse,
    /// key), and other chip-specific data.
    pub internal_state: Vec<u32>,
    pub is_builtin: bool,
    pub input_pins: Vec<PinIdx>,
    pub output_pins: Vec<PinIdx>,
    pub sub_chips: Vec<ChipIdx>,
    pub num_connected_inputs: i32,
    pub num_inputs_ready: i32,
}

impl SimChip {
    /// Every connected input of the chip has received its signal.
    pub fn is_ready(&self) -> (b: bool)
        ensures
            b == (self.num_inputs_ready == self.num_connected_inputs),
    {
        self.num_inputs_ready == self.num_connected_inputs
    }
}

/// What a chip holds, with its lists as sequences.
pub struct ChipView {
    pub chip_type: ChipType,
    pub id: i32,
    pub internal_state: Seq<u32>,
    pub is_builtin: bool,
    pub input_pins: Seq<PinIdx>,
    pub output_pins: Seq<PinIdx>,
    pub sub_chips: Seq<ChipIdx>,
    pub num_connected_inputs: i32,
    pub num_inputs_ready: i32,
}

impl View for SimChip {
    type V = ChipView;

    open spec fn view(&self) -> ChipView {
        ChipView {
            chip_type: self.chip_type,
            id: self.id,
            internal_state: self.internal_state@,
            is_builtin: self.is_builtin,
            input_pins: self.input_pins@,
            output_pins: self.output_pins@,
            sub_chips: self.sub_chips@,
            num_connected_inputs: self.num_connected_inputs,
            num_inputs_ready: self.num_inputs_ready,
        }
    }
}

/// The whole simulation graph (every pin and chip at every level of
/// nesting) and what the host feeds it: the frame counter, the clock speed,
/// the keys held down and the modifier keys.
#[derive(Debug)]
pub struct Simulator {
    pub pins: Vec<SimPin>,
    pub chips: Vec<SimChip>,
    pub root: ChipIdx,
    pub simulation_frame: u64,
    pub steps_per_clock_transition: u32,
    pub needs_order_pass: bool,
    pub can_dynamic_reorder_this_frame: bool,
    pub pcg_rng_state: u32,
    /// The seeded generator that picks a subchip when none is ready.
    pub rng: rand::rngs::StdRng,
    /// Key characters currently held down.
    pub held_keys: Vec<char>,
    /// Modifier keys currently held, one bit each.
    pub key_modifiers: u32,
}

/// A note that a buzzer chip asks the audio output to play this step.
#[derive(Debug, Clone, Copy, PartialEq, Eq, Structural)]
pub struct BuzzerNote {
    pub frequency_index: i32,
    pub volume_index: u32,
}

// ---------------------------------------------------------------------
// Pulse chip: internal state `[duration, ticks_remaining, input_old]`.

/// The ticks the pulse has left on this step: a rising edge of the input
/// while idle starts a new pulse of `duration` ticks.
pub open spec fn pulse_ticks(s: Seq<u32>, in_high: bool) -> u32 {
    if s[1] == 0 && in_high && s[2] == 0 {
        s[0]
    } else {
        s[1]
    }
}

/// The pulse chip's internal state after a step.
pub open spec fn pulse_internal(s: Seq<u32>, in_high: bool) -> Seq<u32> {
    let t = pulse_ticks(s, in_high);
    s.update(1, if t > 0 { (t - 1) as u32 } else { 0u32 }).update(2, if in_high { 1u32 } else { 0u32 })
}

/// The pulse chip's output on a step: high while the pulse runs, else
/// disconnected when its input is, else low.
pub open spec fn pulse_output(s: Seq<u32>, input: PinState) -> PinState {
    if pulse_ticks(s, high_first_bit(input)) > 0 {
        of_bool(true)
    } else if flags_of(input) != 0 {
        parts(0, 1)
    } else {
        of_bool(false)
    }
}

fn pulse_step(s: &Vec<u32>, input: PinState) -> (r: (Vec<u32>, PinState))
    requires
        s@.len() >= 3,
    ensures
        r.0@ == pulse_internal(s@, high_first_bit(input)),
        r.1 == pulse_output(s@, input),
{
    let in_high = input.first_bit_high();
    let mut st = copy_words(s.as_slice());
    let mut ticks = st[1];
    if ticks == 0 {
        if in_high && st[2] == 0 {
            ticks = st[0];
        }
    }
    let out = if ticks > 0 {
        PinState::high()
    } else if input.tristate_flags() != 0 {
        PinState::off()
    } else {
        PinState::low()
    };
    st.set(1, if ticks > 0 { ticks - 1 } else { 0 });
    st.set(2, if in_high { 1 } else { 0 });
    (st, out)
}

// ---------------------------------------------------------------------
// Clocked memories: the last internal word remembers the clock level, so
// that a rising edge can be told from a held-high clock.

/// The state with its clock word set to the clock's level.
pub open spec fn clocked(s: Seq<u32>, clock_high: bool) -> Seq<u32> {
    s.update(s.len() - 1, if clock_high { 1u32 } else { 0u32 })
}

/// The clock rises on this step.
pub open spec fn rising(s: Seq<u32>, clock_high: bool) -> bool {
    clock_high && s[s.len() - 1] == 0
}

/// The dev RAM's internal state after a step: on a rising edge, reset
/// zeroes the (up to) 256 data words, else a write stores `data` at `addr`.
pub open spec fn ram_internal(s: Seq<u32>, addr: int, data: u32, write: bool, reset: bool, clock_high: bool) -> Seq<u32> {
    let s1 = clocked(s, clock_high);
    if rising(s, clock_high) {
        if reset {
            Seq::new(s.len(), |i: int| if i < 256 { 0u32 } else { s1[i] })
        } else if write {
            s1.update(addr, data)
        } else {
            s1
        }
    } else {
        s1
    }
}

/// The inputs on which a RAM step reads and writes inside its memory.
pub open spec fn ram_ready(s: Seq<u32>, addr: int) -> bool {
    s.len() >= 1 && 0 <= addr < s.len()
}

fn ram_step(s: &Vec<u32>, addr: usize, data: u32, write: bool, reset: bool, clock_high: bool) -> (r: Vec<u32>)
    requires
        ram_ready(s@, addr as int),
    ensures
        r@ == ram_internal(s@, addr as int, data, write, reset, clock_high),
{
    let mut st = copy_words(s.as_slice());
    let last = st.len() - 1;
    let is_rising = clock_high && st[last] == 0;
    st.set(last, if clock_high { 1 } else { 0 });
    let ghost s1 = st@;
    if is_rising {
        if reset {
            let mut i: usize = 0;
            while i < 256 && i < st.len()
                invariant
                    i <= 256,
                    i <= st@.len(),
                    st@.len() == s1.len(),
                    forall|k: int| 0 <= k < st@.len() ==> #[trigger] st@[k] == if k < i { 0u32 } else { s1[k] },
                decreases st.len() - i,
            {
                st.set(i, 0);
                i = i + 1;
            }
            assert(st@ =~= Seq::new(s@.len(), |k: int| if k < 256 { 0u32 } else { s1[k] }));
        } else if write {
            st.set(addr, data);
        }
    }
    st
}

/// A display's internal state after a step: two pixel buffers of 256 words
/// (shown, then being drawn) and the clock word. On a rising edge, reset
/// clears the buffer being drawn, else a write stores `data` at `addr` in
/// it; refresh then copies it onto the shown one.
pub open spec fn display_internal(
    s: Seq<u32>,
    addr: int,
    data: u32,
    write: bool,
    reset: bool,
    refresh: bool,
    clock_high: bool,
) -> Seq<u32> {
    let s1 = clocked(s, clock_high);
    if rising(s, clock_high) {
        let s2 = if reset {
            Seq::new(s.len(), |i: int| if 256 <= i < 512 { 0u32 } else { s1[i] })
        } else if write {
            s1.update(addr + 256, data)
        } else {
            s1
        };
        if refresh {
            Seq::new(s.len(), |i: int| if i < 256 { s2[i + 256] } else { s2[i] })
        } else {
            s2
        }
    } else {
        s1
    }
}

/// The inputs on which a display step reads and writes inside its memory.
pub open spec fn display_ready(s: Seq<u32>, addr: int, write: bool, reset: bool, refresh: bool, clock_high: bool) -> bool {
    &&& s.len() >= 1
    &&& 0 <= addr < s.len()
    &&& rising(s, clock_high) && (reset || refresh) ==> s.len() >= 512
    &&& rising(s, clock_high) && !reset && write ==> addr + 256 < s.len()
}

fn display_step(
    s: &Vec<u32>,
    addr: usize,
    data: u32,
    write: bool,
    reset: bool,
    refresh: bool,
    clock_high: bool,
) -> (r: Vec<u32>)
    requires
        display_ready(s@, addr as int, write, reset, refresh, clock_high),
    ensures
        r@ == display_internal(s@, addr as int, data, write, reset, refresh, clock_high),
{
    let mut st = copy_words(s.as_slice());
    let last = st.len() - 1;
    let is_rising = clock_high && st[last] == 0;
    st.set(last, if clock_high { 1 } else { 0 });
    let ghost s1 = st@;
    if is_rising {
        if reset {
            let mut i: usize = 0;
            while i < 256
                invariant
                    i <= 256,
                    st@.len() == s1.len(),
                    s1.len() >= 512,
                    forall|k: int| 0 <= k < st@.len() ==> #[trigger] st@[k] == if 256 <= k < 256 + i { 0u32 } else { s1[k] },
                decreases 256 - i,
            {
                st.set(i + 256, 0);
                i = i + 1;
            }
            assert(st@ =~= Seq::new(s@.len(), |k: int| if 256 <= k < 512 { 0u32 } else { s1[k] }));
        } else if write {
            st.set(addr + 256, data);
        }
        if refresh {
            let ghost s2 = st@;
            let mut i: usize = 0;
            while i < 256
                invariant
                    i <= 256,
                    st@.len() == s2.len(),
                    s2.len() >= 512,
                    forall|k: int| 0 <= k < st@.len() ==> #[trigger] st@[k] == if k < i { s2[k + 256] } else { s2[k] },
                decreases 256 - i,
            {
                let w = st[i + 256];
                st.set(i, w);
                i = i + 1;
            }
            assert(st@ =~= Seq::new(s@.len(), |k: int| if k < 256 { s2[k + 256] } else { s2[k] }));
        }
    }
    st
}

// ---------------------------------------------------------------------
// Merging pins: the inputs side by side, the first one most significant.

/// The bit values of `s`'s states packed `w` bits each (each cut by
/// `mask`), `s[0]` in the highest place.
pub open spec fn packed_bits(s: Seq<PinState>, w: u32, mask: u32) -> u32
    decreases s.len(),
{
    if s.len() == 0 {
        0
    } else {
        (packed_bits(s.drop_last(), w, mask) << w) | (bits_of(s.last()) & mask)
    }
}

/// The disconnected flags of `s`'s states, packed as `packed_bits` packs
/// their values.
pub open spec fn packed_flags(s: Seq<PinState>, w: u32, mask: u32) -> u32
    decreases s.len(),
{
    if s.len() == 0 {
        0
    } else {
        (packed_flags(s.drop_last(), w, mask) << w) | (flags_of(s.last()) & mask)
    }
}

/// The merged state of `s`.
pub open spec fn merged(s: Seq<PinState>, w: u32, mask: u32) -> PinState {
    parts(packed_bits(s, w, mask), packed_flags(s, w, mask))
}

fn merge(states: &Vec<PinState>, w: u32, mask: u32) -> (r: PinState)
    requires
        w < 32,
    ensures
        r == merged(states@, w, mask),
{
    let mut bits: u32 = 0;
    let mut flags: u32 = 0;
    let mut i: usize = 0;
    while i < states.len()
        invariant
            i <= states@.len(),
            w < 32,
            bits == packed_bits(states@.take(i as int), w, mask),
            flags == packed_flags(states@.take(i as int), w, mask),
        decreases states.len() - i,
    {
        let st = states[i];
        assert(states@.take(i + 1).drop_last() =~= states@.take(i as int));
        bits = (bits << w) | (st.bit_states() & mask);
        flags = (flags << w) | (st.tristate_flags() & mask);
        i = i + 1;
    }
    assert(states@.take(states@.len() as int) =~= states@);
    PinState::from_parts(bits, flags)
}



// ---------------------------------------------------------------------
// A builtin chip's step, stated over the simulator before it.

/// What the host sets and a step only reads: the frame counter, the clock
/// speed, whether subchips may be reordered this frame, the keys held and
/// the modifier keys.
pub struct HostView {
    pub simulation_frame: u64,
    pub steps_per_clock_transition: u32,
    pub can_dynamic_reorder_this_frame: bool,
    pub held_keys: Seq<char>,
    pub key_modifiers: u32,
}

/// The host settings of `sim`.
pub open spec fn host_of(sim: Simulator) -> HostView {
    HostView {
        simulation_frame: sim.simulation_frame,
        steps_per_clock_transition: sim.steps_per_clock_transition,
        can_dynamic_reorder_this_frame: sim.can_dynamic_reorder_this_frame,
        held_keys: sim.held_keys@,
        key_modifiers: sim.key_modifiers,
    }
}

/// The part of the simulator that signals change: its pins, its chips (as
/// views) and its PCG state.
pub type SimGraph = (Seq<SimPin>, Seq<ChipView>, u32);

/// The state of input pin `i` of chip `c`.
pub open spec fn in_st(g: SimGraph, c: int, i: int) -> PinState {
    g.0[g.1[c].input_pins[i].0 as int].state
}

/// The states of the first `n` input pins of chip `c`.
pub open spec fn in_states(g: SimGraph, c: int, n: int) -> Seq<PinState> {
    Seq::new(n as nat, |i: int| in_st(g, c, i))
}

/// Input pin `i` of chip `c` reads high.
pub open spec fn in_high(g: SimGraph, c: int, i: int) -> bool {
    high_first_bit(in_st(g, c, i))
}

/// The bit values on input pin `i` of chip `c`.
pub open spec fn in_bits(g: SimGraph, c: int, i: int) -> u32 {
    bits_of(in_st(g, c, i))
}

/// The input pins a builtin of kind `t` reads.
pub open spec fn input_count(t: ChipType) -> int {
    match t {
        ChipType::Nand => 2,
        ChipType::Pulse => 1,
        ChipType::Split4To1Bit => 1,
        ChipType::Merge1To4Bit => 4,
        ChipType::Merge1To8Bit => 8,
        ChipType::Merge4To8Bit => 2,
        ChipType::Split8To4Bit => 1,
        ChipType::Split8To1Bit => 1,
        ChipType::TriStateBuffer => 2,
        ChipType::DisplayRgb => 8,
        ChipType::DisplayDot => 6,
        ChipType::DevRam8Bit => 5,
        ChipType::Rom256x16 => 1,
        ChipType::Buzzer => 2,
        _ => if is_bus_origin(t) { 1 } else { 0 },
    }
}

/// The output pins a builtin of kind `t` sets.
pub open spec fn output_count(t: ChipType) -> int {
    match t {
        ChipType::Nand | ChipType::Clock | ChipType::Pulse | ChipType::Key | ChipType::KeyMods => 1,
        ChipType::Split4To1Bit => 4,
        ChipType::Merge1To4Bit | ChipType::Merge1To8Bit | ChipType::Merge4To8Bit => 1,
        ChipType::Split8To4Bit => 2,
        ChipType::Split8To1Bit => 8,
        ChipType::TriStateBuffer => 1,
        ChipType::DisplayRgb => 3,
        ChipType::DisplayDot | ChipType::DevRam8Bit => 1,
        ChipType::Rom256x16 => 2,
        _ => if is_bus_origin(t) { 1 } else { 0 },
    }
}

/// Chip `c`'s key is held: some held key's code is its key word (the first
/// internal word, or 0) taken as a byte.
pub open spec fn key_held(host: HostView, g: SimGraph, c: int) -> bool {
    let s = g.1[c].internal_state;
    let code = if s.len() > 0 { s[0] } else { 0u32 };
    exists|j: int| 0 <= j < host.held_keys.len() && (host.held_keys[j] as u32) == code % 256
}

/// A clock chip's output is high: on the even half-periods, each
/// `steps_per_clock_transition` frames long (never, at speed zero).
pub open spec fn clock_high(host: HostView) -> bool {
    host.steps_per_clock_transition != 0 && (host.simulation_frame / (host.steps_per_clock_transition as u64)) & 1 == 0
}

/// The RGB colour word that a display write stores.
pub open spec fn rgb_word(g: SimGraph, c: int) -> u32 {
    in_bits(g, c, 1) | (in_bits(g, c, 2) << 4) | (in_bits(g, c, 3) << 8)
}

/// Chip `c`'s internal state after its step.
pub open spec fn builtin_internal(g: SimGraph, c: int) -> Seq<u32> {
    let s = g.1[c].internal_state;
    match g.1[c].chip_type {
        ChipType::Pulse => pulse_internal(s, in_high(g, c, 0)),
        ChipType::DevRam8Bit => ram_internal(
            s, in_bits(g, c, 0) as int, in_bits(g, c, 1), in_high(g, c, 2), in_high(g, c, 3), in_high(g, c, 4),
        ),
        ChipType::DisplayRgb => display_internal(
            s, in_bits(g, c, 0) as int, rgb_word(g, c), in_high(g, c, 5), in_high(g, c, 4), in_high(g, c, 6),
            in_high(g, c, 7),
        ),
        ChipType::DisplayDot => display_internal(
            s, in_bits(g, c, 0) as int, in_bits(g, c, 1), in_high(g, c, 3), in_high(g, c, 2), in_high(g, c, 4),
            in_high(g, c, 5),
        ),
        _ => s,
    }
}

/// The states chip `c` sets on its output pins, first output first.
pub open spec fn builtin_outputs(host: HostView, g: SimGraph, c: int) -> Seq<PinState> {
    let s = g.1[c].internal_state;
    let after = builtin_internal(g, c);
    let t = g.1[c].chip_type;
    match t {
        ChipType::Nand => seq![of_bool(!(in_high(g, c, 0) && in_high(g, c, 1)))],
        ChipType::Clock => seq![of_bool(clock_high(host))],
        ChipType::Pulse => seq![pulse_output(s, in_st(g, c, 0))],
        ChipType::Split4To1Bit => Seq::new(4, |i: int| field_of(in_st(g, c, 0), (3 - i) as u32, 1)),
        ChipType::Merge1To4Bit => seq![merged(in_states(g, c, 4), 1, 1)],
        ChipType::Merge1To8Bit => seq![merged(in_states(g, c, 8), 1, 1)],
        ChipType::Merge4To8Bit => seq![merged(in_states(g, c, 2), 4, 15)],
        ChipType::Split8To4Bit => seq![field_of(in_st(g, c, 0), 4, 15), field_of(in_st(g, c, 0), 0, 15)],
        ChipType::Split8To1Bit => Seq::new(8, |i: int| field_of(in_st(g, c, 0), (7 - i) as u32, 1)),
        ChipType::TriStateBuffer => seq![if in_high(g, c, 1) { in_st(g, c, 0) } else { parts(0, 0xFFFF) }],
        ChipType::Key => seq![of_bool(key_held(host, g, c))],
        ChipType::KeyMods => seq![PinState { raw: host.key_modifiers & 0xFF }],
        ChipType::DisplayRgb => {
            let col = after[in_bits(g, c, 0) as int];
            seq![PinState { raw: col & 15 }, PinState { raw: (col >> 4) & 15 }, PinState { raw: (col >> 8) & 15 }]
        },
        ChipType::DisplayDot | ChipType::DevRam8Bit => seq![PinState { raw: after[in_bits(g, c, 0) as int] & 0xFFFF }],
        ChipType::Rom256x16 => {
            let data = s[in_bits(g, c, 0) as int];
            seq![PinState { raw: (data >> 8) & 0xFF }, PinState { raw: data & 0xFF }]
        },
        _ => if is_bus_origin(t) { seq![in_st(g, c, 0)] } else { seq![] },
    }
}

/// The note chip `c` plays on its step: only a buzzer plays one, its
/// frequency and volume indices read from its two inputs.
pub open spec fn builtin_note(g: SimGraph, c: int) -> Option<BuzzerNote> {
    if g.1[c].chip_type == ChipType::Buzzer {
        Some(BuzzerNote { frequency_index: in_bits(g, c, 0) as i32, volume_index: in_bits(g, c, 1) })
    } else {
        None
    }
}

/// Chip `c` can take its step: it exists, its pins are in the arena, it
/// has the pins its kind reads and sets, and its memory holds every word
/// the step reads or writes.
pub open spec fn builtin_ready(g: SimGraph, c: int) -> bool {
    let chip = g.1[c];
    let s = chip.internal_state;
    let t = chip.chip_type;
    &&& 0 <= c < g.1.len()
    &&& forall|i: int| 0 <= i < chip.input_pins.len() ==> (#[trigger] chip.input_pins[i]).0 < g.0.len()
    &&& forall|i: int| 0 <= i < chip.output_pins.len() ==> (#[trigger] chip.output_pins[i]).0 < g.0.len()
    &&& chip.input_pins.len() >= input_count(t)
    &&& chip.output_pins.len() >= output_count(t)
    &&& t == ChipType::Pulse ==> s.len() >= 3
    &&& t == ChipType::Rom256x16 ==> in_bits(g, c, 0) < s.len()
    &&& t == ChipType::DevRam8Bit ==> ram_ready(s, in_bits(g, c, 0) as int)
    &&& t == ChipType::DisplayRgb ==> display_ready(
        s, in_bits(g, c, 0) as int, in_high(g, c, 5), in_high(g, c, 4), in_high(g, c, 6), in_high(g, c, 7),
    )
    &&& t == ChipType::DisplayDot ==> display_ready(
        s, in_bits(g, c, 0) as int, in_high(g, c, 3), in_high(g, c, 2), in_high(g, c, 4), in_high(g, c, 5),
    )
}

/// The pins after the first `n` of `vals` are written, in order, to the
/// pins `outs` names (a later write to the same pin wins).
pub open spec fn written(pins: Seq<SimPin>, outs: Seq<PinIdx>, vals: Seq<PinState>, n: int) -> Seq<SimPin>
    decreases n,
{
    if n <= 0 {
        pins
    } else {
        let before = written(pins, outs, vals, n - 1);
        let p = outs[n - 1].0 as int;
        before.update(p, SimPin { state: vals[n - 1], ..before[p] })
    }
}

/// The pins after chip `c`'s step.
pub open spec fn pins_after(host: HostView, g: SimGraph, c: int) -> Seq<SimPin> {
    let outs = builtin_outputs(host, g, c);
    written(g.0, g.1[c].output_pins, outs, outs.len() as int)
}

/// `b` is `a` with at most its internal state changed.
pub open spec fn same_but_memory(a: SimChip, b: SimChip) -> bool {
    &&& a.chip_type == b.chip_type
    &&& a.id == b.id
    &&& a.is_builtin == b.is_builtin
    &&& a.input_pins@ == b.input_pins@
    &&& a.output_pins@ == b.output_pins@
    &&& a.sub_chips@ == b.sub_chips@
    &&& a.num_connected_inputs == b.num_connected_inputs
    &&& a.num_inputs_ready == b.num_inputs_ready
}

/// `b` has `a`'s clock, keys, random state and bookkeeping.
pub open spec fn same_settings(a: Simulator, b: Simulator) -> bool {
    &&& a.root == b.root
    &&& a.simulation_frame == b.simulation_frame
    &&& a.steps_per_clock_transition == b.steps_per_clock_transition
    &&& a.needs_order_pass == b.needs_order_pass
    &&& a.can_dynamic_reorder_this_frame == b.can_dynamic_reorder_this_frame
    &&& a.pcg_rng_state == b.pcg_rng_state
    &&& a.held_keys@ == b.held_keys@
    &&& a.key_modifiers == b.key_modifiers
}

/// The pins, chips and PCG state after builtin chip `c`'s step.
#[verifier::opaque]
pub open spec fn builtin_graph(host: HostView, g: SimGraph, c: int) -> SimGraph {
    (pins_after(host, g, c), g.1.update(c, ChipView { internal_state: builtin_internal(g, c), ..g.1[c] }), g.2)
}

/// What a builtin chip's step does to the simulator: chip `c`'s memory
/// becomes `builtin_internal`, its output pins take `builtin_outputs`, and
/// nothing else changes.
pub open spec fn builtin_step(old: Simulator, new: Simulator, c: int) -> bool {
    &&& same_settings(old, new)
    &&& new.pins@ == pins_after(host_of(old), graph_of(old), c)
    &&& new.chips@.len() == old.chips@.len()
    &&& forall|j: int| 0 <= j < old.chips@.len() && j != c ==> new.chips@[j] == old.chips@[j]
    &&& same_but_memory(old.chips@[c], new.chips@[c])
    &&& new.chips@[c].internal_state@ == builtin_internal(graph_of(old), c)
}

impl Simulator {
    fn input_state(&self, c: usize, i: usize) -> (s: PinState)
        requires
            builtin_ready(graph_of(*self), c as int),
            i < self.chips@[c as int].input_pins@.len(),
        ensures
            s == in_st(graph_of(*self), c as int, i as int),
    {
        let p = self.chips[c].input_pins[i];
        assert(p == self.chips@[c as int].input_pins@[i as int]);
        self.pins[p.0].state
    }

    fn input_states(&self, c: usize, n: usize) -> (v: Vec<PinState>)
        requires
            builtin_ready(graph_of(*self), c as int),
            n <= self.chips@[c as int].input_pins@.len(),
        ensures
            v@ == in_states(graph_of(*self), c as int, n as int),
    {
        let mut v: Vec<PinState> = Vec::new();
        let mut i: usize = 0;
        while i < n
            invariant
                i <= n,
                n <= self.chips@[c as int].input_pins@.len(),
                builtin_ready(graph_of(*self), c as int),
                v@ == in_states(graph_of(*self), c as int, i as int),
            decreases n - i,
        {
            v.push(self.input_state(c, i));
            i = i + 1;
            assert(v@ =~= in_states(graph_of(*self), c as int, i as int));
        }
        v
    }

    fn key_is_held(&self, c: usize) -> (b: bool)
        requires
            c < self.chips@.len(),
        ensures
            b == key_held(host_of(*self), graph_of(*self), c as int),
    {
        assert(graph_of(*self).1[c as int] == self.chips@[c as int]@);
        let code: u32 = if self.chips[c].internal_state.len() > 0 { self.chips[c].internal_state[0] } else { 0 };
        let key = code % 256;
        let mut j: usize = 0;
        while j < self.held_keys.len()
            invariant
                j <= self.held_keys@.len(),
                c < self.chips@.len(),
                key == (if self.chips@[c as int].internal_state@.len() > 0 { self.chips@[c as int].internal_state@[0] } else { 0u32 }) % 256,
                forall|k: int| 0 <= k < j ==> (self.held_keys@[k] as u32) != key,
            decreases self.held_keys.len() - j,
        {
            if self.held_keys[j] as u32 == key {
                assert(host_of(*self).held_keys[j as int] == self.held_keys@[j as int]);
                return true;
            }
            j = j + 1;
        }
        false
    }

    /// What chip `c`'s step computes, before anything is written: its new
    /// memory (`None` where it keeps its memory), the states for its output
    /// pins and the note it plays.
    #[verifier::rlimit(40)]
    fn builtin_effect(&self, c: usize) -> (r: (Option<Vec<u32>>, Vec<PinState>, Option<BuzzerNote>))
        requires
            builtin_ready(graph_of(*self), c as int),
        ensures
            match r.0 {
                Some(v) => v@ == builtin_internal(graph_of(*self), c as int),
                None => builtin_internal(graph_of(*self), c as int) == self.chips@[c as int].internal_state@,
            },
            r.1@ == builtin_outputs(host_of(*self), graph_of(*self), c as int),
            r.2 == builtin_note(graph_of(*self), c as int),
    {
        let ghost ci = c as int;
        let t = self.chips[c].chip_type;
        let mut outs: Vec<PinState> = Vec::new();
        match t {
            ChipType::Nand => {
                let a = self.input_state(c, 0).first_bit_high();
                let b = self.input_state(c, 1).first_bit_high();
                outs.push(PinState::from_bool(!(a && b)));
                assert(outs@ =~= builtin_outputs(host_of(*self), graph_of(*self), ci));
                (None, outs, None)
            },
            ChipType::Clock => {
                let spct = self.steps_per_clock_transition;
                let high = spct != 0 && ((self.simulation_frame / spct as u64) & 1) == 0;
                outs.push(PinState::from_bool(high));
                assert(outs@ =~= builtin_outputs(host_of(*self), graph_of(*self), ci));
                (None, outs, None)
            },
            ChipType::Pulse => {
                let input = self.input_state(c, 0);
                let (st, out) = pulse_step(&self.chips[c].internal_state, input);
                outs.push(out);
                assert(outs@ =~= builtin_outputs(host_of(*self), graph_of(*self), ci));
                (Some(st), outs, None)
            },
            ChipType::Split4To1Bit => {
                let input = self.input_state(c, 0);
                outs.push(input.extract(3, 1));
                outs.push(input.extract(2, 1));
                outs.push(input.extract(1, 1));
                outs.push(input.extract(0, 1));
                assert(outs@ =~= builtin_outputs(host_of(*self), graph_of(*self), ci));
                (None, outs, None)
            },
            ChipType::Merge1To4Bit => {
                let ins = self.input_states(c, 4);
                outs.push(merge(&ins, 1, 1));
                assert(outs@ =~= builtin_outputs(host_of(*self), graph_of(*self), ci));
                (None, outs, None)
            },
            ChipType::Merge1To8Bit => {
                let ins = self.input_states(c, 8);
                outs.push(merge(&ins, 1, 1));
                assert(outs@ =~= builtin_outputs(host_of(*self), graph_of(*self), ci));
                (None, outs, None)
            },
            ChipType::Merge4To8Bit => {
                let ins = self.input_states(c, 2);
                outs.push(merge(&ins, 4, 15));
                assert(outs@ =~= builtin_outputs(host_of(*self), graph_of(*self), ci));
                (None, outs, None)
            },
            ChipType::Split8To4Bit => {
                let input = self.input_state(c, 0);
                outs.push(input.extract(4, 15));
                outs.push(input.extract(0, 15));
                assert(outs@ =~= builtin_outputs(host_of(*self), graph_of(*self), ci));
                (None, outs, None)
            },
            ChipType::Split8To1Bit => {
                let input = self.input_state(c, 0);
                let mut bit: u32 = 0;
                while bit < 8
                    invariant
                        bit <= 8,
                        outs@ == Seq::new(bit as nat, |i: int| field_of(input, (7 - i) as u32, 1)),
                    decreases 8 - bit,
                {
                    outs.push(input.extract(7 - bit, 1));
                    bit = bit + 1;
                    assert(outs@ =~= Seq::new(bit as nat, |i: int| field_of(input, (7 - i) as u32, 1)));
                }
                assert(outs@ =~= builtin_outputs(host_of(*self), graph_of(*self), ci));
                (None, outs, None)
            },
            ChipType::TriStateBuffer => {
                let data = self.input_state(c, 0);
                let enable = self.input_state(c, 1).first_bit_high();
                outs.push(if enable { data } else { PinState::disconnected() });
                assert(outs@ =~= builtin_outputs(host_of(*self), graph_of(*self), ci));
                (None, outs, None)
            },
            ChipType::Key => {
                outs.push(PinState::from_bool(self.key_is_held(c)));
                assert(outs@ =~= builtin_outputs(host_of(*self), graph_of(*self), ci));
                (None, outs, None)
            },
            ChipType::KeyMods => {
                outs.push(PinState::from_raw(self.key_modifiers & 0xFF));
                assert(outs@ =~= builtin_outputs(host_of(*self), graph_of(*self), ci));
                (None, outs, None)
            },
            ChipType::DisplayRgb => {
                let addr = self.input_state(c, 0).bit_states() as usize;
                let r = self.input_state(c, 1).bit_states();
                let g = self.input_state(c, 2).bit_states();
                let b = self.input_state(c, 3).bit_states();
                let reset = self.input_state(c, 4).first_bit_high();
                let write = self.input_state(c, 5).first_bit_high();
                let refresh = self.input_state(c, 6).first_bit_high();
                let clock = self.input_state(c, 7).first_bit_high();
                let data = r | (g << 4) | (b << 8);
                let st = display_step(&self.chips[c].internal_state, addr, data, write, reset, refresh, clock);
                let col = st[addr];
                outs.push(PinState::from_raw(col & 15));
                outs.push(PinState::from_raw((col >> 4) & 15));
                outs.push(PinState::from_raw((col >> 8) & 15));
                assert(outs@ =~= builtin_outputs(host_of(*self), graph_of(*self), ci));
                (Some(st), outs, None)
            },
            ChipType::DisplayDot => {
                let addr = self.input_state(c, 0).bit_states() as usize;
                let pixel = self.input_state(c, 1).bit_states();
                let reset = self.input_state(c, 2).first_bit_high();
                let write = self.input_state(c, 3).first_bit_high();
                let refresh = self.input_state(c, 4).first_bit_high();
                let clock = self.input_state(c, 5).first_bit_high();
                let st = display_step(&self.chips[c].internal_state, addr, pixel, write, reset, refresh, clock);
                outs.push(PinState::from_raw(st[addr] & 0xFFFF));
                assert(outs@ =~= builtin_outputs(host_of(*self), graph_of(*self), ci));
                (Some(st), outs, None)
            },
            ChipType::DevRam8Bit => {
                let addr = self.input_state(c, 0).bit_states() as usize;
                let data = self.input_state(c, 1).bit_states();
                let write = self.input_state(c, 2).first_bit_high();
                let reset = self.input_state(c, 3).first_bit_high();
                let clock = self.input_state(c, 4).first_bit_high();
                let st = ram_step(&self.chips[c].internal_state, addr, data, write, reset, clock);
                outs.push(PinState::from_raw(st[addr] & 0xFFFF));
                assert(outs@ =~= builtin_outputs(host_of(*self), graph_of(*self), ci));
                (Some(st), outs, None)
            },
            ChipType::Rom256x16 => {
                let addr = self.input_state(c, 0).bit_states() as usize;
                let data = self.chips[c].internal_state[addr];
                outs.push(PinState::from_raw((data >> 8) & 0xFF));
                outs.push(PinState::from_raw(data & 0xFF));
                assert(outs@ =~= builtin_outputs(host_of(*self), graph_of(*self), ci));
                (None, outs, None)
            },
            ChipType::Buzzer => {
                let first = self.input_state(c, 0);
                let freq = first.bit_states();
                let volume = self.input_state(c, 1).bit_states();
                let raw: u32 = first.raw;
                assert(raw & 0xFFFF <= 0xFFFF) by (bit_vector);
                assert(outs@ =~= builtin_outputs(host_of(*self), graph_of(*self), ci));
                (None, outs, Some(BuzzerNote { frequency_index: freq as i32, volume_index: volume }))
            },
            _ => {
                if t.is_bus_origin_type() {
                    outs.push(self.input_state(c, 0));
                }
                assert(outs@ =~= builtin_outputs(host_of(*self), graph_of(*self), ci));
                (None, outs, None)
            },
        }
    }

    /// Runs builtin chip `chip` for one step: it reads its input pins (and,
    /// for some kinds, the clock, the keys held, or its memory), updates
    /// its memory, sets its output pins, and hands back the note a buzzer
    /// plays, which the caller passes on to the audio output.
    pub fn process_builtin_chip(&mut self, chip: ChipIdx) -> (note: Option<BuzzerNote>)
        requires
            builtin_ready(graph_of(*old(self)), chip.0 as int),
        ensures
            builtin_step(*old(self), *final(self), chip.0 as int),
            graph_of(*final(self)) == builtin_graph(host_of(*old(self)), graph_of(*old(self)), chip.0 as int),
            note == builtin_note(graph_of(*old(self)), chip.0 as int),
    {
        let c = chip.0;
        let ghost old_sim = *self;
        let (memory, outs, note) = self.builtin_effect(c);
        match memory {
            Some(v) => {
                self.chips[c].internal_state = v;
            },
            None => {},
        }
        assert(self.chips@[c as int].output_pins@ == old_sim.chips@[c as int].output_pins@);
        let mut k: usize = 0;
        while k < outs.len()
            invariant
                k <= outs@.len(),
                outs@ == builtin_outputs(host_of(old_sim), graph_of(old_sim), c as int),
                builtin_ready(graph_of(old_sim), c as int),
                outs@.len() <= output_count(old_sim.chips@[c as int].chip_type),
                0 <= c < old_sim.chips@.len(),
                self.chips@.len() == old_sim.chips@.len(),
                self.chips@ == old_sim.chips@.update(c as int, self.chips@[c as int]),
                outs@.len() <= self.chips@[c as int].output_pins@.len(),
                self.chips@[c as int].output_pins@ == old_sim.chips@[c as int].output_pins@,
                same_settings(old_sim, *self),
                same_but_memory(old_sim.chips@[c as int], self.chips@[c as int]),
                self.chips@[c as int].internal_state@ == builtin_internal(graph_of(old_sim), c as int),
                self.pins@ == written(old_sim.pins@, old_sim.chips@[c as int].output_pins@, outs@, k as int),
                self.pins@.len() == old_sim.pins@.len(),
            decreases outs.len() - k,
        {
            let p = self.chips[c].output_pins[k];
            assert(p == old_sim.chips@[c as int].output_pins@[k as int]);
            self.pins[p.0].state = outs[k];
            k = k + 1;
        }
        assert(graph_of(*self).1 =~= graph_of(old_sim).1.update(
            c as int,
            ChipView { internal_state: builtin_internal(graph_of(old_sim), c as int), ..graph_of(old_sim).1[c as int] },
        ));
        proof {
            reveal(builtin_graph);
        }
        note
    }
}



// ---------------------------------------------------------------------
// Conflicting inputs: a pin fed by several wires in one frame keeps the
// bits they agree on and settles the others by a coin toss.

/// The PCG state after one draw: `state * 747796405 + 2891336453`,
/// wrapping at 32 bits.
pub open spec fn pcg_next(state: u32) -> u32 {
    vstd::wrapping::u32_specs::wrapping_add(vstd::wrapping::u32_specs::wrapping_mul(state, 747796405), 2891336453)
}

/// The coin that the PCG output for `state` shows: its permuted word lies
/// in the lower half of the range.
pub open spec fn pcg_bool(state: u32) -> bool {
    let x = vstd::wrapping::u32_specs::wrapping_mul((state >> (((state >> 28) + 4) as u32)) ^ state, 277803737);
    (x >> 22) ^ x < u32::MAX / 2
}

/// The state a pin settles to when `src` arrives on top of `cur`: where
/// either side is disconnected the bit takes the OR of the values; the
/// other bits take the OR (`pick_or`) or the AND of the values; a bit stays
/// disconnected only where both sides are.
pub open spec fn resolved(src: PinState, cur: PinState, pick_or: bool) -> PinState {
    let or = PinState { raw: src.raw | cur.raw };
    let and = PinState { raw: src.raw & cur.raw };
    let bits = if pick_or { bits_of(or) } else { bits_of(and) };
    let mask = flags_of(or);
    parts((bits & !mask) | (bits_of(or) & mask), flags_of(and))
}

/// The part of the simulator that signals change, as `(pins, chips,
/// pcg_rng_state)`.
pub open spec fn graph_of(sim: Simulator) -> SimGraph {
    (sim.pins@, sim.chips@.map_values(|c: SimChip| c@), sim.pcg_rng_state)
}

/// How many inputs pin `t` had received this frame before this one.
pub open spec fn received_before(pins: Seq<SimPin>, frame: u64, t: int) -> i32 {
    if pins[t].last_updated_frame_index != frame {
        0
    } else {
        pins[t].num_inputs_received_this_frame
    }
}

/// The state pin `t` takes when pin `s` drives it; a conflict with an
/// earlier input this frame is settled by the coin of the next PCG draw.
pub open spec fn received_state(pins: Seq<SimPin>, pcg: u32, frame: u64, t: int, s: int) -> PinState {
    if received_before(pins, frame, t) > 0 {
        resolved(pins[s].state, pins[t].state, pcg_bool(pcg_next(pcg)))
    } else {
        pins[s].state
    }
}

/// Pin `t`'s state changed (or it had no earlier input this frame), so `s`
/// is recorded as its source.
pub open spec fn source_taken(pins: Seq<SimPin>, pcg: u32, frame: u64, t: int, s: int) -> bool {
    received_before(pins, frame, t) <= 0 || received_state(pins, pcg, frame, t, s) != pins[t].state
}

/// Pin `t`'s receipt completes its chip's inputs: it is an input pin and
/// has now received as many inputs as wires feed it.
pub open spec fn completes_chip(pins: Seq<SimPin>, frame: u64, t: int) -> bool {
    pins[t].is_input && received_before(pins, frame, t) + 1 == pins[t].num_input_connections
}

/// The pins, chips and PCG state after pin `s` drives pin `t` in frame
/// `frame`: `t` takes the received state, records its source when the
/// state changed, counts the input, and its chip counts one more ready
/// input when that was the last one it waited for; a conflict uses one
/// PCG draw.
pub open spec fn receive_step(g: SimGraph, frame: u64, t: int, s: int) -> SimGraph {
    let (pins, chips, pcg) = g;
    let p = pins[t];
    let taken = source_taken(pins, pcg, frame, t, s);
    let new_pin = SimPin {
        state: received_state(pins, pcg, frame, t, s),
        last_updated_frame_index: frame,
        num_inputs_received_this_frame: (received_before(pins, frame, t) + 1) as i32,
        latest_source_id: if taken { pins[s].id } else { p.latest_source_id },
        latest_source_parent_chip_id: if taken { chips[pins[s].parent_chip.0 as int].id } else { p.latest_source_parent_chip_id },
        ..p
    };
    let parent = p.parent_chip.0 as int;
    let new_chips = if completes_chip(pins, frame, t) {
        chips.update(parent, ChipView { num_inputs_ready: (chips[parent].num_inputs_ready + 1) as i32, ..chips[parent] })
    } else {
        chips
    };
    let new_pcg = if received_before(pins, frame, t) > 0 { pcg_next(pcg) } else { pcg };
    (pins.update(t, new_pin), new_chips, new_pcg)
}

/// The inputs on which a receipt stays inside the arenas and its counters.
pub open spec fn receive_ready(g: SimGraph, frame: u64, t: int, s: int) -> bool {
    let (pins, chips, pcg) = g;
    &&& 0 <= t < pins.len()
    &&& 0 <= s < pins.len()
    &&& (pins[s].parent_chip.0 as int) < chips.len()
    &&& (pins[t].parent_chip.0 as int) < chips.len()
    &&& received_before(pins, frame, t) < i32::MAX
    &&& completes_chip(pins, frame, t) ==> chips[pins[t].parent_chip.0 as int].num_inputs_ready < i32::MAX
}

/// `b` keeps everything of `a` outside its pins, chips and PCG state.
pub open spec fn same_host_settings(a: Simulator, b: Simulator) -> bool {
    &&& a.root == b.root
    &&& a.simulation_frame == b.simulation_frame
    &&& a.steps_per_clock_transition == b.steps_per_clock_transition
    &&& a.needs_order_pass == b.needs_order_pass
    &&& a.can_dynamic_reorder_this_frame == b.can_dynamic_reorder_this_frame
    &&& a.held_keys@ == b.held_keys@
    &&& a.key_modifiers == b.key_modifiers
}

impl Simulator {
    /// One coin toss from the simulator's PCG generator, which it advances.
    pub fn random_bool(&mut self) -> (b: bool)
        ensures
            final(self).pcg_rng_state == pcg_next(old(self).pcg_rng_state),
            b == pcg_bool(final(self).pcg_rng_state),
            final(self).pins@ == old(self).pins@,
            final(self).chips@ == old(self).chips@,
            same_host_settings(*old(self), *final(self)),
    {
        self.pcg_rng_state = self.pcg_rng_state.wrapping_mul(747796405).wrapping_add(2891336453);
        let state = self.pcg_rng_state;
        let top = state >> 28;
        assert(top <= 15) by (bit_vector)
            requires
                top == state >> 28,
        ;
        let mut result = ((state >> (top + 4)) ^ state).wrapping_mul(277803737);
        result = (result >> 22) ^ result;
        result < u32::MAX / 2
    }

    /// Pin `source` drives pin `target`: the target takes the source's
    /// state, or, where it already received another input this frame, the
    /// state the two settle to; it records its source when its state
    /// changed, counts the input, and tells its chip when that was the last
    /// input the chip waited for.
    pub fn receive_input(&mut self, target: PinIdx, source: PinIdx)
        requires
            receive_ready(graph_of(*old(self)), old(self).simulation_frame, target.0 as int, source.0 as int),
        ensures
            graph_of(*final(self)) == receive_step(
                graph_of(*old(self)),
                old(self).simulation_frame,
                target.0 as int,
                source.0 as int,
            ),
            same_host_settings(*old(self), *final(self)),
    {
        let ghost start = *self;
        let t = target.0;
        let s = source.0;
        let frame = self.simulation_frame;
        if self.pins[t].last_updated_frame_index != frame {
            self.pins[t].last_updated_frame_index = frame;
            self.pins[t].num_inputs_received_this_frame = 0;
        }
        let source_state = self.pins[s].state;
        let source_id = self.pins[s].id;
        let source_chip = self.pins[s].parent_chip;
        let set: bool = if self.pins[t].num_inputs_received_this_frame > 0 {
            let cur_state = self.pins[t].state;
            let or = source_state.or(cur_state);
            let and = source_state.and(cur_state);
            let pick_or = self.random_bool();
            let bits_new = if pick_or { or.bit_states() } else { and.bit_states() };
            let mask = or.tristate_flags();
            let bits_new = (bits_new & !mask) | (or.bit_states() & mask);
            let state_new = PinState::from_parts(bits_new, and.tristate_flags());
            self.pins[t].state = state_new;
            state_new.raw != cur_state.raw
        } else {
            self.pins[t].state = source_state;
            true
        };
        if set {
            let chip_id = self.chips[source_chip.0].id;
            self.pins[t].latest_source_id = source_id;
            self.pins[t].latest_source_parent_chip_id = chip_id;
        }
        self.pins[t].num_inputs_received_this_frame = self.pins[t].num_inputs_received_this_frame + 1;
        if self.pins[t].is_input && self.pins[t].num_inputs_received_this_frame == self.pins[t].num_input_connections {
            let parent = self.pins[t].parent_chip;
            self.chips[parent.0].num_inputs_ready = self.chips[parent.0].num_inputs_ready + 1;
        }
        let ghost after = receive_step(graph_of(start), frame, t as int, s as int);
        assert(self.pins@ =~= after.0);
        assert(graph_of(*self).1 =~= after.1);
    }
}

/// The pins, chips and PCG state after pin `s` drives each of `targets` in
/// turn.
pub open spec fn propagated(g: SimGraph, frame: u64, targets: Seq<PinIdx>, s: int) -> SimGraph
    decreases targets.len(),
{
    if targets.len() == 0 {
        g
    } else {
        propagated(receive_step(g, frame, targets[0].0 as int, s), frame, targets.drop_first(), s)
    }
}

/// Every receipt of that propagation stays inside the arenas and counters.
pub open spec fn propagate_ok(g: SimGraph, frame: u64, targets: Seq<PinIdx>, s: int) -> bool
    decreases targets.len(),
{
    targets.len() == 0 || (receive_ready(g, frame, targets[0].0 as int, s) && propagate_ok(
        receive_step(g, frame, targets[0].0 as int, s),
        frame,
        targets.drop_first(),
        s,
    ))
}

/// The pins, chips and PCG state after each of `sources` in turn drives
/// the pins it is wired to.
pub open spec fn sent_all(g: SimGraph, frame: u64, sources: Seq<PinIdx>) -> SimGraph
    decreases sources.len(),
{
    if sources.len() == 0 {
        g
    } else {
        let s = sources[0].0 as int;
        sent_all(propagated(g, frame, g.0[s].connected_target_pins@, s), frame, sources.drop_first())
    }
}

/// Every receipt of those propagations stays inside the arenas and
/// counters.
pub open spec fn send_all_ok(g: SimGraph, frame: u64, sources: Seq<PinIdx>) -> bool
    decreases sources.len(),
{
    sources.len() == 0 || {
        let s = sources[0].0 as int;
        &&& 0 <= s < g.0.len()
        &&& propagate_ok(g, frame, g.0[s].connected_target_pins@, s)
        &&& send_all_ok(propagated(g, frame, g.0[s].connected_target_pins@, s), frame, sources.drop_first())
    }
}

/// The pins, chips and PCG state after chip `c`'s output pins drive the
/// pins they are wired to and the chip starts counting its ready inputs
/// afresh.
pub open spec fn outputs_sent(g: SimGraph, frame: u64, c: int) -> SimGraph {
    let (pins, chips, pcg) = sent_all(g, frame, g.1[c].output_pins);
    (pins, chips.update(c, ChipView { num_inputs_ready: 0, ..chips[c] }), pcg)
}

impl Simulator {
    /// Pin `source` drives every pin it is wired to, in wiring order.
    pub fn propagate_signal(&mut self, source: PinIdx)
        requires
            source.0 < old(self).pins@.len(),
            propagate_ok(
                graph_of(*old(self)),
                old(self).simulation_frame,
                old(self).pins@[source.0 as int].connected_target_pins@,
                source.0 as int,
            ),
        ensures
            graph_of(*final(self)) == propagated(
                graph_of(*old(self)),
                old(self).simulation_frame,
                old(self).pins@[source.0 as int].connected_target_pins@,
                source.0 as int,
            ),
            same_host_settings(*old(self), *final(self)),
    {
        let ghost start = *self;
        let targets = copy_pin_list(&self.pins[source.0].connected_target_pins);
        let ghost s = source.0 as int;
        let mut i: usize = 0;
        assert(targets@.skip(0) =~= targets@);
        while i < targets.len()
            invariant
                i <= targets@.len(),
                targets@ == start.pins@[s].connected_target_pins@,
                s == source.0 as int,
                same_host_settings(start, *self),
                propagated(graph_of(start), start.simulation_frame, targets@, s) == propagated(
                    graph_of(*self),
                    start.simulation_frame,
                    targets@.skip(i as int),
                    s,
                ),
                propagate_ok(graph_of(*self), start.simulation_frame, targets@.skip(i as int), s),
            decreases targets.len() - i,
        {
            assert(targets@.skip(i as int).drop_first() =~= targets@.skip(i + 1));
            assert(targets@.skip(i as int)[0] == targets@[i as int]);
            self.receive_input(targets[i], source);
            i = i + 1;
        }
    }

    /// Each of `sources` in turn drives the pins it is wired to.
    fn send_all(&mut self, sources: &Vec<PinIdx>)
        requires
            send_all_ok(graph_of(*old(self)), old(self).simulation_frame, sources@),
        ensures
            graph_of(*final(self)) == sent_all(graph_of(*old(self)), old(self).simulation_frame, sources@),
            same_host_settings(*old(self), *final(self)),
    {
        let ghost start = *self;
        let mut i: usize = 0;
        assert(sources@.skip(0) =~= sources@);
        while i < sources.len()
            invariant
                i <= sources@.len(),
                same_host_settings(start, *self),
                sent_all(graph_of(start), start.simulation_frame, sources@) == sent_all(
                    graph_of(*self),
                    start.simulation_frame,
                    sources@.skip(i as int),
                ),
                send_all_ok(graph_of(*self), start.simulation_frame, sources@.skip(i as int)),
            decreases sources.len() - i,
        {
            assert(sources@.skip(i as int).drop_first() =~= sources@.skip(i + 1));
            assert(sources@.skip(i as int)[0] == sources@[i as int]);
            self.propagate_signal(sources[i]);
            i = i + 1;
        }
    }

    /// Chip `chip`'s input pins drive the pins they are wired to (inside
    /// the chip).
    pub fn propagate_inputs(&mut self, chip: ChipIdx)
        requires
            chip.0 < old(self).chips@.len(),
            send_all_ok(graph_of(*old(self)), old(self).simulation_frame, old(self).chips@[chip.0 as int].input_pins@),
        ensures
            graph_of(*final(self)) == sent_all(
                graph_of(*old(self)),
                old(self).simulation_frame,
                old(self).chips@[chip.0 as int].input_pins@,
            ),
            same_host_settings(*old(self), *final(self)),
    {
        let pins = copy_pin_list(&self.chips[chip.0].input_pins);
        self.send_all(&pins);
    }

    /// Chip `chip`'s output pins drive the pins they are wired to, and the
    /// chip starts counting its ready inputs afresh.
    pub fn propagate_outputs(&mut self, chip: ChipIdx)
        requires
            chip.0 < old(self).chips@.len(),
            send_all_ok(graph_of(*old(self)), old(self).simulation_frame, old(self).chips@[chip.0 as int].output_pins@),
        ensures
            graph_of(*final(self)) == outputs_sent(graph_of(*old(self)), old(self).simulation_frame, chip.0 as int),
            same_host_settings(*old(self), *final(self)),
    {
        let pins = copy_pin_list(&self.chips[chip.0].output_pins);
        self.send_all(&pins);
        proof {
            lemma_sent_all_keeps_chip_count(graph_of(*old(self)), old(self).simulation_frame, old(self).chips@[chip.0 as int].output_pins@);
        }
        self.chips[chip.0].num_inputs_ready = 0;
    }
}

/// Propagation never adds or removes a chip.
proof fn lemma_sent_all_keeps_chip_count(g: SimGraph, frame: u64, sources: Seq<PinIdx>)
    requires
        send_all_ok(g, frame, sources),
    ensures
        sent_all(g, frame, sources).1.len() == g.1.len(),
    decreases sources.len(),
{
    if sources.len() > 0 {
        let s = sources[0].0 as int;
        lemma_propagated_keeps_chip_count(g, frame, g.0[s].connected_target_pins@, s);
        lemma_sent_all_keeps_chip_count(propagated(g, frame, g.0[s].connected_target_pins@, s), frame, sources.drop_first());
    }
}

/// One pin's propagation never adds or removes a chip.
proof fn lemma_propagated_keeps_chip_count(g: SimGraph, frame: u64, targets: Seq<PinIdx>, s: int)
    requires
        propagate_ok(g, frame, targets, s),
    ensures
        propagated(g, frame, targets, s).1.len() == g.1.len(),
    decreases targets.len(),
{
    if targets.len() > 0 {
        lemma_propagated_keeps_chip_count(receive_step(g, frame, targets[0].0 as int, s), frame, targets.drop_first(), s);
    }
}

// ---------------------------------------------------------------------
// Finding pins and subchips, and wiring them.

/// Values that the host drives into an input pin of the root chip.
#[derive(Debug, Clone, Copy, PartialEq, Eq, Structural)]
pub struct ExternalInput {
    pub address: PinAddress,
    pub state: PinState,
}

/// Every index the graph holds points into its arenas.
pub open spec fn arenas_ok(sim: Simulator) -> bool {
    &&& forall|c: int, k: int| 0 <= c < sim.chips@.len() && 0 <= k < sim.chips@[c].sub_chips@.len()
        ==> (#[trigger] sim.chips@[c].sub_chips@[k]).0 < sim.chips@.len()
    &&& forall|c: int, k: int| 0 <= c < sim.chips@.len() && 0 <= k < sim.chips@[c].input_pins@.len()
        ==> (#[trigger] sim.chips@[c].input_pins@[k]).0 < sim.pins@.len()
    &&& forall|c: int, k: int| 0 <= c < sim.chips@.len() && 0 <= k < sim.chips@[c].output_pins@.len()
        ==> (#[trigger] sim.chips@[c].output_pins@[k]).0 < sim.pins@.len()
}

/// A chip's pins: its inputs, then its outputs.
pub open spec fn pins_of(chip: SimChip) -> Seq<PinIdx> {
    chip.input_pins@ + chip.output_pins@
}

/// The first of `ps` whose pin has id `id`.
pub open spec fn first_pin_with_id(pins: Seq<SimPin>, ps: Seq<PinIdx>, id: i32) -> Option<PinIdx>
    decreases ps.len(),
{
    if ps.len() == 0 {
        None
    } else if pins[ps[0].0 as int].id == id {
        Some(ps[0])
    } else {
        first_pin_with_id(pins, ps.drop_first(), id)
    }
}

/// The first of `subs` whose chip has id `id`.
pub open spec fn first_chip_with_id(chips: Seq<SimChip>, subs: Seq<ChipIdx>, id: i32) -> Option<ChipIdx>
    decreases subs.len(),
{
    if subs.len() == 0 {
        None
    } else if chips[subs[0].0 as int].id == id {
        Some(subs[0])
    } else {
        first_chip_with_id(chips, subs.drop_first(), id)
    }
}

/// The first pin with id `address.pin_id` on the first of `subs` with id
/// `address.pin_owner_id` that has one.
pub open spec fn first_sub_pin(sim: Simulator, subs: Seq<ChipIdx>, address: PinAddress) -> Option<PinIdx>
    decreases subs.len(),
{
    if subs.len() == 0 {
        None
    } else {
        let s = sim.chips@[subs[0].0 as int];
        let here = if s.id == address.pin_owner_id {
            first_pin_with_id(sim.pins@, pins_of(s), address.pin_id)
        } else {
            None
        };
        if here is Some {
            here
        } else {
            first_sub_pin(sim, subs.drop_first(), address)
        }
    }
}

/// The pin that `address` names inside chip `c`: a pin of one of its
/// subchips, or else one of its own pins, whose id is the address's owner
/// id.
pub open spec fn pin_at(sim: Simulator, c: int, address: PinAddress) -> Option<PinIdx> {
    let chip = sim.chips@[c];
    match first_sub_pin(sim, chip.sub_chips@, address) {
        Some(p) => Some(p),
        None => first_pin_with_id(sim.pins@, pins_of(chip), address.pin_owner_id),
    }
}

fn find_pin_with_id(pins: &Vec<SimPin>, ps: &Vec<PinIdx>, id: i32) -> (r: Option<PinIdx>)
    requires
        forall|k: int| 0 <= k < ps@.len() ==> (#[trigger] ps@[k]).0 < pins@.len(),
    ensures
        r == first_pin_with_id(pins@, ps@, id),
        r matches Some(p) ==> p.0 < pins@.len(),
{
    let mut i: usize = 0;
    assert(ps@.skip(0) =~= ps@);
    while i < ps.len()
        invariant
            i <= ps@.len(),
            forall|k: int| 0 <= k < ps@.len() ==> (#[trigger] ps@[k]).0 < pins@.len(),
            first_pin_with_id(pins@, ps@, id) == first_pin_with_id(pins@, ps@.skip(i as int), id),
        decreases ps.len() - i,
    {
        let p = ps[i];
        assert(ps@.skip(i as int).drop_first() =~= ps@.skip(i + 1));
        if pins[p.0].id == id {
            return Some(p);
        }
        i = i + 1;
    }
    None
}

impl Simulator {
    /// The root chip.
    pub fn root(&self) -> (r: ChipIdx)
        ensures
            r == self.root,
    {
        self.root
    }

    /// Chip `idx`.
    pub fn chip(&self, idx: ChipIdx) -> (r: &SimChip)
        requires
            idx.0 < self.chips@.len(),
        ensures
            *r == self.chips@[idx.0 as int],
    {
        &self.chips[idx.0]
    }

    /// Pin `idx`.
    pub fn pin(&self, idx: PinIdx) -> (r: &SimPin)
        requires
            idx.0 < self.pins@.len(),
        ensures
            *r == self.pins@[idx.0 as int],
    {
        &self.pins[idx.0]
    }

    /// The first direct subchip of `chip` with saved instance id `id`.
    pub fn find_sub_chip(&self, chip: ChipIdx, id: i32) -> (r: Option<ChipIdx>)
        requires
            chip.0 < self.chips@.len(),
            arenas_ok(*self),
        ensures
            r == first_chip_with_id(self.chips@, self.chips@[chip.0 as int].sub_chips@, id),
    {
        let subs = &self.chips[chip.0].sub_chips;
        let mut i: usize = 0;
        assert(subs@.skip(0) =~= subs@);
        while i < subs.len()
            invariant
                i <= subs@.len(),
                *subs == self.chips@[chip.0 as int].sub_chips,
                chip.0 < self.chips@.len(),
                arenas_ok(*self),
                first_chip_with_id(self.chips@, subs@, id) == first_chip_with_id(self.chips@, subs@.skip(i as int), id),
            decreases subs.len() - i,
        {
            let sub = subs[i];
            assert(sub == self.chips@[chip.0 as int].sub_chips@[i as int]);
            assert(subs@.skip(i as int).drop_first() =~= subs@.skip(i + 1));
            if self.chips[sub.0].id == id {
                return Some(sub);
            }
            i = i + 1;
        }
        None
    }

    fn pins_of_chip(&self, c: usize) -> (v: Vec<PinIdx>)
        requires
            c < self.chips@.len(),
            arenas_ok(*self),
        ensures
            v@ == pins_of(self.chips@[c as int]),
            forall|k: int| 0 <= k < v@.len() ==> (#[trigger] v@[k]).0 < self.pins@.len(),
    {
        let chip = &self.chips[c];
        let mut v: Vec<PinIdx> = Vec::new();
        let mut i: usize = 0;
        while i < chip.input_pins.len()
            invariant
                i <= chip.input_pins@.len(),
                *chip == self.chips@[c as int],
                v@ == chip.input_pins@.take(i as int),
            decreases chip.input_pins.len() - i,
        {
            v.push(chip.input_pins[i]);
            i = i + 1;
            assert(v@ =~= chip.input_pins@.take(i as int));
        }
        let mut j: usize = 0;
        while j < chip.output_pins.len()
            invariant
                j <= chip.output_pins@.len(),
                *chip == self.chips@[c as int],
                v@ == chip.input_pins@ + chip.output_pins@.take(j as int),
            decreases chip.output_pins.len() - j,
        {
            v.push(chip.output_pins[j]);
            j = j + 1;
            assert(v@ =~= chip.input_pins@ + chip.output_pins@.take(j as int));
        }
        assert(chip.input_pins@.take(chip.input_pins@.len() as int) =~= chip.input_pins@);
        assert(chip.output_pins@.take(chip.output_pins@.len() as int) =~= chip.output_pins@);
        assert forall|k: int| 0 <= k < v@.len() implies (#[trigger] v@[k]).0 < self.pins@.len() by {
            if k < chip.input_pins@.len() {
                assert(v@[k] == self.chips@[c as int].input_pins@[k]);
            } else {
                assert(v@[k] == self.chips@[c as int].output_pins@[k - chip.input_pins@.len()]);
            }
        }
        v
    }

    /// The pin that `address` names inside `chip`: a pin of one of its
    /// direct subchips (the subchip's id the address's owner id, the pin's
    /// id its pin id), or else one of `chip`'s own pins, whose id is the
    /// address's owner id.
    pub fn find_pin(&self, chip: ChipIdx, address: PinAddress) -> (r: Option<PinIdx>)
        requires
            chip.0 < self.chips@.len(),
            arenas_ok(*self),
        ensures
            r == pin_at(*self, chip.0 as int, address),
            r matches Some(p) ==> p.0 < self.pins@.len(),
    {
        let subs = &self.chips[chip.0].sub_chips;
        let mut i: usize = 0;
        assert(subs@.skip(0) =~= subs@);
        while i < subs.len()
            invariant
                i <= subs@.len(),
                *subs == self.chips@[chip.0 as int].sub_chips,
                chip.0 < self.chips@.len(),
                arenas_ok(*self),
                first_sub_pin(*self, subs@, address) == first_sub_pin(*self, subs@.skip(i as int), address),
            decreases subs.len() - i,
        {
            let sub = subs[i];
            assert(sub == self.chips@[chip.0 as int].sub_chips@[i as int]);
            assert(subs@.skip(i as int).drop_first() =~= subs@.skip(i + 1));
            if self.chips[sub.0].id == address.pin_owner_id {
                let ps = self.pins_of_chip(sub.0);
                let found = find_pin_with_id(&self.pins, &ps, address.pin_id);
                if found.is_some() {
                    return found;
                }
            }
            i = i + 1;
        }
        let own = self.pins_of_chip(chip.0);
        find_pin_with_id(&self.pins, &own, address.pin_owner_id)
    }
}



/// `b` is pin `a` with at most its wiring (its targets and how many wires
/// feed it) changed.
pub open spec fn same_pin_but_wiring(a: SimPin, b: SimPin) -> bool {
    &&& a.id == b.id
    &&& a.parent_chip == b.parent_chip
    &&& a.is_input == b.is_input
    &&& a.state == b.state
    &&& a.last_updated_frame_index == b.last_updated_frame_index
    &&& a.latest_source_id == b.latest_source_id
    &&& a.latest_source_parent_chip_id == b.latest_source_parent_chip_id
    &&& a.num_inputs_received_this_frame == b.num_inputs_received_this_frame
}

/// The chips after a wire into pin `tp` is added inside chip `c`, `tp`
/// being addressed by `target`: when it is the pin's first wire, the first
/// direct subchip of `c` with the target's owner id counts one more
/// connected input.
pub open spec fn chips_after_wire(sim: Simulator, c: int, tp: PinIdx, target: PinAddress) -> Seq<SimChip> {
    if sim.pins@[tp.0 as int].num_input_connections == 0 {
        match first_chip_with_id(sim.chips@, sim.chips@[c].sub_chips@, target.pin_owner_id) {
            Some(sub) => {
                let before = sim.chips@[sub.0 as int];
                sim.chips@.update(
                    sub.0 as int,
                    SimChip { num_connected_inputs: (before.num_connected_inputs + 1) as i32, ..before },
                )
            },
            None => sim.chips@,
        }
    } else {
        sim.chips@
    }
}

/// `new` is `old` with a wire added from pin `sp` to pin `tp` inside chip
/// `c` (the target addressed by `target`).
pub open spec fn wire_added(old: Simulator, new: Simulator, c: int, sp: PinIdx, tp: PinIdx, target: PinAddress) -> bool {
    let s = sp.0 as int;
    let t = tp.0 as int;
    &&& new.pins@.len() == old.pins@.len()
    &&& forall|j: int| 0 <= j < old.pins@.len() && j != s && j != t ==> new.pins@[j] == old.pins@[j]
    &&& same_pin_but_wiring(old.pins@[s], new.pins@[s])
    &&& same_pin_but_wiring(old.pins@[t], new.pins@[t])
    &&& new.pins@[s].connected_target_pins@ == old.pins@[s].connected_target_pins@.push(tp)
    &&& s != t ==> new.pins@[t].connected_target_pins@ == old.pins@[t].connected_target_pins@
    &&& new.pins@[t].num_input_connections == old.pins@[t].num_input_connections + 1
    &&& s != t ==> new.pins@[s].num_input_connections == old.pins@[s].num_input_connections
    &&& new.chips@ == chips_after_wire(old, c, tp, target)
    &&& new.needs_order_pass
}

/// `b` keeps everything of `a` but, at most, whether a reordering pass is
/// due.
pub open spec fn same_settings_but_order(a: Simulator, b: Simulator) -> bool {
    &&& a.root == b.root
    &&& a.simulation_frame == b.simulation_frame
    &&& a.steps_per_clock_transition == b.steps_per_clock_transition
    &&& a.can_dynamic_reorder_this_frame == b.can_dynamic_reorder_this_frame
    &&& a.pcg_rng_state == b.pcg_rng_state
    &&& a.held_keys@ == b.held_keys@
    &&& a.key_modifiers == b.key_modifiers
}

/// The counters a new wire raises stay below `i32::MAX`.
pub open spec fn wire_fits(sim: Simulator, c: int, source: PinAddress, target: PinAddress) -> bool {
    match (pin_at(sim, c, source), pin_at(sim, c, target)) {
        (Some(sp), Some(tp)) => {
            &&& sim.pins@[tp.0 as int].num_input_connections < i32::MAX
            &&& sim.pins@[tp.0 as int].num_input_connections == 0 ==> match first_chip_with_id(
                sim.chips@,
                sim.chips@[c].sub_chips@,
                target.pin_owner_id,
            ) {
                Some(sub) => sim.chips@[sub.0 as int].num_connected_inputs < i32::MAX,
                None => true,
            }
        },
        _ => true,
    }
}

fn copy_pin_list(v: &Vec<PinIdx>) -> (r: Vec<PinIdx>)
    ensures
        r@ == v@,
{
    let mut r: Vec<PinIdx> = Vec::new();
    let mut i: usize = 0;
    while i < v.len()
        invariant
            i <= v@.len(),
            r@ == v@.take(i as int),
        decreases v.len() - i,
    {
        r.push(v[i]);
        i = i + 1;
        assert(r@ =~= v@.take(i as int));
    }
    assert(v@.take(v@.len() as int) =~= v@);
    r
}

impl Simulator {
    /// Adds a wire inside `chip` from the pin `source` names to the pin
    /// `target` names (see `find_pin`); a wire naming a pin that is not
    /// there (a stale saved wire) is ignored.
    pub fn add_connection(&mut self, chip: ChipIdx, source: PinAddress, target: PinAddress)
        requires
            chip.0 < old(self).chips@.len(),
            arenas_ok(*old(self)),
            wire_fits(*old(self), chip.0 as int, source, target),
        ensures
            same_settings_but_order(*old(self), *final(self)),
            match (pin_at(*old(self), chip.0 as int, source), pin_at(*old(self), chip.0 as int, target)) {
                (Some(sp), Some(tp)) => wire_added(*old(self), *final(self), chip.0 as int, sp, tp, target),
                _ => final(self).pins@ == old(self).pins@ && final(self).chips@ == old(self).chips@
                    && final(self).needs_order_pass == old(self).needs_order_pass,
            },
    {
        let ghost start = *self;
        let found_source = self.find_pin(chip, source);
        let found_target = self.find_pin(chip, target);
        let (sp, tp) = match (found_source, found_target) {
            (Some(sp), Some(tp)) => (sp, tp),
            _ => {
                return;
            },
        };
        let mut targets = copy_pin_list(&self.pins[sp.0].connected_target_pins);
        targets.push(tp);
        self.pins[sp.0].connected_target_pins = targets;
        let n = self.pins[tp.0].num_input_connections + 1;
        self.pins[tp.0].num_input_connections = n;
        if n == 1 {
            let found = self.find_sub_chip(chip, target.pin_owner_id);
            match found {
                Some(sub) => {
                    proof {
                        lemma_first_chip_in(start.chips@, start.chips@[chip.0 as int].sub_chips@, target.pin_owner_id);
                        assert(start.chips@[chip.0 as int].sub_chips@.contains(sub));
                    }
                    let k = self.chips[sub.0].num_connected_inputs + 1;
                    self.chips[sub.0].num_connected_inputs = k;
                },
                None => {},
            }
        }
        self.needs_order_pass = true;
    }
}

/// The subchip that `first_chip_with_id` finds is one of `subs`.
proof fn lemma_first_chip_in(chips: Seq<SimChip>, subs: Seq<ChipIdx>, id: i32)
    ensures
        first_chip_with_id(chips, subs, id) matches Some(sub) ==> subs.contains(sub),
    decreases subs.len(),
{
    if subs.len() > 0 {
        lemma_first_chip_in(chips, subs.drop_first(), id);
        if let Some(sub) = first_chip_with_id(chips, subs.drop_first(), id) {
            if chips[subs[0].0 as int].id != id {
                let k = choose|k: int| 0 <= k < subs.drop_first().len() && subs.drop_first()[k] == sub;
                assert(subs[k + 1] == sub);
            }
        }
    }
}



// ---------------------------------------------------------------------
// Choosing which subchip runs next while the order is being worked out.

#[verifier::external_type_specification]
#[verifier::external_body]
pub struct ExStdRng(rand::rngs::StdRng);

/// A `u32` from the simulator's seeded generator (`Rng::gen::<u32>` on
/// `rand::rngs::StdRng`, which takes `RngCore::next_u32` of its ChaCha
/// stream). Nothing is promised of the value; the generator advances.
#[verifier::external_body]
fn draw_u32(rng: &mut rand::rngs::StdRng) -> u32 {
    rand::Rng::gen::<u32>(rng)
}

/// The chip's inputs have all arrived.
pub open spec fn chip_ready(chip: ChipView) -> bool {
    chip.num_inputs_ready == chip.num_connected_inputs
}

/// The place, from `k` on and below `num`, of the first of `subs` whose
/// chip is ready.
pub open spec fn first_ready_from(chips: Seq<ChipView>, subs: Seq<ChipIdx>, k: int, num: int) -> Option<int>
    decreases num - k,
{
    if k >= num {
        None
    } else if chip_ready(chips[subs[k].0 as int]) {
        Some(k)
    } else {
        first_ready_from(chips, subs, k + 1, num)
    }
}

/// Subchip `subs[k]` is not the origin of a bus.
pub open spec fn not_bus_at(chips: Seq<ChipView>, subs: Seq<ChipIdx>, k: int) -> bool {
    !is_bus_origin(chips[subs[k].0 as int].chip_type)
}

/// Starting at place `idx` and going round the first `num` places, the
/// first one that is not a bus origin, taking at most `left` steps (and
/// ending where the steps run out).
pub open spec fn cyclic_pick(chips: Seq<ChipView>, subs: Seq<ChipIdx>, idx: int, num: int, left: int) -> int
    decreases left,
{
    if left <= 0 {
        idx
    } else if not_bus_at(chips, subs, idx) {
        idx
    } else {
        cyclic_pick(chips, subs, (idx + 1) % num, num, left - 1)
    }
}

/// The place among the first `num` subchips of chip `c` that runs next:
/// the first ready one; when none is, the place `draw` picks, moved on
/// round to the first that is not a bus origin where there is one.
pub open spec fn sub_choice(g: SimGraph, c: int, num: int, draw: u32) -> int {
    let subs = g.1[c].sub_chips;
    match first_ready_from(g.1, subs, 0, num) {
        Some(k) => k,
        None => {
            let start = draw as int % num;
            if exists|k: int| 0 <= k < num && #[trigger] not_bus_at(g.1, subs, k) {
                cyclic_pick(g.1, subs, start, num, num)
            } else {
                start
            }
        },
    }
}

/// `first_ready_from` finds a place in `k..num`.
proof fn lemma_first_ready_in_range(chips: Seq<ChipView>, subs: Seq<ChipIdx>, k: int, num: int)
    ensures
        first_ready_from(chips, subs, k, num) matches Some(j) ==> k <= j < num,
    decreases num - k,
{
    if k < num && !chip_ready(chips[subs[k].0 as int]) {
        lemma_first_ready_in_range(chips, subs, k + 1, num);
    }
}

/// Every subchip of chip `c` is in the chip arena.
pub open spec fn subs_in_arena(sim: Simulator, c: int) -> bool {
    forall|k: int| 0 <= k < sim.chips@[c].sub_chips@.len() ==> (#[trigger] sim.chips@[c].sub_chips@[k]).0 < sim.chips@.len()
}

impl Simulator {
    /// The place of the first ready subchip among the first `num` of chip
    /// `chip`, if any is ready.
    fn first_ready_sub(&self, chip: ChipIdx, num: usize) -> (r: Option<usize>)
        requires
            chip.0 < self.chips@.len(),
            subs_in_arena(*self, chip.0 as int),
            num <= self.chips@[chip.0 as int].sub_chips@.len(),
        ensures
            match r {
                Some(k) => first_ready_from(graph_of(*self).1, self.chips@[chip.0 as int].sub_chips@, 0, num as int) == Some(k as int),
                None => first_ready_from(graph_of(*self).1, self.chips@[chip.0 as int].sub_chips@, 0, num as int) is None,
            },
    {
        let subs = &self.chips[chip.0].sub_chips;
        let mut i: usize = 0;
        while i < num
            invariant
                i <= num,
                num <= subs@.len(),
                *subs == self.chips@[chip.0 as int].sub_chips,
                chip.0 < self.chips@.len(),
                subs_in_arena(*self, chip.0 as int),
                first_ready_from(graph_of(*self).1, subs@, 0, num as int) == first_ready_from(graph_of(*self).1, subs@, i as int, num as int),
            decreases num - i,
        {
            let sub = subs[i];
            assert(sub == self.chips@[chip.0 as int].sub_chips@[i as int]);
            if self.chips[sub.0].is_ready() {
                return Some(i);
            }
            i = i + 1;
        }
        None
    }

    /// Which of the first `num` subchips of `chip` runs next, for a random
    /// word `draw` that is used only when none of them is ready.
    pub fn choose_next_sub_chip_with(&self, chip: ChipIdx, num: usize, draw: u32) -> (r: usize)
        requires
            chip.0 < self.chips@.len(),
            subs_in_arena(*self, chip.0 as int),
            0 < num <= self.chips@[chip.0 as int].sub_chips@.len(),
        ensures
            r as int == sub_choice(graph_of(*self), chip.0 as int, num as int, draw),
            r < num,
    {
        let ghost subs = self.chips@[chip.0 as int].sub_chips@;
        proof {
            lemma_first_ready_in_range(graph_of(*self).1, subs, 0, num as int);
        }
        match self.first_ready_sub(chip, num) {
            Some(k) => k,
            None => {
                let start = (draw as usize) % num;
                let subs_v = &self.chips[chip.0].sub_chips;
                // Whether some of the first `num` is not a bus origin.
                let mut any_not_bus = false;
                let mut j: usize = 0;
                while j < num
                    invariant
                        j <= num,
                        num <= subs_v@.len(),
                        subs_v@ == subs,
                        subs == self.chips@[chip.0 as int].sub_chips@,
                        chip.0 < self.chips@.len(),
                        subs_in_arena(*self, chip.0 as int),
                        any_not_bus == exists|k: int| 0 <= k < j && #[trigger] not_bus_at(graph_of(*self).1, subs, k),
                    decreases num - j,
                {
                    let sub = subs_v[j];
                    assert(sub == self.chips@[chip.0 as int].sub_chips@[j as int]);
                    if !self.chips[sub.0].chip_type.is_bus_origin_type() {
                        any_not_bus = true;
                    }
                    assert(not_bus_at(graph_of(*self).1, subs, j as int) ==> (exists|k: int| 0 <= k < j + 1 && #[trigger] not_bus_at(graph_of(*self).1, subs, k)));
                    j = j + 1;
                }
                if !any_not_bus {
                    return start;
                }
                let mut next = start;
                let mut left: usize = num;
                while left > 0
                    invariant
                        left <= num,
                        next < num,
                        num <= subs_v@.len(),
                        subs_v@ == subs,
                        subs == self.chips@[chip.0 as int].sub_chips@,
                        chip.0 < self.chips@.len(),
                        subs_in_arena(*self, chip.0 as int),
                        first_ready_from(graph_of(*self).1, subs, 0, num as int) is None,
                        exists|k: int| 0 <= k < num && #[trigger] not_bus_at(graph_of(*self).1, subs, k),
                        start as int == draw as int % num as int,
                        cyclic_pick(graph_of(*self).1, subs, start as int, num as int, num as int) == cyclic_pick(
                            graph_of(*self).1,
                            subs,
                            next as int,
                            num as int,
                            left as int,
                        ),
                    decreases left,
                {
                    let sub = subs_v[next];
                    assert(sub == self.chips@[chip.0 as int].sub_chips@[next as int]);
                    if !self.chips[sub.0].chip_type.is_bus_origin_type() {
                        assert(not_bus_at(graph_of(*self).1, subs, next as int));
                        return next;
                    }
                    next = (next + 1) % num;
                    left = left - 1;
                }
                next
            },
        }
    }

    /// Which of the first `num` subchips of `chip` runs next: the first
    /// ready one, or, when none is, one drawn with the simulator's
    /// generator (see `choose_next_sub_chip_with`).
    pub fn choose_next_sub_chip(&mut self, chip: ChipIdx, num: usize) -> (r: usize)
        requires
            chip.0 < old(self).chips@.len(),
            subs_in_arena(*old(self), chip.0 as int),
            0 < num <= old(self).chips@[chip.0 as int].sub_chips@.len(),
        ensures
            exists|draw: u32| r as int == sub_choice(graph_of(*old(self)), chip.0 as int, num as int, draw),
            first_ready_from(graph_of(*old(self)).1, old(self).chips@[chip.0 as int].sub_chips@, 0, num as int) matches Some(k)
                ==> r == k,
            r < num,
            graph_of(*final(self)) == graph_of(*old(self)),
            same_host_settings(*old(self), *final(self)),
    {
        match self.first_ready_sub(chip, num) {
            Some(k) => {
                proof {
                    lemma_first_ready_in_range(graph_of(*self).1, self.chips@[chip.0 as int].sub_chips@, 0, num as int);
                }
                assert(k as int == sub_choice(graph_of(*self), chip.0 as int, num as int, 0));
                k
            },
            None => {
                let draw = draw_u32(&mut self.rng);
                let r = self.choose_next_sub_chip_with(chip, num, draw);
                assert(r as int == sub_choice(graph_of(*old(self)), chip.0 as int, num as int, draw));
                r
            },
        }
    }
}



// ---------------------------------------------------------------------
// Laws of a builtin step.

/// Writing values to pins `outs` keeps the arena's length, and leaves every
/// pin that `outs` does not name as it was.
proof fn lemma_written_keeps(pins: Seq<SimPin>, outs: Seq<PinIdx>, vals: Seq<PinState>, n: int, p: int)
    requires
        0 <= n <= outs.len(),
        forall|k: int| 0 <= k < outs.len() ==> (#[trigger] outs[k]).0 < pins.len(),
    ensures
        written(pins, outs, vals, n).len() == pins.len(),
        0 <= p < pins.len() && (forall|k: int| 0 <= k < n ==> (#[trigger] outs[k]).0 != p)
            ==> written(pins, outs, vals, n)[p] == pins[p],
    decreases n,
{
    if n > 0 {
        lemma_written_keeps(pins, outs, vals, n - 1, p);
    }
}

/// A builtin chip's step sets only that chip's output pins: every other
/// pin keeps its state and everything else about it.
pub proof fn lemma_builtin_step_sets_only_outputs(host: HostView, g: SimGraph, c: int, p: int)
    requires
        builtin_ready(g, c),
        0 <= p < g.0.len(),
        forall|k: int| 0 <= k < g.1[c].output_pins.len() ==> (#[trigger] g.1[c].output_pins[k]).0 != p,
    ensures
        pins_after(host, g, c).len() == g.0.len(),
        pins_after(host, g, c)[p] == g.0[p],
{
    let outs = builtin_outputs(host, g, c);
    assert(outs.len() <= output_count(g.1[c].chip_type));
    lemma_written_keeps(g.0, g.1[c].output_pins, outs, outs.len() as int, p);
}

/// A clock at a nonzero speed flips every `steps_per_clock_transition`
/// frames: `steps_per_clock_transition` frames later it reads the other
/// level.
pub proof fn lemma_clock_flips(a: Simulator, b: Simulator)
    requires
        a.steps_per_clock_transition > 0,
        b.steps_per_clock_transition == a.steps_per_clock_transition,
        b.simulation_frame == a.simulation_frame + a.steps_per_clock_transition,
    ensures
        clock_high(host_of(b)) == !clock_high(host_of(a)),
{
    let s = a.steps_per_clock_transition as u64;
    let f = a.simulation_frame;
    let g = b.simulation_frame;
    vstd::arithmetic::div_mod::lemma_div_plus_one(f as int, s as int);
    let qa: u64 = f / s;
    let qb: u64 = g / s;
    assert(qb == qa + 1);
    assert((qa & 1 == 0) != (qb & 1 == 0)) by (bit_vector)
        requires
            qb == qa + 1,
    ;
}



/// A RAM write is read back: on a rising clock edge with write enabled and
/// no reset, the step stores `data` at `addr` (a data word, not the clock
/// word), and every later step that neither writes nor resets, whatever
/// its clock, still holds it there.
pub proof fn lemma_ram_reads_back_write(
    s: Seq<u32>,
    addr: int,
    data: u32,
    later_data: u32,
    later_clock: bool,
)
    requires
        ram_ready(s, addr),
        addr < s.len() - 1,
        rising(s, true),
    ensures
        ram_internal(s, addr, data, true, false, true)[addr] == data,
        ram_internal(s, addr, data, true, false, true).len() == s.len(),
        ram_internal(ram_internal(s, addr, data, true, false, true), addr, later_data, false, false, later_clock)[addr] == data,
{
}

/// A display shows what was drawn once it is refreshed: a write at `addr`
/// on one rising edge, then a refresh (without reset) on a later rising
/// edge, puts the written word at `addr` of the shown buffer.
pub proof fn lemma_display_shows_after_refresh(
    s: Seq<u32>,
    addr: int,
    data: u32,
    other_data: u32,
)
    requires
        s.len() == 513,
        0 <= addr < 256,
        s[512] == 0,
    ensures ({
        let drawn = display_internal(s, addr, data, true, false, false, true);
        let low = display_internal(drawn, addr, other_data, false, false, false, false);
        display_internal(low, addr, other_data, false, false, true, true)[addr] == data
    }),
{
    let s1 = clocked(s, true);
    let drawn = display_internal(s, addr, data, true, false, false, true);
    assert(drawn == s1.update(addr + 256, data));
    let low = display_internal(drawn, addr, other_data, false, false, false, false);
    assert(low == clocked(drawn, false));
    assert(low[512] == 0);
    assert(low[addr + 256] == data);
    let shown = display_internal(low, addr, other_data, false, false, true, true);
    assert(shown == Seq::new(low.len(), |i: int| if i < 256 { clocked(low, true)[i + 256] } else { clocked(low, true)[i] }));
}



// ---------------------------------------------------------------------
// Stepping a chip: its inputs drive its insides, then its subchips run,
// last first, each one's outputs driving what they are wired to.

/// The graph, and the subchip that runs, at place `idx` of chip `c`'s
/// loop: when reordering is allowed this frame and the subchip there is
/// not ready, a coin toss may bring the one before it forward (unless that
/// one is a bus origin), swapping the two.
pub open spec fn reordered(host: HostView, g: SimGraph, c: int, idx: int) -> (SimGraph, ChipIdx) {
    let subs = g.1[c].sub_chips;
    let cand = subs[idx];
    if host.can_dynamic_reorder_this_frame && idx > 0 && !chip_ready(g.1[cand.0 as int]) {
        let pcg2 = pcg_next(g.2);
        let swap = subs[idx - 1];
        if pcg_bool(pcg2) && !is_bus_origin(g.1[swap.0 as int].chip_type) {
            (
                (g.0, g.1.update(c, ChipView { sub_chips: subs.update(idx, swap).update(idx - 1, cand), ..g.1[c] }), pcg2),
                swap,
            )
        } else {
            ((g.0, g.1, pcg2), cand)
        }
    } else {
        (g, cand)
    }
}

/// The note list of a builtin's step: its note, if it plays one.
pub open spec fn note_seq(n: Option<BuzzerNote>) -> Seq<BuzzerNote> {
    match n {
        Some(x) => seq![x],
        None => seq![],
    }
}

/// The pieces of place `idx` of chip `c`'s loop: the graph after the
/// optional swap, the subchip that runs, the graph after it ran (a builtin's
/// step, or a custom chip's own step) and the notes it played.
#[verifier::opaque]
pub open spec fn step_parts(host: HostView, g: SimGraph, c: int, idx: int) -> (SimGraph, ChipIdx, SimGraph, Seq<BuzzerNote>)
    decreases c, 0int, idx,
{
    let (gr, next) = reordered(host, g, c, idx);
    let n = next.0 as int;
    if gr.1[n].is_builtin {
        (gr, next, builtin_graph(host, gr, n), note_seq(builtin_note(gr, n)))
    } else if 0 <= n < c {
        let (gm, here) = stepped(host, gr, n);
        (gr, next, gm, here)
    } else {
        (gr, next, gr, seq![])
    }
}

/// The graph after chip `c`'s step, and the notes its buzzers play, in
/// order.
pub open spec fn stepped(host: HostView, g: SimGraph, c: int) -> (SimGraph, Seq<BuzzerNote>)
    decreases c, 1int, 0int,
{
    let g1 = sent_all(g, host.simulation_frame, g.1[c].input_pins);
    steps_from(host, g1, c, g1.1[c].sub_chips.len() as int)
}

/// The graph and notes after places `i - 1` down to 0 of chip `c`'s loop.
#[verifier::opaque]
pub open spec fn steps_from(host: HostView, g: SimGraph, c: int, i: int) -> (SimGraph, Seq<BuzzerNote>)
    decreases c, 0int, i,
{
    if i <= 0 {
        (g, seq![])
    } else {
        let (gr, next, gm, here) = step_parts(host, g, c, i - 1);
        let (g_end, rest) = steps_from(host, outputs_sent(gm, host.simulation_frame, next.0 as int), c, i - 1);
        (g_end, here + rest)
    }
}

/// Chip `c`'s step stays inside the arenas and counters all the way: every
/// subchip it reaches lies below it in the arena (subchips are built before
/// the chip that holds them), every builtin reached can take its step, and
/// no receipt overflows a counter.
pub open spec fn step_ok(host: HostView, g: SimGraph, c: int) -> bool
    decreases c, 1int, 0int,
{
    let g1 = sent_all(g, host.simulation_frame, g.1[c].input_pins);
    &&& 0 <= c < g.1.len()
    &&& send_all_ok(g, host.simulation_frame, g.1[c].input_pins)
    &&& steps_ok(host, g1, c, g1.1[c].sub_chips.len() as int)
}

/// Places `i - 1` down to 0 of chip `c`'s loop stay inside the arenas and
/// counters.
#[verifier::opaque]
pub open spec fn steps_ok(host: HostView, g: SimGraph, c: int, i: int) -> bool
    decreases c, 0int, i,
{
    i <= 0 || {
        let idx = i - 1;
        let (gr, next, gm, here) = step_parts(host, g, c, idx);
        let n = next.0 as int;
        &&& 0 <= c < g.1.len()
        &&& idx < g.1[c].sub_chips.len()
        &&& forall|k: int| 0 <= k < g.1[c].sub_chips.len() ==> 0 <= (#[trigger] g.1[c].sub_chips[k]).0 < c
        &&& 0 <= n < c
        &&& (if gr.1[n].is_builtin { builtin_ready(gr, n) } else { step_ok(host, gr, n) })
        &&& n < gm.1.len()
        &&& send_all_ok(gm, host.simulation_frame, gm.1[n].output_pins)
        &&& steps_ok(host, outputs_sent(gm, host.simulation_frame, n), c, idx)
    }
}

/// One place of chip `c`'s loop, unfolded.
#[verifier::rlimit(80)]
proof fn lemma_steps_unfold(host: HostView, g: SimGraph, c: int, i: int)
    requires
        i > 0,
        steps_ok(host, g, c, i),
    ensures
        0 <= c < g.1.len(),
        i - 1 < g.1[c].sub_chips.len(),
        forall|k: int| 0 <= k < g.1[c].sub_chips.len() ==> 0 <= (#[trigger] g.1[c].sub_chips[k]).0 < c,
        0 <= step_parts(host, g, c, i - 1).1.0 < c,
        step_parts(host, g, c, i - 1).0 == reordered(host, g, c, i - 1).0,
        step_parts(host, g, c, i - 1).1 == reordered(host, g, c, i - 1).1,
        step_parts(host, g, c, i - 1).0.1[(step_parts(host, g, c, i - 1).1.0 as int)].is_builtin ==> builtin_ready(step_parts(host, g, c, i - 1).0, (step_parts(host, g, c, i - 1).1.0 as int)),
        step_parts(host, g, c, i - 1).0.1[(step_parts(host, g, c, i - 1).1.0 as int)].is_builtin ==> step_parts(host, g, c, i - 1).2 == builtin_graph(host, step_parts(host, g, c, i - 1).0, (step_parts(host, g, c, i - 1).1.0 as int)),
        step_parts(host, g, c, i - 1).0.1[(step_parts(host, g, c, i - 1).1.0 as int)].is_builtin ==> step_parts(host, g, c, i - 1).3 == note_seq(builtin_note(step_parts(host, g, c, i - 1).0, (step_parts(host, g, c, i - 1).1.0 as int))),
        !step_parts(host, g, c, i - 1).0.1[(step_parts(host, g, c, i - 1).1.0 as int)].is_builtin ==> step_ok(host, step_parts(host, g, c, i - 1).0, (step_parts(host, g, c, i - 1).1.0 as int)),
        !step_parts(host, g, c, i - 1).0.1[(step_parts(host, g, c, i - 1).1.0 as int)].is_builtin ==> step_parts(host, g, c, i - 1).2 == stepped(host, step_parts(host, g, c, i - 1).0, (step_parts(host, g, c, i - 1).1.0 as int)).0,
        !step_parts(host, g, c, i - 1).0.1[(step_parts(host, g, c, i - 1).1.0 as int)].is_builtin ==> step_parts(host, g, c, i - 1).3 == stepped(host, step_parts(host, g, c, i - 1).0, (step_parts(host, g, c, i - 1).1.0 as int)).1,
        (step_parts(host, g, c, i - 1).1.0 as int) < step_parts(host, g, c, i - 1).2.1.len(),
        send_all_ok(step_parts(host, g, c, i - 1).2, host.simulation_frame, step_parts(host, g, c, i - 1).2.1[(step_parts(host, g, c, i - 1).1.0 as int)].output_pins),
        steps_ok(host, outputs_sent(step_parts(host, g, c, i - 1).2, host.simulation_frame, (step_parts(host, g, c, i - 1).1.0 as int)), c, i - 1),
        steps_from(host, g, c, i).0 == steps_from(host, outputs_sent(step_parts(host, g, c, i - 1).2, host.simulation_frame, (step_parts(host, g, c, i - 1).1.0 as int)), c, i - 1).0,
        steps_from(host, g, c, i).1 == step_parts(host, g, c, i - 1).3 + steps_from(host, outputs_sent(step_parts(host, g, c, i - 1).2, host.simulation_frame, (step_parts(host, g, c, i - 1).1.0 as int)), c, i - 1).1,
{
    reveal_with_fuel(steps_ok, 2);
    reveal_with_fuel(steps_from, 2);
    reveal_with_fuel(step_parts, 2);
}

fn copy_chip_list(v: &Vec<ChipIdx>) -> (r: Vec<ChipIdx>)
    ensures
        r@ == v@,
{
    let mut r: Vec<ChipIdx> = Vec::new();
    let mut i: usize = 0;
    while i < v.len()
        invariant
            i <= v@.len(),
            r@ == v@.take(i as int),
        decreases v.len() - i,
    {
        r.push(v[i]);
        i = i + 1;
        assert(r@ =~= v@.take(i as int));
    }
    assert(v@.take(v@.len() as int) =~= v@);
    r
}

impl Simulator {
    /// Place `i - 1` of chip `c`'s loop: the subchip there (or the one
    /// before it, after a swap) takes its step and drives its outputs.
    #[verifier::rlimit(80)]
    fn step_place(&mut self, c: usize, i: usize, notes: &mut Vec<BuzzerNote>)
        requires
            i > 0,
            steps_ok(host_of(*old(self)), graph_of(*old(self)), c as int, i as int),
        ensures
            ({
                let p = step_parts(host_of(*old(self)), graph_of(*old(self)), c as int, i - 1);
                &&& graph_of(*final(self)) == outputs_sent(p.2, old(self).simulation_frame, p.1.0 as int)
                &&& final(notes)@ == old(notes)@ + p.3
            }),
            same_host_settings(*old(self), *final(self)),
        decreases c, 0int,
    {
        let ghost host = host_of(*self);
        let ghost g = graph_of(*self);
        let ghost parts = step_parts(host, g, c as int, i - 1);
        proof {
            lemma_steps_unfold(host, g, c as int, i as int);
        }
        let idx = i - 1;
        assert(g.1[c as int] == self.chips@[c as int]@);
        let mut next = self.chips[c].sub_chips[idx];
        assert(g.1[c as int].sub_chips[idx as int] == next);
        assert(g.1[next.0 as int] == self.chips@[next.0 as int]@);
        if self.can_dynamic_reorder_this_frame && idx > 0 && !self.chips[next.0].is_ready() && self.random_bool() {
            let potential = self.chips[c].sub_chips[idx - 1];
            assert(g.1[c as int].sub_chips[idx - 1] == potential);
            assert(g.1[potential.0 as int] == self.chips@[potential.0 as int]@);
            if !self.chips[potential.0].chip_type.is_bus_origin_type() {
                let cand = next;
                next = potential;
                let mut subs = copy_chip_list(&self.chips[c].sub_chips);
                subs.set(idx, potential);
                subs.set(idx - 1, cand);
                self.chips[c].sub_chips = subs;
            }
        }
        assert(graph_of(*self).1 =~= parts.0.1);
        assert(graph_of(*self) == parts.0);
        assert(next == parts.1);
        let ghost gr = graph_of(*self);
        assert(gr.1[next.0 as int] == self.chips@[next.0 as int]@);
        let ghost notes_before = notes@;
        if self.chips[next.0].is_builtin {
            let note = self.process_builtin_chip(next);
            match note {
                Some(x) => notes.push(x),
                None => {},
            }
            assert(notes@ =~= notes_before + note_seq(builtin_note(gr, next.0 as int)));
        } else {
            self.step_chip(next, notes);
        }
        assert(graph_of(*self) == parts.2);
        self.propagate_outputs(next);
    }

    /// Places `i - 1` down to 0 of chip `c`'s loop.
    #[verifier::rlimit(60)]
    fn step_places(&mut self, c: usize, i: usize, notes: &mut Vec<BuzzerNote>)
        requires
            steps_ok(host_of(*old(self)), graph_of(*old(self)), c as int, i as int),
        ensures
            graph_of(*final(self)) == steps_from(host_of(*old(self)), graph_of(*old(self)), c as int, i as int).0,
            final(notes)@ == old(notes)@ + steps_from(host_of(*old(self)), graph_of(*old(self)), c as int, i as int).1,
            same_host_settings(*old(self), *final(self)),
        decreases c, 1int,
    {
        let ghost host = host_of(*self);
        let ghost start = *self;
        let ghost g_start = graph_of(*self);
        let ghost start_notes = notes@;
        let mut k: usize = i;
        assert(start_notes + steps_from(host, g_start, c as int, i as int).1 =~= notes@ + steps_from(host, g_start, c as int, i as int).1);
        while k > 0
            invariant
                k <= i,
                host == host_of(*self),
                same_host_settings(start, *self),
                steps_from(host, g_start, c as int, i as int).0 == steps_from(host, graph_of(*self), c as int, k as int).0,
                start_notes + steps_from(host, g_start, c as int, i as int).1 == notes@ + steps_from(
                    host,
                    graph_of(*self),
                    c as int,
                    k as int,
                ).1,
                steps_ok(host, graph_of(*self), c as int, k as int),
            decreases k,
        {
            proof {
                lemma_steps_unfold(host, graph_of(*self), c as int, k as int);
            }
            self.step_place(c, k, notes);
            k = k - 1;
            assert(start_notes + steps_from(host, g_start, c as int, i as int).1 =~= notes@ + steps_from(
                host,
                graph_of(*self),
                c as int,
                k as int,
            ).1);
        }
        assert(steps_from(host, graph_of(*self), c as int, 0) == (graph_of(*self), Seq::<BuzzerNote>::empty())) by {
            reveal_with_fuel(steps_from, 1);
        }
        assert(start_notes + steps_from(host, g_start, c as int, i as int).1 =~= notes@);
    }

    /// Steps chip `chip` for one frame: its input pins drive its insides,
    /// then its subchips run from the last to the first (when reordering is
    /// allowed this frame, a subchip that is not ready may trade places
    /// with the one before it on a coin toss), builtins taking their step
    /// and custom chips stepping in turn, each one's outputs then driving
    /// what they are wired to. The notes that buzzers play are appended to
    /// `notes`, in order.
    #[verifier::rlimit(60)]
    pub fn step_chip(&mut self, chip: ChipIdx, notes: &mut Vec<BuzzerNote>)
        requires
            step_ok(host_of(*old(self)), graph_of(*old(self)), chip.0 as int),
        ensures
            graph_of(*final(self)) == stepped(host_of(*old(self)), graph_of(*old(self)), chip.0 as int).0,
            final(notes)@ == old(notes)@ + stepped(host_of(*old(self)), graph_of(*old(self)), chip.0 as int).1,
            same_host_settings(*old(self), *final(self)),
        decreases chip.0, 2int,
    {
        let ghost host = host_of(*self);
        let c = chip.0;
        let ghost g0 = graph_of(*self);
        let ghost g1s = sent_all(g0, host.simulation_frame, g0.1[c as int].input_pins);
        proof {
            lemma_step_unfold(host, g0, c as int);
        }
        assert(g0.1[c as int] == self.chips@[c as int]@);
        self.propagate_inputs(chip);
        proof {
            lemma_sent_all_keeps_chip_count(g0, host.simulation_frame, g0.1[c as int].input_pins);
        }
        assert(graph_of(*self) == g1s);
        assert(g1s.1[c as int] == self.chips@[c as int]@);
        let n = self.chips[c].sub_chips.len();
        self.step_places(c, n, notes);
    }
}

/// A chip's step, unfolded: its inputs drive its insides, then its loop.
#[verifier::spinoff_prover]
#[verifier::rlimit(100)]
proof fn lemma_step_unfold(host: HostView, g: SimGraph, c: int)
    requires
        step_ok(host, g, c),
    ensures
        0 <= c < g.1.len(),
        send_all_ok(g, host.simulation_frame, g.1[c].input_pins),
        steps_ok(
            host,
            sent_all(g, host.simulation_frame, g.1[c].input_pins),
            c,
            sent_all(g, host.simulation_frame, g.1[c].input_pins).1[c].sub_chips.len() as int,
        ),
        stepped(host, g, c) == steps_from(
            host,
            sent_all(g, host.simulation_frame, g.1[c].input_pins),
            c,
            sent_all(g, host.simulation_frame, g.1[c].input_pins).1[c].sub_chips.len() as int,
        ),
{
}


// ---------------------------------------------------------------------
// Stepping a chip while working out its subchips' order: each round picks
// the subchip to run among those not yet run (the first ready one, else
// one drawn), moves it behind them, and runs it.

/// The pieces of the round of chip `c`'s ordering loop with `remaining`
/// subchips left, the random words `draws` at hand: the graph after the
/// chosen subchip is moved to place `remaining - 1`, the subchip, the graph
/// after it ran (a builtin's step, or a custom chip's own ordering step),
/// the notes it played and the random words the round used.
#[verifier::opaque]
pub open spec fn reorder_parts(host: HostView, g: SimGraph, c: int, remaining: int, draws: Seq<u32>) -> (
    SimGraph,
    ChipIdx,
    SimGraph,
    Seq<BuzzerNote>,
    int,
)
    decreases c, 0int, remaining - 1,
{
    let subs = g.1[c].sub_chips;
    let used0: int = if first_ready_from(g.1, subs, 0, remaining) is Some { 0 } else { 1 };
    let idx = sub_choice(g, c, remaining, draws[0]);
    let last = remaining - 1;
    let next = subs[idx];
    let n = next.0 as int;
    let g2 = (g.0, g.1.update(c, ChipView { sub_chips: subs.update(idx, subs[last]).update(last, next), ..g.1[c] }), g.2);
    if g2.1[n].chip_type == ChipType::Custom {
        if 0 <= n < c {
            let (gm, here, used) = reorder_stepped(host, g2, n, draws.skip(used0));
            (g2, next, gm, here, used0 + used)
        } else {
            (g2, next, g2, seq![], used0)
        }
    } else {
        (g2, next, builtin_graph(host, g2, n), note_seq(builtin_note(g2, n)), used0)
    }
}

/// The graph after chip `c`'s ordering step, the notes its buzzers play
/// and how many of the random words `draws` it used.
pub open spec fn reorder_stepped(host: HostView, g: SimGraph, c: int, draws: Seq<u32>) -> (SimGraph, Seq<BuzzerNote>, int)
    decreases c, 1int, 0int,
{
    let g1 = sent_all(g, host.simulation_frame, g.1[c].input_pins);
    reorder_steps(host, g1, c, g1.1[c].sub_chips.len() as int, draws)
}

/// The graph, notes and random words used after the rounds of chip `c`'s
/// ordering loop with `remaining` subchips left.
#[verifier::opaque]
pub open spec fn reorder_steps(host: HostView, g: SimGraph, c: int, remaining: int, draws: Seq<u32>) -> (
    SimGraph,
    Seq<BuzzerNote>,
    int,
)
    decreases c, 0int, remaining,
{
    if remaining <= 0 {
        (g, seq![], 0)
    } else {
        let p = reorder_parts(host, g, c, remaining, draws);
        let r = reorder_steps(host, outputs_sent(p.2, host.simulation_frame, p.1.0 as int), c, remaining - 1, draws.skip(p.4));
        (r.0, p.3 + r.1, p.4 + r.2)
    }
}

/// Chip `c`'s ordering step stays inside the arenas and counters all the
/// way, with enough random words: every subchip it reaches lies below it
/// in the arena, every builtin reached can take its step, and no receipt
/// overflows a counter.
pub open spec fn reorder_ok(host: HostView, g: SimGraph, c: int, draws: Seq<u32>) -> bool
    decreases c, 1int, 0int,
{
    let g1 = sent_all(g, host.simulation_frame, g.1[c].input_pins);
    &&& 0 <= c < g.1.len()
    &&& send_all_ok(g, host.simulation_frame, g.1[c].input_pins)
    &&& reorder_steps_ok(host, g1, c, g1.1[c].sub_chips.len() as int, draws)
}

/// The rounds of chip `c`'s ordering loop with `remaining` subchips left
/// stay inside the arenas and counters, with enough random words.
#[verifier::opaque]
pub open spec fn reorder_steps_ok(host: HostView, g: SimGraph, c: int, remaining: int, draws: Seq<u32>) -> bool
    decreases c, 0int, remaining,
{
    remaining <= 0 || {
        let p = reorder_parts(host, g, c, remaining, draws);
        let n = p.1.0 as int;
        let used0: int = if first_ready_from(g.1, g.1[c].sub_chips, 0, remaining) is Some { 0 } else { 1 };
        &&& 0 <= c < g.1.len()
        &&& remaining <= g.1[c].sub_chips.len()
        &&& forall|k: int| 0 <= k < g.1[c].sub_chips.len() ==> 0 <= (#[trigger] g.1[c].sub_chips[k]).0 < c
        &&& used0 <= draws.len()
        &&& 0 <= n < c
        &&& (if p.0.1[n].chip_type == ChipType::Custom {
            reorder_ok(host, p.0, n, draws.skip(used0))
        } else {
            builtin_ready(p.0, n)
        })
        &&& n < p.2.1.len()
        &&& 0 <= p.4 <= draws.len()
        &&& send_all_ok(p.2, host.simulation_frame, p.2.1[n].output_pins)
        &&& reorder_steps_ok(host, outputs_sent(p.2, host.simulation_frame, n), c, remaining - 1, draws.skip(p.4))
    }
}

/// The pieces of one round of chip `c`'s ordering loop, unfolded.
#[verifier::spinoff_prover]
#[verifier::rlimit(80)]
proof fn lemma_reorder_parts_unfold(host: HostView, g: SimGraph, c: int, remaining: int, draws: Seq<u32>)
    requires
        remaining > 0,
    ensures
        ({
            let p = reorder_parts(host, g, c, remaining, draws);
            let n = p.1.0 as int;
            let subs = g.1[c].sub_chips;
            let used0: int = if first_ready_from(g.1, subs, 0, remaining) is Some { 0 } else { 1 };
            let idx = sub_choice(g, c, remaining, draws[0]);
            &&& p.1 == subs[idx]
            &&& p.0 == (g.0, g.1.update(c, ChipView { sub_chips: subs.update(idx, subs[remaining - 1]).update(remaining - 1, p.1), ..g.1[c] }), g.2)
            &&& (p.0.1[n].chip_type == ChipType::Custom && 0 <= n < c) ==> p.2 == reorder_stepped(host, p.0, n, draws.skip(used0)).0
                && p.3 == reorder_stepped(host, p.0, n, draws.skip(used0)).1
                && p.4 == used0 + reorder_stepped(host, p.0, n, draws.skip(used0)).2
            &&& p.0.1[n].chip_type != ChipType::Custom ==> p.2 == builtin_graph(host, p.0, n)
                && p.3 == note_seq(builtin_note(p.0, n)) && p.4 == used0
        }),
{
    reveal_with_fuel(reorder_parts, 1);
}

/// One round of chip `c`'s ordering loop, unfolded.
#[verifier::spinoff_prover]
#[verifier::rlimit(80)]
proof fn lemma_reorder_unfold(host: HostView, g: SimGraph, c: int, remaining: int, draws: Seq<u32>)
    requires
        remaining > 0,
        reorder_steps_ok(host, g, c, remaining, draws),
    ensures
        0 <= c < g.1.len(),
        remaining <= g.1[c].sub_chips.len(),
        forall|k: int| 0 <= k < g.1[c].sub_chips.len() ==> 0 <= (#[trigger] g.1[c].sub_chips[k]).0 < c,
        ({
            let p = reorder_parts(host, g, c, remaining, draws);
            let n = p.1.0 as int;
            let used0: int = if first_ready_from(g.1, g.1[c].sub_chips, 0, remaining) is Some { 0 } else { 1 };
            &&& used0 <= draws.len()
            &&& 0 <= n < c
            &&& p.0.1[n].chip_type == ChipType::Custom ==> reorder_ok(host, p.0, n, draws.skip(used0))
            &&& p.0.1[n].chip_type != ChipType::Custom ==> builtin_ready(p.0, n)
            &&& n < p.2.1.len()
            &&& 0 <= p.4 <= draws.len()
            &&& send_all_ok(p.2, host.simulation_frame, p.2.1[n].output_pins)
            &&& reorder_steps_ok(host, outputs_sent(p.2, host.simulation_frame, n), c, remaining - 1, draws.skip(p.4))
            &&& reorder_steps(host, g, c, remaining, draws).0 == reorder_steps(
                host,
                outputs_sent(p.2, host.simulation_frame, n),
                c,
                remaining - 1,
                draws.skip(p.4),
            ).0
            &&& reorder_steps(host, g, c, remaining, draws).1 == p.3 + reorder_steps(
                host,
                outputs_sent(p.2, host.simulation_frame, n),
                c,
                remaining - 1,
                draws.skip(p.4),
            ).1
            &&& reorder_steps(host, g, c, remaining, draws).2 == p.4 + reorder_steps(
                host,
                outputs_sent(p.2, host.simulation_frame, n),
                c,
                remaining - 1,
                draws.skip(p.4),
            ).2
        }),
{
    reveal_with_fuel(reorder_steps_ok, 1);
    reveal_with_fuel(reorder_steps, 1);
}


impl Simulator {
    /// One round of chip `c`'s ordering loop with `remaining` subchips
    /// left, taking random words from `draws` at `pos`; returns how many it
    /// took.
    #[verifier::spinoff_prover]
    #[verifier::rlimit(100)]
    fn reorder_round(&mut self, c: usize, remaining: usize, draws: &Vec<u32>, pos: usize, notes: &mut Vec<BuzzerNote>) -> (used: usize)
        requires
            remaining > 0,
            pos <= draws@.len(),
            reorder_steps_ok(host_of(*old(self)), graph_of(*old(self)), c as int, remaining as int, draws@.skip(pos as int)),
        ensures
            ({
                let p = reorder_parts(host_of(*old(self)), graph_of(*old(self)), c as int, remaining as int, draws@.skip(pos as int));
                &&& graph_of(*final(self)) == outputs_sent(p.2, old(self).simulation_frame, p.1.0 as int)
                &&& final(notes)@ == old(notes)@ + p.3
                &&& used as int == p.4
            }),
            same_host_settings(*old(self), *final(self)),
        decreases c, 0int,
    {
        let ghost host = host_of(*self);
        let ghost g = graph_of(*self);
        let ghost ds = draws@.skip(pos as int);
        proof {
            lemma_reorder_unfold(host, g, c as int, remaining as int, ds);
            lemma_reorder_parts_unfold(host, g, c as int, remaining as int, ds);
        }
        let ghost p = reorder_parts(host, g, c as int, remaining as int, ds);
        let draw_count = draws.len();
        assert(g.1[c as int] == self.chips@[c as int]@);
        assert(subs_in_arena(*self, c as int));
        let first = self.first_ready_sub(ChipIdx(c), remaining);
        let (idx, used0): (usize, usize) = match first {
            Some(k) => {
                let r = self.choose_next_sub_chip_with(ChipIdx(c), remaining, 0);
                assert(r as int == sub_choice(g, c as int, remaining as int, ds[0]));
                (r, 0)
            },
            None => {
                let d = draws[pos];
                assert(d == ds[0]);
                let r = self.choose_next_sub_chip_with(ChipIdx(c), remaining, d);
                (r, 1)
            },
        };
        assert(pos + used0 <= draws@.len());
        let last = remaining - 1;
        let next = self.chips[c].sub_chips[idx];
        let mut subs = copy_chip_list(&self.chips[c].sub_chips);
        let moved = subs[last];
        subs.set(idx, moved);
        subs.set(last, next);
        self.chips[c].sub_chips = subs;
        assert(graph_of(*self).1 =~= p.0.1);
        assert(graph_of(*self) == p.0);
        assert(next == p.1);
        let ghost gr = graph_of(*self);
        assert(gr.1[next.0 as int] == self.chips@[next.0 as int]@);
        let ghost notes_before = notes@;
        let used_sub: usize = if self.chips[next.0].chip_type == ChipType::Custom {
            assert(draws@.skip(pos + used0) =~= ds.skip(used0 as int));
            self.reorder_chip(next, draws, pos + used0, notes)
        } else {
            let note = self.process_builtin_chip(next);
            match note {
                Some(x) => notes.push(x),
                None => {},
            }
            assert(notes@ =~= notes_before + note_seq(builtin_note(gr, next.0 as int)));
            0
        };
        assert(graph_of(*self) == p.2);
        assert(used0 + used_sub == p.4);
        assert(p.4 <= draw_count);
        self.propagate_outputs(next);
        used0 + used_sub
    }

    /// The rounds of chip `c`'s ordering loop with `remaining` subchips
    /// left, taking random words from `draws` at `pos`; returns how many
    /// they took.
    #[verifier::rlimit(60)]
    fn reorder_rounds(&mut self, c: usize, remaining: usize, draws: &Vec<u32>, pos: usize, notes: &mut Vec<BuzzerNote>) -> (used: usize)
        requires
            pos <= draws@.len(),
            reorder_steps_ok(host_of(*old(self)), graph_of(*old(self)), c as int, remaining as int, draws@.skip(pos as int)),
        ensures
            ({
                let r = reorder_steps(host_of(*old(self)), graph_of(*old(self)), c as int, remaining as int, draws@.skip(pos as int));
                &&& graph_of(*final(self)) == r.0
                &&& final(notes)@ == old(notes)@ + r.1
                &&& used as int == r.2
            }),
            same_host_settings(*old(self), *final(self)),
        decreases c, 1int,
    {
        let ghost host = host_of(*self);
        let ghost start = *self;
        let ghost g_start = graph_of(*self);
        let ghost start_notes = notes@;
        let ghost ds0 = draws@.skip(pos as int);
        let draw_count = draws.len();
        let mut k: usize = remaining;
        let mut at: usize = pos;
        assert(start_notes + reorder_steps(host, g_start, c as int, remaining as int, ds0).1 =~= notes@ + reorder_steps(
            host,
            g_start,
            c as int,
            remaining as int,
            ds0,
        ).1);
        while k > 0
            invariant
                k <= remaining,
                draw_count == draws@.len(),
                pos <= at <= draws@.len(),
                host == host_of(*self),
                same_host_settings(start, *self),
                reorder_steps(host, g_start, c as int, remaining as int, ds0).0 == reorder_steps(
                    host,
                    graph_of(*self),
                    c as int,
                    k as int,
                    draws@.skip(at as int),
                ).0,
                start_notes + reorder_steps(host, g_start, c as int, remaining as int, ds0).1 == notes@ + reorder_steps(
                    host,
                    graph_of(*self),
                    c as int,
                    k as int,
                    draws@.skip(at as int),
                ).1,
                reorder_steps(host, g_start, c as int, remaining as int, ds0).2 == (at - pos) + reorder_steps(
                    host,
                    graph_of(*self),
                    c as int,
                    k as int,
                    draws@.skip(at as int),
                ).2,
                reorder_steps_ok(host, graph_of(*self), c as int, k as int, draws@.skip(at as int)),
            decreases k,
        {
            let ghost ds = draws@.skip(at as int);
            proof {
                lemma_reorder_unfold(host, graph_of(*self), c as int, k as int, ds);
            }
            let used = self.reorder_round(c, k, draws, at, notes);
            assert(used <= draws@.len() - at);
            assert(ds.skip(used as int) =~= draws@.skip(at + used));
            at = at + used;
            k = k - 1;
            assert(start_notes + reorder_steps(host, g_start, c as int, remaining as int, ds0).1 =~= notes@ + reorder_steps(
                host,
                graph_of(*self),
                c as int,
                k as int,
                draws@.skip(at as int),
            ).1);
        }
        assert(reorder_steps(host, graph_of(*self), c as int, 0, draws@.skip(at as int)) == (
            graph_of(*self),
            Seq::<BuzzerNote>::empty(),
            0int,
        )) by {
            reveal_with_fuel(reorder_steps, 1);
        }
        assert(start_notes + reorder_steps(host, g_start, c as int, remaining as int, ds0).1 =~= notes@);
        at - pos
    }

    /// Chip `chip`'s ordering step, taking random words from `draws` at
    /// `pos`; returns how many it took.
    #[verifier::spinoff_prover]
    #[verifier::rlimit(100)]
    fn reorder_chip(&mut self, chip: ChipIdx, draws: &Vec<u32>, pos: usize, notes: &mut Vec<BuzzerNote>) -> (used: usize)
        requires
            pos <= draws@.len(),
            reorder_ok(host_of(*old(self)), graph_of(*old(self)), chip.0 as int, draws@.skip(pos as int)),
        ensures
            ({
                let r = reorder_stepped(host_of(*old(self)), graph_of(*old(self)), chip.0 as int, draws@.skip(pos as int));
                &&& graph_of(*final(self)) == r.0
                &&& final(notes)@ == old(notes)@ + r.1
                &&& used as int == r.2
            }),
            same_host_settings(*old(self), *final(self)),
        decreases chip.0, 2int,
    {
        let ghost host = host_of(*self);
        let c = chip.0;
        let ghost g0 = graph_of(*self);
        let ghost g1s = sent_all(g0, host.simulation_frame, g0.1[c as int].input_pins);
        proof {
            lemma_reorder_chip_unfold(host, g0, c as int, draws@.skip(pos as int));
        }
        assert(g0.1[c as int] == self.chips@[c as int]@);
        self.propagate_inputs(chip);
        proof {
            lemma_sent_all_keeps_chip_count(g0, host.simulation_frame, g0.1[c as int].input_pins);
        }
        assert(graph_of(*self) == g1s);
        assert(g1s.1[c as int] == self.chips@[c as int]@);
        let n = self.chips[c].sub_chips.len();
        self.reorder_rounds(c, n, draws, pos, notes)
    }

    /// Steps chip `chip` for one frame while working out the order of its
    /// subchips (and theirs): its input pins drive its insides, then, round
    /// by round, among the subchips not yet run, the first ready one (or,
    /// when none is, the one that a word of `draws` picks, passing over bus
    /// origins) is moved behind them and runs, and its outputs drive what
    /// they are wired to. The notes buzzers play are appended to `notes`.
    /// Returns how many words of `draws` were used, in order from the
    /// first.
    pub fn step_chip_reorder_with(&mut self, chip: ChipIdx, draws: &Vec<u32>, notes: &mut Vec<BuzzerNote>) -> (used: usize)
        requires
            reorder_ok(host_of(*old(self)), graph_of(*old(self)), chip.0 as int, draws@),
        ensures
            ({
                let r = reorder_stepped(host_of(*old(self)), graph_of(*old(self)), chip.0 as int, draws@);
                &&& graph_of(*final(self)) == r.0
                &&& final(notes)@ == old(notes)@ + r.1
                &&& used as int == r.2
            }),
            same_host_settings(*old(self), *final(self)),
    {
        assert(draws@.skip(0) =~= draws@);
        self.reorder_chip(chip, draws, 0, notes)
    }
}



/// A chip's ordering step, unfolded: its inputs drive its insides, then
/// its rounds.
#[verifier::spinoff_prover]
#[verifier::rlimit(100)]
proof fn lemma_reorder_chip_unfold(host: HostView, g: SimGraph, c: int, draws: Seq<u32>)
    requires
        reorder_ok(host, g, c, draws),
    ensures
        0 <= c < g.1.len(),
        send_all_ok(g, host.simulation_frame, g.1[c].input_pins),
        reorder_steps_ok(
            host,
            sent_all(g, host.simulation_frame, g.1[c].input_pins),
            c,
            sent_all(g, host.simulation_frame, g.1[c].input_pins).1[c].sub_chips.len() as int,
            draws,
        ),
        reorder_stepped(host, g, c, draws) == reorder_steps(
            host,
            sent_all(g, host.simulation_frame, g.1[c].input_pins),
            c,
            sent_all(g, host.simulation_frame, g.1[c].input_pins).1[c].sub_chips.len() as int,
            draws,
        ),
{
}


// ---------------------------------------------------------------------
// A whole simulation frame.

/// The pins after each external input, in order, is copied onto the pin
/// that `found[k]` names (where one was found).
pub open spec fn inputs_applied(pins: Seq<SimPin>, inputs: Seq<ExternalInput>, found: Seq<Option<PinIdx>>, n: int) -> Seq<SimPin>
    decreases n,
{
    if n <= 0 {
        pins
    } else {
        let before = inputs_applied(pins, inputs, found, n - 1);
        match found[n - 1] {
            Some(p) => before.update(p.0 as int, SimPin { state: inputs[n - 1].state, ..before[p.0 as int] }),
            None => before,
        }
    }
}

/// The pins each external input is addressed to, inside the root chip.
pub open spec fn inputs_found(sim: Simulator, inputs: Seq<ExternalInput>) -> Seq<Option<PinIdx>> {
    Seq::new(inputs.len(), |k: int| pin_at(sim, sim.root.0 as int, inputs[k].address))
}

/// The host settings during the frame after `sim`'s.
pub open spec fn next_host(sim: Simulator) -> HostView {
    HostView {
        simulation_frame: (sim.simulation_frame + 1) as u64,
        steps_per_clock_transition: sim.steps_per_clock_transition,
        can_dynamic_reorder_this_frame: sim.simulation_frame % 100 == 0,
        held_keys: sim.held_keys@,
        key_modifiers: sim.key_modifiers,
    }
}

/// The graph at the start of the frame after `sim`'s: the external inputs
/// applied and the PCG generator reseeded with `seed`.
pub open spec fn frame_start(sim: Simulator, inputs: Seq<ExternalInput>, seed: u32) -> SimGraph {
    (inputs_applied(sim.pins@, inputs, inputs_found(sim, inputs), inputs.len() as int), graph_of(sim).1, seed)
}

impl Simulator {
    fn find_inputs(&self, inputs: &[ExternalInput]) -> (found: Vec<Option<PinIdx>>)
        requires
            self.root.0 < self.chips@.len(),
            arenas_ok(*self),
        ensures
            found@ == inputs_found(*self, inputs@),
            forall|k: int| 0 <= k < found@.len() ==> (#[trigger] found@[k] matches Some(p) ==> p.0 < self.pins@.len()),
    {
        let mut found: Vec<Option<PinIdx>> = Vec::new();
        let mut k: usize = 0;
        while k < inputs.len()
            invariant
                k <= inputs@.len(),
                self.root.0 < self.chips@.len(),
                arenas_ok(*self),
                found@ == inputs_found(*self, inputs@).take(k as int),
                forall|j: int| 0 <= j < found@.len() ==> (#[trigger] found@[j] matches Some(p) ==> p.0 < self.pins@.len()),
            decreases inputs.len() - k,
        {
            let f = self.find_pin(self.root, inputs[k].address);
            found.push(f);
            k = k + 1;
            assert(found@ =~= inputs_found(*self, inputs@).take(k as int));
        }
        assert(inputs_found(*self, inputs@).take(inputs@.len() as int) =~= inputs_found(*self, inputs@));
        found
    }

    /// Runs one simulation frame, with `seed` as the frame's PCG seed and
    /// `draws` as the random words an ordering pass picks subchips with:
    /// the frame counter advances (reordering being allowed on every
    /// hundredth frame), the external inputs are copied onto the root
    /// chip's pins they address (an address that names no pin is passed
    /// over), then the root chip steps, with an ordering pass when one is
    /// due (which clears the need). The notes buzzers play are appended to
    /// `notes`; returns how many words of `draws` were used.
    pub fn run_simulation_step_with(
        &mut self,
        external_inputs: &[ExternalInput],
        seed: u32,
        draws: &Vec<u32>,
        notes: &mut Vec<BuzzerNote>,
    ) -> (used: usize)
        requires
            old(self).simulation_frame < u64::MAX,
            old(self).root.0 < old(self).chips@.len(),
            arenas_ok(*old(self)),
            old(self).needs_order_pass ==> reorder_ok(
                next_host(*old(self)),
                frame_start(*old(self), external_inputs@, seed),
                old(self).root.0 as int,
                draws@,
            ),
            !old(self).needs_order_pass ==> step_ok(
                next_host(*old(self)),
                frame_start(*old(self), external_inputs@, seed),
                old(self).root.0 as int,
            ),
        ensures
            host_of(*final(self)) == next_host(*old(self)),
            final(self).root == old(self).root,
            !final(self).needs_order_pass,
            old(self).needs_order_pass ==> {
                let r = reorder_stepped(next_host(*old(self)), frame_start(*old(self), external_inputs@, seed), old(self).root.0 as int, draws@);
                &&& graph_of(*final(self)) == r.0
                &&& final(notes)@ == old(notes)@ + r.1
                &&& used as int == r.2
            },
            !old(self).needs_order_pass ==> {
                let r = stepped(next_host(*old(self)), frame_start(*old(self), external_inputs@, seed), old(self).root.0 as int);
                &&& graph_of(*final(self)) == r.0
                &&& final(notes)@ == old(notes)@ + r.1
                &&& used == 0
            },
    {
        let ghost start = *self;
        let found = self.find_inputs(external_inputs);
        self.pcg_rng_state = seed;
        self.can_dynamic_reorder_this_frame = self.simulation_frame % 100 == 0;
        self.simulation_frame = self.simulation_frame + 1;
        let mut k: usize = 0;
        while k < found.len()
            invariant
                k <= found@.len(),
                found@ == inputs_found(start, external_inputs@),
                found@.len() == external_inputs@.len(),
                forall|j: int| 0 <= j < found@.len() ==> (#[trigger] found@[j] matches Some(p) ==> p.0 < start.pins@.len()),
                self.pins@ == inputs_applied(start.pins@, external_inputs@, found@, k as int),
                self.pins@.len() == start.pins@.len(),
                self.chips@ == start.chips@,
                self.root == start.root,
                self.pcg_rng_state == seed,
                host_of(*self) == next_host(start),
                self.needs_order_pass == start.needs_order_pass,
            decreases found.len() - k,
        {
            match found[k] {
                Some(p) => {
                    assert(found@[k as int] matches Some(q) ==> q.0 < start.pins@.len());
                    self.pins[p.0].state = external_inputs[k].state;
                },
                None => {},
            }
            k = k + 1;
        }
        assert(graph_of(*self) == frame_start(start, external_inputs@, seed));
        if self.needs_order_pass {
            let used = self.step_chip_reorder_with(self.root, draws, notes);
            self.needs_order_pass = false;
            used
        } else {
            self.step_chip(self.root, notes);
            0
        }
    }
}



// ---------------------------------------------------------------------
// Laws of the RAM, key and receipt steps.

/// A RAM step that neither writes nor resets (whatever its clock) leaves
/// every data word as it was, and its output reads the addressed word.
pub proof fn lemma_ram_without_write_keeps_memory(host: HostView, g: SimGraph, c: int)
    requires
        builtin_ready(g, c),
        g.1[c].chip_type == ChipType::DevRam8Bit,
        !high_first_bit(in_st(g, c, 2)),
        !high_first_bit(in_st(g, c, 3)),
    ensures
        builtin_internal(g, c).len() == g.1[c].internal_state.len(),
        forall|i: int| 0 <= i < g.1[c].internal_state.len() - 1
            ==> #[trigger] builtin_internal(g, c)[i] == g.1[c].internal_state[i],
        bits_of(in_st(g, c, 0)) < g.1[c].internal_state.len() - 1 ==> builtin_outputs(host, g, c) == seq![
            PinState { raw: g.1[c].internal_state[bits_of(in_st(g, c, 0)) as int] & 0xFFFF },
        ],
{
    let s = g.1[c].internal_state;
    let a = bits_of(in_st(g, c, 0)) as int;
    let after = builtin_internal(g, c);
    assert(after == ram_internal(s, a, bits_of(in_st(g, c, 1)), false, false, high_first_bit(in_st(g, c, 4))));
    assert forall|i: int| 0 <= i < s.len() - 1 implies #[trigger] after[i] == s[i] by {}
}

/// A RAM step on a rising clock edge with write enable and reset both low
/// stores nothing: every data word keeps its value.
pub proof fn lemma_ram_rising_edge_without_write_stores_nothing(s: Seq<u32>, addr: int, data: u32)
    requires
        ram_ready(s, addr),
        rising(s, true),
    ensures
        forall|i: int| 0 <= i < s.len() - 1 ==> #[trigger] ram_internal(s, addr, data, false, false, true)[i] == s[i],
        ram_internal(s, addr, data, false, false, true)[s.len() - 1] == 1,
{
}

/// A key chip reads high when any held key, wherever it stands among the
/// held keys, has its key code (its first memory word, or 0, taken as a
/// byte).
pub proof fn lemma_key_high_when_held(host: HostView, g: SimGraph, c: int, j: int)
    requires
        g.1[c].chip_type == ChipType::Key,
        0 <= j < host.held_keys.len(),
        (host.held_keys[j] as u32) == (if g.1[c].internal_state.len() > 0 { g.1[c].internal_state[0] } else { 0u32 }) % 256,
    ensures
        builtin_outputs(host, g, c) == seq![PinState { raw: 1 }],
{
}

/// A key chip reads low when no held key has its key code.
pub proof fn lemma_key_low_when_not_held(host: HostView, g: SimGraph, c: int)
    requires
        g.1[c].chip_type == ChipType::Key,
        forall|j: int| 0 <= j < host.held_keys.len() ==> (#[trigger] host.held_keys[j] as u32)
            != (if g.1[c].internal_state.len() > 0 { g.1[c].internal_state[0] } else { 0u32 }) % 256,
    ensures
        builtin_outputs(host, g, c) == seq![PinState { raw: 0 }],
{
}

/// The first input a pin receives in a frame (its last update was in
/// another frame) gives it the source's state, restarts its input count
/// at 1, records the source, and draws no random word, whatever it
/// received in earlier frames.
pub proof fn lemma_first_receipt_of_frame_copies_source(g: SimGraph, frame: u64, t: int, s: int)
    requires
        0 <= t < g.0.len(),
        0 <= s < g.0.len(),
        g.0[t].last_updated_frame_index != frame,
    ensures
        receive_step(g, frame, t, s).0[t].state == g.0[s].state,
        receive_step(g, frame, t, s).0[t].num_inputs_received_this_frame == 1,
        receive_step(g, frame, t, s).0[t].last_updated_frame_index == frame,
        receive_step(g, frame, t, s).0[t].latest_source_id == g.0[s].id,
        receive_step(g, frame, t, s).2 == g.2,
        g.0[t].is_input && g.0[t].num_input_connections == 1 && (g.0[t].parent_chip.0 as int) < g.1.len()
            && g.1[g.0[t].parent_chip.0 as int].num_inputs_ready < i32::MAX ==> receive_step(g, frame, t, s).1[g.0[t].parent_chip.0 as int].num_inputs_ready
            == g.1[g.0[t].parent_chip.0 as int].num_inputs_ready + 1,
{
}

/// A further input in the same frame counts one more input received.
pub proof fn lemma_later_receipt_counts_up(g: SimGraph, frame: u64, t: int, s: int)
    requires
        0 <= t < g.0.len(),
        0 <= s < g.0.len(),
        g.0[t].last_updated_frame_index == frame,
        0 <= g.0[t].num_inputs_received_this_frame < i32::MAX,
    ensures
        receive_step(g, frame, t, s).0[t].num_inputs_received_this_frame == g.0[t].num_inputs_received_this_frame + 1,
        receive_step(g, frame, t, s).0[t].last_updated_frame_index == frame,
{
}



/// A RAM step on a rising clock edge with reset high clears every data
/// word below 256, whatever the write enable says.
pub proof fn lemma_ram_reset_clears(s: Seq<u32>, addr: int, data: u32, write: bool)
    requires
        ram_ready(s, addr),
        rising(s, true),
    ensures
        forall|i: int| 0 <= i < s.len() - 1 && i < 256 ==> #[trigger] ram_internal(s, addr, data, write, true, true)[i] == 0,
{
}

/// A RAM step on a rising clock edge with write enable high and reset low
/// stores `data` at `addr` and changes no other data word.
pub proof fn lemma_ram_write_changes_only_its_word(s: Seq<u32>, addr: int, data: u32)
    requires
        ram_ready(s, addr),
        addr < s.len() - 1,
        rising(s, true),
    ensures
        ram_internal(s, addr, data, true, false, true)[addr] == data,
        forall|i: int| 0 <= i < s.len() - 1 && i != addr ==> #[trigger] ram_internal(s, addr, data, true, false, true)[i] == s[i],
{
}

/// A pin that receives, in the same frame, the very state it already
/// holds keeps that state, whichever way the coin falls.
pub proof fn lemma_agreeing_receipt_keeps_state(g: SimGraph, frame: u64, t: int, s: int)
    requires
        0 <= t < g.0.len(),
        0 <= s < g.0.len(),
        g.0[s].state == g.0[t].state,
    ensures
        receive_step(g, frame, t, s).0[t].state == g.0[t].state,
{
    let x = g.0[t].state.raw;
    assert(((x & 0xFFFF) & !(x >> 16)) | ((x & 0xFFFF) & (x >> 16)) == x & 0xFFFF) by (bit_vector);
    assert((((x & 0xFFFF) & !(x >> 16)) | ((x & 0xFFFF) & (x >> 16))) & 0xFFFF | ((x >> 16) << 16) == x) by (bit_vector);
    assert((x | x) == x && (x & x) == x) by (bit_vector);
}


} // verus!
