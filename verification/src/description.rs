//! The saved shape of a chip, as far as the save-format and editor logic of
//! this library reads it: the chip's kind, pins, sub-chips (with their
//! instance data and pin colours) and embedded displays, plus the library
//! of chips a project can place.
use vstd::prelude::*;
use crate::text::{ascii_lower, eq_ignore_ascii_case};

verus! {

/// Every builtin chip kind, plus `Custom` for player-made chips.
#[derive(Debug, Clone, Copy, PartialEq, Eq, Structural, Hash)]
pub enum ChipType {
    Custom,
    Nand,
    Clock,
    Pulse,
    TriStateBuffer,
    Key,
    KeyMods,
    Buzzer,
    In1Bit,
    In4Bit,
    In8Bit,
    Out1Bit,
    Out4Bit,
    Out8Bit,
    Merge1To4Bit,
    Merge1To8Bit,
    Merge4To8Bit,
    Split4To1Bit,
    Split8To4Bit,
    Split8To1Bit,
    SevenSegmentDisplay,
    DisplayRgb,
    DisplayDot,
    DisplayLed,
    Bus1Bit,
    Bus4Bit,
    Bus8Bit,
    BusTerminus1Bit,
    BusTerminus4Bit,
    BusTerminus8Bit,
    Rom256x16,
    DevRam8Bit,
}

/// The name a builtin chip kind is listed and saved under.
pub open spec fn chip_type_name(t: ChipType) -> Seq<char> {
    match t {
        ChipType::Custom => ""@,
        ChipType::Nand => "NAND"@,
        ChipType::Clock => "CLOCK"@,
        ChipType::Pulse => "PULSE"@,
        ChipType::TriStateBuffer => "3-STATE BUFFER"@,
        ChipType::Key => "KEY"@,
        ChipType::KeyMods => "KEY-MODS"@,
        ChipType::Buzzer => "BUZZER"@,
        ChipType::In1Bit => "IN-1"@,
        ChipType::In4Bit => "IN-4"@,
        ChipType::In8Bit => "IN-8"@,
        ChipType::Out1Bit => "OUT-1"@,
        ChipType::Out4Bit => "OUT-4"@,
        ChipType::Out8Bit => "OUT-8"@,
        ChipType::Merge1To4Bit => "1-4BIT"@,
        ChipType::Merge1To8Bit => "1-8BIT"@,
        ChipType::Merge4To8Bit => "4-8BIT"@,
        ChipType::Split4To1Bit => "4-1BIT"@,
        ChipType::Split8To4Bit => "8-4BIT"@,
        ChipType::Split8To1Bit => "8-1BIT"@,
        ChipType::SevenSegmentDisplay => "7-SEGMENT"@,
        ChipType::DisplayRgb => "RGB DISPLAY"@,
        ChipType::DisplayDot => "DOT DISPLAY"@,
        ChipType::DisplayLed => "LED"@,
        ChipType::Bus1Bit => "BUS-1"@,
        ChipType::Bus4Bit => "BUS-4"@,
        ChipType::Bus8Bit => "BUS-8"@,
        ChipType::BusTerminus1Bit => "BUS-TERMINUS-1"@,
        ChipType::BusTerminus4Bit => "BUS-TERMINUS-4"@,
        ChipType::BusTerminus8Bit => "BUS-TERMINUS-8"@,
        ChipType::Rom256x16 => "ROM 256\u{d7}16"@,
        ChipType::DevRam8Bit => "dev.RAM-8"@,
    }
}

/// The name a builtin chip kind is listed and saved under.
pub fn name_for(t: ChipType) -> (s: &'static str)
    ensures
        s@ == chip_type_name(t),
{
    match t {
        ChipType::Custom => "",
        ChipType::Nand => "NAND",
        ChipType::Clock => "CLOCK",
        ChipType::Pulse => "PULSE",
        ChipType::TriStateBuffer => "3-STATE BUFFER",
        ChipType::Key => "KEY",
        ChipType::KeyMods => "KEY-MODS",
        ChipType::Buzzer => "BUZZER",
        ChipType::In1Bit => "IN-1",
        ChipType::In4Bit => "IN-4",
        ChipType::In8Bit => "IN-8",
        ChipType::Out1Bit => "OUT-1",
        ChipType::Out4Bit => "OUT-4",
        ChipType::Out8Bit => "OUT-8",
        ChipType::Merge1To4Bit => "1-4BIT",
        ChipType::Merge1To8Bit => "1-8BIT",
        ChipType::Merge4To8Bit => "4-8BIT",
        ChipType::Split4To1Bit => "4-1BIT",
        ChipType::Split8To4Bit => "8-4BIT",
        ChipType::Split8To1Bit => "8-1BIT",
        ChipType::SevenSegmentDisplay => "7-SEGMENT",
        ChipType::DisplayRgb => "RGB DISPLAY",
        ChipType::DisplayDot => "DOT DISPLAY",
        ChipType::DisplayLed => "LED",
        ChipType::Bus1Bit => "BUS-1",
        ChipType::Bus4Bit => "BUS-4",
        ChipType::Bus8Bit => "BUS-8",
        ChipType::BusTerminus1Bit => "BUS-TERMINUS-1",
        ChipType::BusTerminus4Bit => "BUS-TERMINUS-4",
        ChipType::BusTerminus8Bit => "BUS-TERMINUS-8",
        ChipType::Rom256x16 => "ROM 256\u{d7}16",
        ChipType::DevRam8Bit => "dev.RAM-8",
    }
}

/// The origin end of a bus (the end signals are written into).
pub open spec fn is_bus_origin(t: ChipType) -> bool {
    t == ChipType::Bus1Bit || t == ChipType::Bus4Bit || t == ChipType::Bus8Bit
}

/// Builtins offered only in development builds.
pub open spec fn is_dev_only_type(t: ChipType) -> bool {
    t == ChipType::DevRam8Bit || t == ChipType::BusTerminus1Bit || t == ChipType::BusTerminus4Bit
        || t == ChipType::BusTerminus8Bit
}

impl ChipType {
    /// Whether this is the origin end of a bus.
    pub fn is_bus_origin_type(&self) -> (b: bool)
        ensures
            b == is_bus_origin(*self),
    {
        match self {
            ChipType::Bus1Bit | ChipType::Bus4Bit | ChipType::Bus8Bit => true,
            _ => false,
        }
    }

    /// Whether this builtin is only offered in development builds.
    pub fn is_dev_only(&self) -> (b: bool)
        ensures
            b == is_dev_only_type(*self),
    {
        match self {
            ChipType::DevRam8Bit | ChipType::BusTerminus1Bit | ChipType::BusTerminus4Bit
            | ChipType::BusTerminus8Bit => true,
            _ => false,
        }
    }
}

/// A pin or wire colour, by its index in the colour palette.
#[derive(Debug, Clone, Copy, PartialEq, Eq, Structural, Hash)]
pub struct Color {
    pub index: i32,
}

impl Color {
    /// The palette index of this colour.
    pub fn to_int(&self) -> (r: i32)
        ensures
            r == self.index,
    {
        self.index
    }

    /// The colour at palette index `index`.
    pub fn from_int(index: i32) -> (c: Color)
        ensures
            c.index == index,
    {
        Color { index }
    }
}

/// Width of a pin's bus.
#[derive(Debug, Clone, Copy, PartialEq, Eq, Structural, Hash)]
pub enum PinBitCount {
    Bit1,
    Bit4,
    Bit8,
}

pub open spec fn bit_count_value(b: PinBitCount) -> u32 {
    match b {
        PinBitCount::Bit1 => 1,
        PinBitCount::Bit4 => 4,
        PinBitCount::Bit8 => 8,
    }
}

impl PinBitCount {
    /// Number of bits.
    pub fn to_int(&self) -> (r: u32)
        ensures
            r == bit_count_value(*self),
    {
        match self {
            PinBitCount::Bit1 => 1,
            PinBitCount::Bit4 => 4,
            PinBitCount::Bit8 => 8,
        }
    }
}

/// One input or output pin of a chip.
#[derive(Debug, Clone, PartialEq, Eq)]
pub struct PinDescription {
    pub name: String,
    pub id: i32,
    pub bit_count: PinBitCount,
    pub colour: Color,
}

/// One chip placed inside another.
#[derive(Debug, Clone, PartialEq, Eq)]
pub struct SubChipDescription {
    /// Name of the placed chip in the library.
    pub name: String,
    /// Instance id, unique among the owner's sub-chips.
    pub id: i32,
    /// Instance data (memory contents, LED colour, key binding, ...).
    pub internal_data: Option<Vec<u32>>,
    pub label: Option<String>,
    /// Colour overrides of this instance's output pins, by pin id.
    pub pin_colour_info: Vec<(i32, Color)>,
}

/// One embedded display shown on a chip's body: which of its own
/// sub-chips drives it.
#[derive(Debug, Clone, Copy, PartialEq, Eq, Structural)]
pub struct DisplayDescription {
    pub sub_chip_id: i32,
}

/// A chip's saved description.
#[derive(Debug, Clone, PartialEq, Eq)]
pub struct ChipDescription {
    pub name: String,
    pub chip_type: ChipType,
    pub input_pins: Vec<PinDescription>,
    pub output_pins: Vec<PinDescription>,
    pub sub_chips: Vec<SubChipDescription>,
    pub displays: Vec<DisplayDescription>,
    /// Version of the game that last saved this chip, if recorded.
    pub dls_version: Option<String>,
}

impl ChipDescription {
    /// An empty chip of kind `chip_type`.
    pub fn new(name: &str, chip_type: ChipType) -> (c: Self)
        ensures
            c.name@ == name@,
            c.chip_type == chip_type,
            c.input_pins@.len() == 0,
            c.output_pins@.len() == 0,
            c.sub_chips@.len() == 0,
            c.displays@.len() == 0,
            c.dls_version is None,
    {
        ChipDescription {
            name: name.to_string(),
            chip_type,
            input_pins: Vec::new(),
            output_pins: Vec::new(),
            sub_chips: Vec::new(),
            displays: Vec::new(),
            dls_version: None,
        }
    }
}

/// Whether `a` and `b` are equal, ignoring ASCII case.
pub fn eq_ignore_case(a: &str, b: &str) -> (r: bool)
    ensures
        r == eq_ignore_ascii_case(a@, b@),
{
    let x = crate::text::chars_of(a);
    let y = crate::text::chars_of(b);
    if x.len() != y.len() {
        return false;
    }
    let mut i: usize = 0;
    while i < x.len()
        invariant
            i <= x.len() == y.len(),
            x@ == a@,
            y@ == b@,
            forall|k: int| 0 <= k < i ==> ascii_lower(#[trigger] x@[k]) == ascii_lower(y@[k]),
        decreases x.len() - i,
    {
        if crate::text::lower(x[i]) != crate::text::lower(y[i]) {
            return false;
        }
        i = i + 1;
    }
    true
}

/// The first of `subs` with instance id `id`, if any.
pub open spec fn first_with_id(subs: Seq<SubChipDescription>, id: i32) -> Option<SubChipDescription>
    decreases subs.len(),
{
    if subs.len() == 0 {
        None
    } else if subs[0].id == id {
        Some(subs[0])
    } else {
        first_with_id(subs.drop_first(), id)
    }
}

/// Position of the first of `subs` with instance id `id`, if any.
pub fn find_sub_chip(subs: &[SubChipDescription], id: i32) -> (r: Option<usize>)
    ensures
        match r {
            Some(i) => i < subs@.len() && first_with_id(subs@, id) == Some(subs@[i as int]),
            None => first_with_id(subs@, id) is None,
        },
{
    let n = subs.len();
    let mut i: usize = 0;
    assert(subs@.subrange(0, n as int) =~= subs@);
    while i < n && subs[i].id != id
        invariant
            i <= n == subs@.len(),
            first_with_id(subs@, id) == first_with_id(subs@.subrange(i as int, n as int), id),
        decreases n - i,
    {
        assert(subs@.subrange(i as int, n as int).drop_first() =~= subs@.subrange(i + 1, n as int));
        i = i + 1;
    }
    if i == n {
        None
    } else {
        assert(subs@.subrange(i as int, n as int)[0] == subs@[i as int]);
        Some(i)
    }
}

proof fn lemma_eq_ignore_case_equiv(a: Seq<char>, b: Seq<char>, c: Seq<char>)
    ensures
        eq_ignore_ascii_case(a, a),
        eq_ignore_ascii_case(a, b) ==> eq_ignore_ascii_case(b, a),
        eq_ignore_ascii_case(a, b) && eq_ignore_ascii_case(b, c) ==> eq_ignore_ascii_case(a, c),
{
    if eq_ignore_ascii_case(a, b) {
        assert forall|i: int| 0 <= i < b.len() implies ascii_lower(#[trigger] b[i]) == ascii_lower(a[i]) by {
            assert(ascii_lower(a[i]) == ascii_lower(b[i]));
        }
        if eq_ignore_ascii_case(b, c) {
            assert forall|i: int| 0 <= i < a.len() implies ascii_lower(#[trigger] a[i]) == ascii_lower(c[i]) by {
                assert(ascii_lower(a[i]) == ascii_lower(b[i]));
                assert(ascii_lower(b[i]) == ascii_lower(c[i]));
            }
        }
    }
}

/// Looking a name up in two lists that differ only at a position whose
/// chip matches the name in neither finds the same chip.
proof fn lemma_named_same_except(s: Seq<ChipDescription>, t: Seq<ChipDescription>, i: int, n: Seq<char>)
    requires
        s.len() == t.len(),
        0 <= i < s.len(),
        forall|j: int| 0 <= j < s.len() && j != i ==> s[j] == t[j],
        !eq_ignore_ascii_case(s[i].name@, n),
        !eq_ignore_ascii_case(t[i].name@, n),
    ensures
        chip_named(s, n) == chip_named(t, n),
    decreases s.len(),
{
    if i > 0 && !eq_ignore_ascii_case(s[0].name@, n) {
        assert(s[0] == t[0]);
        assert forall|j: int| 0 <= j < s.len() - 1 && j != i - 1 implies s.drop_first()[j] == t.drop_first()[j] by {
            assert(s[j + 1] == t[j + 1]);
        }
        lemma_named_same_except(s.drop_first(), t.drop_first(), i - 1, n);
    } else if i == 0 {
        assert(s.drop_first() =~= t.drop_first());
    } else {
        assert(s[0] == t[0]);
    }
}

/// Appending a chip not named `n` does not change what `n` finds.
proof fn lemma_named_push(s: Seq<ChipDescription>, d: ChipDescription, n: Seq<char>)
    requires
        !eq_ignore_ascii_case(d.name@, n),
    ensures
        chip_named(s.push(d), n) == chip_named(s, n),
    decreases s.len(),
{
    if s.len() > 0 {
        assert(s.push(d)[0] == s[0]);
        assert(s.push(d).drop_first() =~= s.drop_first().push(d));
        lemma_named_push(s.drop_first(), d, n);
    } else {
        assert(s.push(d)[0] == d);
        assert(s.push(d).drop_first() =~= Seq::<ChipDescription>::empty());
        assert(chip_named(Seq::<ChipDescription>::empty(), n) is None);
        assert(s =~= Seq::<ChipDescription>::empty());
    }
}

/// The first chip named `n` is the one at `i` when none before matches.
proof fn lemma_named_at(s: Seq<ChipDescription>, n: Seq<char>, i: int)
    requires
        0 <= i < s.len(),
        eq_ignore_ascii_case(s[i].name@, n),
        forall|j: int| 0 <= j < i ==> !eq_ignore_ascii_case(#[trigger] s[j].name@, n),
    ensures
        chip_named(s, n) == Some(s[i]),
    decreases i,
{
    if i > 0 {
        assert(!eq_ignore_ascii_case(s[0].name@, n));
        assert forall|j: int| 0 <= j < i - 1 implies !eq_ignore_ascii_case(#[trigger] s.drop_first()[j].name@, n) by {
            assert(s.drop_first()[j] == s[j + 1]);
        }
        lemma_named_at(s.drop_first(), n, i - 1);
    }
}

/// Putting `desc` at position `i` (the first chip named like it, or the
/// end when there is none) makes lookups of its name find it, and leaves
/// lookups of every other name as they were.
proof fn lemma_add_lookups(before: Seq<ChipDescription>, after: Seq<ChipDescription>, desc: ChipDescription, i: int)
    requires
        0 <= i <= before.len(),
        i < before.len() ==> eq_ignore_ascii_case(before[i].name@, desc.name@) && after == before.update(i, desc),
        i == before.len() ==> after == before.push(desc),
        forall|j: int| 0 <= j < i ==> !eq_ignore_ascii_case(#[trigger] before[j].name@, desc.name@),
    ensures
        chip_named(after, desc.name@) == Some(desc),
        forall|n: Seq<char>| !eq_ignore_ascii_case(n, desc.name@) ==> #[trigger] chip_named(after, n) == chip_named(before, n),
{
    lemma_eq_ignore_case_equiv(desc.name@, desc.name@, desc.name@);
    assert(after[i] == desc);
    assert forall|j: int| 0 <= j < i implies !eq_ignore_ascii_case(#[trigger] after[j].name@, desc.name@) by {
        assert(after[j] == before[j]);
    }
    lemma_named_at(after, desc.name@, i);
    assert forall|n: Seq<char>| !eq_ignore_ascii_case(n, desc.name@) implies #[trigger] chip_named(after, n) == chip_named(before, n) by {
        lemma_eq_ignore_case_equiv(desc.name@, n, n);
        if i < before.len() {
            lemma_eq_ignore_case_equiv(before[i].name@, n, desc.name@);
            lemma_eq_ignore_case_equiv(n, before[i].name@, desc.name@);
            lemma_named_same_except(after, before, i, n);
        } else {
            lemma_named_push(before, desc, n);
        }
    }
}

/// The chips a project can place, looked up by name case-insensitively.
#[derive(Debug, Clone)]
pub struct ChipLibrary {
    pub chips: Vec<ChipDescription>,
}

/// The first of `chips` named `name` (ignoring ASCII case), if any.
pub open spec fn chip_named(chips: Seq<ChipDescription>, name: Seq<char>) -> Option<ChipDescription>
    decreases chips.len(),
{
    if chips.len() == 0 {
        None
    } else if eq_ignore_ascii_case(chips[0].name@, name) {
        Some(chips[0])
    } else {
        chip_named(chips.drop_first(), name)
    }
}

/// `chip_named` finds the chip at the first position whose name matches.
pub proof fn lemma_chip_named(chips: Seq<ChipDescription>, name: Seq<char>)
    ensures
        (forall|j: int| 0 <= j < chips.len() ==> !eq_ignore_ascii_case(#[trigger] chips[j].name@, name))
            ==> chip_named(chips, name) is None,
        forall|i: int| 0 <= i < chips.len() && eq_ignore_ascii_case(chips[i].name@, name)
            && (forall|j: int| 0 <= j < i ==> !eq_ignore_ascii_case(#[trigger] chips[j].name@, name))
            ==> chip_named(chips, name) == Some(#[trigger] chips[i]),
    decreases chips.len(),
{
    if chips.len() > 0 {
        let rest = chips.drop_first();
        lemma_chip_named(rest, name);
        assert forall|i: int| 0 <= i < chips.len() && eq_ignore_ascii_case(chips[i].name@, name)
            && (forall|j: int| 0 <= j < i ==> !eq_ignore_ascii_case(#[trigger] chips[j].name@, name))
            implies chip_named(chips, name) == Some(#[trigger] chips[i]) by {
            if i > 0 {
                assert(rest[i - 1] == chips[i]);
                assert forall|j: int| 0 <= j < i - 1 implies !eq_ignore_ascii_case(#[trigger] rest[j].name@, name) by {
                    assert(rest[j] == chips[j + 1]);
                }
            }
        }
        if forall|j: int| 0 <= j < chips.len() ==> !eq_ignore_ascii_case(#[trigger] chips[j].name@, name) {
            assert forall|j: int| 0 <= j < rest.len() implies !eq_ignore_ascii_case(#[trigger] rest[j].name@, name) by {
                assert(rest[j] == chips[j + 1]);
            }
        }
    }
}

impl ChipLibrary {
    pub fn new() -> (l: Self)
        ensures
            l.chips@.len() == 0,
    {
        ChipLibrary { chips: Vec::new() }
    }

    /// Position of the chip named `name` (ignoring ASCII case).
    pub fn index_of(&self, name: &str) -> (r: Option<usize>)
        ensures
            match r {
                Some(i) => i < self.chips.len() && eq_ignore_ascii_case(self.chips@[i as int].name@, name@)
                    && forall|j: int| 0 <= j < i ==> !eq_ignore_ascii_case(#[trigger] self.chips@[j].name@, name@),
                None => forall|j: int| 0 <= j < self.chips.len() ==> !eq_ignore_ascii_case(#[trigger] self.chips@[j].name@, name@),
            },
    {
        let mut i: usize = 0;
        while i < self.chips.len()
            invariant
                i <= self.chips.len(),
                forall|j: int| 0 <= j < i ==> !eq_ignore_ascii_case(#[trigger] self.chips@[j].name@, name@),
            decreases self.chips.len() - i,
        {
            if eq_ignore_case(self.chips[i].name.as_str(), name) {
                return Some(i);
            }
            i = i + 1;
        }
        None
    }

    /// The chip named `name` (ignoring ASCII case), if present.
    pub fn try_get(&self, name: &str) -> (r: Option<&ChipDescription>)
        ensures
            match r {
                Some(c) => chip_named(self.chips@, name@) == Some(*c),
                None => chip_named(self.chips@, name@) is None,
            },
    {
        proof {
            lemma_chip_named(self.chips@, name@);
        }
        match self.index_of(name) {
            Some(i) => Some(&self.chips[i]),
            None => None,
        }
    }

    /// Adds `desc`, replacing the chip of the same name (ignoring ASCII case)
    /// if there is one.
    pub fn add(&mut self, desc: ChipDescription)
        ensures
            ({
                let found = exists|j: int| 0 <= j < old(self).chips.len() && eq_ignore_ascii_case(#[trigger] old(self).chips@[j].name@, desc.name@);
                &&& !found ==> final(self).chips@ == old(self).chips@.push(desc)
                &&& found ==> exists|i: int| 0 <= i < old(self).chips.len()
                    && eq_ignore_ascii_case(#[trigger] old(self).chips@[i].name@, desc.name@)
                    && (forall|j: int| 0 <= j < i ==> !eq_ignore_ascii_case(#[trigger] old(self).chips@[j].name@, desc.name@))
                    && final(self).chips@ == old(self).chips@.update(i, desc)
            }),
            chip_named(final(self).chips@, desc.name@) == Some(desc),
            forall|n: Seq<char>| !eq_ignore_ascii_case(n, desc.name@)
                ==> #[trigger] chip_named(final(self).chips@, n) == chip_named(old(self).chips@, n),
    {
        let ghost before = self.chips@;
        match self.index_of(desc.name.as_str()) {
            Some(i) => {
                self.chips.set(i, desc);
                proof {
                    lemma_add_lookups(before, self.chips@, desc, i as int);
                }
            },
            None => {
                self.chips.push(desc);
                proof {
                    lemma_add_lookups(before, self.chips@, desc, before.len() as int);
                }
            },
        }
    }
}

/// The last of `chips` named `n` (ignoring ASCII case), if any.
pub open spec fn last_named(chips: Seq<ChipDescription>, n: Seq<char>) -> Option<ChipDescription>
    decreases chips.len(),
{
    if chips.len() == 0 {
        None
    } else if eq_ignore_ascii_case(chips.last().name@, n) {
        Some(chips.last())
    } else {
        last_named(chips.drop_last(), n)
    }
}

/// What a library holding the custom chips `customs` and the builtin chips
/// `builtins` finds under the name `n`: a custom chip of that name shadows
/// every builtin of it; among chips of one kind, the last one counts.
pub open spec fn merged_lookup(customs: Seq<ChipDescription>, builtins: Seq<ChipDescription>, n: Seq<char>) -> Option<ChipDescription> {
    match last_named(customs, n) {
        Some(c) => Some(c),
        None => last_named(builtins, n),
    }
}

/// Looking up names that are equal ignoring ASCII case finds the same chip.
proof fn lemma_named_equiv(s: Seq<ChipDescription>, n: Seq<char>, m: Seq<char>)
    requires
        eq_ignore_ascii_case(n, m),
    ensures
        chip_named(s, n) == chip_named(s, m),
    decreases s.len(),
{
    if s.len() > 0 {
        lemma_eq_ignore_case_equiv(s[0].name@, n, m);
        lemma_eq_ignore_case_equiv(s[0].name@, m, n);
        lemma_eq_ignore_case_equiv(n, m, m);
        lemma_named_equiv(s.drop_first(), n, m);
    }
}

/// `last_named` finds a chip exactly when one of them has the name.
proof fn lemma_last_named_found(s: Seq<ChipDescription>, n: Seq<char>)
    ensures
        (last_named(s, n) is Some) == (exists|k: int| 0 <= k < s.len() && eq_ignore_ascii_case(#[trigger] s[k].name@, n)),
    decreases s.len(),
{
    if s.len() > 0 {
        let rest = s.drop_last();
        lemma_last_named_found(rest, n);
        if exists|k: int| 0 <= k < s.len() && eq_ignore_ascii_case(#[trigger] s[k].name@, n) {
            let k = choose|k: int| 0 <= k < s.len() && eq_ignore_ascii_case(#[trigger] s[k].name@, n);
            if k < s.len() - 1 {
                assert(rest[k] == s[k]);
            }
        }
        if exists|k: int| 0 <= k < rest.len() && eq_ignore_ascii_case(#[trigger] rest[k].name@, n) {
            let k = choose|k: int| 0 <= k < rest.len() && eq_ignore_ascii_case(#[trigger] rest[k].name@, n);
            assert(s[k] == rest[k]);
        }
    }
}

/// After `add(d)`, lookups follow `last_named` of the chips added so far
/// with `d` appended.
proof fn lemma_add_follows_last(before: Seq<ChipDescription>, after: Seq<ChipDescription>, added: Seq<ChipDescription>, d: ChipDescription)
    requires
        forall|n: Seq<char>| #[trigger] chip_named(before, n) == last_named(added, n),
        chip_named(after, d.name@) == Some(d),
        forall|n: Seq<char>| !eq_ignore_ascii_case(n, d.name@) ==> #[trigger] chip_named(after, n) == chip_named(before, n),
    ensures
        forall|n: Seq<char>| #[trigger] chip_named(after, n) == last_named(added.push(d), n),
{
    assert forall|n: Seq<char>| #[trigger] chip_named(after, n) == last_named(added.push(d), n) by {
        assert(added.push(d).drop_last() =~= added);
        assert(added.push(d).last() == d);
        if eq_ignore_ascii_case(d.name@, n) {
            lemma_eq_ignore_case_equiv(d.name@, n, n);
            lemma_named_equiv(after, n, d.name@);
        } else {
            lemma_eq_ignore_case_equiv(n, d.name@, n);
            assert(chip_named(before, n) == last_named(added, n));
        }
    }
}

/// Whether some name of `names` equals `name` ignoring ASCII case.
fn name_listed(names: &Vec<String>, name: &str) -> (b: bool)
    ensures
        b == exists|k: int| 0 <= k < names@.len() && eq_ignore_ascii_case(#[trigger] names@[k]@, name@),
{
    let mut k: usize = 0;
    while k < names.len()
        invariant
            k <= names@.len(),
            forall|j: int| 0 <= j < k ==> !eq_ignore_ascii_case(#[trigger] names@[j]@, name@),
        decreases names.len() - k,
    {
        if eq_ignore_case(names[k].as_str(), name) {
            return true;
        }
        k = k + 1;
    }
    false
}

/// The chip library of a project: its custom chips, in order, then every
/// builtin chip whose name no custom chip has (ignoring ASCII case), so a
/// custom chip shadows a builtin of the same name.
pub fn library_with_builtins(custom_chips: Vec<ChipDescription>, builtin_chips: Vec<ChipDescription>) -> (l: ChipLibrary)
    ensures
        forall|n: Seq<char>| #[trigger] chip_named(l.chips@, n) == merged_lookup(custom_chips@, builtin_chips@, n),
{
    let ghost customs = custom_chips@;
    let ghost builtins = builtin_chips@;
    let mut names: Vec<String> = Vec::new();
    let mut k: usize = 0;
    while k < custom_chips.len()
        invariant
            k <= custom_chips@.len(),
            customs == custom_chips@,
            names@.len() == k,
            forall|j: int| 0 <= j < k ==> (#[trigger] names@[j])@ == customs[j].name@,
        decreases custom_chips.len() - k,
    {
        names.push(custom_chips[k].name.clone());
        k = k + 1;
    }
    let mut library = ChipLibrary::new();
    let mut rest = custom_chips;
    let ghost mut i: int = 0;
    assert(customs.subrange(0, customs.len() as int) =~= customs);
    while rest.len() > 0
        invariant
            0 <= i <= customs.len(),
            rest@ == customs.subrange(i, customs.len() as int),
            forall|n: Seq<char>| #[trigger] chip_named(library.chips@, n) == last_named(customs.subrange(0, i), n),
        decreases rest.len(),
    {
        let c = rest.remove(0);
        let ghost before = library.chips@;
        library.add(c);
        proof {
            assert(customs.subrange(0, i + 1) =~= customs.subrange(0, i).push(c));
            lemma_add_follows_last(before, library.chips@, customs.subrange(0, i), c);
            i = i + 1;
            assert(rest@ =~= customs.subrange(i, customs.len() as int));
        }
    }
    assert(customs.subrange(0, i) =~= customs);
    let mut rest = builtin_chips;
    let ghost mut j: int = 0;
    assert(builtins.subrange(0, builtins.len() as int) =~= builtins);
    while rest.len() > 0
        invariant
            0 <= j <= builtins.len(),
            rest@ == builtins.subrange(j, builtins.len() as int),
            names@.len() == customs.len(),
            forall|q: int| 0 <= q < customs.len() ==> (#[trigger] names@[q])@ == customs[q].name@,
            forall|n: Seq<char>| #[trigger] chip_named(library.chips@, n) == merged_lookup(customs, builtins.subrange(0, j), n),
        decreases rest.len(),
    {
        let b = rest.remove(0);
        let ghost prefix = builtins.subrange(0, j);
        proof {
            assert(builtins.subrange(0, j + 1) =~= prefix.push(b));
            assert(prefix.push(b).drop_last() =~= prefix);
            assert(prefix.push(b).last() == b);
        }
        let shadowed = name_listed(&names, b.name.as_str());
        if shadowed {
            proof {
                let q = choose|q: int| 0 <= q < names@.len() && eq_ignore_ascii_case(#[trigger] names@[q]@, b.name@);
                assert forall|n: Seq<char>| #[trigger] chip_named(library.chips@, n) == merged_lookup(customs, prefix.push(b), n) by {
                    if last_named(customs, n) is None && eq_ignore_ascii_case(b.name@, n) {
                        lemma_eq_ignore_case_equiv(customs[q].name@, b.name@, n);
                        lemma_last_named_found(customs, n);
                        assert(eq_ignore_ascii_case(customs[q].name@, n));
                    }
                    assert(chip_named(library.chips@, n) == merged_lookup(customs, prefix, n));
                }
            }
        } else {
            let ghost before = library.chips@;
            library.add(b);
            proof {
                assert forall|n: Seq<char>| #[trigger] chip_named(library.chips@, n) == merged_lookup(customs, prefix.push(b), n) by {
                    if eq_ignore_ascii_case(b.name@, n) {
                        assert forall|q: int| 0 <= q < customs.len() implies !eq_ignore_ascii_case(#[trigger] customs[q].name@, n) by {
                            assert(names@[q]@ == customs[q].name@);
                            lemma_eq_ignore_case_equiv(b.name@, n, n);
                            lemma_eq_ignore_case_equiv(customs[q].name@, n, b.name@);
                        }
                        lemma_last_named_found(customs, n);
                        lemma_eq_ignore_case_equiv(b.name@, n, n);
                        lemma_named_equiv(library.chips@, n, b.name@);
                    } else {
                        lemma_eq_ignore_case_equiv(n, b.name@, n);
                        assert(chip_named(library.chips@, n) == chip_named(before, n));
                        assert(chip_named(before, n) == merged_lookup(customs, prefix, n));
                    }
                }
            }
        }
        proof {
            j = j + 1;
            assert(rest@ =~= builtins.subrange(j, builtins.len() as int));
        }
    }
    assert(builtins.subrange(0, j) =~= builtins);
    library
}

} // verus!
