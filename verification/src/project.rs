//! A project's saved description (`ProjectDescription.json`): its name,
//! version stamps, timestamps, preferences, custom chip names, starred
//! items and chip collections; the defaults a new project starts with; the
//! check whether this build can open a project; and the newest-first order
//! of the project list.
use vstd::prelude::*;
use crate::description::{chip_type_name, name_for, ChipDescription, ChipLibrary, ChipType};
use crate::timestamp::{parse_to_unix_seconds, stamp_seconds};
use crate::version::{
    current_version, earliest_compatible_version, parse_version_text, version_le, version_text, Version,
};

verus! {

/// A chip or collection pinned to the bottom bar.
#[derive(Debug, Clone, PartialEq, Eq)]
pub struct StarredItem {
    pub name: String,
    pub is_collection: bool,
}

impl StarredItem {
    pub fn new(name: &str, is_collection: bool) -> (s: Self)
        ensures
            s.name@ == name@,
            s.is_collection == is_collection,
    {
        StarredItem { name: name.to_string(), is_collection }
    }
}

/// A named group of chips in the chip library.
#[derive(Debug, Clone, PartialEq, Eq)]
pub struct ChipCollection {
    pub name: String,
    pub chips: Vec<String>,
    pub is_toggled_open: bool,
}

/// The saved description of a project.
#[derive(Debug, Clone, PartialEq, Eq)]
pub struct ProjectDescription {
    pub project_name: String,
    pub dls_version_last_saved: String,
    pub dls_version_earliest_compatible: String,
    pub creation_time: String,
    pub last_save_time: String,
    pub prefs_chip_pin_names_display_mode: i32,
    pub prefs_main_pin_names_display_mode: i32,
    pub prefs_grid_display_mode: i32,
    pub prefs_snapping: i32,
    pub prefs_straight_wires: i32,
    pub prefs_sim_target_steps_per_second: i32,
    pub prefs_sim_steps_per_clock_tick: i32,
    pub prefs_sim_paused: bool,
    pub prefs_use_caching: bool,
    pub all_custom_chip_names: Vec<String>,
    pub starred_list: Vec<StarredItem>,
    pub chip_collections: Vec<ChipCollection>,
}

/// An all-empty description: empty texts and lists, zero preferences.
pub open spec fn is_blank_description(d: ProjectDescription) -> bool {
    &&& d.project_name@.len() == 0
    &&& d.dls_version_last_saved@.len() == 0
    &&& d.dls_version_earliest_compatible@.len() == 0
    &&& d.creation_time@.len() == 0
    &&& d.last_save_time@.len() == 0
    &&& d.prefs_chip_pin_names_display_mode == 0
    &&& d.prefs_main_pin_names_display_mode == 0
    &&& d.prefs_grid_display_mode == 0
    &&& d.prefs_snapping == 0
    &&& d.prefs_straight_wires == 0
    &&& d.prefs_sim_target_steps_per_second == 0
    &&& d.prefs_sim_steps_per_clock_tick == 0
    &&& !d.prefs_sim_paused
    &&& !d.prefs_use_caching
    &&& d.all_custom_chip_names@.len() == 0
    &&& d.starred_list@.len() == 0
    &&& d.chip_collections@.len() == 0
}

impl Default for ProjectDescription {
    fn default() -> (d: Self)
        ensures
            is_blank_description(d),
    {
        ProjectDescription {
            project_name: String::new(),
            dls_version_last_saved: String::new(),
            dls_version_earliest_compatible: String::new(),
            creation_time: String::new(),
            last_save_time: String::new(),
            prefs_chip_pin_names_display_mode: 0,
            prefs_main_pin_names_display_mode: 0,
            prefs_grid_display_mode: 0,
            prefs_snapping: 0,
            prefs_straight_wires: 0,
            prefs_sim_target_steps_per_second: 0,
            prefs_sim_steps_per_clock_tick: 0,
            prefs_sim_paused: false,
            prefs_use_caching: false,
            all_custom_chip_names: Vec::new(),
            starred_list: Vec::new(),
            chip_collections: Vec::new(),
        }
    }
}

/// The names of the custom chips in `chips`, in library order.
pub open spec fn custom_chip_names(chips: Seq<ChipDescription>) -> Seq<Seq<char>>
    decreases chips.len(),
{
    if chips.len() == 0 {
        seq![]
    } else {
        let rest = custom_chip_names(chips.drop_last());
        if chips.last().chip_type == ChipType::Custom {
            rest.push(chips.last().name@)
        } else {
            rest
        }
    }
}

/// Views of a list of strings.
pub open spec fn texts(v: Seq<String>) -> Seq<Seq<char>> {
    v.map_values(|s: String| s@)
}

impl ProjectDescription {
    /// Rederives `all_custom_chip_names` from `library`, the source of
    /// truth for which custom chips exist.
    pub fn recompute_all_custom_chip_names(&mut self, library: &ChipLibrary)
        ensures
            *final(self) == (ProjectDescription { all_custom_chip_names: final(self).all_custom_chip_names, ..*old(self) }),
            texts(final(self).all_custom_chip_names@) == custom_chip_names(library.chips@),
    {
        let mut names: Vec<String> = Vec::new();
        let mut i: usize = 0;
        while i < library.chips.len()
            invariant
                i <= library.chips@.len(),
                texts(names@) == custom_chip_names(library.chips@.subrange(0, i as int)),
            decreases library.chips.len() - i,
        {
            assert(library.chips@.subrange(0, i + 1).drop_last() =~= library.chips@.subrange(0, i as int));
            if library.chips[i].chip_type == ChipType::Custom {
                names.push(library.chips[i].name.clone());
                assert(texts(names@) =~= custom_chip_names(library.chips@.subrange(0, i as int)).push(
                    library.chips@[i as int].name@,
                ));
            }
            i = i + 1;
        }
        assert(library.chips@.subrange(0, library.chips@.len() as int) =~= library.chips@);
        self.all_custom_chip_names = names;
    }
}

/// A loaded project: its description plus the chips it can place.
pub struct Project {
    pub description: ProjectDescription,
    pub chip_library: ChipLibrary,
}

impl Project {
    pub fn new(description: ProjectDescription, chip_library: ChipLibrary) -> (p: Self)
        ensures
            p.description == description,
            p.chip_library.chips == chip_library.chips,
    {
        Self { description, chip_library }
    }

    /// Adds (or replaces) a custom chip in the in-memory library, then
    /// rederives the description's custom chip names from the library.
    pub fn add_or_update_custom_chip(&mut self, desc: ChipDescription)
        ensures
            ({
                let found = exists|j: int| 0 <= j < old(self).chip_library.chips.len()
                    && crate::text::eq_ignore_ascii_case(#[trigger] old(self).chip_library.chips@[j].name@, desc.name@);
                &&& !found ==> final(self).chip_library.chips@ == old(self).chip_library.chips@.push(desc)
                &&& found ==> exists|i: int| 0 <= i < old(self).chip_library.chips.len()
                    && crate::text::eq_ignore_ascii_case(#[trigger] old(self).chip_library.chips@[i].name@, desc.name@)
                    && (forall|j: int| 0 <= j < i ==> !crate::text::eq_ignore_ascii_case(#[trigger] old(self).chip_library.chips@[j].name@, desc.name@))
                    && final(self).chip_library.chips@ == old(self).chip_library.chips@.update(i, desc)
            }),
            final(self).description == (ProjectDescription {
                all_custom_chip_names: final(self).description.all_custom_chip_names,
                ..old(self).description
            }),
            texts(final(self).description.all_custom_chip_names@) == custom_chip_names(final(self).chip_library.chips@),
    {
        self.chip_library.add(desc);
        self.description.recompute_all_custom_chip_names(&self.chip_library);
    }
}

// ---------------------------------------------------------------------------
// Defaults of a new project

/// The starred items of a new project: the IN/OUT collection and NAND.
pub fn default_starred_list() -> (v: Vec<StarredItem>)
    ensures
        v@.len() == 2,
        v@[0].name@ == "IN/OUT"@ && v@[0].is_collection,
        v@[1].name@ == chip_type_name(ChipType::Nand) && !v@[1].is_collection,
{
    let mut v = Vec::new();
    v.push(StarredItem::new("IN/OUT", true));
    v.push(StarredItem::new(name_for(ChipType::Nand), false));
    v
}

/// A closed collection called `name` holding the builtins `types`.
pub fn collection(name: &str, chip_types: &[ChipType]) -> (c: ChipCollection)
    ensures
        c.name@ == name@,
        texts(c.chips@) == chip_types@.map_values(|t: ChipType| chip_type_name(t)),
        !c.is_toggled_open,
{
    let mut chips: Vec<String> = Vec::new();
    let mut i: usize = 0;
    while i < chip_types.len()
        invariant
            i <= chip_types@.len(),
            texts(chips@) =~= chip_types@.subrange(0, i as int).map_values(|t: ChipType| chip_type_name(t)),
        decreases chip_types.len() - i,
    {
        let ghost old_chips = chips@;
        let name = name_for(chip_types[i]).to_string();
        chips.push(name);
        assert(texts(chips@) =~= texts(old_chips).push(chip_type_name(chip_types@[i as int])));
        assert(chip_types@.subrange(0, i + 1).map_values(|t: ChipType| chip_type_name(t)) =~= chip_types@.subrange(
            0,
            i as int,
        ).map_values(|t: ChipType| chip_type_name(t)).push(chip_type_name(chip_types@[i as int])));
        i = i + 1;
    }
    assert(chip_types@.subrange(0, i as int) =~= chip_types@);
    ChipCollection { name: name.to_string(), chips, is_toggled_open: false }
}

/// The names of a new project's default collections and the builtins each
/// holds; the bus termini and the development RAM are only listed when
/// `include_dev` is set.
pub open spec fn default_collection_contents(include_dev: bool) -> Seq<(Seq<char>, Seq<ChipType>)> {
    seq![
        ("BASIC"@, seq![ChipType::Nand, ChipType::Clock, ChipType::Pulse, ChipType::Key, ChipType::KeyMods, ChipType::Buzzer, ChipType::TriStateBuffer]),
        ("IN/OUT"@, seq![ChipType::In1Bit, ChipType::In4Bit, ChipType::In8Bit, ChipType::Out1Bit, ChipType::Out4Bit, ChipType::Out8Bit]),
        ("MERGE/SPLIT"@, seq![ChipType::Merge1To4Bit, ChipType::Merge1To8Bit, ChipType::Merge4To8Bit, ChipType::Split4To1Bit, ChipType::Split8To4Bit, ChipType::Split8To1Bit]),
        ("BUS"@, if include_dev {
            seq![ChipType::Bus1Bit, ChipType::Bus4Bit, ChipType::Bus8Bit, ChipType::BusTerminus1Bit, ChipType::BusTerminus4Bit, ChipType::BusTerminus8Bit]
        } else {
            seq![ChipType::Bus1Bit, ChipType::Bus4Bit, ChipType::Bus8Bit]
        }),
        ("DISPLAY"@, seq![ChipType::SevenSegmentDisplay, ChipType::DisplayDot, ChipType::DisplayRgb, ChipType::DisplayLed]),
        ("MEMORY"@, if include_dev { seq![ChipType::Rom256x16, ChipType::DevRam8Bit] } else { seq![ChipType::Rom256x16] }),
    ]
}

/// The collections a new project's chip library starts with (the
/// development-only builtins included when `include_dev` is set).
pub fn default_chip_collections_for(include_dev: bool) -> (v: Vec<ChipCollection>)
    ensures
        v@.len() == 6,
        forall|k: int| 0 <= k < 6 ==> {
            &&& (#[trigger] v@[k]).name@ == default_collection_contents(include_dev)[k].0
            &&& texts(v@[k].chips@) == default_collection_contents(include_dev)[k].1.map_values(|t: ChipType| chip_type_name(t))
            &&& !v@[k].is_toggled_open
        },
{
    let mut bus: Vec<ChipType> = Vec::new();
    bus.push(ChipType::Bus1Bit);
    bus.push(ChipType::Bus4Bit);
    bus.push(ChipType::Bus8Bit);
    let mut memory: Vec<ChipType> = Vec::new();
    memory.push(ChipType::Rom256x16);
    if include_dev {
        bus.push(ChipType::BusTerminus1Bit);
        bus.push(ChipType::BusTerminus4Bit);
        bus.push(ChipType::BusTerminus8Bit);
        memory.push(ChipType::DevRam8Bit);
    }
    let ghost contents = default_collection_contents(include_dev);
    assert(bus@ =~= contents[3].1);
    assert(memory@ =~= contents[5].1);
    let basic = [ChipType::Nand, ChipType::Clock, ChipType::Pulse, ChipType::Key, ChipType::KeyMods, ChipType::Buzzer, ChipType::TriStateBuffer];
    let in_out = [ChipType::In1Bit, ChipType::In4Bit, ChipType::In8Bit, ChipType::Out1Bit, ChipType::Out4Bit, ChipType::Out8Bit];
    let merge_split = [ChipType::Merge1To4Bit, ChipType::Merge1To8Bit, ChipType::Merge4To8Bit, ChipType::Split4To1Bit, ChipType::Split8To4Bit, ChipType::Split8To1Bit];
    let display = [ChipType::SevenSegmentDisplay, ChipType::DisplayDot, ChipType::DisplayRgb, ChipType::DisplayLed];
    assert(basic@ =~= contents[0].1);
    assert(in_out@ =~= contents[1].1);
    assert(merge_split@ =~= contents[2].1);
    assert(display@ =~= contents[4].1);
    let mut v: Vec<ChipCollection> = Vec::new();
    v.push(collection("BASIC", &basic));
    v.push(collection("IN/OUT", &in_out));
    v.push(collection("MERGE/SPLIT", &merge_split));
    v.push(collection("BUS", bus.as_slice()));
    v.push(collection("DISPLAY", &display));
    v.push(collection("MEMORY", memory.as_slice()));
    v
}

// ---------------------------------------------------------------------------
// Opening and creating projects

/// Whether this build can open a project that declares it needs version
/// `earliest` (its `DLSVersion_EarliestCompatible` text) or later: `Ok` if
/// so; otherwise the reason shown to the player.
pub open spec fn open_verdict(earliest: Seq<char>) -> Result<(), Seq<char>> {
    match parse_version_text(earliest) {
        Some(v) => if version_le(v, current_version()) {
            Ok(())
        } else {
            Err("This project requires version "@ + version_text(v) + " or later."@)
        },
        None => Err("Unrecognized project format"@),
    }
}

/// Whether the running build is new enough to open the project described
/// by `description`; `Err` carries the reason shown to the player.
pub fn can_open_project(description: &ProjectDescription) -> (r: Result<(), String>)
    ensures
        match (r, open_verdict(description.dls_version_earliest_compatible@)) {
            (Ok(()), Ok(())) => true,
            (Err(msg), Err(reason)) => msg@ == reason,
            _ => false,
        },
{
    match Version::parse(description.dls_version_earliest_compatible.as_str()) {
        Ok(earliest_compatible) => {
            if earliest_compatible.is_at_most(&crate::version::dls_version()) {
                Ok(())
            } else {
                let mut msg = String::new();
                msg.append("This project requires version ");
                msg.append(earliest_compatible.to_string().as_str());
                msg.append(" or later.");
                Err(msg)
            }
        },
        Err(_) => Err("Unrecognized project format".to_string()),
    }
}

/// Display mode "on hover" for pin names.
pub open spec fn display_mode_on_hover() -> i32 {
    1
}

/// The description a project called `project_name`, created at
/// `creation_time`, starts with (before it is first saved).
pub open spec fn is_new_project_description(
    d: ProjectDescription,
    project_name: Seq<char>,
    creation_time: Seq<char>,
    include_dev: bool,
) -> bool {
    &&& d.project_name@ == project_name
    &&& d.dls_version_last_saved@ == version_text(current_version())
    &&& d.dls_version_earliest_compatible@ == version_text(earliest_compatible_version())
    &&& d.creation_time@ == creation_time
    &&& d.last_save_time@.len() == 0
    &&& d.prefs_chip_pin_names_display_mode == display_mode_on_hover()
    &&& d.prefs_main_pin_names_display_mode == display_mode_on_hover()
    &&& d.prefs_grid_display_mode == 0
    &&& d.prefs_snapping == 0
    &&& d.prefs_straight_wires == 0
    &&& d.prefs_sim_target_steps_per_second == 1000
    &&& d.prefs_sim_steps_per_clock_tick == 250
    &&& !d.prefs_sim_paused
    &&& d.prefs_use_caching
    &&& d.all_custom_chip_names@.len() == 0
    &&& d.starred_list@.len() == 2
    &&& d.starred_list@[0].name@ == "IN/OUT"@ && d.starred_list@[0].is_collection
    &&& d.starred_list@[1].name@ == chip_type_name(ChipType::Nand) && !d.starred_list@[1].is_collection
    &&& d.chip_collections@.len() == 6
    &&& forall|k: int| 0 <= k < 6 ==> {
        &&& (#[trigger] d.chip_collections@[k]).name@ == default_collection_contents(include_dev)[k].0
        &&& texts(d.chip_collections@[k].chips@) == default_collection_contents(include_dev)[k].1.map_values(|t: ChipType| chip_type_name(t))
        &&& !d.chip_collections@[k].is_toggled_open
    }
}

/// The fresh description of a new project (the computing half of creating
/// a project; the host saves it and sets up its directories).
pub fn new_project_description(project_name: &str, creation_time: String, include_dev: bool) -> (d: ProjectDescription)
    ensures
        is_new_project_description(d, project_name@, creation_time@, include_dev),
{
    ProjectDescription {
        project_name: project_name.to_string(),
        dls_version_last_saved: crate::version::dls_version().to_string(),
        dls_version_earliest_compatible: crate::version::dls_version_earliest_compatible().to_string(),
        creation_time,
        last_save_time: String::new(),
        prefs_chip_pin_names_display_mode: 1,
        prefs_main_pin_names_display_mode: 1,
        prefs_grid_display_mode: 0,
        prefs_snapping: 0,
        prefs_straight_wires: 0,
        prefs_sim_target_steps_per_second: 1000,
        prefs_sim_steps_per_clock_tick: 250,
        prefs_sim_paused: false,
        prefs_use_caching: true,
        all_custom_chip_names: Vec::new(),
        starred_list: default_starred_list(),
        chip_collections: default_chip_collections_for(include_dev),
    }
}

/// Stamps the save time and the current version onto a description about
/// to be written (the earliest compatible version is left as it was).
pub fn stamp_for_save(description: &mut ProjectDescription, now: String)
    ensures
        *final(description) == (ProjectDescription {
            last_save_time: final(description).last_save_time,
            dls_version_last_saved: final(description).dls_version_last_saved,
            ..*old(description)
        }),
        final(description).last_save_time == now,
        final(description).dls_version_last_saved@ == version_text(current_version()),
{
    description.last_save_time = now;
    description.dls_version_last_saved = crate::version::dls_version().to_string();
}

/// Renames the description to the directory it was loaded from (operations
/// like deleting and renaming projects rely on the two matching).
pub fn with_directory_name(description: &mut ProjectDescription, project_name: &str)
    ensures
        *final(description) == (ProjectDescription { project_name: final(description).project_name, ..*old(description) }),
        final(description).project_name@ == project_name@,
{
    description.project_name = project_name.to_string();
}

// ---------------------------------------------------------------------------
// The project list

/// Sort key of a description: its save time in unix seconds, oldest for
/// unreadable stamps.
pub open spec fn save_key(d: ProjectDescription) -> int {
    match stamp_seconds(d.last_save_time@) {
        Some(v) => v,
        None => i64::MIN as int,
    }
}

/// Newest first: save keys never increase along `s`.
pub open spec fn newest_first(s: Seq<ProjectDescription>) -> bool {
    forall|i: int, j: int| 0 <= i < j < s.len() ==> save_key(#[trigger] s[i]) >= save_key(#[trigger] s[j])
}

/// Inserting `d` right after every entry at least as new keeps a list
/// newest first.
proof fn lemma_insert_newest_first(before: Seq<ProjectDescription>, pos: int, d: ProjectDescription)
    requires
        newest_first(before),
        0 <= pos <= before.len(),
        forall|k: int| 0 <= k < pos ==> save_key(#[trigger] before[k]) >= save_key(d),
        forall|k: int| pos <= k < before.len() ==> save_key(#[trigger] before[k]) < save_key(d),
    ensures
        newest_first(before.insert(pos, d)),
{
    let after = before.insert(pos, d);
    assert forall|i: int, j: int| 0 <= i < j < after.len() implies save_key(#[trigger] after[i]) >= save_key(#[trigger] after[j]) by {
        if i < pos && j < pos {
            assert(after[i] == before[i] && after[j] == before[j]);
        } else if i < pos && j == pos {
            assert(after[i] == before[i]);
        } else if i < pos && j > pos {
            assert(after[i] == before[i] && after[j] == before[j - 1]);
        } else if i == pos {
            assert(after[j] == before[j - 1]);
        } else {
            assert(after[i] == before[i - 1] && after[j] == before[j - 1]);
        }
    }
}

/// Moving the first element of `rest` into `sorted` keeps their combined
/// contents.
proof fn lemma_move_element(
    sorted: Seq<ProjectDescription>,
    rest: Seq<ProjectDescription>,
    pos: int,
)
    requires
        rest.len() > 0,
        0 <= pos <= sorted.len(),
    ensures
        sorted.insert(pos, rest[0]).to_multiset().add(rest.remove(0).to_multiset()) == sorted.to_multiset().add(
            rest.to_multiset(),
        ),
{
    broadcast use vstd::seq_lib::group_to_multiset_ensures;
    broadcast use vstd::multiset::group_multiset_axioms;

    assert(rest.remove(0).to_multiset() == rest.to_multiset().remove(rest[0]));
    assert(sorted.insert(pos, rest[0]).to_multiset() == sorted.to_multiset().insert(rest[0]));
    assert(rest.to_multiset().contains(rest[0]));
    assert(sorted.insert(pos, rest[0]).to_multiset().add(rest.remove(0).to_multiset()) =~= sorted.to_multiset().add(
        rest.to_multiset(),
    ));
}

/// The order facts kept while sorting: `sorted` holds `input[perm[k]]` at
/// `k`, `perm` takes distinct values below `sorted.len()`, and equally new
/// descriptions appear in input order.
pub open spec fn sorted_prefix_order(input: Seq<ProjectDescription>, sorted: Seq<ProjectDescription>, perm: Seq<int>) -> bool {
    &&& perm.len() == sorted.len()
    &&& perm.no_duplicates()
    &&& forall|k: int| 0 <= k < perm.len() ==> 0 <= #[trigger] perm[k] < sorted.len() && sorted[k] == input[perm[k]]
    &&& forall|a: int, b: int| 0 <= a < b < sorted.len() && save_key(#[trigger] sorted[a]) == save_key(#[trigger] sorted[b])
        ==> perm[a] < perm[b]
}

/// Inserting the next input description `d` after every entry at least as
/// new keeps the order facts.
proof fn lemma_insert_keeps_stable_order(
    input: Seq<ProjectDescription>,
    before: Seq<ProjectDescription>,
    perm: Seq<int>,
    pos: int,
    d: ProjectDescription,
)
    requires
        sorted_prefix_order(input, before, perm),
        before.len() < input.len(),
        d == input[before.len() as int],
        0 <= pos <= before.len(),
        forall|k: int| pos <= k < before.len() ==> save_key(#[trigger] before[k]) < save_key(d),
    ensures
        sorted_prefix_order(input, before.insert(pos, d), perm.insert(pos, before.len() as int)),
{
    let p = before.len() as int;
    let sorted = before.insert(pos, d);
    let np = perm.insert(pos, p);
    assert forall|k: int| 0 <= k < np.len() implies 0 <= #[trigger] np[k] < sorted.len() && sorted[k] == input[np[k]] by {
        if k < pos {
            assert(np[k] == perm[k] && sorted[k] == before[k]);
        } else if k > pos {
            assert(np[k] == perm[k - 1] && sorted[k] == before[k - 1]);
        }
    }
    assert forall|a: int, b: int| 0 <= a < b < np.len() implies np[a] != np[b] by {
        if a != pos && b != pos {
            let a0 = if a < pos { a } else { a - 1 };
            let b0 = if b < pos { b } else { b - 1 };
            assert(np[a] == perm[a0] && np[b] == perm[b0]);
        } else if a == pos {
            assert(np[b] == perm[b - 1]);
        } else {
            assert(np[a] == perm[a]);
        }
    }
    assert forall|a: int, b: int| 0 <= a < b < sorted.len() && save_key(#[trigger] sorted[a]) == save_key(#[trigger] sorted[b])
        implies np[a] < np[b] by {
        if a != pos && b != pos {
            let a0 = if a < pos { a } else { a - 1 };
            let b0 = if b < pos { b } else { b - 1 };
            assert(np[a] == perm[a0] && np[b] == perm[b0]);
            assert(sorted[a] == before[a0] && sorted[b] == before[b0]);
        } else if a == pos {
            assert(sorted[b] == before[b - 1]);
        } else {
            assert(np[a] == perm[a]);
        }
    }
}

/// `output` is `input` reordered by `perm` (`output[k]` is `input[perm[k]]`),
/// newest first, with descriptions saved at the same instant in their
/// input order.
pub open spec fn stably_newest_first(input: Seq<ProjectDescription>, output: Seq<ProjectDescription>, perm: Seq<int>) -> bool {
    &&& perm.len() == input.len() == output.len()
    &&& perm.no_duplicates()
    &&& forall|k: int| 0 <= k < perm.len() ==> 0 <= #[trigger] perm[k] < input.len() && output[k] == input[perm[k]]
    &&& newest_first(output)
    &&& forall|a: int, b: int| 0 <= a < b < output.len() && save_key(#[trigger] output[a]) == save_key(#[trigger] output[b])
        ==> perm[a] < perm[b]
}

/// Orders project descriptions newest `LastSaveTime` first (comparing the
/// instants the stamps denote, so stamps with different UTC offsets order
/// correctly); descriptions saved at the same instant keep their order.
#[verifier::loop_isolation(false)]
pub fn sort_newest_first(descriptions: Vec<ProjectDescription>) -> (r: Vec<ProjectDescription>)
    ensures
        r@.to_multiset() == descriptions@.to_multiset(),
        newest_first(r@),
        exists|perm: Seq<int>| #[trigger] stably_newest_first(descriptions@, r@, perm),
{
    let ghost input = descriptions@;
    let ghost mut perm: Seq<int> = seq![];
    let mut sorted: Vec<ProjectDescription> = Vec::new();
    let mut keys: Vec<i64> = Vec::new();
    let mut rest = descriptions;
    proof {
        broadcast use vstd::multiset::group_multiset_axioms;
        vstd::seq_lib::to_multiset_len(sorted@);
        vstd::multiset::lemma_multiset_empty_len(sorted@.to_multiset());
        assert(sorted@.to_multiset().add(rest@.to_multiset()) =~= rest@.to_multiset());
    }
    while rest.len() > 0
        invariant
            sorted@.len() == keys@.len(),
            forall|k: int| 0 <= k < keys@.len() ==> keys@[k] == save_key(#[trigger] sorted@[k]),
            newest_first(sorted@),
            sorted@.to_multiset().add(rest@.to_multiset()) == descriptions@.to_multiset(),
            input == descriptions@,
            sorted@.len() + rest@.len() == input.len(),
            rest@ == input.subrange(sorted@.len() as int, input.len() as int),
            sorted_prefix_order(input, sorted@, perm),
        decreases rest.len(),
    {
        let ghost old_rest = rest@;
        let ghost before = sorted@;
        let d = rest.remove(0);
        let key = parse_to_unix_seconds(d.last_save_time.as_str());
        let mut pos: usize = 0;
        while pos < keys.len() && keys[pos] >= key
            invariant
                pos <= keys@.len() == sorted@.len(),
                sorted@ == before,
                forall|k: int| 0 <= k < pos ==> keys@[k] >= key,
            decreases keys.len() - pos,
        {
            pos = pos + 1;
        }
        proof {
            assert forall|k: int| 0 <= k < pos implies save_key(#[trigger] before[k]) >= save_key(d) by {
                assert(keys@[k] == save_key(before[k]));
            }
            assert forall|k: int| pos <= k < before.len() implies save_key(#[trigger] before[k]) < save_key(d) by {
                assert(keys@[pos as int] == save_key(before[pos as int]));
                if k > pos {
                    assert(save_key(before[pos as int]) >= save_key(before[k]));
                }
            }
            lemma_insert_newest_first(before, pos as int, d);
            lemma_move_element(before, old_rest, pos as int);
        }
        let ghost old_keys = keys@;
        let ghost p = before.len() as int;
        let ghost old_perm = perm;
        assert(d == input[p]);
        proof {
            perm = perm.insert(pos as int, p);
        }
        sorted.insert(pos, d);
        assert(sorted@ == before.insert(pos as int, d));
        keys.insert(pos, key);
        proof {
            lemma_insert_keeps_stable_order(input, before, old_perm, pos as int, d);
        }
        assert(rest@ =~= input.subrange(sorted@.len() as int, input.len() as int));
        assert forall|k: int| 0 <= k < keys@.len() implies keys@[k] == save_key(#[trigger] sorted@[k]) by {
            if k < pos {
                assert(keys@[k] == old_keys[k] && sorted@[k] == before[k]);
            } else if k > pos {
                assert(keys@[k] == old_keys[k - 1] && sorted@[k] == before[k - 1]);
            }
        }
    }
    proof {
        broadcast use vstd::multiset::group_multiset_axioms;
        vstd::seq_lib::to_multiset_len(rest@);
        vstd::multiset::lemma_multiset_empty_len(rest@.to_multiset());
        assert(sorted@.to_multiset().add(rest@.to_multiset()) =~= sorted@.to_multiset());
        assert(stably_newest_first(descriptions@, sorted@, perm));
    }
    sorted
}

} // verus!
