//! What the editor's overlays show and offer: the chip library's three
//! panels, the preferences panel, the naming, key-select, ROM and
//! save-chip popups, and the starred bottom bar with its flyout. Each
//! function decides one overlay's captions and buttons (caption, action,
//! whether it can be clicked), in drawing order; where they go on screen,
//! and in which colours, is the host's part.
use vstd::prelude::*;
use crate::project::{texts, ChipCollection, ProjectDescription, StarredItem};
use crate::text::{decimal, eq_ignore_ascii_case, hexadecimal, is_blank, push_decimal, push_hexadecimal, same_text, trimmed};
use crate::ui::{is_starred, matching_chip_names, search_results, starred_in};
use crate::displays::DisplayListEntry;

verus! {

/// Something a click on an editor overlay asks the host to do.
#[derive(Debug, Clone, PartialEq, Eq)]
pub enum EditorAction {
    ClosePopup,
    /// Preferences: advance row `.0` to its next option, wrapping.
    CyclePref(usize),
    ApplyPreferences,
    /// Chip library: select a collection's header (and toggle it open).
    SelectCollection(usize),
    /// Chip library: select a chip row inside an open collection.
    SelectChipRow { collection: usize, chip: usize },
    /// Chip library: select a row of the starred list.
    SelectStarredRow(usize),
    /// Star or unstar the named chip or collection.
    ToggleStarred { name: String, is_collection: bool },
    /// Move the selection one step down (`true`) or up within its list.
    MoveSelectedStep(bool),
    /// Move the selected chip to the next (`true`) or previous collection.
    MoveSelectedJump(bool),
    /// Open the named chip for editing.
    OpenSelectedChip(String),
    /// Ask to delete the named chip (opens the confirmation).
    RequestDeleteChip(String),
    BeginNewCollection,
    BeginRenameCollection,
    RequestDeleteCollection,
    /// Commit the text typed into the new/rename-collection field.
    ConfirmCollectionName,
    /// Close the library's inline popup without leaving the library.
    CancelLibraryPopup,
    ConfirmDelete,
    ExitLibrary,
    /// Bottom bar: open (or close) the flyout of the named collection.
    ToggleStarredCollectionPopup(String),
    CloseStarredCollectionPopup,
    /// Search popup: place the named chip.
    UseChip(String),
    ConfirmName,
    /// Key select: choose this key.
    ChooseKey(char),
    ConfirmKey,
    /// ROM editor: select cell `.0` for editing.
    RomSelectCell(usize),
    /// ROM editor: commit the typed value into the selected cell.
    RomConfirmCell,
    /// ROM editor: write the edited contents back and close.
    RomApply,
    SaveChipConfirm,
    SaveChipSaveAs,
    SaveChipRename,
    /// Chip customizer: drop the changes and leave.
    CustomizeCancel,
    /// Chip customizer: keep the changes and leave.
    CustomizeConfirm,
    /// Chip customizer: move the chip's name to its next position.
    CustomizeCycleNameLocation,
    /// Chip customizer: switch forced caching of the chip on or off.
    CustomizeToggleForceCache,
    /// Chip customizer: colour the body with palette colour `.0`.
    CustomizePickColour(usize),
    /// Chip customizer: pick up the display of row `.0` of the DISPLAYS
    /// list for placing, or remove it when it is already placed.
    CustomizePlaceEntry(usize),
}

/// Which row of the chip library is selected, if any.
#[derive(Debug, Clone, Copy, PartialEq, Eq, Structural, Default)]
pub enum LibrarySelection {
    #[default]
    NoSelection,
    /// The header of collection `.0`.
    Collection(usize),
    /// Chip `.1` of collection `.0`.
    Chip(usize, usize),
    /// Row `.0` of the starred list.
    Starred(usize),
}

/// What the chip library's panels are drawn from.
pub struct ChipLibraryState<'a> {
    pub collections: &'a [ChipCollection],
    pub starred_list: &'a [StarredItem],
    pub selection: LibrarySelection,
    /// Whether the selected chip is one the player made (not a builtin):
    /// only those can be opened or deleted.
    pub selected_chip_is_custom: bool,
    pub creating_collection: bool,
    pub renaming_collection: bool,
    /// The text typed so far into the new/rename-collection field.
    pub name_field_text: &'a str,
    pub confirming_chip_delete: bool,
    pub confirming_collection_delete: bool,
    /// Shown above the buttons that confirm a deletion.
    pub delete_confirm_message: &'a str,
}

/// A button as the host draws it: its caption, what a click asks for, and
/// whether it can be clicked.
pub type ButtonView = (Seq<char>, EditorAction, bool);

/// One button of an overlay.
#[derive(Debug, Clone, PartialEq, Eq)]
pub struct PanelButton {
    pub label: String,
    pub action: EditorAction,
    pub enabled: bool,
}

impl View for PanelButton {
    type V = ButtonView;

    open spec fn view(&self) -> ButtonView {
        (self.label@, self.action, self.enabled)
    }
}

/// The captions, buttons and text field of one overlay.
#[derive(Debug, Clone, PartialEq, Eq)]
pub struct OverlayContent {
    /// Texts drawn as they are, in drawing order.
    pub captions: Vec<String>,
    pub buttons: Vec<PanelButton>,
    /// Whether the overlay has a text field (showing what is being typed).
    pub text_field: bool,
}

/// `buttons` as the host draws them.
pub open spec fn button_views(buttons: Seq<PanelButton>) -> Seq<ButtonView> {
    buttons.map_values(|b: PanelButton| b@)
}

impl View for OverlayContent {
    type V = (Seq<Seq<char>>, Seq<ButtonView>, bool);

    open spec fn view(&self) -> (Seq<Seq<char>>, Seq<ButtonView>, bool) {
        (texts(self.captions@), button_views(self.buttons@), self.text_field)
    }
}

proof fn lemma_button_views_push(buttons: Seq<PanelButton>, b: PanelButton)
    ensures
        button_views(buttons.push(b)) == button_views(buttons).push(b@),
{
    assert(button_views(buttons.push(b)) =~= button_views(buttons).push(b@));
}

proof fn lemma_texts_push(v: Seq<String>, s: String)
    ensures
        texts(v.push(s)) == texts(v).push(s@),
{
    assert(texts(v.push(s)) =~= texts(v).push(s@));
}

/// Appends a button captioned `label`.
fn push_button(buttons: &mut Vec<PanelButton>, label: &str, action: EditorAction, enabled: bool)
    ensures
        button_views(final(buttons)@) == button_views(old(buttons)@).push((label@, action, enabled)),
{
    let b = PanelButton { label: label.to_string(), action, enabled };
    proof {
        lemma_button_views_push(buttons@, b);
    }
    buttons.push(b);
}

/// Appends the caption `text`.
fn push_caption(captions: &mut Vec<String>, text: &str)
    ensures
        texts(final(captions)@) == texts(old(captions)@).push(text@),
{
    let s = text.to_string();
    proof {
        lemma_texts_push(captions@, s);
    }
    captions.push(s);
}

// ---------------------------------------------------------------------
// Chip library: the detail panel
// ---------------------------------------------------------------------

/// The caption of the star button: what a click on it does.
pub open spec fn star_caption(starred: bool) -> Seq<char> {
    if starred {
        "REMOVE FROM STARRED"@
    } else {
        "ADD TO STARRED"@
    }
}

/// A deletion is waiting for confirmation.
pub open spec fn confirming_delete(s: ChipLibraryState) -> bool {
    s.confirming_chip_delete || s.confirming_collection_delete
}

/// The selection names a row that exists (no selection counts as such).
pub open spec fn selection_resolves(s: ChipLibraryState) -> bool {
    match s.selection {
        LibrarySelection::NoSelection => true,
        LibrarySelection::Collection(ci) => ci < s.collections@.len(),
        LibrarySelection::Chip(ci, chi) => ci < s.collections@.len() && chi < s.collections@[ci as int].chips@.len(),
        LibrarySelection::Starred(i) => i < s.starred_list@.len(),
    }
}

/// The titles shown for the selected row.
pub open spec fn selection_captions(s: ChipLibraryState) -> Seq<Seq<char>> {
    match s.selection {
        LibrarySelection::NoSelection => seq![],
        LibrarySelection::Collection(ci) => seq![s.collections@[ci as int].name@],
        LibrarySelection::Chip(ci, chi) => seq![
            s.collections@[ci as int].name@,
            s.collections@[ci as int].chips@[chi as int]@,
        ],
        LibrarySelection::Starred(i) => seq![s.starred_list@[i as int].name@],
    }
}

/// The buttons offered for the selected row.
pub open spec fn selection_buttons(s: ChipLibraryState) -> Seq<ButtonView> {
    let cols = s.collections@;
    match s.selection {
        LibrarySelection::NoSelection => seq![],
        LibrarySelection::Collection(ci) => {
            let name = cols[ci as int].name;
            let can_edit = !eq_ignore_ascii_case(name@, "OTHER"@);
            seq![
                (star_caption(starred_in(s.starred_list@, name@, true)), EditorAction::ToggleStarred { name, is_collection: true }, true),
                ("MOVE UP"@, EditorAction::MoveSelectedStep(false), ci > 0),
                ("MOVE DOWN"@, EditorAction::MoveSelectedStep(true), ci < cols.len() - 1),
                ("RENAME"@, EditorAction::BeginRenameCollection, can_edit),
                ("DELETE"@, EditorAction::RequestDeleteCollection, can_edit),
            ]
        },
        LibrarySelection::Chip(ci, chi) => {
            let name = cols[ci as int].chips@[chi as int];
            let custom = s.selected_chip_is_custom;
            seq![
                (star_caption(starred_in(s.starred_list@, name@, false)), EditorAction::ToggleStarred { name, is_collection: false }, true),
                ("MOVE UP"@, EditorAction::MoveSelectedStep(false), chi > 0 || ci > 0),
                ("MOVE DOWN"@, EditorAction::MoveSelectedStep(true), chi < cols[ci as int].chips@.len() - 1 || ci < cols.len() - 1),
                ("JUMP UP"@, EditorAction::MoveSelectedJump(false), ci > 0),
                ("JUMP DOWN"@, EditorAction::MoveSelectedJump(true), ci < cols.len() - 1),
                ("OPEN"@, EditorAction::OpenSelectedChip(name), custom),
                ("DELETE"@, EditorAction::RequestDeleteChip(name), custom),
            ]
        },
        LibrarySelection::Starred(i) => {
            let item = s.starred_list@[i as int];
            let common = seq![
                ("REMOVE FROM STARRED"@, EditorAction::ToggleStarred { name: item.name, is_collection: item.is_collection }, true),
                ("MOVE UP"@, EditorAction::MoveSelectedStep(false), i > 0),
                ("MOVE DOWN"@, EditorAction::MoveSelectedStep(true), i < s.starred_list@.len() - 1),
            ];
            if item.is_collection {
                common
            } else {
                common + seq![
                    ("OPEN"@, EditorAction::OpenSelectedChip(item.name), s.selected_chip_is_custom),
                    ("DELETE"@, EditorAction::RequestDeleteChip(item.name), s.selected_chip_is_custom),
                ]
            }
        },
    }
}

/// Whether the collection-name field is open (creating or renaming).
pub open spec fn naming_collection(s: ChipLibraryState) -> bool {
    s.creating_collection || s.renaming_collection
}

/// The buttons at the foot of the panel.
pub open spec fn footer_buttons(s: ChipLibraryState) -> Seq<ButtonView> {
    if naming_collection(s) {
        seq![
            ("CANCEL"@, EditorAction::CancelLibraryPopup, true),
            (
                if s.renaming_collection { "RENAME"@ } else { "CREATE"@ },
                EditorAction::ConfirmCollectionName,
                trimmed(s.name_field_text@).len() > 0,
            ),
        ]
    } else {
        seq![
            ("NEW COLLECTION"@, EditorAction::BeginNewCollection, true),
            ("EXIT LIBRARY"@, EditorAction::ExitLibrary, true),
        ]
    }
}

/// The library's detail panel: while a deletion waits for confirmation,
/// its message and CANCEL/DELETE; otherwise the selected row's titles and
/// buttons, then the footer (the collection-name field with CANCEL and
/// CREATE/RENAME, or NEW COLLECTION and EXIT LIBRARY). A selection that
/// names no existing row shows nothing at all.
pub open spec fn detail_panel_view(s: ChipLibraryState) -> (Seq<Seq<char>>, Seq<ButtonView>, bool) {
    if confirming_delete(s) {
        (
            seq![s.delete_confirm_message@],
            seq![("CANCEL"@, EditorAction::CancelLibraryPopup, true), ("DELETE"@, EditorAction::ConfirmDelete, true)],
            false,
        )
    } else if !selection_resolves(s) {
        (seq![], seq![], false)
    } else {
        (selection_captions(s), selection_buttons(s) + footer_buttons(s), naming_collection(s))
    }
}

fn star_label(starred: bool) -> (l: &'static str)
    ensures
        l@ == star_caption(starred),
{
    if starred {
        "REMOVE FROM STARRED"
    } else {
        "ADD TO STARRED"
    }
}

/// Whether the selection names an existing row.
fn selection_exists(state: &ChipLibraryState) -> (b: bool)
    ensures
        b == selection_resolves(*state),
{
    match state.selection {
        LibrarySelection::NoSelection => true,
        LibrarySelection::Collection(ci) => ci < state.collections.len(),
        LibrarySelection::Chip(ci, chi) => ci < state.collections.len() && chi < state.collections[ci].chips.len(),
        LibrarySelection::Starred(i) => i < state.starred_list.len(),
    }
}

fn collection_entries(state: &ChipLibraryState, ci: usize) -> (r: (Vec<String>, Vec<PanelButton>))
    requires
        state.selection == LibrarySelection::Collection(ci),
        ci < state.collections@.len(),
    ensures
        texts(r.0@) == selection_captions(*state),
        button_views(r.1@) == selection_buttons(*state),
{
    let mut captions: Vec<String> = Vec::new();
    let mut buttons: Vec<PanelButton> = Vec::new();
    let cols = state.collections;
    let collection = &cols[ci];
    push_caption(&mut captions, collection.name.as_str());
    let starred = is_starred(state.starred_list, collection.name.as_str(), true);
    push_button(
        &mut buttons,
        star_label(starred),
        EditorAction::ToggleStarred { name: collection.name.clone(), is_collection: true },
        true,
    );
    push_button(&mut buttons, "MOVE UP", EditorAction::MoveSelectedStep(false), ci > 0);
    push_button(&mut buttons, "MOVE DOWN", EditorAction::MoveSelectedStep(true), ci < cols.len() - 1);
    let can_edit = !crate::description::eq_ignore_case(collection.name.as_str(), "OTHER");
    push_button(&mut buttons, "RENAME", EditorAction::BeginRenameCollection, can_edit);
    push_button(&mut buttons, "DELETE", EditorAction::RequestDeleteCollection, can_edit);
    (captions, buttons)
}

fn chip_entries(state: &ChipLibraryState, ci: usize, chi: usize) -> (r: (Vec<String>, Vec<PanelButton>))
    requires
        state.selection == LibrarySelection::Chip(ci, chi),
        ci < state.collections@.len(),
        chi < state.collections@[ci as int].chips@.len(),
    ensures
        texts(r.0@) == selection_captions(*state),
        button_views(r.1@) == selection_buttons(*state),
{
    let mut captions: Vec<String> = Vec::new();
    let mut buttons: Vec<PanelButton> = Vec::new();
    let cols = state.collections;
    let collection = &cols[ci];
    let chip_name = &collection.chips[chi];
    push_caption(&mut captions, collection.name.as_str());
    push_caption(&mut captions, chip_name.as_str());
    let starred = is_starred(state.starred_list, chip_name.as_str(), false);
    push_button(
        &mut buttons,
        star_label(starred),
        EditorAction::ToggleStarred { name: chip_name.clone(), is_collection: false },
        true,
    );
    let can_step_up = chi > 0;
    let can_step_down = chi < collection.chips.len() - 1;
    let can_jump_up = ci > 0;
    let can_jump_down = ci < cols.len() - 1;
    push_button(&mut buttons, "MOVE UP", EditorAction::MoveSelectedStep(false), can_step_up || can_jump_up);
    push_button(&mut buttons, "MOVE DOWN", EditorAction::MoveSelectedStep(true), can_step_down || can_jump_down);
    push_button(&mut buttons, "JUMP UP", EditorAction::MoveSelectedJump(false), can_jump_up);
    push_button(&mut buttons, "JUMP DOWN", EditorAction::MoveSelectedJump(true), can_jump_down);
    let custom = state.selected_chip_is_custom;
    push_button(&mut buttons, "OPEN", EditorAction::OpenSelectedChip(chip_name.clone()), custom);
    push_button(&mut buttons, "DELETE", EditorAction::RequestDeleteChip(chip_name.clone()), custom);
    (captions, buttons)
}

fn starred_entries(state: &ChipLibraryState, i: usize) -> (r: (Vec<String>, Vec<PanelButton>))
    requires
        state.selection == LibrarySelection::Starred(i),
        i < state.starred_list@.len(),
    ensures
        texts(r.0@) == selection_captions(*state),
        button_views(r.1@) == selection_buttons(*state),
{
    let mut captions: Vec<String> = Vec::new();
    let mut buttons: Vec<PanelButton> = Vec::new();
    let item = &state.starred_list[i];
    push_caption(&mut captions, item.name.as_str());
    push_button(
        &mut buttons,
        "REMOVE FROM STARRED",
        EditorAction::ToggleStarred { name: item.name.clone(), is_collection: item.is_collection },
        true,
    );
    push_button(&mut buttons, "MOVE UP", EditorAction::MoveSelectedStep(false), i > 0);
    push_button(&mut buttons, "MOVE DOWN", EditorAction::MoveSelectedStep(true), i < state.starred_list.len() - 1);
    let ghost common = button_views(buttons@);
    if !item.is_collection {
        let custom = state.selected_chip_is_custom;
        push_button(&mut buttons, "OPEN", EditorAction::OpenSelectedChip(item.name.clone()), custom);
        push_button(&mut buttons, "DELETE", EditorAction::RequestDeleteChip(item.name.clone()), custom);
        assert(button_views(buttons@) =~= common + seq![
            ("OPEN"@, EditorAction::OpenSelectedChip(item.name), custom),
            ("DELETE"@, EditorAction::RequestDeleteChip(item.name), custom),
        ]);
    }
    (captions, buttons)
}

/// Appends the footer's buttons.
fn push_footer(state: &ChipLibraryState, buttons: &mut Vec<PanelButton>)
    ensures
        button_views(final(buttons)@) == button_views(old(buttons)@) + footer_buttons(*state),
{
    let ghost before = button_views(buttons@);
    if state.creating_collection || state.renaming_collection {
        push_button(buttons, "CANCEL", EditorAction::CancelLibraryPopup, true);
        let confirm = if state.renaming_collection { "RENAME" } else { "CREATE" };
        push_button(buttons, confirm, EditorAction::ConfirmCollectionName, !is_blank(state.name_field_text));
    } else {
        push_button(buttons, "NEW COLLECTION", EditorAction::BeginNewCollection, true);
        push_button(buttons, "EXIT LIBRARY", EditorAction::ExitLibrary, true);
    }
    assert(button_views(buttons@) =~= before + footer_buttons(*state));
}

/// What the detail panel of the chip library shows and offers.
pub fn build_detail_panel(state: &ChipLibraryState) -> (r: OverlayContent)
    ensures
        r@ == detail_panel_view(*state),
{
    if state.confirming_chip_delete || state.confirming_collection_delete {
        let mut captions: Vec<String> = Vec::new();
        let mut buttons: Vec<PanelButton> = Vec::new();
        push_caption(&mut captions, state.delete_confirm_message);
        push_button(&mut buttons, "CANCEL", EditorAction::CancelLibraryPopup, true);
        push_button(&mut buttons, "DELETE", EditorAction::ConfirmDelete, true);
        return OverlayContent { captions, buttons, text_field: false };
    }
    if !selection_exists(state) {
        proof {
            assert(texts(Seq::<String>::empty()) =~= Seq::<Seq<char>>::empty());
            assert(button_views(Seq::<PanelButton>::empty()) =~= Seq::<ButtonView>::empty());
        }
        return OverlayContent { captions: Vec::new(), buttons: Vec::new(), text_field: false };
    }
    let (captions, mut buttons) = match state.selection {
        LibrarySelection::NoSelection => {
            proof {
                assert(texts(Seq::<String>::empty()) =~= Seq::<Seq<char>>::empty());
                assert(button_views(Seq::<PanelButton>::empty()) =~= Seq::<ButtonView>::empty());
            }
            (Vec::new(), Vec::new())
        },
        LibrarySelection::Collection(ci) => collection_entries(state, ci),
        LibrarySelection::Chip(ci, chi) => chip_entries(state, ci, chi),
        LibrarySelection::Starred(i) => starred_entries(state, i),
    };
    push_footer(state, &mut buttons);
    OverlayContent { captions, buttons, text_field: state.creating_collection || state.renaming_collection }
}

// ---------------------------------------------------------------------
// Chip library: the starred and collection lists
// ---------------------------------------------------------------------

/// A row as the host draws it: its caption, what clicking it does, and
/// whether it is the selected row.
pub type RowView = (Seq<char>, EditorAction, bool);

/// One row of the chip library's starred or collections list.
#[derive(Debug, Clone, PartialEq, Eq)]
pub struct LibraryRow {
    pub label: String,
    pub action: EditorAction,
    pub selected: bool,
}

impl View for LibraryRow {
    type V = RowView;

    open spec fn view(&self) -> RowView {
        (self.label@, self.action, self.selected)
    }
}

/// `rows` as the host draws them.
pub open spec fn row_views(rows: Seq<LibraryRow>) -> Seq<RowView> {
    rows.map_values(|r: LibraryRow| r@)
}

proof fn lemma_row_views_push(rows: Seq<LibraryRow>, r: LibraryRow)
    ensures
        row_views(rows.push(r)) == row_views(rows).push(r@),
{
    assert(row_views(rows.push(r)) =~= row_views(rows).push(r@));
}

/// Row `i` of the starred list: a collection's name is shown in square
/// brackets.
pub open spec fn starred_row(list: Seq<StarredItem>, selection: LibrarySelection, i: int) -> RowView {
    (
        if list[i].is_collection { seq!['['] + list[i].name@ + seq![']'] } else { list[i].name@ },
        EditorAction::SelectStarredRow(i as usize),
        selection == LibrarySelection::Starred(i as usize),
    )
}

/// The rows of the starred list, one per starred item in order.
pub open spec fn starred_rows_view(list: Seq<StarredItem>, selection: LibrarySelection) -> Seq<RowView> {
    Seq::new(list.len(), |i: int| starred_row(list, selection, i))
}

/// The rows of the chip library's starred list (all of them; how many fit
/// is the host's concern).
pub fn build_starred_panel(state: &ChipLibraryState) -> (r: Vec<LibraryRow>)
    ensures
        row_views(r@) == starred_rows_view(state.starred_list@, state.selection),
{
    let list = state.starred_list;
    let mut rows: Vec<LibraryRow> = Vec::new();
    let mut i: usize = 0;
    while i < list.len()
        invariant
            i <= list@.len(),
            row_views(rows@) == Seq::new(i as nat, |k: int| starred_row(list@, state.selection, k)),
        decreases list.len() - i,
    {
        let item = &list[i];
        let label = if item.is_collection {
            let mut l = "[".to_string();
            l.append(item.name.as_str());
            l.append("]");
            l
        } else {
            item.name.clone()
        };
        proof {
            reveal_strlit("[");
            reveal_strlit("]");
            assert("["@ =~= seq!['[']);
            assert("]"@ =~= seq![']']);
        }
        let row = LibraryRow { label, action: EditorAction::SelectStarredRow(i), selected: state.selection == LibrarySelection::Starred(i) };
        assert(row@ == starred_row(list@, state.selection, i as int));
        proof {
            lemma_row_views_push(rows@, row);
        }
        rows.push(row);
        assert(row_views(rows@) =~= Seq::new((i + 1) as nat, |k: int| starred_row(list@, state.selection, k)));
        i = i + 1;
    }
    rows
}

/// The header row of collection `ci`: an arrow showing whether it is open
/// (`v`) or closed (`>`), then its name.
pub open spec fn header_row(c: ChipCollection, ci: int, selection: LibrarySelection) -> RowView {
    (
        (if c.is_toggled_open { "v "@ } else { "> "@ }) + c.name@,
        EditorAction::SelectCollection(ci as usize),
        selection == LibrarySelection::Collection(ci as usize),
    )
}

/// Row `k` among the chips of collection `ci`.
pub open spec fn chip_row(c: ChipCollection, ci: int, k: int, selection: LibrarySelection) -> RowView {
    (
        c.chips@[k]@,
        EditorAction::SelectChipRow { collection: ci as usize, chip: k as usize },
        selection == LibrarySelection::Chip(ci as usize, k as usize),
    )
}

/// The chip rows of collection `ci`: one per chip when it is open, none
/// when it is closed.
pub open spec fn chip_rows(c: ChipCollection, ci: int, selection: LibrarySelection) -> Seq<RowView> {
    if c.is_toggled_open {
        Seq::new(c.chips@.len(), |k: int| chip_row(c, ci, k, selection))
    } else {
        seq![]
    }
}

/// The rows of the collections list: each collection's header, followed by
/// its chips when it is open.
pub open spec fn collection_rows_view(cols: Seq<ChipCollection>, selection: LibrarySelection) -> Seq<RowView>
    decreases cols.len(),
{
    if cols.len() == 0 {
        seq![]
    } else {
        let ci = cols.len() - 1;
        collection_rows_view(cols.drop_last(), selection) + seq![header_row(cols.last(), ci, selection)]
            + chip_rows(cols.last(), ci, selection)
    }
}

/// The rows of the chip library's collections list (all of them; how many
/// fit is the host's concern).
pub fn build_collections_panel(state: &ChipLibraryState) -> (r: Vec<LibraryRow>)
    ensures
        row_views(r@) == collection_rows_view(state.collections@, state.selection),
{
    let cols = state.collections;
    let sel = state.selection;
    let mut rows: Vec<LibraryRow> = Vec::new();
    let mut ci: usize = 0;
    while ci < cols.len()
        invariant
            ci <= cols@.len(),
            sel == state.selection,
            row_views(rows@) == collection_rows_view(cols@.subrange(0, ci as int), sel),
        decreases cols.len() - ci,
    {
        let c = &cols[ci];
        let ghost before = row_views(rows@);
        let mut label = if c.is_toggled_open { "v ".to_string() } else { "> ".to_string() };
        label.append(c.name.as_str());
        let header = LibraryRow { label, action: EditorAction::SelectCollection(ci), selected: sel == LibrarySelection::Collection(ci) };
        proof {
            lemma_row_views_push(rows@, header);
        }
        rows.push(header);
        let ghost with_header = row_views(rows@);
        if c.is_toggled_open {
            let mut k: usize = 0;
            while k < c.chips.len()
                invariant
                    k <= c.chips@.len(),
                    c.is_toggled_open,
                    row_views(rows@) == with_header + Seq::new(k as nat, |j: int| chip_row(*c, ci as int, j, sel)),
                decreases c.chips.len() - k,
            {
                let row = LibraryRow {
                    label: c.chips[k].clone(),
                    action: EditorAction::SelectChipRow { collection: ci, chip: k },
                    selected: sel == LibrarySelection::Chip(ci, k),
                };
                proof {
                    lemma_row_views_push(rows@, row);
                }
                rows.push(row);
                assert(row_views(rows@) =~= with_header + Seq::new((k + 1) as nat, |j: int| chip_row(*c, ci as int, j, sel)));
                k = k + 1;
            }
            assert(Seq::new(k as nat, |j: int| chip_row(*c, ci as int, j, sel)) =~= chip_rows(*c, ci as int, sel));
        } else {
            assert(with_header + chip_rows(*c, ci as int, sel) =~= with_header);
        }
        assert(cols@.subrange(0, ci + 1).drop_last() =~= cols@.subrange(0, ci as int));
        assert(row_views(rows@) =~= before + seq![header_row(*c, ci as int, sel)] + chip_rows(*c, ci as int, sel));
        ci = ci + 1;
    }
    assert(cols@.subrange(0, cols@.len() as int) =~= cols@);
    rows
}

/// The chip library's three panels: the starred list, the collections
/// list and the detail panel of the selected row.
#[derive(Debug, Clone, PartialEq, Eq)]
pub struct ChipLibraryPanel {
    pub starred: Vec<LibraryRow>,
    pub collections: Vec<LibraryRow>,
    pub detail: OverlayContent,
}

/// What the chip library shows and offers.
pub fn build_chip_library_panel(state: &ChipLibraryState) -> (r: ChipLibraryPanel)
    ensures
        row_views(r.starred@) == starred_rows_view(state.starred_list@, state.selection),
        row_views(r.collections@) == collection_rows_view(state.collections@, state.selection),
        r.detail@ == detail_panel_view(*state),
{
    ChipLibraryPanel { starred: build_starred_panel(state), collections: build_collections_panel(state), detail: build_detail_panel(state) }
}

// ---------------------------------------------------------------------
// Preferences
// ---------------------------------------------------------------------

/// The options for showing pin names.
pub open spec fn pin_display_options() -> Seq<Seq<char>> {
    seq!["Always"@, "On Hover"@, "Tab to Toggle"@]
}

/// The options for showing the grid.
pub open spec fn grid_display_options() -> Seq<Seq<char>> {
    seq!["Off"@, "On"@]
}

/// The options for snapping to the grid.
pub open spec fn snapping_options() -> Seq<Seq<char>> {
    seq!["Hold Ctrl"@, "If Grid Shown"@, "Always"@]
}

/// The options for straight wires.
pub open spec fn straight_wire_options() -> Seq<Seq<char>> {
    seq!["Hold Shift"@, "If Grid Shown"@, "Always"@]
}

/// The options for the simulation's status.
pub open spec fn sim_status_options() -> Seq<Seq<char>> {
    seq!["Active"@, "Paused"@]
}

/// The text of option `current`, or `?` where there is no such option.
pub open spec fn option_text(options: Seq<Seq<char>>, current: int) -> Seq<char> {
    if 0 <= current < options.len() {
        options[current]
    } else {
        "?"@
    }
}

fn pin_display_option(current: i32) -> (s: &'static str)
    ensures
        s@ == option_text(pin_display_options(), current as int),
{
    match current {
        0 => "Always",
        1 => "On Hover",
        2 => "Tab to Toggle",
        _ => "?",
    }
}

fn grid_display_option(current: i32) -> (s: &'static str)
    ensures
        s@ == option_text(grid_display_options(), current as int),
{
    match current {
        0 => "Off",
        1 => "On",
        _ => "?",
    }
}

fn snapping_option(current: i32) -> (s: &'static str)
    ensures
        s@ == option_text(snapping_options(), current as int),
{
    match current {
        0 => "Hold Ctrl",
        1 => "If Grid Shown",
        2 => "Always",
        _ => "?",
    }
}

fn straight_wire_option(current: i32) -> (s: &'static str)
    ensures
        s@ == option_text(straight_wire_options(), current as int),
{
    match current {
        0 => "Hold Shift",
        1 => "If Grid Shown",
        2 => "Always",
        _ => "?",
    }
}

/// The preferences panel: its title and row labels, one button per row
/// showing that row's current option (a click cycles it), then Apply and
/// Close.
pub open spec fn preferences_view(d: ProjectDescription) -> (Seq<Seq<char>>, Seq<ButtonView>, bool) {
    (
        seq![
            "Preferences"@,
            "Show I/O pin names"@,
            "Show chip pin names"@,
            "Show grid"@,
            "Snap to grid"@,
            "Straight wires"@,
            "Sim status"@,
        ],
        seq![
            (option_text(pin_display_options(), d.prefs_main_pin_names_display_mode as int), EditorAction::CyclePref(0), true),
            (option_text(pin_display_options(), d.prefs_chip_pin_names_display_mode as int), EditorAction::CyclePref(1), true),
            (option_text(grid_display_options(), d.prefs_grid_display_mode as int), EditorAction::CyclePref(2), true),
            (option_text(snapping_options(), d.prefs_snapping as int), EditorAction::CyclePref(3), true),
            (option_text(straight_wire_options(), d.prefs_straight_wires as int), EditorAction::CyclePref(4), true),
            (option_text(sim_status_options(), if d.prefs_sim_paused { 1 } else { 0 }), EditorAction::CyclePref(5), true),
            ("Apply"@, EditorAction::ApplyPreferences, true),
            ("Close"@, EditorAction::ClosePopup, true),
        ],
        false,
    )
}

/// What the preferences panel shows for a project's current preferences.
pub fn build_preferences_panel(desc: &ProjectDescription) -> (r: OverlayContent)
    ensures
        r@ == preferences_view(*desc),
{
    let mut captions: Vec<String> = Vec::new();
    push_caption(&mut captions, "Preferences");
    push_caption(&mut captions, "Show I/O pin names");
    push_caption(&mut captions, "Show chip pin names");
    push_caption(&mut captions, "Show grid");
    push_caption(&mut captions, "Snap to grid");
    push_caption(&mut captions, "Straight wires");
    push_caption(&mut captions, "Sim status");
    let mut buttons: Vec<PanelButton> = Vec::new();
    push_button(&mut buttons, pin_display_option(desc.prefs_main_pin_names_display_mode), EditorAction::CyclePref(0), true);
    push_button(&mut buttons, pin_display_option(desc.prefs_chip_pin_names_display_mode), EditorAction::CyclePref(1), true);
    push_button(&mut buttons, grid_display_option(desc.prefs_grid_display_mode), EditorAction::CyclePref(2), true);
    push_button(&mut buttons, snapping_option(desc.prefs_snapping), EditorAction::CyclePref(3), true);
    push_button(&mut buttons, straight_wire_option(desc.prefs_straight_wires), EditorAction::CyclePref(4), true);
    let sim = if desc.prefs_sim_paused { "Paused" } else { "Active" };
    push_button(&mut buttons, sim, EditorAction::CyclePref(5), true);
    push_button(&mut buttons, "Apply", EditorAction::ApplyPreferences, true);
    push_button(&mut buttons, "Close", EditorAction::ClosePopup, true);
    OverlayContent { captions, buttons, text_field: false }
}

// ---------------------------------------------------------------------
// Search popup
// ---------------------------------------------------------------------

/// The search popup: a text field and one button per listed chip, placing
/// it; `No matching chips` when the search lists none.
pub open spec fn search_popup_view(names: Seq<String>, query: Seq<char>) -> (Seq<Seq<char>>, Seq<ButtonView>, bool) {
    let found = search_results(names, query);
    (
        if found.len() == 0 { seq!["No matching chips"@] } else { seq![] },
        found.map_values(|n: String| (n@, EditorAction::UseChip(n), true)),
        true,
    )
}

/// What the chip search popup shows and offers for the typed `query`.
pub fn build_search_popup(all_chip_names: &[String], query: &str) -> (r: OverlayContent)
    ensures
        r@ == search_popup_view(all_chip_names@, query@),
{
    let found = matching_chip_names(all_chip_names, query);
    let mut buttons: Vec<PanelButton> = Vec::new();
    let mut k: usize = 0;
    while k < found.len()
        invariant
            k <= found@.len(),
            button_views(buttons@) == found@.subrange(0, k as int).map_values(|n: String| (n@, EditorAction::UseChip(n), true)),
        decreases found.len() - k,
    {
        let b = PanelButton { label: found[k].clone(), action: EditorAction::UseChip(found[k].clone()), enabled: true };
        proof {
            lemma_button_views_push(buttons@, b);
        }
        buttons.push(b);
        assert(found@.subrange(0, k + 1).map_values(|n: String| (n@, EditorAction::UseChip(n), true))
            =~= found@.subrange(0, k as int).map_values(|n: String| (n@, EditorAction::UseChip(n), true)).push(b@));
        k = k + 1;
    }
    assert(found@.subrange(0, found@.len() as int) =~= found@);
    let mut captions: Vec<String> = Vec::new();
    if found.len() == 0 {
        push_caption(&mut captions, "No matching chips");
    } else {
        assert(texts(captions@) =~= Seq::<Seq<char>>::empty());
    }
    OverlayContent { captions, buttons, text_field: true }
}

// ---------------------------------------------------------------------
// Small popups: naming, key select
// ---------------------------------------------------------------------

/// The naming popup: its title (when there is one), a text field, then
/// Confirm (enabled as the caller's own check of the name says) and
/// Cancel.
pub open spec fn naming_popup_view(title: Seq<char>, confirm_enabled: bool) -> (Seq<Seq<char>>, Seq<ButtonView>, bool) {
    (
        if title.len() > 0 { seq![title] } else { seq![] },
        seq![("Confirm"@, EditorAction::ConfirmName, confirm_enabled), ("Cancel"@, EditorAction::ClosePopup, true)],
        true,
    )
}

/// What the popup that names something (a label, say) shows and offers.
pub fn build_simple_naming_popup(title: &str, confirm_enabled: bool) -> (r: OverlayContent)
    ensures
        r@ == naming_popup_view(title@, confirm_enabled),
{
    let mut captions: Vec<String> = Vec::new();
    if !title.is_empty() {
        push_caption(&mut captions, title);
    } else {
        assert(texts(captions@) =~= Seq::<Seq<char>>::empty());
    }
    let mut buttons: Vec<PanelButton> = Vec::new();
    push_button(&mut buttons, "Confirm", EditorAction::ConfirmName, confirm_enabled);
    push_button(&mut buttons, "Cancel", EditorAction::ClosePopup, true);
    OverlayContent { captions, buttons, text_field: true }
}

/// The key-select popup: its prompt, the chosen key (nothing before one is
/// pressed), then Confirm (only once a key is chosen) and Cancel.
pub open spec fn key_select_view(chosen_key: Option<char>) -> (Seq<Seq<char>>, Seq<ButtonView>, bool) {
    (
        seq![
            "Press a key to rebind\n(alphanumeric only)"@,
            match chosen_key {
                Some(c) => seq![c],
                None => seq![],
            },
        ],
        seq![("Confirm"@, EditorAction::ConfirmKey, chosen_key is Some), ("Cancel"@, EditorAction::ClosePopup, true)],
        false,
    )
}

/// What the popup that rebinds a Key chip shows and offers.
pub fn build_key_select_popup(chosen_key: Option<char>) -> (r: OverlayContent)
    ensures
        r@ == key_select_view(chosen_key),
{
    let mut captions: Vec<String> = Vec::new();
    push_caption(&mut captions, "Press a key to rebind\n(alphanumeric only)");
    let mut shown = String::new();
    if let Some(c) = chosen_key {
        shown.push(c);
    }
    assert(shown@ =~= (match chosen_key {
        Some(c) => seq![c],
        None => Seq::<char>::empty(),
    }));
    proof {
        lemma_texts_push(captions@, shown);
    }
    captions.push(shown);
    let mut buttons: Vec<PanelButton> = Vec::new();
    push_button(&mut buttons, "Confirm", EditorAction::ConfirmKey, chosen_key.is_some());
    push_button(&mut buttons, "Cancel", EditorAction::ClosePopup, true);
    OverlayContent { captions, buttons, text_field: false }
}

// ---------------------------------------------------------------------
// ROM editor
// ---------------------------------------------------------------------

/// The number of words of a ROM chip (256 words of 16 bits).
pub const ROM_WORD_COUNT: usize = 256;

/// `Address 5 (0x05)`: the selected address in decimal, then in upper-case
/// hexadecimal with at least two digits.
pub open spec fn rom_address_text(selected: nat) -> Seq<char> {
    "Address "@ + decimal(selected) + " (0x"@ + (if selected < 16 { seq!['0'] } else { seq![] }) + hexadecimal(selected)
        + ")"@
}

/// The word shown in cell `k`: the data's word there, or 0 past its end.
pub open spec fn rom_cell_value(data: Seq<u32>, k: int) -> nat {
    if k < data.len() {
        data[k] as nat
    } else {
        0
    }
}

/// The cell buttons of the ROM editor, one per address, each showing its
/// word in decimal.
pub open spec fn rom_cells(data: Seq<u32>) -> Seq<ButtonView> {
    Seq::new(ROM_WORD_COUNT as nat, |k: int| (decimal(rom_cell_value(data, k)), EditorAction::RomSelectCell(k as usize), true))
}

/// The ROM editor: its title and the selected address (the last one when
/// `selected` is past the end), a text field, then Set, the cells, Apply
/// and Cancel.
pub open spec fn rom_editor_view(data: Seq<u32>, selected: usize) -> (Seq<Seq<char>>, Seq<ButtonView>, bool) {
    let sel = if selected < ROM_WORD_COUNT { selected as nat } else { (ROM_WORD_COUNT - 1) as nat };
    (
        seq!["Configure ROM (256 x 16-bit)"@, rom_address_text(sel)],
        seq![("Set"@, EditorAction::RomConfirmCell, true)] + rom_cells(data) + seq![
            ("Apply"@, EditorAction::RomApply, true),
            ("Cancel"@, EditorAction::ClosePopup, true),
        ],
        true,
    )
}

fn rom_address_caption(selected: usize) -> (s: String)
    requires
        selected < ROM_WORD_COUNT,
    ensures
        s@ == rom_address_text(selected as nat),
{
    let mut s = "Address ".to_string();
    push_decimal(&mut s, selected as u64);
    s.append(" (0x");
    let ghost before = s@;
    if selected < 16 {
        s.push('0');
    }
    assert(s@ =~= before + (if selected < 16 { seq!['0'] } else { Seq::<char>::empty() }));
    push_hexadecimal(&mut s, selected as u64);
    s.append(")");
    s
}

/// What the ROM editor shows and offers for the words `data`, with cell
/// `selected` being edited.
pub fn build_rom_editor_popup(data: &[u32], selected: usize) -> (r: OverlayContent)
    ensures
        r@ == rom_editor_view(data@, selected),
{
    let sel = if selected < ROM_WORD_COUNT { selected } else { ROM_WORD_COUNT - 1 };
    let mut captions: Vec<String> = Vec::new();
    push_caption(&mut captions, "Configure ROM (256 x 16-bit)");
    let address = rom_address_caption(sel);
    proof {
        lemma_texts_push(captions@, address);
    }
    captions.push(address);
    let mut buttons: Vec<PanelButton> = Vec::new();
    push_button(&mut buttons, "Set", EditorAction::RomConfirmCell, true);
    let ghost head = button_views(buttons@);
    let mut k: usize = 0;
    while k < ROM_WORD_COUNT
        invariant
            k <= ROM_WORD_COUNT,
            button_views(buttons@) == head + rom_cells(data@).subrange(0, k as int),
        decreases ROM_WORD_COUNT - k,
    {
        let value: u32 = if k < data.len() { data[k] } else { 0 };
        let mut label = String::new();
        push_decimal(&mut label, value as u64);
        let b = PanelButton { label, action: EditorAction::RomSelectCell(k), enabled: true };
        proof {
            lemma_button_views_push(buttons@, b);
        }
        buttons.push(b);
        assert(rom_cells(data@).subrange(0, k + 1) =~= rom_cells(data@).subrange(0, k as int).push(b@));
        k = k + 1;
    }
    assert(rom_cells(data@).subrange(0, ROM_WORD_COUNT as int) =~= rom_cells(data@));
    let ghost with_cells = button_views(buttons@);
    push_button(&mut buttons, "Apply", EditorAction::RomApply, true);
    push_button(&mut buttons, "Cancel", EditorAction::ClosePopup, true);
    assert(button_views(buttons@) =~= with_cells + seq![
        ("Apply"@, EditorAction::RomApply, true),
        ("Cancel"@, EditorAction::ClosePopup, true),
    ]);
    OverlayContent { captions, buttons, text_field: true }
}

// ---------------------------------------------------------------------
// Save-chip popup
// ---------------------------------------------------------------------

/// How the name typed into the save-chip popup relates to the library,
/// which decides the buttons offered.
#[derive(Debug, Clone, Copy, PartialEq, Eq, Structural)]
pub enum SaveChipMode {
    /// The name is the chip's own: save it (over its old file, if any).
    Save,
    /// The name belongs to a different saved chip: confirming backs that
    /// chip up and overwrites it.
    Replace,
    /// The name is free and differs from the chip's own: save a copy under
    /// it, or rename the chip.
    SaveAsOrRename,
}

/// The line under the name field, for each mode.
pub open spec fn save_hint(mode: SaveChipMode) -> Seq<char> {
    match mode {
        SaveChipMode::Save => seq![],
        SaveChipMode::Replace => "A different chip already has this name."@,
        SaveChipMode::SaveAsOrRename => "Name changed -- keep both, or rename?"@,
    }
}

/// The save-chip popup: a title naming the chip's current name, the hint
/// of the mode (none for a plain save), a text field, then the mode's
/// buttons (Save; Replace; or Save As and Rename), each enabled only for
/// a name that is not blank, and Cancel.
pub open spec fn save_chip_view(current_name: Seq<char>, text: Seq<char>, mode: SaveChipMode) -> (Seq<Seq<char>>, Seq<ButtonView>, bool) {
    let title = "Save chip (currently: "@ + current_name + ")"@;
    let ok = trimmed(text).len() > 0;
    (
        if mode == SaveChipMode::Save { seq![title] } else { seq![title, save_hint(mode)] },
        match mode {
            SaveChipMode::Save => seq![("Save"@, EditorAction::SaveChipConfirm, ok), ("Cancel"@, EditorAction::ClosePopup, true)],
            SaveChipMode::Replace => seq![("Replace"@, EditorAction::SaveChipConfirm, ok), ("Cancel"@, EditorAction::ClosePopup, true)],
            SaveChipMode::SaveAsOrRename => seq![
                ("Save As"@, EditorAction::SaveChipSaveAs, ok),
                ("Rename"@, EditorAction::SaveChipRename, ok),
                ("Cancel"@, EditorAction::ClosePopup, true),
            ],
        },
        true,
    )
}

/// What the save-chip popup shows and offers for the chip `current_name`,
/// the typed `text` and the mode the host derived from them.
pub fn build_save_chip_popup(current_name: &str, text: &str, mode: SaveChipMode) -> (r: OverlayContent)
    ensures
        r@ == save_chip_view(current_name@, text@, mode),
{
    let mut title = "Save chip (currently: ".to_string();
    title.append(current_name);
    title.append(")");
    let mut captions: Vec<String> = Vec::new();
    proof {
        lemma_texts_push(captions@, title);
    }
    captions.push(title);
    match mode {
        SaveChipMode::Save => {},
        SaveChipMode::Replace => push_caption(&mut captions, "A different chip already has this name."),
        SaveChipMode::SaveAsOrRename => push_caption(&mut captions, "Name changed -- keep both, or rename?"),
    }
    let ok = !is_blank(text);
    let mut buttons: Vec<PanelButton> = Vec::new();
    match mode {
        SaveChipMode::Save => push_button(&mut buttons, "Save", EditorAction::SaveChipConfirm, ok),
        SaveChipMode::Replace => push_button(&mut buttons, "Replace", EditorAction::SaveChipConfirm, ok),
        SaveChipMode::SaveAsOrRename => {
            push_button(&mut buttons, "Save As", EditorAction::SaveChipSaveAs, ok);
            push_button(&mut buttons, "Rename", EditorAction::SaveChipRename, ok);
        },
    }
    push_button(&mut buttons, "Cancel", EditorAction::ClosePopup, true);
    OverlayContent { captions, buttons, text_field: true }
}

// ---------------------------------------------------------------------
// Starred bottom bar and its flyout
// ---------------------------------------------------------------------

/// A bottom-bar button as the host draws it: caption, action, whether it
/// can be clicked, and whether its collection's flyout is open.
pub type BarView = (Seq<char>, EditorAction, bool, bool);

/// One button of the starred bottom bar.
#[derive(Debug, Clone, PartialEq, Eq)]
pub struct BarButton {
    pub label: String,
    pub action: EditorAction,
    pub enabled: bool,
    /// The flyout of this (collection's) button is open.
    pub open: bool,
}

impl View for BarButton {
    type V = BarView;

    open spec fn view(&self) -> BarView {
        (self.label@, self.action, self.enabled, self.open)
    }
}

/// `buttons` as the host draws them.
pub open spec fn bar_views(buttons: Seq<BarButton>) -> Seq<BarView> {
    buttons.map_values(|b: BarButton| b@)
}

/// The bottom-bar button of a starred item: a chip's opens it; a
/// collection's (captioned with ` v`) opens or closes its flyout, and is
/// marked open when that flyout is the open one.
pub open spec fn bar_button(item: StarredItem, open_collection: Option<Seq<char>>, enabled: bool) -> BarView {
    if item.is_collection {
        (
            item.name@ + " v"@,
            EditorAction::ToggleStarredCollectionPopup(item.name),
            enabled,
            open_collection == Some(item.name@),
        )
    } else {
        (item.name@, EditorAction::OpenSelectedChip(item.name), enabled, false)
    }
}

/// The text of an optional `&str`.
pub open spec fn opt_text(s: Option<&str>) -> Option<Seq<char>> {
    match s {
        Some(t) => Some(t@),
        None => None,
    }
}

/// The starred bottom bar: one button per starred item, in order, all
/// enabled or all disabled as `enabled` says.
pub fn build_starred_bottom_bar(starred_list: &[StarredItem], open_collection: Option<&str>, enabled: bool) -> (r: Vec<BarButton>)
    ensures
        bar_views(r@) == Seq::new(
            starred_list@.len(),
            |i: int| bar_button(starred_list@[i], opt_text(open_collection), enabled),
        ),
{
    let mut bar: Vec<BarButton> = Vec::new();
    let mut i: usize = 0;
    while i < starred_list.len()
        invariant
            i <= starred_list@.len(),
            bar_views(bar@) == Seq::new(i as nat, |k: int| bar_button(starred_list@[k], opt_text(open_collection), enabled)),
        decreases starred_list.len() - i,
    {
        let item = &starred_list[i];
        let b = if item.is_collection {
            let mut label = item.name.clone();
            label.append(" v");
            let open = match open_collection {
                Some(name) => same_text(name, item.name.as_str()),
                None => false,
            };
            BarButton { label, action: EditorAction::ToggleStarredCollectionPopup(item.name.clone()), enabled, open }
        } else {
            BarButton { label: item.name.clone(), action: EditorAction::OpenSelectedChip(item.name.clone()), enabled, open: false }
        };
        assert(b@ == bar_button(starred_list@[i as int], opt_text(open_collection), enabled));
        proof {
            assert(bar_views(bar@.push(b)) =~= bar_views(bar@).push(b@));
        }
        bar.push(b);
        assert(bar_views(bar@) =~= Seq::new((i + 1) as nat, |k: int| bar_button(starred_list@[k], opt_text(open_collection), enabled)));
        i = i + 1;
    }
    bar
}

/// The flyout of a starred collection: one button per chip that opens it,
/// for as many chips as `visible_rows` (the rows that fit) allows.
pub open spec fn flyout_view(c: ChipCollection, visible_rows: usize, enabled: bool) -> Seq<ButtonView> {
    let n = if visible_rows < c.chips@.len() { visible_rows as nat } else { c.chips@.len() };
    Seq::new(n, |k: int| (c.chips@[k]@, EditorAction::OpenSelectedChip(c.chips@[k]), enabled))
}

/// The buttons of a starred collection's flyout.
pub fn build_starred_collection_popup(collection: &ChipCollection, visible_rows: usize, enabled: bool) -> (r: Vec<PanelButton>)
    ensures
        button_views(r@) == flyout_view(*collection, visible_rows, enabled),
{
    let n = if visible_rows < collection.chips.len() { visible_rows } else { collection.chips.len() };
    let mut buttons: Vec<PanelButton> = Vec::new();
    let mut k: usize = 0;
    while k < n
        invariant
            n <= collection.chips@.len(),
            n == (if visible_rows < collection.chips@.len() { visible_rows as nat } else { collection.chips@.len() }),
            k <= n,
            button_views(buttons@) == flyout_view(*collection, visible_rows, enabled).subrange(0, k as int),
        decreases n - k,
    {
        let name = &collection.chips[k];
        let b = PanelButton { label: name.clone(), action: EditorAction::OpenSelectedChip(name.clone()), enabled };
        proof {
            lemma_button_views_push(buttons@, b);
        }
        buttons.push(b);
        assert(flyout_view(*collection, visible_rows, enabled).subrange(0, k + 1)
            =~= flyout_view(*collection, visible_rows, enabled).subrange(0, k as int).push(b@));
        k = k + 1;
    }
    assert(flyout_view(*collection, visible_rows, enabled).subrange(0, n as int) =~= flyout_view(*collection, visible_rows, enabled));
    buttons
}

// ---------------------------------------------------------------------
// Chip customizer: the option column
// ---------------------------------------------------------------------

/// What the player is doing in the chip customizer's preview, as far as
/// the option column cares (where things are is the host's part).
#[derive(Debug, Clone, Copy, PartialEq, Eq, Structural)]
pub enum CustomizeInteraction {
    /// Nothing is grabbed.
    Idle,
    /// The body is being resized from a corner.
    Resizing,
    /// A placed display has been picked up.
    MovingDisplay,
    /// A placed display is being scaled.
    ScalingDisplay,
    /// A display picked from the list follows the pointer until dropped.
    PlacingDisplay,
}

/// Where a chip's name is drawn on its body.
#[derive(Debug, Clone, Copy, PartialEq, Eq, Structural)]
pub enum NameLocation {
    Middle,
    Top,
    Hidden,
}

/// The two hint lines shown for each interaction.
pub open spec fn customize_hint(i: CustomizeInteraction) -> (Seq<char>, Seq<char>) {
    match i {
        CustomizeInteraction::Idle => ("Drag a corner bracket to resize."@, "Pick a display below -- click a placed one to remove it."@),
        CustomizeInteraction::Resizing => ("Release to finish resizing"@, "(size snaps to the grid)."@),
        CustomizeInteraction::MovingDisplay => ("Click to drop \u{b7} Delete removes"@, "Escape puts it back"@),
        CustomizeInteraction::ScalingDisplay => ("Move toward/away from the centre"@, "to scale \u{b7} click confirms"@),
        CustomizeInteraction::PlacingDisplay => ("Click inside the preview to place"@, "Delete/Escape cancels"@),
    }
}

/// The caption of the name-position button.
pub open spec fn name_location_label(n: NameLocation) -> Seq<char> {
    match n {
        NameLocation::Middle => "Name: Middle"@,
        NameLocation::Top => "Name: Top"@,
        NameLocation::Hidden => "Name: Hidden"@,
    }
}

/// The number of colours of the body palette.
pub const PALETTE_SIZE: usize = 8;

/// Row `k` of the DISPLAYS list: the entry's label (marked when already
/// placed); it can be clicked only while nothing is grabbed.
pub open spec fn entry_row(e: DisplayListEntry, k: int, interaction: CustomizeInteraction) -> ButtonView {
    (
        if e.placed { e.label@ + "  (placed)"@ } else { e.label@ },
        EditorAction::CustomizePlaceEntry(k as usize),
        interaction == CustomizeInteraction::Idle,
    )
}

/// The chip customizer's option column: its title, the interaction's two
/// hint lines, the DISPLAYS header with the number of rows (and a note
/// when there are none); Cancel, Confirm, the name-position button, the
/// forced-caching toggle, one button per palette colour, then one row per
/// DISPLAYS entry; and the hex-colour text field.
pub open spec fn customize_menu_view(
    interaction: CustomizeInteraction,
    name_location: NameLocation,
    entries: Seq<DisplayListEntry>,
) -> (Seq<Seq<char>>, Seq<ButtonView>, bool) {
    let hint = customize_hint(interaction);
    (
        seq!["Customize chip"@, hint.0, hint.1, "DISPLAYS ("@ + decimal(entries.len()) + ")"@] + if entries.len() == 0 {
            seq!["Place a display component first"@]
        } else {
            seq![]
        },
        seq![
            ("Cancel"@, EditorAction::CustomizeCancel, true),
            ("Confirm"@, EditorAction::CustomizeConfirm, true),
            (name_location_label(name_location), EditorAction::CustomizeCycleNameLocation, true),
            ("Force chip caching"@, EditorAction::CustomizeToggleForceCache, true),
        ] + Seq::new(PALETTE_SIZE as nat, |i: int| (Seq::<char>::empty(), EditorAction::CustomizePickColour(i as usize), true))
            + Seq::new(entries.len(), |k: int| entry_row(entries[k], k, interaction)),
        true,
    )
}

fn customize_hint_lines(i: CustomizeInteraction) -> (r: (&'static str, &'static str))
    ensures
        (r.0@, r.1@) == customize_hint(i),
{
    match i {
        CustomizeInteraction::Idle => ("Drag a corner bracket to resize.", "Pick a display below -- click a placed one to remove it."),
        CustomizeInteraction::Resizing => ("Release to finish resizing", "(size snaps to the grid)."),
        CustomizeInteraction::MovingDisplay => ("Click to drop \u{b7} Delete removes", "Escape puts it back"),
        CustomizeInteraction::ScalingDisplay => ("Move toward/away from the centre", "to scale \u{b7} click confirms"),
        CustomizeInteraction::PlacingDisplay => ("Click inside the preview to place", "Delete/Escape cancels"),
    }
}

fn name_location_caption(n: NameLocation) -> (s: &'static str)
    ensures
        s@ == name_location_label(n),
{
    match n {
        NameLocation::Middle => "Name: Middle",
        NameLocation::Top => "Name: Top",
        NameLocation::Hidden => "Name: Hidden",
    }
}

/// What the chip customizer's option column shows and offers, for the
/// current interaction, the chip's name position and its DISPLAYS rows.
pub fn build_customize_menu(
    interaction: CustomizeInteraction,
    name_location: NameLocation,
    entries: &[DisplayListEntry],
) -> (r: OverlayContent)
    ensures
        r@ == customize_menu_view(interaction, name_location, entries@),
{
    let mut captions: Vec<String> = Vec::new();
    push_caption(&mut captions, "Customize chip");
    let (h0, h1) = customize_hint_lines(interaction);
    push_caption(&mut captions, h0);
    push_caption(&mut captions, h1);
    let mut header = "DISPLAYS (".to_string();
    push_decimal(&mut header, entries.len() as u64);
    header.append(")");
    proof {
        lemma_texts_push(captions@, header);
    }
    captions.push(header);
    let ghost head_captions = texts(captions@);
    if entries.len() == 0 {
        push_caption(&mut captions, "Place a display component first");
    }
    assert(texts(captions@) =~= customize_menu_view(interaction, name_location, entries@).0);

    let mut buttons: Vec<PanelButton> = Vec::new();
    push_button(&mut buttons, "Cancel", EditorAction::CustomizeCancel, true);
    push_button(&mut buttons, "Confirm", EditorAction::CustomizeConfirm, true);
    push_button(&mut buttons, name_location_caption(name_location), EditorAction::CustomizeCycleNameLocation, true);
    push_button(&mut buttons, "Force chip caching", EditorAction::CustomizeToggleForceCache, true);
    let ghost fixed = button_views(buttons@);
    let mut i: usize = 0;
    while i < PALETTE_SIZE
        invariant
            i <= PALETTE_SIZE,
            button_views(buttons@) == fixed + Seq::new(
                i as nat,
                |j: int| (Seq::<char>::empty(), EditorAction::CustomizePickColour(j as usize), true),
            ),
        decreases PALETTE_SIZE - i,
    {
        let b = PanelButton { label: String::new(), action: EditorAction::CustomizePickColour(i), enabled: true };
        proof {
            lemma_button_views_push(buttons@, b);
        }
        buttons.push(b);
        assert(button_views(buttons@) =~= fixed + Seq::new(
            (i + 1) as nat,
            |j: int| (Seq::<char>::empty(), EditorAction::CustomizePickColour(j as usize), true),
        ));
        i = i + 1;
    }
    let ghost with_swatches = button_views(buttons@);
    let idle = interaction == CustomizeInteraction::Idle;
    let mut k: usize = 0;
    while k < entries.len()
        invariant
            k <= entries@.len(),
            idle == (interaction == CustomizeInteraction::Idle),
            button_views(buttons@) == with_swatches + Seq::new(k as nat, |j: int| entry_row(entries@[j], j, interaction)),
        decreases entries.len() - k,
    {
        let e = &entries[k];
        let mut label = e.label.clone();
        if e.placed {
            label.append("  (placed)");
        }
        let b = PanelButton { label, action: EditorAction::CustomizePlaceEntry(k), enabled: idle };
        assert(b@ == entry_row(entries@[k as int], k as int, interaction));
        proof {
            lemma_button_views_push(buttons@, b);
        }
        buttons.push(b);
        assert(button_views(buttons@) =~= with_swatches + Seq::new((k + 1) as nat, |j: int| entry_row(entries@[j], j, interaction)));
        k = k + 1;
    }
    OverlayContent { captions, buttons, text_field: true }
}

} // verus!
