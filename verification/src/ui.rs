//! Rules of the editor's user interface that do not depend on drawing:
//! the UI layer stack (which layer takes the keyboard, which one a click or
//! a wheel turn goes to, popping layers), the rows of a context menu, which
//! keys a Key chip can be bound to, whether a chip or collection is
//! starred, and which chips a search lists.
use vstd::prelude::*;
use crate::project::StarredItem;
use crate::text::{eq_ignore_ascii_case, is_ascii_digit};

verus! {

/// What happened when an input event was offered to the UI stack.
#[derive(Debug, Clone, Copy, PartialEq, Eq, Structural)]
pub enum InputResult {
    /// A layer consumed the event; layers underneath are skipped, but
    /// listeners that run regardless of the UI still see it.
    Handled,
    /// No layer wanted it: it belongs to whatever is under the whole stack
    /// (the canvas).
    Propagate,
    /// Consumed and swallowed: not even always-on listeners react to it.
    Stop,
}

/// The layers of the UI stack.
#[derive(Debug, Clone, Copy, PartialEq, Eq, Structural)]
pub enum LayerId {
    MenuScreen,
    MenuPopup,
    /// The chip canvas: always the bottom layer, never captures input.
    Canvas,
    BottomBar,
    BottomBarFlyout,
    Library,
    Search,
    Preferences,
    Naming,
    KeySelect,
    RomEditor,
    SaveChip,
    /// A transient status message; never captures anything.
    StatusToast,
    ContextMenu,
}

/// The full-screen editor panels opened over the canvas (and the search
/// popup, which stacks above any of them).
pub open spec fn overlay_panel(l: LayerId) -> bool {
    l == LayerId::Library || l == LayerId::Search || l == LayerId::Preferences || l == LayerId::Naming
        || l == LayerId::KeySelect || l == LayerId::RomEditor || l == LayerId::SaveChip
}

/// Layers that keyboard events route to: the overlay panels, the menu
/// screen and its popup, and the context menu.
pub open spec fn keyboard_layer(l: LayerId) -> bool {
    overlay_panel(l) || l == LayerId::MenuScreen || l == LayerId::MenuPopup || l == LayerId::ContextMenu
}

impl LayerId {
    /// Whether this layer is one of the full-screen editor panels.
    pub fn is_overlay_panel(self) -> (b: bool)
        ensures
            b == overlay_panel(self),
    {
        match self {
            LayerId::Library | LayerId::Search | LayerId::Preferences | LayerId::Naming | LayerId::KeySelect
            | LayerId::RomEditor | LayerId::SaveChip => true,
            _ => false,
        }
    }

    /// Whether keyboard events route to this layer. Surfaces that only
    /// react to the pointer (bottom bar, flyout, toast) are left out, so
    /// hovering them never steals the editor's shortcuts.
    pub fn captures_keyboard(self) -> (b: bool)
        ensures
            b == keyboard_layer(self),
    {
        if self.is_overlay_panel() {
            return true;
        }
        match self {
            LayerId::MenuScreen | LayerId::MenuPopup | LayerId::ContextMenu => true,
            _ => false,
        }
    }
}

/// What a context-menu row does when chosen.
#[derive(Debug, Clone, Copy, PartialEq, Eq, Structural)]
pub enum ContextMenuAction {
    Configure,
    /// Edit the target wire's route.
    Edit,
    Delete,
    /// Remove just one wire, without cascading to the wires attached to it.
    DeletePart,
    Label,
    Flip,
    Open,
    Unstar,
    /// Watch the target component's own simulation without editing it.
    View,
    Other,
}

/// One row of a context menu: the label shown, what it does, and whether
/// it can be chosen (disabled rows are drawn dimmed and never hit).
#[derive(Debug, Clone, PartialEq, Eq)]
pub struct ContextMenuItem {
    pub label: String,
    pub id: ContextMenuAction,
    pub enabled: bool,
}

impl ContextMenuItem {
    /// An enabled row.
    pub fn new(label: &str, id: ContextMenuAction) -> (item: Self)
        ensures
            item.label@ == label@,
            item.id == id,
            item.enabled,
    {
        ContextMenuItem { label: label.to_string(), id, enabled: true }
    }

    /// A row that is enabled or not as `enabled` says.
    pub fn new_enabled(label: &str, id: ContextMenuAction, enabled: bool) -> (item: Self)
        ensures
            item.label@ == label@,
            item.id == id,
            item.enabled == enabled,
    {
        ContextMenuItem { label: label.to_string(), id, enabled }
    }
}

/// The keys a Key chip can be bound to.
pub const KEY_SELECT_ALLOWED_CHARS: &'static str = "1234567890QWERTYUIOPASDFGHJKLZXCVBNM";

/// Every key a Key chip can be bound to is a digit or an upper-case ASCII
/// letter.
pub proof fn lemma_key_select_chars_are_digits_or_upper_case()
    ensures
        forall|i: int| 0 <= i < KEY_SELECT_ALLOWED_CHARS@.len() ==> is_ascii_digit(#[trigger] KEY_SELECT_ALLOWED_CHARS@[i])
            || ('A' <= KEY_SELECT_ALLOWED_CHARS@[i] && KEY_SELECT_ALLOWED_CHARS@[i] <= 'Z'),
{
    reveal_strlit("1234567890QWERTYUIOPASDFGHJKLZXCVBNM");
}

/// `name` is on `starred_list` as a collection (`is_collection`) or as a
/// chip, names compared ignoring ASCII case.
pub open spec fn starred_in(starred_list: Seq<StarredItem>, name: Seq<char>, is_collection: bool) -> bool {
    exists|i: int| 0 <= i < starred_list.len() && (#[trigger] starred_list[i]).is_collection == is_collection
        && eq_ignore_ascii_case(starred_list[i].name@, name)
}

/// Whether `name` is starred, as a collection (`is_collection`) or as a
/// chip; names compare ignoring ASCII case.
pub fn is_starred(starred_list: &[StarredItem], name: &str, is_collection: bool) -> (b: bool)
    ensures
        b == starred_in(starred_list@, name@, is_collection),
{
    let mut i: usize = 0;
    while i < starred_list.len()
        invariant
            i <= starred_list@.len(),
            forall|j: int| 0 <= j < i ==> !((#[trigger] starred_list@[j]).is_collection == is_collection
                && eq_ignore_ascii_case(starred_list@[j].name@, name@)),
        decreases starred_list.len() - i,
    {
        let item = &starred_list[i];
        if item.is_collection == is_collection && crate::description::eq_ignore_case(item.name.as_str(), name) {
            return true;
        }
        i = i + 1;
    }
    false
}

/// The Unicode lower-case form of `s` (what `str::to_lowercase` returns).
pub uninterp spec fn unicode_lowercase(s: Seq<char>) -> Seq<char>;

/// `s` in lower case (`str::to_lowercase`, Unicode case mapping).
#[verifier::external_body]
fn to_lowercase(s: &str) -> (r: String)
    ensures
        r@ == unicode_lowercase(s@),
{
    s.to_lowercase()
}

/// `needle` occurs in `haystack` as a run of consecutive characters.
pub open spec fn occurs_in(needle: Seq<char>, haystack: Seq<char>) -> bool {
    exists|i: int| 0 <= i && i + needle.len() <= haystack.len() && #[trigger] haystack.subrange(i, i + needle.len()) == needle
}

/// Whether `needle` occurs in `haystack` (`str::contains` on texts).
pub fn contains_text(haystack: &str, needle: &str) -> (b: bool)
    ensures
        b == occurs_in(needle@, haystack@),
{
    let h = crate::text::chars_of(haystack);
    let n = crate::text::chars_of(needle);
    let hl = h.len();
    let nl = n.len();
    if nl > hl {
        proof {
            assert forall|i: int| 0 <= i && i + n@.len() <= h@.len() implies #[trigger] h@.subrange(i, i + n@.len()) != n@ by {}
        }
        return false;
    }
    if nl == 0 {
        assert(haystack@.subrange(0int, 0int + needle@.len()) =~= needle@);
        return true;
    }
    let last = hl - nl;
    let mut i: usize = 0;
    while i <= last
        invariant
            h@ == haystack@,
            n@ == needle@,
            hl == h@.len(),
            nl == n@.len(),
            1 <= nl <= hl,
            last == hl - nl,
            i <= last + 1,
            forall|j: int| 0 <= j < i ==> #[trigger] h@.subrange(j, j + n@.len()) != n@,
        decreases last + 1 - i,
    {
        let mut k: usize = 0;
        while k < nl && h[i + k] == n[k]
            invariant
                hl == h@.len(),
                nl == n@.len(),
                i <= last,
                1 <= nl <= hl,
                last == hl - nl,
                k <= nl,
                forall|q: int| 0 <= q < k ==> h@[i + q] == n@[q],
            decreases nl - k,
        {
            k = k + 1;
        }
        if k == nl {
            assert(h@.subrange(i as int, i + n@.len()) =~= n@);
            return true;
        }
        assert(h@.subrange(i as int, i + n@.len())[k as int] != n@[k as int]);
        i = i + 1;
    }
    false
}

/// Whether `name` is listed by a search for `query`: its lower-case form
/// contains the query's (every name is listed for an empty query).
pub open spec fn search_lists(query: Seq<char>, name: Seq<char>) -> bool {
    unicode_lowercase(query).len() == 0 || occurs_in(unicode_lowercase(query), unicode_lowercase(name))
}

/// The names of `names` that a search for `query` lists, in their order.
pub open spec fn search_results(names: Seq<String>, query: Seq<char>) -> Seq<String>
    decreases names.len(),
{
    if names.len() == 0 {
        seq![]
    } else {
        let rest = search_results(names.drop_last(), query);
        if search_lists(query, names.last()@) { rest.push(names.last()) } else { rest }
    }
}

/// The chip names a search for `query` lists: those containing it, ignoring
/// case, in their order; all of them for an empty query.
pub fn matching_chip_names(all_chip_names: &[String], query: &str) -> (r: Vec<String>)
    ensures
        r@ == search_results(all_chip_names@, query@),
{
    let needle = to_lowercase(query);
    let mut r: Vec<String> = Vec::new();
    let mut i: usize = 0;
    while i < all_chip_names.len()
        invariant
            i <= all_chip_names@.len(),
            needle@ == unicode_lowercase(query@),
            r@ == search_results(all_chip_names@.subrange(0, i as int), query@),
        decreases all_chip_names.len() - i,
    {
        assert(all_chip_names@.subrange(0, i + 1).drop_last() =~= all_chip_names@.subrange(0, i as int));
        let name = &all_chip_names[i];
        let lowered = to_lowercase(name.as_str());
        if needle.as_str().is_empty() || contains_text(lowered.as_str(), needle.as_str()) {
            r.push(name.clone());
        }
        i = i + 1;
    }
    assert(all_chip_names@.subrange(0, all_chip_names@.len() as int) =~= all_chip_names@);
    r
}

// ---------------------------------------------------------------------
// The UI layer stack
// ---------------------------------------------------------------------

/// One layer of the UI stack, as far as routing input goes: which layer it
/// is and whether it shows a text field.
#[derive(Debug, Clone, Copy, PartialEq, Eq, Structural)]
pub struct StackLayer {
    pub id: LayerId,
    pub has_text_field: bool,
}

/// Where a pointer event lands on one layer, as the host's hit test found
/// it: the first enabled button under the pointer, whether the layer's
/// capture area holds the pointer, and whether one of its scroll regions
/// does.
#[derive(Debug, Clone, Copy, PartialEq, Eq, Structural)]
pub struct LayerHit {
    pub button: Option<usize>,
    pub captured: bool,
    pub in_scroll_region: bool,
}

/// Where an event offered to the stack went: what happened, to which layer,
/// which of that layer's buttons was hit, and (for the wheel) whether a
/// scroll region of that layer takes it.
#[derive(Debug, Clone, Copy, PartialEq, Eq, Structural)]
pub struct Dispatch {
    pub result: InputResult,
    pub layer: Option<LayerId>,
    pub button: Option<usize>,
    pub scrolls: bool,
}

/// The layers on screen, bottom first (the canvas under everything; popups
/// last).
#[derive(Debug, Clone, PartialEq, Eq)]
pub struct UiStack {
    pub layers: Vec<StackLayer>,
}

/// Index of the topmost layer that takes the keyboard, if any: one that
/// captures it by its kind (a full-screen panel, the menu, a context menu)
/// or that owns a text field.
pub open spec fn keyboard_index(layers: Seq<StackLayer>) -> Option<int>
    decreases layers.len(),
{
    if layers.len() == 0 {
        None
    } else if keyboard_layer(layers.last().id) || layers.last().has_text_field {
        Some(layers.len() - 1)
    } else {
        keyboard_index(layers.drop_last())
    }
}

/// Index of the topmost layer a click goes to: one with an enabled button
/// under the pointer, or whose capture area holds it.
pub open spec fn click_index(hits: Seq<LayerHit>) -> Option<int>
    decreases hits.len(),
{
    if hits.len() == 0 {
        None
    } else if hits.last().button is Some || hits.last().captured {
        Some(hits.len() - 1)
    } else {
        click_index(hits.drop_last())
    }
}

/// Index of the topmost layer a wheel turn goes to: one with a scroll
/// region under the pointer, or whose capture area holds it.
pub open spec fn wheel_index(hits: Seq<LayerHit>) -> Option<int>
    decreases hits.len(),
{
    if hits.len() == 0 {
        None
    } else if hits.last().in_scroll_region || hits.last().captured {
        Some(hits.len() - 1)
    } else {
        wheel_index(hits.drop_last())
    }
}

/// Index of the topmost layer with an enabled button under the pointer.
pub open spec fn button_index(hits: Seq<LayerHit>) -> Option<int>
    decreases hits.len(),
{
    if hits.len() == 0 {
        None
    } else if hits.last().button is Some {
        Some(hits.len() - 1)
    } else {
        button_index(hits.drop_last())
    }
}

/// Nobody wanted the event: it falls through to what lies under the stack.
pub open spec fn propagated() -> Dispatch {
    Dispatch { result: InputResult::Propagate, layer: None, button: None, scrolls: false }
}

/// Where a click goes, the hits being one per layer, bottom first.
pub open spec fn click_dispatch(layers: Seq<StackLayer>, hits: Seq<LayerHit>) -> Dispatch {
    match click_index(hits) {
        Some(k) => Dispatch { result: InputResult::Handled, layer: Some(layers[k].id), button: hits[k].button, scrolls: false },
        None => propagated(),
    }
}

/// Where a wheel turn goes, the hits being one per layer, bottom first.
pub open spec fn wheel_dispatch(layers: Seq<StackLayer>, hits: Seq<LayerHit>) -> Dispatch {
    match wheel_index(hits) {
        Some(k) => Dispatch {
            result: InputResult::Handled,
            layer: Some(layers[k].id),
            button: None,
            scrolls: hits[k].in_scroll_region,
        },
        None => propagated(),
    }
}

impl UiStack {
    /// An empty stack.
    pub fn new() -> (s: Self)
        ensures
            s.layers@.len() == 0,
    {
        UiStack { layers: Vec::new() }
    }

    /// Puts `layer` on top.
    pub fn push(&mut self, layer: StackLayer)
        ensures
            final(self).layers@ == old(self).layers@.push(layer),
    {
        self.layers.push(layer);
    }

    /// The topmost layer, if any.
    pub fn top_id(&self) -> (r: Option<LayerId>)
        ensures
            r == (if self.layers@.len() == 0 { None } else { Some(self.layers@.last().id) }),
    {
        if self.layers.len() == 0 {
            None
        } else {
            Some(self.layers[self.layers.len() - 1].id)
        }
    }

    /// Pops the top layer if `predicate` accepts it; says whether it did.
    pub fn pop_if_top<F: Fn(LayerId) -> bool>(&mut self, predicate: F) -> (popped: bool)
        requires
            forall|id: LayerId| predicate.requires((id,)),
        ensures
            popped ==> old(self).layers@.len() > 0 && predicate.ensures((old(self).layers@.last().id,), true)
                && final(self).layers@ == old(self).layers@.drop_last(),
            !popped ==> final(self).layers@ == old(self).layers@ && (old(self).layers@.len() == 0
                || predicate.ensures((old(self).layers@.last().id,), false)),
    {
        let n = self.layers.len();
        if n == 0 {
            return false;
        }
        let top = self.layers[n - 1].id;
        if predicate(top) {
            self.layers.pop();
            true
        } else {
            false
        }
    }

    /// Pops top layers for as long as `predicate` accepts the top one.
    pub fn pop_while_top<F: Fn(LayerId) -> bool>(&mut self, predicate: F)
        requires
            forall|id: LayerId| predicate.requires((id,)),
        ensures
            final(self).layers@.len() <= old(self).layers@.len(),
            final(self).layers@ == old(self).layers@.subrange(0, final(self).layers@.len() as int),
            forall|k: int| final(self).layers@.len() <= k < old(self).layers@.len()
                ==> predicate.ensures((#[trigger] old(self).layers@[k].id,), true),
            final(self).layers@.len() == 0 || predicate.ensures((final(self).layers@.last().id,), false),
    {
        let ghost start = self.layers@;
        loop
            invariant
                forall|id: LayerId| predicate.requires((id,)),
                self.layers@.len() <= start.len(),
                self.layers@ == start.subrange(0, self.layers@.len() as int),
                forall|k: int| self.layers@.len() <= k < start.len() ==> predicate.ensures((#[trigger] start[k].id,), true),
            ensures
                self.layers@.len() <= start.len(),
                self.layers@ == start.subrange(0, self.layers@.len() as int),
                forall|k: int| self.layers@.len() <= k < start.len() ==> predicate.ensures((#[trigger] start[k].id,), true),
                self.layers@.len() == 0 || predicate.ensures((self.layers@.last().id,), false),
            decreases self.layers@.len(),
        {
            let ghost before = self.layers@;
            let popped = self.pop_if_top(&predicate);
            if !popped {
                break;
            }
            proof {
                assert(before.last() == start[before.len() - 1]);
                assert(self.layers@ =~= start.subrange(0, self.layers@.len() as int));
            }
        }
    }

    /// The layer keyboard events belong to: the topmost layer that captures
    /// the keyboard by its kind or owns a text field. `None` leaves keys to
    /// the canvas (its shortcuts).
    pub fn keyboard_target(&self) -> (r: Option<LayerId>)
        ensures
            r == (match keyboard_index(self.layers@) {
                Some(k) => Some(self.layers@[k].id),
                None => None,
            }),
    {
        match self.keyboard_position() {
            Some(k) => Some(self.layers[k].id),
            None => None,
        }
    }

    fn keyboard_position(&self) -> (r: Option<usize>)
        ensures
            match (r, keyboard_index(self.layers@)) {
                (Some(a), Some(b)) => a == b && a < self.layers@.len(),
                (None, None) => true,
                _ => false,
            },
    {
        let mut i = self.layers.len();
        assert(self.layers@.subrange(0, i as int) =~= self.layers@);
        while i > 0
            invariant
                i <= self.layers@.len(),
                keyboard_index(self.layers@) == keyboard_index(self.layers@.subrange(0, i as int)),
            decreases i,
        {
            assert(self.layers@.subrange(0, i as int).last() == self.layers@[i - 1]);
            assert(self.layers@.subrange(0, i as int).drop_last() =~= self.layers@.subrange(0, i - 1));
            if self.layers[i - 1].id.captures_keyboard() || self.layers[i - 1].has_text_field {
                return Some(i - 1);
            }
            i = i - 1;
        }
        None
    }

    /// Whether typed characters belong to the UI rather than to the
    /// simulation: the layer taking the keyboard shows a text field, or is
    /// the key-select popup.
    pub fn keyboard_stop(&self) -> (b: bool)
        ensures
            b == (match keyboard_index(self.layers@) {
                Some(k) => self.layers@[k].has_text_field || self.layers@[k].id == LayerId::KeySelect,
                None => false,
            }),
    {
        match self.keyboard_position() {
            Some(k) => self.layers[k].has_text_field || self.layers[k].id == LayerId::KeySelect,
            None => false,
        }
    }

    /// The topmost layer with an enabled button under the pointer, and that
    /// button (`hits` has one entry per layer, bottom first).
    pub fn topmost_button(&self, hits: &[LayerHit]) -> (r: Option<(LayerId, usize)>)
        requires
            hits@.len() == self.layers@.len(),
        ensures
            r == (match button_index(hits@) {
                Some(k) => Some((self.layers@[k].id, hits@[k].button.unwrap())),
                None => None,
            }),
    {
        let mut i = hits.len();
        assert(hits@.subrange(0, i as int) =~= hits@);
        while i > 0
            invariant
                i <= hits@.len(),
                hits@.len() == self.layers@.len(),
                button_index(hits@) == button_index(hits@.subrange(0, i as int)),
            decreases i,
        {
            assert(hits@.subrange(0, i as int).last() == hits@[i - 1]);
            assert(hits@.subrange(0, i as int).drop_last() =~= hits@.subrange(0, i - 1));
            if let Some(b) = hits[i - 1].button {
                return Some((self.layers[i - 1].id, b));
            }
            i = i - 1;
        }
        None
    }

    /// Offers a click to the stack, top first: the first layer with an
    /// enabled button under the pointer, or whose capture area holds it,
    /// handles it; when none does, it propagates.
    pub fn dispatch_click(&self, hits: &[LayerHit]) -> (d: Dispatch)
        requires
            hits@.len() == self.layers@.len(),
        ensures
            d == click_dispatch(self.layers@, hits@),
    {
        let mut i = hits.len();
        assert(hits@.subrange(0, i as int) =~= hits@);
        while i > 0
            invariant
                i <= hits@.len(),
                hits@.len() == self.layers@.len(),
                click_index(hits@) == click_index(hits@.subrange(0, i as int)),
            decreases i,
        {
            assert(hits@.subrange(0, i as int).last() == hits@[i - 1]);
            assert(hits@.subrange(0, i as int).drop_last() =~= hits@.subrange(0, i - 1));
            let h = hits[i - 1];
            if h.button.is_some() || h.captured {
                return Dispatch { result: InputResult::Handled, layer: Some(self.layers[i - 1].id), button: h.button, scrolls: false };
            }
            i = i - 1;
        }
        Dispatch { result: InputResult::Propagate, layer: None, button: None, scrolls: false }
    }

    /// Offers a wheel turn to the stack, top first: the first layer with a
    /// scroll region under the pointer, or whose capture area holds it,
    /// handles it; when none does, it propagates.
    pub fn dispatch_wheel(&self, hits: &[LayerHit]) -> (d: Dispatch)
        requires
            hits@.len() == self.layers@.len(),
        ensures
            d == wheel_dispatch(self.layers@, hits@),
    {
        let mut i = hits.len();
        assert(hits@.subrange(0, i as int) =~= hits@);
        while i > 0
            invariant
                i <= hits@.len(),
                hits@.len() == self.layers@.len(),
                wheel_index(hits@) == wheel_index(hits@.subrange(0, i as int)),
            decreases i,
        {
            assert(hits@.subrange(0, i as int).last() == hits@[i - 1]);
            assert(hits@.subrange(0, i as int).drop_last() =~= hits@.subrange(0, i - 1));
            let h = hits[i - 1];
            if h.in_scroll_region || h.captured {
                return Dispatch {
                    result: InputResult::Handled,
                    layer: Some(self.layers[i - 1].id),
                    button: None,
                    scrolls: h.in_scroll_region,
                };
            }
            i = i - 1;
        }
        Dispatch { result: InputResult::Propagate, layer: None, button: None, scrolls: false }
    }
}

} // verus!
