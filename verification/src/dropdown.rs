//! A dropdown picker: a field that shows the committed choice and a popup of rows to choose
//! from, with an optional search, single or multiple choice, and explicit or immediate commit.
use vstd::prelude::*;
use crate::geometry::{
    clip_rect, min_int, max_int, sat_add16, sat_sub, spec_clip_rect, AxisExpand, HintSource,
    LayoutSize, LayoutSizeHint, Rect,
};
use crate::keys::{keys_match, matches_any, spec_keys_match, spec_matches_any, Key, KeyEvent, KeyModifiers, KeySpec};
use crate::text::{bounded_title, count_selected_text, decimal, display_width, spec_bounded_title, text_width};

verus! {

#[derive(Debug, Clone, Copy, PartialEq, Eq, Structural)]
pub enum DropdownFocusRegion {
    Field,
    Search,
}

/// How the popup's rows are filtered by the search text.
#[derive(Debug, Clone, Copy, PartialEq, Eq, Structural)]
pub enum DropdownSearchMode {
    Off,
    Contains,
    Fuzzy,
    /// The search text is handed out and the rows are replaced from outside; it filters nothing.
    External,
}

/// Whether a choice takes effect when confirmed or as soon as it is highlighted.
#[derive(Debug, Clone, Copy, PartialEq, Eq, Structural)]
pub enum DropdownCommitMode {
    Explicit,
    Immediate,
}

#[derive(Debug, Clone, Copy, PartialEq, Eq, Structural)]
pub enum DropdownVariant {
    Bordered,
    Filled,
}

#[derive(Debug, Clone, Copy, PartialEq, Eq, Structural)]
pub enum DropdownLabelPosition {
    Top,
    Inline,
}

#[derive(Debug, Clone, Copy, PartialEq, Eq, Structural)]
pub enum DropdownPopupDirection {
    Down,
    Up,
}

/// The binding of `code` with no modifier.
pub open spec fn bare(code: Key) -> KeySpec {
    KeySpec { code, modifiers: KeyModifiers { control: false, shift: false, alt: false } }
}

/// The keys that open the popup, commit the choice and toggle a row of a multiple choice.
#[derive(Debug, Clone, PartialEq, Eq)]
pub struct DropdownActionKeys {
    pub open: Vec<KeySpec>,
    pub commit: Vec<KeySpec>,
    pub toggle: Vec<KeySpec>,
}

impl DropdownActionKeys {
    /// Enter or space opens, Enter commits, space toggles.
    pub fn new() -> (r: DropdownActionKeys)
        ensures
            r.open@ == seq![bare(Key::Enter), bare(Key::Char(' '))],
            r.commit@ == seq![bare(Key::Enter)],
            r.toggle@ == seq![bare(Key::Char(' '))],
    {
        let open = vec![KeySpec::key(Key::Enter), KeySpec::plain(' ')];
        let commit = vec![KeySpec::key(Key::Enter)];
        let toggle = vec![KeySpec::plain(' ')];
        DropdownActionKeys { open, commit, toggle }
    }
}

/// The default action keys are the standard ones.
impl Default for DropdownActionKeys {
    fn default() -> (r: DropdownActionKeys)
        ensures
            r.open@ == seq![bare(Key::Enter), bare(Key::Char(' '))],
            r.commit@ == seq![bare(Key::Enter)],
            r.toggle@ == seq![bare(Key::Char(' '))],
    {
        DropdownActionKeys::new()
    }
}

/// What a dropdown operation did.
#[derive(Debug, Clone, Copy, PartialEq, Eq, Structural)]
pub struct DropdownOutcome {
    pub handled: bool,
    pub changed: bool,
    pub opened: bool,
    pub closed: bool,
    pub committed: bool,
    pub canceled: bool,
}

pub open spec fn idle_outcome() -> DropdownOutcome {
    DropdownOutcome {
        handled: false,
        changed: false,
        opened: false,
        closed: false,
        committed: false,
        canceled: false,
    }
}

pub open spec fn handled_outcome() -> DropdownOutcome {
    DropdownOutcome { handled: true, ..idle_outcome() }
}

pub open spec fn changed_outcome() -> DropdownOutcome {
    DropdownOutcome { handled: true, changed: true, ..idle_outcome() }
}

impl DropdownOutcome {
    /// Nothing was done.
    pub fn idle() -> (r: DropdownOutcome)
        ensures
            r == idle_outcome(),
    {
        DropdownOutcome {
            handled: false,
            changed: false,
            opened: false,
            closed: false,
            committed: false,
            canceled: false,
        }
    }

    /// The input was taken and nothing changed.
    pub fn handled() -> (r: DropdownOutcome)
        ensures
            r == handled_outcome(),
    {
        DropdownOutcome { handled: true, ..DropdownOutcome::idle() }
    }

    /// The input was taken and the dropdown changed.
    pub fn changed() -> (r: DropdownOutcome)
        ensures
            r == changed_outcome(),
    {
        DropdownOutcome { handled: true, changed: true, ..DropdownOutcome::idle() }
    }
}

/// The keys a dropdown answers: while closed, open and move the highlight one row; while open,
/// move the highlight one row or one page, choose the highlighted row, commit a multiple
/// choice, and cancel.
#[derive(Debug, Clone, PartialEq, Eq)]
pub struct DropdownKeys {
    pub open_next: Vec<KeySpec>,
    pub open_previous: Vec<KeySpec>,
    pub commit_choice: Vec<KeySpec>,
    pub next: Vec<KeySpec>,
    pub previous: Vec<KeySpec>,
    pub page_next: Vec<KeySpec>,
    pub page_previous: Vec<KeySpec>,
    pub select: Vec<KeySpec>,
    pub cancel: Vec<KeySpec>,
    pub focus_next: Vec<KeySpec>,
    pub focus_previous: Vec<KeySpec>,
}

pub open spec fn ctrl(code: Key) -> KeySpec {
    KeySpec { code, modifiers: KeyModifiers { control: true, shift: false, alt: false } }
}

impl DropdownKeys {
    /// Closed, Down and Up open the popup and move a row. Open, Down or Ctrl-j and Up or Ctrl-k
    /// move a row, PageDown or Ctrl-d and PageUp or Ctrl-u move a page, Ctrl-Enter or Ctrl-space
    /// chooses, Ctrl-Enter commits a multiple choice, Esc or Ctrl-[ (the terminal's Esc)
    /// cancels, Tab and BackTab move the focus.
    pub fn standard() -> (r: DropdownKeys)
        ensures
            r.open_next@ == seq![bare(Key::Down)],
            r.open_previous@ == seq![bare(Key::Up)],
            r.commit_choice@ == seq![ctrl(Key::Enter)],
            r.next@ == seq![bare(Key::Down), ctrl(Key::Char('j'))],
            r.previous@ == seq![bare(Key::Up), ctrl(Key::Char('k'))],
            r.page_next@ == seq![bare(Key::PageDown), ctrl(Key::Char('d'))],
            r.page_previous@ == seq![bare(Key::PageUp), ctrl(Key::Char('u'))],
            r.select@ == seq![ctrl(Key::Enter), ctrl(Key::Char(' '))],
            r.cancel@ == seq![bare(Key::Esc), ctrl(Key::Char('['))],
            r.focus_next@ == seq![bare(Key::Tab)],
            r.focus_previous@ == seq![bare(Key::BackTab)],
    {
        let c = KeyModifiers::control();
        DropdownKeys {
            open_next: vec![KeySpec::key(Key::Down)],
            open_previous: vec![KeySpec::key(Key::Up)],
            commit_choice: vec![KeySpec::key_with_modifiers(Key::Enter, c)],
            next: vec![KeySpec::key(Key::Down), KeySpec::key_with_modifiers(Key::Char('j'), c)],
            previous: vec![KeySpec::key(Key::Up), KeySpec::key_with_modifiers(Key::Char('k'), c)],
            page_next: vec![KeySpec::key(Key::PageDown), KeySpec::key_with_modifiers(Key::Char('d'), c)],
            page_previous: vec![KeySpec::key(Key::PageUp), KeySpec::key_with_modifiers(Key::Char('u'), c)],
            select: vec![KeySpec::key_with_modifiers(Key::Enter, c), KeySpec::key_with_modifiers(Key::Char(' '), c)],
            cancel: vec![KeySpec::key(Key::Esc), KeySpec::key_with_modifiers(Key::Char('['), c)],
            focus_next: vec![KeySpec::key(Key::Tab)],
            focus_previous: vec![KeySpec::key(Key::BackTab)],
        }
    }
}

/// The row a highlight moves to: `delta` rows from `current` among `len` rows, stopping at the
/// first and the last.
pub open spec fn spec_target_index(current: int, delta: int, len: int) -> int {
    let last = sat_sub(len, 1);
    if delta < 0 {
        sat_sub(current, -delta)
    } else {
        min_int(current + delta, last)
    }
}

pub fn target_index(current: usize, delta: isize, len: usize) -> (r: usize)
    ensures
        r == (if delta < 0 {
            sat_sub(current as int, -(delta as int))
        } else {
            min_int(min_int(current as int + delta as int, usize::MAX as int), sat_sub(len as int, 1))
        }),
{
    let last = len.saturating_sub(1);
    if delta < 0 {
        let magnitude: usize = if delta == isize::MIN {
            (isize::MAX as usize) + 1
        } else {
            (-delta) as usize
        };
        current.saturating_sub(magnitude)
    } else {
        let step = current.saturating_add(delta as usize);
        if step < last { step } else { last }
    }
}


// ---------------------------------------------------------------------------------------------
// Row identifiers
// ---------------------------------------------------------------------------------------------

/// Whether every id of `a` is one of `b`.
pub open spec fn all_in(a: Seq<u64>, b: Seq<u64>) -> bool {
    forall|i: int| 0 <= i < a.len() ==> b.contains(#[trigger] a[i])
}

pub fn copy_ids(v: &Vec<u64>) -> (r: Vec<u64>)
    ensures
        r@ == v@,
{
    let mut out: Vec<u64> = Vec::new();
    let mut i: usize = 0;
    while i < v.len()
        invariant
            i <= v@.len(),
            out@ == v@.take(i as int),
        decreases v@.len() - i,
    {
        out.push(v[i]);
        i += 1;
        assert(out@ =~= v@.take(i as int));
    }
    assert(v@.take(v@.len() as int) =~= v@);
    out
}

pub fn ids_equal(a: &Vec<u64>, b: &Vec<u64>) -> (r: bool)
    ensures
        r == (a@ == b@),
{
    if a.len() != b.len() {
        return false;
    }
    let mut i: usize = 0;
    while i < a.len()
        invariant
            a@.len() == b@.len(),
            i <= a@.len(),
            forall|j: int| 0 <= j < i ==> a@[j] == b@[j],
        decreases a@.len() - i,
    {
        if a[i] != b[i] {
            return false;
        }
        i += 1;
    }
    assert(a@ =~= b@);
    true
}

pub fn contains_id(v: &Vec<u64>, id: u64) -> (r: bool)
    ensures
        r == v@.contains(id),
{
    let mut i: usize = 0;
    while i < v.len()
        invariant
            i <= v@.len(),
            forall|j: int| 0 <= j < i ==> v@[j] != id,
        decreases v@.len() - i,
    {
        if v[i] == id {
            assert(v@[i as int] == id);
            return true;
        }
        i += 1;
    }
    false
}

/// The first position of `id` in `v`, `-1` when absent.
pub open spec fn position_of(v: Seq<u64>, id: u64) -> int
    decreases v.len(),
{
    if v.len() == 0 {
        -1
    } else if v.last() == id && position_of(v.drop_last(), id) < 0 {
        v.len() - 1
    } else {
        position_of(v.drop_last(), id)
    }
}

pub proof fn lemma_position_of(v: Seq<u64>, id: u64)
    ensures
        -1 <= position_of(v, id) < v.len(),
        position_of(v, id) >= 0 ==> v[position_of(v, id)] == id,
        position_of(v, id) < 0 <==> !v.contains(id),
    decreases v.len(),
{
    if v.len() > 0 {
        lemma_position_of(v.drop_last(), id);
        if v.contains(id) && !v.drop_last().contains(id) {
            let k = choose|k: int| 0 <= k < v.len() && v[k] == id;
            if k < v.len() - 1 {
                assert(v.drop_last()[k] == id);
            }
        }
        if v.drop_last().contains(id) {
            let k = choose|k: int| 0 <= k < v.len() - 1 && v.drop_last()[k] == id;
            assert(v[k] == id);
        }
    }
}

pub fn find_position(v: &Vec<u64>, id: u64) -> (r: Option<usize>)
    ensures
        match r {
            Some(i) => i == position_of(v@, id) && i < v@.len(),
            None => position_of(v@, id) < 0,
        },
{
    let mut i: usize = 0;
    while i < v.len()
        invariant
            i <= v@.len(),
            forall|j: int| 0 <= j < i ==> v@[j] != id,
        decreases v@.len() - i,
    {
        if v[i] == id {
            proof {
                lemma_position_first(v@, id, i as int);
            }
            return Some(i);
        }
        i += 1;
    }
    proof {
        lemma_position_of(v@, id);
    }
    None
}

proof fn lemma_position_first(v: Seq<u64>, id: u64, i: int)
    requires
        0 <= i < v.len(),
        v[i] == id,
        forall|j: int| 0 <= j < i ==> v[j] != id,
    ensures
        position_of(v, id) == i,
    decreases v.len(),
{
    if i < v.len() - 1 {
        lemma_position_first(v.drop_last(), id, i);
    } else {
        lemma_position_of(v.drop_last(), id);
        assert(!v.drop_last().contains(id)) by {
            if v.drop_last().contains(id) {
                let k = choose|k: int| 0 <= k < v.len() - 1 && v.drop_last()[k] == id;
                assert(v[k] == id);
            }
        }
    }
}

/// Whether an id differs from `id`.
pub open spec fn other_than(id: u64) -> spec_fn(u64) -> bool {
    |x: u64| x != id
}

/// Whether an id is one of `ids`.
pub open spec fn member_of(ids: Seq<u64>) -> spec_fn(u64) -> bool {
    |x: u64| ids.contains(x)
}

/// `v` with every occurrence of `id` taken out.
pub open spec fn without_id(v: Seq<u64>, id: u64) -> Seq<u64> {
    v.filter(other_than(id))
}

pub fn remove_id(v: &Vec<u64>, id: u64) -> (r: Vec<u64>)
    ensures
        r@ == without_id(v@, id),
{
    let mut out: Vec<u64> = Vec::new();
    let mut i: usize = 0;
    while i < v.len()
        invariant
            i <= v@.len(),
            out@ == v@.take(i as int).filter(other_than(id)),
        decreases v@.len() - i,
    {
        assert(v@.take(i + 1) =~= v@.take(i as int).push(v@[i as int]));
        proof {
            v@.take(i as int).lemma_filter_push(v@[i as int], other_than(id));
        }
        if v[i] != id {
            out.push(v[i]);
        }
        i += 1;
    }
    assert(v@.take(v@.len() as int) =~= v@);
    out
}

pub proof fn lemma_without_id_in(v: Seq<u64>, id: u64, b: Seq<u64>)
    requires
        all_in(v, b),
    ensures
        all_in(without_id(v, id), b),
    decreases v.len(),
{
    if v.len() > 0 {
        let init = v.drop_last();
        assert(init.push(v.last()) =~= v);
        assert(all_in(init, b)) by {
            assert forall|i: int| 0 <= i < init.len() implies b.contains(#[trigger] init[i]) by {
                assert(init[i] == v[i]);
            }
        }
        lemma_without_id_in(init, id, b);
        init.lemma_filter_push(v.last(), other_than(id));
        assert(b.contains(v[v.len() - 1]));
        let w = without_id(v, id);
        let wi = without_id(init, id);
        assert forall|i: int| 0 <= i < w.len() implies b.contains(#[trigger] w[i]) by {
            if i < wi.len() {
                assert(w[i] == wi[i]);
            }
        }
    } else {
        assert(without_id(v, id) =~= Seq::<u64>::empty()) by {
            reveal(Seq::filter);
        }
    }
}

/// A single id, or nothing.
pub open spec fn seq_of(h: Option<u64>) -> Seq<u64> {
    match h {
        Some(x) => seq![x],
        None => Seq::empty(),
    }
}

/// The highlight once the visible rows are `visible`: kept when it is among them (or when
/// no row shows), otherwise moved to the first row.
pub open spec fn rehighlight(h: Option<u64>, visible: Seq<u64>) -> Option<u64> {
    if visible.len() > 0 && !(h is Some && visible.contains(h->0)) {
        Some(visible[0])
    } else {
        h
    }
}

/// The highlight moved `delta` rows among `visible` from where it is (from the first row when it
/// is not among them), stopping at the first and last rows.
pub open spec fn moved_highlight(h: Option<u64>, visible: Seq<u64>, delta: int) -> Option<u64> {
    if visible.len() == 0 {
        h
    } else {
        let current = match h {
            Some(x) => if visible.contains(x) { position_of(visible, x) } else { 0 },
            None => 0,
        };
        Some(visible[spec_target_index(current, delta, visible.len() as int)])
    }
}


// ---------------------------------------------------------------------------------------------
// The dropdown
// ---------------------------------------------------------------------------------------------

/// A dropdown over rows identified by `ids` and shown by `labels`. `committed` is the choice in
/// effect; while the popup is open `draft` is the choice being made, `opened_committed` what
/// was in effect when it opened, `filtered` the rows the search leaves, `highlighted` the row
/// under the cursor and `view_selection` the rows marked in the popup. With no search text the
/// popup shows the rows of `visible_without_search` (every row when it is None); a search text
/// shorter than `min_search_chars` shows nothing, and at most `max_filtered_items` matches show.
#[derive(Debug)]
pub struct Dropdown {
    pub ids: Vec<u64>,
    pub labels: Vec<String>,
    pub committed: Vec<u64>,
    pub opened_committed: Vec<u64>,
    pub draft: Vec<u64>,
    pub filtered: Vec<u64>,
    pub view_selection: Vec<u64>,
    pub highlighted: Option<u64>,
    pub multi: bool,
    pub open: bool,
    pub search_mode: DropdownSearchMode,
    pub commit_mode: DropdownCommitMode,
    pub close_on_select: bool,
    pub max_popup_height: Option<u16>,
    pub auto_focus_search: bool,
    pub placeholder: String,
    pub variant: DropdownVariant,
    pub popup_direction: DropdownPopupDirection,
    pub centered: bool,
    pub field_area: Rect,
    pub overlay_bounds: Rect,
    pub focus_region: Option<DropdownFocusRegion>,
    pub label: Option<String>,
    pub hotkey: Option<String>,
    pub pending_hotkey_prefix: Option<String>,
    pub tab_stop: bool,
    pub alt_style: bool,
    pub label_position: DropdownLabelPosition,
    pub no_selection_text: Option<String>,
    pub no_selection_highlighted: bool,
    pub query: String,
    pub action_keys: DropdownActionKeys,
    pub min_search_chars: usize,
    pub max_filtered_items: Option<usize>,
    pub visible_without_search: Option<Vec<u64>>,
}

/// The configuration of `b` is that of `a`: only the choice, the popup and focus state differ.
pub open spec fn same_config(a: Dropdown, b: Dropdown) -> bool {
    &&& b.ids@ == a.ids@
    &&& b.labels@ == a.labels@
    &&& b.multi == a.multi
    &&& b.search_mode == a.search_mode
    &&& b.commit_mode == a.commit_mode
    &&& b.close_on_select == a.close_on_select
    &&& b.max_popup_height == a.max_popup_height
    &&& b.auto_focus_search == a.auto_focus_search
    &&& b.placeholder@ == a.placeholder@
    &&& b.variant == a.variant
    &&& b.popup_direction == a.popup_direction
    &&& b.centered == a.centered
    &&& b.field_area == a.field_area
    &&& b.overlay_bounds == a.overlay_bounds
    &&& b.label == a.label
    &&& b.hotkey == a.hotkey
    &&& b.pending_hotkey_prefix == a.pending_hotkey_prefix
    &&& b.tab_stop == a.tab_stop
    &&& b.alt_style == a.alt_style
    &&& b.label_position == a.label_position
    &&& b.no_selection_text == a.no_selection_text
    &&& b.action_keys == a.action_keys
    &&& b.min_search_chars == a.min_search_chars
    &&& b.max_filtered_items == a.max_filtered_items
    &&& b.visible_without_search == a.visible_without_search
}

/// The rows shown with no search text: those of `visible_without_search`, in row order, or
/// every row.
pub open spec fn unfiltered_rows(d: Dropdown) -> Seq<u64> {
    match d.visible_without_search {
        Some(v) => d.ids@.filter(member_of(v@)),
        None => d.ids@,
    }
}

/// At most `limit` of `rows`, from the first.
pub open spec fn limited(rows: Seq<u64>, limit: Option<usize>) -> Seq<u64> {
    match limit {
        Some(n) => if n < rows.len() { rows.take(n as int) } else { rows },
        None => rows,
    }
}

/// The rows of `ids` kept by `p` are rows of `ids`.
pub proof fn lemma_filter_in(ids: Seq<u64>, p: spec_fn(u64) -> bool)
    ensures
        all_in(ids.filter(p), ids),
{
    assert forall|i: int| 0 <= i < ids.filter(p).len() implies ids.contains(#[trigger] ids.filter(p)[i]) by {
        assert(ids.filter(p).contains(ids.filter(p)[i]));
        ids.lemma_filter_contains_rev(p, ids.filter(p)[i]);
    }
}

/// A new dropdown over `ids` shown as `labels`: the first row is highlighted, nothing is
/// chosen, the popup is closed with no search text and every row shows; fuzzy search with no
/// minimum text length and no limit on the matches shown, explicit commit, choosing
/// closes a single choice only, no height limit, the search field takes the focus on opening,
/// a bordered field with the placeholder "Select...", the popup below it, no label or hotkey,
/// a focus stop, the label on top, no clearing row, and the standard action keys (Enter or
/// space opens, Enter commits, space toggles).
pub open spec fn fresh_dropdown(r: Dropdown, ids: Seq<u64>, labels: Seq<String>, multi: bool) -> bool {
    &&& r.wf()
    &&& r.ids@ == ids
    &&& r.labels@ == labels
    &&& r.filtered@ == ids
    &&& r.min_search_chars == 0
    &&& r.max_filtered_items.is_none()
    &&& r.visible_without_search.is_none()
    &&& r.committed@.len() == 0
    &&& r.draft@.len() == 0
    &&& r.opened_committed@.len() == 0
    &&& r.view_selection@.len() == 0
    &&& r.highlighted == (if ids.len() > 0 { Some(ids[0]) } else { None::<u64> })
    &&& r.multi == multi
    &&& !r.open
    &&& r.search_mode == DropdownSearchMode::Fuzzy
    &&& r.commit_mode == DropdownCommitMode::Explicit
    &&& r.close_on_select == !multi
    &&& r.max_popup_height.is_none()
    &&& r.auto_focus_search
    &&& r.placeholder@ == "Select..."@
    &&& r.variant == DropdownVariant::Bordered
    &&& r.popup_direction == DropdownPopupDirection::Down
    &&& !r.centered
    &&& r.field_area == (Rect { x: 0, y: 0, width: 0, height: 0 })
    &&& r.overlay_bounds == (Rect { x: 0, y: 0, width: 0, height: 0 })
    &&& r.focus_region.is_none()
    &&& r.label.is_none()
    &&& r.hotkey.is_none()
    &&& r.pending_hotkey_prefix.is_none()
    &&& r.tab_stop
    &&& !r.alt_style
    &&& r.label_position == DropdownLabelPosition::Top
    &&& r.no_selection_text.is_none()
    &&& !r.no_selection_highlighted
    &&& r.query@.len() == 0
    &&& r.action_keys.open@ == seq![bare(Key::Enter), bare(Key::Char(' '))]
    &&& r.action_keys.commit@ == seq![bare(Key::Enter)]
    &&& r.action_keys.toggle@ == seq![bare(Key::Char(' '))]
}

impl Dropdown {
    /// Every choice names a known row, a single choice holds at most one row, a closed
    /// dropdown has no search text, and with no search text the unfiltered rows show.
    pub open spec fn wf(self) -> bool {
        &&& self.ids@.len() == self.labels@.len()
        &&& all_in(self.committed@, self.ids@)
        &&& all_in(self.opened_committed@, self.ids@)
        &&& all_in(self.draft@, self.ids@)
        &&& all_in(self.filtered@, self.ids@)
        &&& all_in(self.view_selection@, self.ids@)
        &&& (self.highlighted matches Some(h) ==> self.ids@.contains(h))
        &&& (!self.multi ==> self.committed@.len() <= 1 && self.draft@.len() <= 1
            && self.opened_committed@.len() <= 1)
        &&& (!self.open ==> self.query@.len() == 0)
        &&& (self.query@.len() == 0 ==> self.filtered@ == unfiltered_rows(self))
        &&& (self.no_selection_highlighted ==> self.no_selection_text is Some)
        &&& self.overlay_bounds.spec_fits()
    }

    /// Whether the popup offers the row that clears the choice.
    pub open spec fn spec_show_no_selection_row(self) -> bool {
        self.no_selection_text is Some && self.query@.len() == 0
    }

    pub open spec fn spec_search_enabled(self) -> bool {
        self.search_mode != DropdownSearchMode::Off
    }

    /// A dropdown over `ids` shown as `labels`, choosing one row or several; the first row is
    /// highlighted, nothing is chosen, the popup is closed, and the settings are the defaults
    /// (`fresh_dropdown`).
    pub fn new(ids: Vec<u64>, labels: Vec<String>, multi: bool) -> (r: Dropdown)
        requires
            ids@.len() == labels@.len(),
        ensures
            fresh_dropdown(r, ids@, labels@, multi),
    {
        let filtered = copy_ids(&ids);
        let highlighted = if ids.len() > 0 { Some(ids[0]) } else { None };
        let d = Dropdown {
            ids,
            labels,
            committed: Vec::new(),
            opened_committed: Vec::new(),
            draft: Vec::new(),
            filtered,
            view_selection: Vec::new(),
            highlighted,
            multi,
            open: false,
            search_mode: DropdownSearchMode::Fuzzy,
            commit_mode: DropdownCommitMode::Explicit,
            close_on_select: !multi,
            max_popup_height: None,
            auto_focus_search: true,
            placeholder: String::from_str("Select..."),
            variant: DropdownVariant::Bordered,
            popup_direction: DropdownPopupDirection::Down,
            centered: false,
            field_area: Rect::zero(),
            overlay_bounds: Rect::zero(),
            focus_region: None,
            label: None,
            hotkey: None,
            pending_hotkey_prefix: None,
            tab_stop: true,
            alt_style: false,
            label_position: DropdownLabelPosition::Top,
            no_selection_text: None,
            no_selection_highlighted: false,
            query: String::new(),
            action_keys: DropdownActionKeys::new(),
            min_search_chars: 0,
            max_filtered_items: None,
            visible_without_search: None,
        };
        proof {
            if d.highlighted is Some {
                assert(d.ids@.contains(d.ids@[0]));
            }
            reveal_strlit("Select...");
        }
        d
    }

    /// A dropdown that chooses one row, with the default settings.
    pub fn single(ids: Vec<u64>, labels: Vec<String>) -> (r: Dropdown)
        requires
            ids@.len() == labels@.len(),
        ensures
            fresh_dropdown(r, ids@, labels@, false),
    {
        Dropdown::new(ids, labels, false)
    }

    /// A dropdown that chooses several rows, with the default settings.
    pub fn multi(ids: Vec<u64>, labels: Vec<String>) -> (r: Dropdown)
        requires
            ids@.len() == labels@.len(),
        ensures
            fresh_dropdown(r, ids@, labels@, true),
    {
        Dropdown::new(ids, labels, true)
    }

    /// The ids of `wanted` that name known rows, in order.
    pub open spec fn spec_known_ids(self, wanted: Seq<u64>) -> Seq<u64> {
        wanted.filter(member_of(self.ids@))
    }

    /// Chooses the known rows of `wanted` (the first of them for a single choice) and takes
    /// them as the draft too.
    pub fn selected(self, wanted: Vec<u64>) -> (r: Dropdown)
        requires
            self.wf(),
        ensures
            r.wf(),
            same_config(self, r),
            r.committed@ == (if self.multi {
                self.spec_known_ids(wanted@)
            } else {
                self.spec_known_ids(wanted@).take(min_int(1, self.spec_known_ids(wanted@).len() as int))
            }),
            r.draft@ == r.committed@,
            r.view_selection@ == r.committed@,
            !r.no_selection_highlighted,
            r.open == self.open,
            r.filtered@ == self.filtered@,
            r.highlighted == self.highlighted,
            r.query@ == self.query@,
            r.opened_committed@ == self.opened_committed@,
            r.focus_region == self.focus_region,
    {
        let ghost pred = member_of(self.ids@);
        let mut known: Vec<u64> = Vec::new();
        let mut i: usize = 0;
        while i < wanted.len()
            invariant
                i <= wanted@.len(),
                self.wf(),
                pred == member_of(self.ids@),
                known@ == wanted@.take(i as int).filter(pred),
                all_in(known@, self.ids@),
            decreases wanted@.len() - i,
        {
            assert(wanted@.take(i + 1) =~= wanted@.take(i as int).push(wanted@[i as int]));
            proof {
                wanted@.take(i as int).lemma_filter_push(wanted@[i as int], pred);
            }
            let id = wanted[i];
            if contains_id(&self.ids, id) {
                known.push(id);
            }
            i += 1;
        }
        assert(wanted@.take(wanted@.len() as int) =~= wanted@);
        if !self.multi && known.len() > 1 {
            known.truncate(1);
        }
        assert(known@ =~= (if self.multi {
            self.spec_known_ids(wanted@)
        } else {
            self.spec_known_ids(wanted@).take(min_int(1, self.spec_known_ids(wanted@).len() as int))
        }));
        let draft = copy_ids(&known);
        let view = copy_ids(&known);
        Dropdown { committed: known, draft, view_selection: view, no_selection_highlighted: false, ..self }
    }

    /// Chooses the row `id` if it is known.
    pub fn selected_one(self, id: u64) -> (r: Dropdown)
        requires
            self.wf(),
        ensures
            r.wf(),
            same_config(self, r),
            r.committed@ == (if self.ids@.contains(id) { seq![id] } else { Seq::<u64>::empty() }),
            r.draft@ == r.committed@,
            r.view_selection@ == r.committed@,
            !r.no_selection_highlighted,
            r.open == self.open,
            r.filtered@ == self.filtered@,
            r.highlighted == self.highlighted,
            r.query@ == self.query@,
            r.opened_committed@ == self.opened_committed@,
            r.focus_region == self.focus_region,
    {
        let wanted = vec![id];
        assert(wanted@ =~= seq![id]);
        let ghost known = self.spec_known_ids(seq![id]);
        let r = self.selected(wanted);
        proof {
            let p = member_of(self.ids@);
            assert(Seq::<u64>::empty().filter(p) =~= Seq::<u64>::empty()) by {
                reveal(Seq::filter);
            }
            Seq::<u64>::empty().lemma_filter_push(id, p);
            assert(Seq::<u64>::empty().push(id) =~= seq![id]);
            assert(known =~= (if self.ids@.contains(id) {
                seq![id]
            } else {
                Seq::<u64>::empty()
            }));
            assert(known.take(min_int(1, known.len() as int)) =~= known);
        }
        r
    }

    /// The first committed row.
    pub fn selected_id(&self) -> (r: Option<u64>)
        ensures
            r == (if self.committed@.len() > 0 { Some(self.committed@[0]) } else { None::<u64> }),
    {
        if self.committed.len() > 0 { Some(self.committed[0]) } else { None }
    }

    /// The committed rows.
    pub fn selected_ids(&self) -> (r: Vec<u64>)
        ensures
            r@ == self.committed@,
    {
        copy_ids(&self.committed)
    }

    pub fn search_query(&self) -> (r: &String)
        ensures
            r@ == self.query@,
    {
        &self.query
    }

    pub fn is_open(&self) -> (r: bool)
        ensures
            r == self.open,
    {
        self.open
    }

    pub fn is_focused(&self) -> (r: bool)
        ensures
            r == self.focus_region.is_some(),
    {
        self.focus_region.is_some()
    }

    pub fn search_enabled(&self) -> (r: bool)
        ensures
            r == self.spec_search_enabled(),
    {
        self.search_mode != DropdownSearchMode::Off
    }

    pub fn show_no_selection_row(&self) -> (r: bool)
        ensures
            r == self.spec_show_no_selection_row(),
    {
        self.no_selection_text.is_some() && self.query.as_str().unicode_len() == 0
    }
}


/// The popup is open, the draft and marks restart from the committed choice (from the
/// highlighted row for an empty single choice with no clearing row), the committed row is
/// highlighted, the unfiltered rows show, and the clearing row is highlighted when nothing is chosen.
pub open spec fn opened_post(a: Dropdown, b: Dropdown) -> bool {
    let h1 = if a.committed@.len() > 0 { Some(a.committed@[0]) } else { a.highlighted };
    let draft = if !a.multi && a.committed@.len() == 0 && a.no_selection_text is None {
        seq_of(h1)
    } else {
        a.committed@
    };
    &&& same_config(a, b)
    &&& b.open
    &&& b.committed@ == a.committed@
    &&& b.opened_committed@ == a.committed@
    &&& b.draft@ == draft
    &&& b.view_selection@ == draft
    &&& b.filtered@ == unfiltered_rows(a)
    &&& b.highlighted == rehighlight(h1, unfiltered_rows(a))
    &&& b.query@ == a.query@
    &&& b.no_selection_highlighted == (a.no_selection_text is Some && a.committed@.len() == 0)
    &&& b.focus_region == a.focus_region
}

/// The popup is closed: the search text is cleared, the unfiltered rows show again, the clearing row
/// is no longer highlighted and the choice held at opening is forgotten; the choice itself is
/// kept.
pub open spec fn closed_post(a: Dropdown, b: Dropdown) -> bool {
    &&& same_config(a, b)
    &&& !b.open
    &&& b.committed@ == a.committed@
    &&& b.draft@ == a.draft@
    &&& b.view_selection@ == a.view_selection@
    &&& b.opened_committed@.len() == 0
    &&& b.query@.len() == 0
    &&& b.filtered@ == unfiltered_rows(a)
    &&& b.highlighted == (if a.query@.len() > 0 {
        rehighlight(a.highlighted, unfiltered_rows(a))
    } else {
        a.highlighted
    })
    &&& !b.no_selection_highlighted
    &&& b.focus_region == a.focus_region
}

pub open spec fn closed_outcome() -> DropdownOutcome {
    DropdownOutcome { handled: true, changed: true, closed: true, ..idle_outcome() }
}

/// The choice a commit takes: the draft, or the highlighted row for an empty single draft with
/// no clearing row.
pub open spec fn commit_choice(a: Dropdown) -> Seq<u64> {
    if !a.multi && a.draft@.len() == 0 && a.no_selection_text is None {
        seq_of(a.highlighted)
    } else {
        a.draft@
    }
}

/// `open`: nothing happens when already open, otherwise the popup opens (`opened_post`).
pub open spec fn open_post(a: Dropdown, b: Dropdown, r: DropdownOutcome) -> bool {
    if a.open {
        b == a && r == handled_outcome()
    } else {
        opened_post(a, b) && r == DropdownOutcome {
            handled: true,
            changed: true,
            opened: true,
            ..idle_outcome()
        }
    }
}

/// `close`: nothing happens when already closed, otherwise the popup closes (`closed_post`).
pub open spec fn close_post(a: Dropdown, b: Dropdown, r: DropdownOutcome) -> bool {
    if !a.open {
        b == a && r == handled_outcome()
    } else {
        closed_post(a, b) && r == closed_outcome()
    }
}

/// `cancel`: nothing happens when closed; otherwise the choice held when the popup opened
/// (under immediate commit, the choice committed since) becomes the committed choice, draft
/// and marks again, and the popup closes.
pub open spec fn cancel_post(a: Dropdown, b: Dropdown, r: DropdownOutcome) -> bool {
    if !a.open {
        b == a && r == handled_outcome()
    } else {
        let kept = if a.commit_mode == DropdownCommitMode::Immediate { a.committed } else { a.opened_committed };
        let restored = Dropdown { committed: kept, draft: kept, view_selection: kept, ..a };
        &&& closed_post(restored, b)
        &&& r == DropdownOutcome { canceled: true, ..closed_outcome() }
    }
}

/// `commit`: the commit choice becomes draft and committed choice, and the popup closes.
pub open spec fn commit_post(a: Dropdown, b: Dropdown, r: DropdownOutcome) -> bool {
    let choice = commit_choice(a);
    let mid = Dropdown { committed: b.committed, draft: b.draft, ..a };
    &&& b.committed@ == choice
    &&& b.draft@ == choice
    &&& (a.open ==> closed_post(mid, b) && r == DropdownOutcome { committed: true, ..closed_outcome() })
    &&& (!a.open ==> b == mid && r == DropdownOutcome {
        handled: true,
        committed: true,
        changed: a.committed@ != choice,
        ..idle_outcome()
    })
}

/// Choosing the highlighted row: the clearing row commits an empty choice, a row of a single
/// choice is committed, a row of a multiple choice is toggled.
pub open spec fn select_post(a: Dropdown, b: Dropdown, r: DropdownOutcome) -> bool {
    if a.no_selection_highlighted || !a.multi {
        let choice = if a.no_selection_highlighted { Seq::<u64>::empty() } else { seq_of(a.highlighted) };
        &&& b.committed@ == choice
        &&& b.draft@ == choice
        &&& b.view_selection@ == choice
        &&& closed_post(with_choice(a, b), b)
        &&& r == DropdownOutcome { committed: true, ..closed_outcome() }
    } else {
        toggled_post(a, b, r)
    }
}

impl Dropdown {
    /// The rows shown with no search text.
    pub fn unfiltered_ids(&self) -> (r: Vec<u64>)
        ensures
            r@ == unfiltered_rows(*self),
    {
        match &self.visible_without_search {
            None => copy_ids(&self.ids),
            Some(v) => {
                let mut out: Vec<u64> = Vec::new();
                let mut i: usize = 0;
                while i < self.ids.len()
                    invariant
                        i <= self.ids@.len(),
                        out@ == self.ids@.take(i as int).filter(member_of(v@)),
                    decreases self.ids@.len() - i,
                {
                    assert(self.ids@.take(i + 1) =~= self.ids@.take(i as int).push(self.ids@[i as int]));
                    proof {
                        self.ids@.take(i as int).lemma_filter_push(self.ids@[i as int], member_of(v@));
                    }
                    if contains_id(v, self.ids[i]) {
                        out.push(self.ids[i]);
                    }
                    i += 1;
                }
                assert(self.ids@.take(self.ids@.len() as int) =~= self.ids@);
                out
            },
        }
    }

    fn set_filtered_to_unfiltered(&mut self)
        ensures
            *final(self) == (Dropdown { filtered: final(self).filtered, ..*old(self) }),
            final(self).filtered@ == unfiltered_rows(*old(self)),
            all_in(final(self).filtered@, old(self).ids@),
    {
        self.filtered = self.unfiltered_ids();
        proof {
            if self.visible_without_search is Some {
                lemma_filter_in(self.ids@, member_of(self.visible_without_search->0@));
            } else {
                assert forall|i: int| 0 <= i < self.ids@.len() implies self.ids@.contains(#[trigger] self.ids@[i]) by {}
            }
        }
    }

    /// Moves the highlight to the first visible row when it is not among them.
    fn rehighlight_visible(&mut self)
        ensures
            *final(self) == (Dropdown { highlighted: final(self).highlighted, ..*old(self) }),
            final(self).highlighted == rehighlight(old(self).highlighted, old(self).filtered@),
    {
        if self.filtered.len() > 0 {
            let keep = match self.highlighted {
                Some(h) => contains_id(&self.filtered, h),
                None => false,
            };
            if !keep {
                self.highlighted = Some(self.filtered[0]);
            }
        }
    }

    fn clear_search_query(&mut self)
        requires
            old(self).wf(),
        ensures
            same_config(*old(self), *final(self)),
            final(self).query@.len() == 0,
            final(self).filtered@ == unfiltered_rows(*old(self)),
            final(self).highlighted == (if old(self).query@.len() > 0 {
                rehighlight(old(self).highlighted, unfiltered_rows(*old(self)))
            } else {
                old(self).highlighted
            }),
            final(self).no_selection_highlighted == (old(self).no_selection_highlighted
                && (old(self).query@.len() == 0 || old(self).no_selection_text is Some)),
            final(self).open == old(self).open,
            final(self).committed@ == old(self).committed@,
            final(self).opened_committed@ == old(self).opened_committed@,
            final(self).draft@ == old(self).draft@,
            final(self).view_selection@ == old(self).view_selection@,
            final(self).focus_region == old(self).focus_region,
            final(self).wf(),
    {
        if self.query.as_str().unicode_len() > 0 {
            self.query = String::new();
            self.set_filtered_to_unfiltered();
            if self.no_selection_text.is_none() {
                self.no_selection_highlighted = false;
            }
            self.rehighlight_visible();
            proof {
                if self.highlighted is Some && old(self).highlighted is None {
                    assert(self.ids@.contains(self.ids@[0]));
                }
            }
        }
    }

    /// Opens the popup.
    #[verifier::spinoff_prover]
    #[verifier::rlimit(40)]
    pub fn open(&mut self) -> (r: DropdownOutcome)
        requires
            old(self).wf(),
        ensures
            final(self).wf(),
            open_post(*old(self), *final(self), r),
    {
        if self.open {
            return DropdownOutcome::handled();
        }
        self.open = true;
        self.opened_committed = copy_ids(&self.committed);
        self.draft = copy_ids(&self.committed);
        if self.committed.len() > 0 {
            self.highlighted = Some(self.committed[0]);
        }
        if !self.multi && self.draft.len() == 0 && self.no_selection_text.is_none() {
            self.draft = match self.highlighted {
                Some(h) => vec![h],
                None => Vec::new(),
            };
            assert(self.draft@ =~= seq_of(self.highlighted));
        }
        self.set_filtered_to_unfiltered();
        self.rehighlight_visible();
        self.no_selection_highlighted = self.no_selection_text.is_some() && self.committed.len() == 0;
        self.view_selection = copy_ids(&self.draft);
        proof {
            assert(old(self).query@.len() == 0);
            if self.highlighted is Some {
                if old(self).committed@.len() > 0 {
                    assert(self.ids@.contains(old(self).committed@[0]));
                }
                assert(self.ids@.contains(self.highlighted->0)) by {
                    if self.ids@.len() > 0 && !(self.ids@.contains(self.highlighted->0)) {
                        assert(self.ids@.contains(self.ids@[0]));
                    }
                }
            }
            if old(self).committed@.len() > 0 {
                assert(self.ids@.contains(old(self).committed@[0]));
            }
        }
        DropdownOutcome { handled: true, changed: true, opened: true, ..DropdownOutcome::idle() }
    }

    /// Closes the popup, keeping the committed choice.
    #[verifier::spinoff_prover]
    #[verifier::rlimit(40)]
    pub fn close(&mut self) -> (r: DropdownOutcome)
        requires
            old(self).wf(),
        ensures
            final(self).wf(),
            close_post(*old(self), *final(self), r),
    {
        if !self.open {
            return DropdownOutcome::handled();
        }
        self.clear_search_query();
        self.open = false;
        self.no_selection_highlighted = false;
        self.opened_committed = Vec::new();
        DropdownOutcome { handled: true, changed: true, closed: true, ..DropdownOutcome::idle() }
    }

    /// Closes the popup and restores the choice in effect when it opened; under immediate
    /// commit the choice committed while it was open stays.
    #[verifier::spinoff_prover]
    #[verifier::rlimit(40)]
    pub fn cancel(&mut self) -> (r: DropdownOutcome)
        requires
            old(self).wf(),
        ensures
            final(self).wf(),
            cancel_post(*old(self), *final(self), r),
    {
        if !self.open {
            return DropdownOutcome::handled();
        }
        if self.commit_mode != DropdownCommitMode::Immediate && (self.opened_committed.len() > 0 || self.committed.len() > 0) {
            self.committed = copy_ids(&self.opened_committed);
        }
        self.draft = copy_ids(&self.committed);
        self.view_selection = copy_ids(&self.draft);
        let ghost mid = *self;
        assert(mid.committed@ == (if old(self).commit_mode == DropdownCommitMode::Immediate {
            old(self).committed@
        } else {
            old(self).opened_committed@
        }));
        let mut outcome = self.close();
        outcome.canceled = true;
        outcome.handled = true;
        outcome.changed = true;
        outcome
    }

    /// Takes the commit choice as both draft and committed choice; returns whether the
    /// committed choice changed.
    fn adopt_choice(&mut self) -> (changed: bool)
        requires
            old(self).wf(),
        ensures
            final(self).wf(),
            *final(self) == (Dropdown {
                committed: final(self).committed,
                draft: final(self).draft,
                ..*old(self)
            }),
            final(self).committed@ == commit_choice(*old(self)),
            final(self).draft@ == commit_choice(*old(self)),
            changed == (old(self).committed@ != commit_choice(*old(self))),
    {
        if !self.multi && self.draft.len() == 0 && self.no_selection_text.is_none() {
            self.draft = match self.highlighted {
                Some(h) => vec![h],
                None => Vec::new(),
            };
            assert(self.draft@ =~= seq_of(self.highlighted));
        }
        let changed = !ids_equal(&self.committed, &self.draft);
        self.committed = copy_ids(&self.draft);
        changed
    }

    /// Takes the draft (the highlighted row for an empty single draft with no clearing row) as
    /// the committed choice and closes the popup.
    #[verifier::spinoff_prover]
    #[verifier::rlimit(40)]
    pub fn commit(&mut self) -> (r: DropdownOutcome)
        requires
            old(self).wf(),
        ensures
            final(self).wf(),
            commit_post(*old(self), *final(self), r),
    {
        let changed = self.adopt_choice();
        let mut outcome = self.close();
        outcome.committed = true;
        outcome.changed = outcome.changed || changed;
        outcome
    }
}


/// A highlight move: one row or one page down or up.
#[derive(Debug, Clone, Copy, PartialEq, Eq, Structural)]
pub enum DropdownNav {
    Down,
    Up,
    PageDown,
    PageUp,
}

/// How many rows a move goes, downwards positive, for a page of `page` rows (at least one).
pub open spec fn nav_delta(nav: DropdownNav, page: u16) -> int {
    let page = if page < 1 { 1 } else { page as int };
    match nav {
        DropdownNav::Down => 1,
        DropdownNav::Up => -1,
        DropdownNav::PageDown => page,
        DropdownNav::PageUp => -page,
    }
}

pub open spec fn nav_up(nav: DropdownNav) -> bool {
    nav == DropdownNav::Up || nav == DropdownNav::PageUp
}

/// A single choice follows the highlight: draft and marks become the highlighted row and, for
/// an immediate commit, so does the committed choice.
pub open spec fn follows_highlight(a: Dropdown, b: Dropdown, h: Option<u64>) -> bool {
    if !a.multi {
        &&& b.draft@ == seq_of(h)
        &&& b.view_selection@ == seq_of(h)
        &&& b.committed@ == (if a.commit_mode == DropdownCommitMode::Immediate {
            seq_of(h)
        } else {
            a.committed@
        })
    } else {
        &&& b.draft@ == a.draft@
        &&& b.view_selection@ == a.view_selection@
        &&& b.committed@ == a.committed@
    }
}

/// The effect of a highlight move `nav` with pages of `page` rows. From the clearing row a move
/// down leaves it (a single choice follows the highlight) and a move up does nothing. Moving up
/// from the first row, when the clearing row shows, highlights the clearing row and empties the
/// draft (and, for an immediate commit, the choice). Otherwise the highlight moves and a single
/// choice follows it.
pub open spec fn navigated_post(a: Dropdown, b: Dropdown, nav: DropdownNav, page: u16, r: DropdownOutcome) -> bool {
    &&& same_config(a, b)
    &&& b.open == a.open
    &&& b.query@ == a.query@
    &&& b.filtered@ == a.filtered@
    &&& b.opened_committed@ == a.opened_committed@
    &&& b.focus_region == a.focus_region
    &&& if a.no_selection_highlighted {
        if !nav_up(nav) {
            &&& !b.no_selection_highlighted
            &&& b.highlighted == a.highlighted
            &&& follows_highlight(a, b, a.highlighted)
            &&& r == changed_outcome()
        } else {
            &&& b == a
            &&& r == handled_outcome()
        }
    } else {
        let h2 = moved_highlight(a.highlighted, a.filtered@, nav_delta(nav, page));
        let to_clearing = nav_up(nav) && a.spec_show_no_selection_row() && a.filtered@.len() > 0
            && a.highlighted == Some(a.filtered@[0]);
        &&& b.highlighted == h2
        &&& if to_clearing {
            &&& b.no_selection_highlighted
            &&& b.draft@.len() == 0
            &&& b.view_selection@.len() == 0
            &&& b.committed@ == (if a.commit_mode == DropdownCommitMode::Immediate {
                Seq::<u64>::empty()
            } else {
                a.committed@
            })
            &&& r == DropdownOutcome {
                committed: a.commit_mode == DropdownCommitMode::Immediate,
                ..changed_outcome()
            }
        } else {
            &&& !b.no_selection_highlighted
            &&& follows_highlight(a, b, h2)
            &&& r == DropdownOutcome {
                handled: true,
                changed: h2 != a.highlighted,
                committed: !a.multi && a.commit_mode == DropdownCommitMode::Immediate,
                ..idle_outcome()
            }
        }
    }
}

impl Dropdown {
    /// Moves the highlight `delta` rows among the visible rows.
    fn move_highlight(&mut self, delta: isize)
        requires
            old(self).wf(),
        ensures
            final(self).wf(),
            *final(self) == (Dropdown { highlighted: final(self).highlighted, ..*old(self) }),
            final(self).highlighted == moved_highlight(old(self).highlighted, old(self).filtered@, delta as int),
    {
        let len = self.filtered.len();
        if len == 0 {
            return;
        }
        let current: usize = match self.highlighted {
            Some(h) => match find_position(&self.filtered, h) {
                Some(i) => i,
                None => 0,
            },
            None => 0,
        };
        proof {
            match self.highlighted {
                Some(h) => lemma_position_of(self.filtered@, h),
                None => {},
            }
        }
        let t = target_index(current, delta, len);
        self.highlighted = Some(self.filtered[t]);
        proof {
            assert(self.ids@.contains(self.filtered@[t as int]));
        }
    }

    /// A single choice takes the highlighted row as draft and marks, and as committed choice
    /// for an immediate commit.
    fn follow_highlight(&mut self)
        requires
            old(self).wf(),
            !old(self).multi,
        ensures
            final(self).wf(),
            *final(self) == (Dropdown {
                draft: final(self).draft,
                view_selection: final(self).view_selection,
                committed: final(self).committed,
                ..*old(self)
            }),
            follows_highlight(*old(self), *final(self), old(self).highlighted),
    {
        self.draft = match self.highlighted {
            Some(h) => vec![h],
            None => Vec::new(),
        };
        assert(self.draft@ =~= seq_of(self.highlighted));
        self.view_selection = copy_ids(&self.draft);
        if self.commit_mode == DropdownCommitMode::Immediate {
            self.committed = copy_ids(&self.draft);
        }
    }

    /// Moves the highlight (see `navigated_post`); `page` is the height of the rows area.
    #[verifier::spinoff_prover]
    #[verifier::rlimit(40)]
    pub fn navigate(&mut self, nav: DropdownNav, page: u16) -> (r: DropdownOutcome)
        requires
            old(self).wf(),
            old(self).open,
        ensures
            final(self).wf(),
            navigated_post(*old(self), *final(self), nav, page, r),
    {
        let up = match nav {
            DropdownNav::Up => true,
            DropdownNav::PageUp => true,
            _ => false,
        };
        if self.no_selection_highlighted {
            if !up {
                self.no_selection_highlighted = false;
                if !self.multi {
                    self.follow_highlight();
                }
                return DropdownOutcome::changed();
            }
            return DropdownOutcome::handled();
        }
        let step: isize = if page < 1 { 1 } else { page as isize };
        let delta: isize = match nav {
            DropdownNav::Down => 1,
            DropdownNav::Up => -1,
            DropdownNav::PageDown => step,
            DropdownNav::PageUp => -step,
        };
        let to_clearing = up && self.show_no_selection_row() && self.filtered.len() > 0 && match self.highlighted {
            Some(h) => h == self.filtered[0],
            None => false,
        };
        let before = self.highlighted;
        self.move_highlight(delta);
        let changed = before != self.highlighted;
        if to_clearing {
            self.draft = Vec::new();
            self.view_selection = Vec::new();
            self.no_selection_highlighted = true;
            let immediate = self.commit_mode == DropdownCommitMode::Immediate;
            if immediate {
                self.committed = Vec::new();
            }
            return DropdownOutcome { committed: immediate, ..DropdownOutcome::changed() };
        }
        self.no_selection_highlighted = false;
        if !self.multi {
            self.follow_highlight();
        }
        DropdownOutcome {
            handled: true,
            changed,
            committed: !self.multi && self.commit_mode == DropdownCommitMode::Immediate,
            ..DropdownOutcome::idle()
        }
    }
}


/// `v` with `id` marked when it was not and unmarked when it was.
pub open spec fn toggled(v: Seq<u64>, id: u64) -> Seq<u64> {
    if v.contains(id) {
        without_id(v, id)
    } else {
        v.push(id)
    }
}

/// The state `a` with its choice, draft and marks taken from `b`.
pub open spec fn with_choice(a: Dropdown, b: Dropdown) -> Dropdown {
    Dropdown { committed: b.committed, draft: b.draft, view_selection: b.view_selection, ..a }
}

/// Toggling the highlighted row of a multiple choice: its mark flips and the draft becomes the
/// marks; when choosing closes the popup, the marks are committed and the popup closes.
pub open spec fn toggled_post(a: Dropdown, b: Dropdown, r: DropdownOutcome) -> bool {
    match a.highlighted {
        None => b == a && r == handled_outcome(),
        Some(id) => {
            let v = toggled(a.view_selection@, id);
            &&& b.draft@ == v
            &&& b.view_selection@ == v
            &&& if a.close_on_select {
                &&& b.committed@ == v
                &&& closed_post(with_choice(a, b), b)
                &&& r == DropdownOutcome { committed: true, ..closed_outcome() }
            } else {
                &&& b == with_choice(a, b)
                &&& b.committed@ == a.committed@
                &&& r == changed_outcome()
            }
        },
    }
}

impl Dropdown {
    /// Flips the mark of the highlighted row of a multiple choice.
    #[verifier::spinoff_prover]
    #[verifier::rlimit(40)]
    pub fn toggle_highlighted(&mut self) -> (r: DropdownOutcome)
        requires
            old(self).wf(),
            old(self).open,
            old(self).multi,
        ensures
            final(self).wf(),
            toggled_post(*old(self), *final(self), r),
    {
        let id = match self.highlighted {
            None => {
                return DropdownOutcome::handled();
            },
            Some(id) => id,
        };
        if contains_id(&self.view_selection, id) {
            let v = remove_id(&self.view_selection, id);
            proof {
                lemma_without_id_in(self.view_selection@, id, self.ids@);
            }
            self.view_selection = v;
        } else {
            self.view_selection.push(id);
            proof {
                assert forall|i: int| 0 <= i < self.view_selection@.len() implies self.ids@.contains(
                    #[trigger] self.view_selection@[i],
                ) by {
                    if i < old(self).view_selection@.len() {
                        assert(self.view_selection@[i] == old(self).view_selection@[i]);
                    }
                }
            }
        }
        self.draft = copy_ids(&self.view_selection);
        if self.close_on_select {
            self.committed = copy_ids(&self.draft);
            let ghost mid = *self;
            assert(mid == with_choice(*old(self), mid));
            let mut outcome = self.close();
            outcome.committed = true;
            return outcome;
        }
        DropdownOutcome::changed()
    }

    /// Chooses the highlighted row: the clearing row commits an empty choice, a row of a
    /// single choice is committed, a row of a multiple choice is toggled.
    #[verifier::spinoff_prover]
    #[verifier::rlimit(40)]
    pub fn select_highlighted(&mut self) -> (r: DropdownOutcome)
        requires
            old(self).wf(),
            old(self).open,
        ensures
            final(self).wf(),
            select_post(*old(self), *final(self), r),
    {
        if self.no_selection_highlighted {
            self.draft = Vec::new();
            self.view_selection = Vec::new();
            let changed = self.adopt_choice();
            let mut outcome = self.close();
            outcome.committed = true;
            outcome.changed = outcome.changed || changed;
            return outcome;
        }
        if self.multi {
            return self.toggle_highlighted();
        }
        self.draft = match self.highlighted {
            Some(h) => vec![h],
            None => Vec::new(),
        };
        assert(self.draft@ =~= seq_of(self.highlighted));
        self.view_selection = copy_ids(&self.draft);
        let changed = self.adopt_choice();
        let mut outcome = self.close();
        outcome.committed = true;
        outcome.changed = outcome.changed || changed;
        outcome
    }
}


/// The ids of the rows at `matches`.
pub open spec fn ids_at(ids: Seq<u64>, matches: Seq<usize>) -> Seq<u64> {
    Seq::new(matches.len(), |i: int| ids[matches[i] as int])
}

/// The rows shown for the search text `query` with the matching rows `matches`: the unfiltered
/// rows for an empty text or under external search, none for a text shorter than the minimum, otherwise the matches, at
/// most as many as the limit allows.
pub open spec fn searched_rows(a: Dropdown, query: Seq<char>, matches: Seq<usize>) -> Seq<u64> {
    if query.len() == 0 || a.search_mode == DropdownSearchMode::External {
        unfiltered_rows(a)
    } else if query.len() < a.min_search_chars {
        Seq::empty()
    } else {
        limited(ids_at(a.ids@, matches), a.max_filtered_items)
    }
}

/// A new search text: the visible rows become the searched rows (`searched_rows`), the
/// clearing row stays highlighted only while it shows, the highlight moves to the first match
/// when its row no longer shows, and a single choice follows the highlight.
pub open spec fn searched_post(
    a: Dropdown,
    b: Dropdown,
    query: Seq<char>,
    matches: Seq<usize>,
    r: DropdownOutcome,
) -> bool {
    let filtered = searched_rows(a, query, matches);
    let h = rehighlight(a.highlighted, filtered);
    &&& same_config(a, b)
    &&& b.open == a.open
    &&& b.query@ == query
    &&& b.filtered@ == filtered
    &&& b.highlighted == h
    &&& b.no_selection_highlighted == (a.no_selection_highlighted && query.len() == 0)
    &&& b.opened_committed@ == a.opened_committed@
    &&& b.focus_region == a.focus_region
    &&& follows_highlight(a, b, h)
    &&& r == DropdownOutcome {
        handled: true,
        changed: true,
        committed: !a.multi && a.commit_mode == DropdownCommitMode::Immediate,
        ..idle_outcome()
    }
}

impl Dropdown {
    /// The rows shown for the search text `query` with the matching rows `matches`.
    fn searched_ids(&self, query: &String, matches: &Vec<usize>) -> (r: Vec<u64>)
        requires
            forall|i: int| 0 <= i < matches@.len() ==> matches@[i] < self.ids@.len(),
        ensures
            r@ == searched_rows(*self, query@, matches@),
            all_in(r@, self.ids@),
    {
        let length = query.as_str().unicode_len();
        if length == 0 || self.search_mode == DropdownSearchMode::External {
            let r = self.unfiltered_ids();
            proof {
                if self.visible_without_search is Some {
                    lemma_filter_in(self.ids@, member_of(self.visible_without_search->0@));
                } else {
                    assert forall|i: int| 0 <= i < self.ids@.len() implies self.ids@.contains(#[trigger] self.ids@[i]) by {}
                }
            }
            return r;
        }
        if length < self.min_search_chars {
            return Vec::new();
        }
        let mut out: Vec<u64> = Vec::new();
        let mut i: usize = 0;
        while i < matches.len()
            invariant
                i <= matches@.len(),
                forall|j: int| 0 <= j < matches@.len() ==> matches@[j] < self.ids@.len(),
                out@ == ids_at(self.ids@, matches@.take(i as int)),
            decreases matches@.len() - i,
        {
            out.push(self.ids[matches[i]]);
            i += 1;
            assert(out@ =~= ids_at(self.ids@, matches@.take(i as int)));
        }
        assert(matches@.take(matches@.len() as int) =~= matches@);
        let ghost all = out@;
        proof {
            assert forall|j: int| 0 <= j < all.len() implies self.ids@.contains(#[trigger] all[j]) by {
                assert(self.ids@[matches@[j] as int] == all[j]);
            }
        }
        if let Some(limit) = self.max_filtered_items {
            if limit < out.len() {
                out.truncate(limit);
                assert(out@ =~= all.take(limit as int));
                assert forall|j: int| 0 <= j < out@.len() implies self.ids@.contains(#[trigger] out@[j]) by {
                    assert(out@[j] == all[j]);
                }
            }
        }
        out
    }

    /// Takes a new search text while the popup is open. `matches` holds the positions, best
    /// first, of the rows whose labels match `query` in the search mode; it is not read for an
    /// empty text or under external search.
    pub fn search_changed(&mut self, query: String, matches: &Vec<usize>) -> (r: DropdownOutcome)
        requires
            old(self).wf(),
            old(self).open,
            old(self).spec_search_enabled(),
            forall|i: int| 0 <= i < matches@.len() ==> matches@[i] < old(self).ids@.len(),
        ensures
            final(self).wf(),
            searched_post(*old(self), *final(self), query@, matches@, r),
    {
        let empty = query.as_str().unicode_len() == 0;
        let rows = self.searched_ids(&query, matches);
        self.query = query;
        self.filtered = rows;
        if !empty {
            self.no_selection_highlighted = false;
        }
        self.rehighlight_visible();
        proof {
            if self.highlighted is Some && !(old(self).highlighted is Some && self.highlighted == old(self).highlighted) {
                assert(self.ids@.contains(self.filtered@[0]));
            }
        }
        if !self.multi {
            self.follow_highlight();
        }
        DropdownOutcome {
            handled: true,
            changed: true,
            committed: !self.multi && self.commit_mode == DropdownCommitMode::Immediate,
            ..DropdownOutcome::idle()
        }
    }
}

/// What a key press does to a dropdown.
#[derive(Debug, Clone, Copy, PartialEq, Eq, Structural)]
pub enum DropdownKeyAction {
    Ignore,
    Open,
    OpenAndMove(DropdownNav),
    Cancel,
    Close,
    Commit,
    Toggle,
    Select,
    Move(DropdownNav),
}

/// The action of `key`. Closed: an opening move key opens the popup and moves, the hotkey
/// (when it is the single key press `hotkey`) or an open key opens it; any other key is
/// ignored. Open: cancel; for a multiple choice, commit the choice, and the commit key or the
/// toggle key toggle the highlighted row; for a single choice, the commit key commits (which
/// only closes under immediate commit); then choose, and the move keys, in that order;
/// anything else is left to the search text.
pub open spec fn spec_key_action(
    d: Dropdown,
    key: KeyEvent,
    keys: DropdownKeys,
    hotkey: Option<KeyEvent>,
) -> DropdownKeyAction {
    if !d.open {
        if spec_matches_any(keys.open_next@, key) {
            DropdownKeyAction::OpenAndMove(DropdownNav::Down)
        } else if spec_matches_any(keys.open_previous@, key) {
            DropdownKeyAction::OpenAndMove(DropdownNav::Up)
        } else if hotkey matches Some(h) && spec_keys_match(h, key) {
            DropdownKeyAction::Open
        } else if spec_matches_any(d.action_keys.open@, key) {
            DropdownKeyAction::Open
        } else {
            DropdownKeyAction::Ignore
        }
    } else if spec_matches_any(keys.cancel@, key) {
        DropdownKeyAction::Cancel
    } else if d.multi && spec_matches_any(keys.commit_choice@, key) {
        if d.commit_mode == DropdownCommitMode::Immediate {
            DropdownKeyAction::Close
        } else {
            DropdownKeyAction::Commit
        }
    } else if d.multi && spec_matches_any(d.action_keys.commit@, key) {
        DropdownKeyAction::Toggle
    } else if spec_matches_any(d.action_keys.commit@, key) {
        if d.commit_mode == DropdownCommitMode::Immediate {
            DropdownKeyAction::Close
        } else {
            DropdownKeyAction::Commit
        }
    } else if d.multi && spec_matches_any(d.action_keys.toggle@, key) {
        DropdownKeyAction::Toggle
    } else if spec_matches_any(keys.select@, key) {
        DropdownKeyAction::Select
    } else if spec_matches_any(keys.next@, key) {
        DropdownKeyAction::Move(DropdownNav::Down)
    } else if spec_matches_any(keys.previous@, key) {
        DropdownKeyAction::Move(DropdownNav::Up)
    } else if spec_matches_any(keys.page_next@, key) {
        DropdownKeyAction::Move(DropdownNav::PageDown)
    } else if spec_matches_any(keys.page_previous@, key) {
        DropdownKeyAction::Move(DropdownNav::PageUp)
    } else {
        DropdownKeyAction::Ignore
    }
}

/// The outcome of opening followed by a move: opened, and handled or changed when either was.
pub open spec fn merged_outcome(open: DropdownOutcome, nav: DropdownOutcome) -> DropdownOutcome {
    DropdownOutcome { handled: open.handled || nav.handled, changed: open.changed || nav.changed, ..open }
}

/// The effect of the key press `key` (see `spec_key_action`).
pub open spec fn key_post(
    a: Dropdown,
    b: Dropdown,
    key: KeyEvent,
    page: u16,
    keys: DropdownKeys,
    hotkey: Option<KeyEvent>,
    r: DropdownOutcome,
) -> bool {
    match spec_key_action(a, key, keys, hotkey) {
        DropdownKeyAction::Ignore => b == a && r == idle_outcome(),
        DropdownKeyAction::Open => open_post(a, b, r),
        DropdownKeyAction::OpenAndMove(nav) => exists|mid: Dropdown, o: DropdownOutcome, m: DropdownOutcome|
            #![trigger open_post(a, mid, o), navigated_post(mid, b, nav, page, m)]
            open_post(a, mid, o) && navigated_post(mid, b, nav, page, m) && r == merged_outcome(o, m),
        DropdownKeyAction::Cancel => cancel_post(a, b, r),
        DropdownKeyAction::Close => close_post(a, b, r),
        DropdownKeyAction::Commit => commit_post(a, b, r),
        DropdownKeyAction::Toggle => toggled_post(a, b, r),
        DropdownKeyAction::Select => select_post(a, b, r),
        DropdownKeyAction::Move(nav) => navigated_post(a, b, nav, page, r),
    }
}

impl Dropdown {
    pub fn key_action(&self, key: KeyEvent, keys: &DropdownKeys, hotkey: Option<KeyEvent>) -> (r: DropdownKeyAction)
        ensures
            r == spec_key_action(*self, key, *keys, hotkey),
    {
        if !self.open {
            if matches_any(keys.open_next.as_slice(), key) {
                DropdownKeyAction::OpenAndMove(DropdownNav::Down)
            } else if matches_any(keys.open_previous.as_slice(), key) {
                DropdownKeyAction::OpenAndMove(DropdownNav::Up)
            } else if match hotkey {
                Some(h) => keys_match(h, key),
                None => false,
            } {
                DropdownKeyAction::Open
            } else if matches_any(self.action_keys.open.as_slice(), key) {
                DropdownKeyAction::Open
            } else {
                DropdownKeyAction::Ignore
            }
        } else if matches_any(keys.cancel.as_slice(), key) {
            DropdownKeyAction::Cancel
        } else if self.multi && matches_any(keys.commit_choice.as_slice(), key) {
            if self.commit_mode == DropdownCommitMode::Immediate {
                DropdownKeyAction::Close
            } else {
                DropdownKeyAction::Commit
            }
        } else if self.multi && matches_any(self.action_keys.commit.as_slice(), key) {
            DropdownKeyAction::Toggle
        } else if matches_any(self.action_keys.commit.as_slice(), key) {
            if self.commit_mode == DropdownCommitMode::Immediate {
                DropdownKeyAction::Close
            } else {
                DropdownKeyAction::Commit
            }
        } else if self.multi && matches_any(self.action_keys.toggle.as_slice(), key) {
            DropdownKeyAction::Toggle
        } else if matches_any(keys.select.as_slice(), key) {
            DropdownKeyAction::Select
        } else if matches_any(keys.next.as_slice(), key) {
            DropdownKeyAction::Move(DropdownNav::Down)
        } else if matches_any(keys.previous.as_slice(), key) {
            DropdownKeyAction::Move(DropdownNav::Up)
        } else if matches_any(keys.page_next.as_slice(), key) {
            DropdownKeyAction::Move(DropdownNav::PageDown)
        } else if matches_any(keys.page_previous.as_slice(), key) {
            DropdownKeyAction::Move(DropdownNav::PageUp)
        } else {
            DropdownKeyAction::Ignore
        }
    }

    /// Answers a key press (see `spec_key_action`); `page` is the height of the popup's rows
    /// area. Keys it ignores while the popup is open belong to the search text.
    #[verifier::spinoff_prover]
    #[verifier::rlimit(40)]
    pub fn on_key(&mut self, key: KeyEvent, page: u16, keys: &DropdownKeys, hotkey: Option<KeyEvent>) -> (r: DropdownOutcome)
        requires
            old(self).wf(),
        ensures
            final(self).wf(),
            key_post(*old(self), *final(self), key, page, *keys, hotkey, r),
    {
        let action = self.key_action(key, keys, hotkey);
        match action {
            DropdownKeyAction::Ignore => DropdownOutcome::idle(),
            DropdownKeyAction::Open => self.open(),
            DropdownKeyAction::OpenAndMove(nav) => {
                let o = self.open();
                let ghost mid = *self;
                let m = self.navigate(nav, page);
                let merged = DropdownOutcome { handled: o.handled || m.handled, changed: o.changed || m.changed, ..o };
                assert(open_post(*old(self), mid, o) && navigated_post(mid, *self, nav, page, m)
                    && merged == merged_outcome(o, m));
                merged
            },
            DropdownKeyAction::Cancel => self.cancel(),
            DropdownKeyAction::Close => self.close(),
            DropdownKeyAction::Commit => self.commit(),
            DropdownKeyAction::Toggle => self.toggle_highlighted(),
            DropdownKeyAction::Select => self.select_highlighted(),
            DropdownKeyAction::Move(nav) => self.navigate(nav, page),
        }
    }
}


// ---------------------------------------------------------------------------------------------
// Geometry
// ---------------------------------------------------------------------------------------------

/// The tallest a popup grows when no maximum is set.
pub const DEFAULT_MAX_POPUP_HEIGHT: u16 = 30;

/// The rows a popup border takes.
pub const POPUP_BORDER_HEIGHT: u16 = 2;

/// The narrowest a centered popup is.
pub const CENTERED_MIN_WIDTH: u16 = 40;

/// The area inside a border drawn on every side of `area`.
pub open spec fn spec_bordered_inner(area: Rect) -> Rect {
    Rect {
        x: min_int(sat_add16(area.x as int, 1), area.spec_right()) as u16,
        y: min_int(sat_add16(area.y as int, 1), area.spec_bottom()) as u16,
        width: sat_sub(area.width as int, 2) as u16,
        height: sat_sub(area.height as int, 2) as u16,
    }
}

/// The area inside a border on every side: the origin moves one cell right and down (not past
/// the far edges) and the width and height lose two cells each, stopping at zero, as ratatui's
/// `Block::bordered().inner` does.
pub(crate) fn bordered_inner(area: Rect) -> (r: Rect)
    ensures
        r == spec_bordered_inner(area),
{
    let right = area.right();
    let bottom = area.bottom();
    let x = area.x.saturating_add(1);
    let y = area.y.saturating_add(1);
    Rect {
        x: if x < right { x } else { right },
        y: if y < bottom { y } else { bottom },
        width: area.width.saturating_sub(2),
        height: area.height.saturating_sub(2),
    }
}

/// The two areas a vertical ratatui layout of `area` gives for a `Length(search_height)` row
/// above a `Fill(1)` row.
pub uninterp spec fn search_split(area: Rect, search_height: u16) -> (Rect, Rect);

/// Calls `ratatui::layout::Layout::areas` for a vertical layout of `area` with the constraints
/// `Length(search_height)` and `Fill(1)`; the result is named `search_split`, nothing more is
/// claimed of the constraint solver here.
#[verifier::external_body]
pub(crate) fn split_search(area: Rect, search_height: u16) -> (r: (Rect, Rect))
    ensures
        r == search_split(area, search_height),
{
    let [top, rest] = ratatui::layout::Layout::default()
        .direction(ratatui::layout::Direction::Vertical)
        .constraints([
            ratatui::layout::Constraint::Length(search_height),
            ratatui::layout::Constraint::Fill(1),
        ])
        .areas(ratatui::layout::Rect { x: area.x, y: area.y, width: area.width, height: area.height });
    (
        Rect { x: top.x, y: top.y, width: top.width, height: top.height },
        Rect { x: rest.x, y: rest.y, width: rest.width, height: rest.height },
    )
}

/// The label of row `id`: the label at the first position of `id` among the rows.
pub open spec fn label_of(d: Dropdown, id: u64) -> Option<Seq<char>> {
    let i = position_of(d.ids@, id);
    if 0 <= i < d.labels@.len() { Some(d.labels@[i]@) } else { None }
}

/// The widest label (plus the mark column of a multiple choice) among the first `k` visible
/// rows, `None` when none of them has a label.
pub open spec fn widest_upto(d: Dropdown, k: int) -> Option<int>
    decreases k,
{
    if k <= 0 {
        None
    } else {
        let prev = widest_upto(d, k - 1);
        match label_of(d, d.filtered@[k - 1]) {
            None => prev,
            Some(l) => {
                let w = display_width(l) as int + if d.multi { 2int } else { 0int };
                let w = if w > usize::MAX as int { usize::MAX as int } else { w };
                match prev {
                    None => Some(w),
                    Some(p) => Some(max_int(p, w)),
                }
            },
        }
    }
}

pub proof fn lemma_widest_bounds(d: Dropdown, k: int)
    ensures
        widest_upto(d, k) matches Some(w) ==> 0 <= w <= usize::MAX,
    decreases k,
{
    if k > 0 {
        lemma_widest_bounds(d, k - 1);
    }
}

impl Dropdown {
    pub open spec fn spec_popup_has_border(self) -> bool {
        self.variant == DropdownVariant::Bordered
    }

    /// The rows the field takes in `area`: three with a border, one filled, and one more for a
    /// label above it.
    pub open spec fn spec_field_height(self, area: Rect) -> u16 {
        let base: int = if self.variant == DropdownVariant::Bordered { 3 } else { 1 };
        let label: int = if self.alt_style && self.label_position == DropdownLabelPosition::Top { 1 } else { 0 };
        min_int(area.height as int, base + label) as u16
    }

    pub fn field_height(&self, area: Rect) -> (r: u16)
        ensures
            r == self.spec_field_height(area),
    {
        let base: u16 = match self.variant {
            DropdownVariant::Bordered => 3,
            DropdownVariant::Filled => 1,
        };
        let label: u16 = if self.alt_style && self.label_position == DropdownLabelPosition::Top { 1 } else { 0 };
        let want = base + label;
        if area.height < want { area.height } else { want }
    }

    pub open spec fn spec_field_area(self, area: Rect) -> Rect {
        Rect::spec_new(area.x, area.y, area.width, self.spec_field_height(area))
    }

    /// The field: the top rows of `area`.
    pub fn field_area(&self, area: Rect) -> (r: Rect)
        ensures
            r == self.spec_field_area(area),
    {
        Rect::new(area.x, area.y, area.width, self.field_height(area))
    }

    pub open spec fn spec_effective_field_area(self, bounds: Rect) -> Rect {
        if self.field_area.spec_is_empty() { self.spec_field_area(bounds) } else { self.field_area }
    }

    /// The field of the last layout, or the field at the top of `bounds` before any layout.
    pub fn effective_field_area(&self, bounds: Rect) -> (r: Rect)
        ensures
            r == self.spec_effective_field_area(bounds),
    {
        if self.field_area.is_empty() { self.field_area(bounds) } else { self.field_area }
    }

    /// The rows the popup lists: the visible rows and the clearing row, or one row saying there
    /// are no results.
    pub open spec fn spec_visible_popup_rows(self) -> u16 {
        if self.filtered@.len() == 0 {
            1
        } else {
            min_int(
                self.filtered@.len() + if self.spec_show_no_selection_row() { 1int } else { 0int },
                u16::MAX as int,
            ) as u16
        }
    }

    pub fn visible_popup_rows(&self) -> (r: u16)
        ensures
            r == self.spec_visible_popup_rows(),
    {
        if self.filtered.len() == 0 {
            return 1;
        }
        let extra: usize = if self.show_no_selection_row() { 1 } else { 0 };
        let rows = self.filtered.len().saturating_add(extra);
        if rows > u16::MAX as usize { u16::MAX } else { rows as u16 }
    }

    /// Whether the widest visible label (or the no-results text) is wider than a popup of
    /// `width` cells shows.
    pub open spec fn spec_needs_horizontal_scrollbar(self, width: u16) -> bool {
        let viewport = sat_sub(width as int, if self.spec_popup_has_border() { 2 } else { 0 });
        let content = match widest_upto(self, self.filtered@.len() as int) {
            Some(w) => w,
            None => display_width("No results"@) as int,
        };
        content > viewport
    }

    fn label_for(&self, id: u64) -> (r: Option<&String>)
        requires
            self.ids@.len() == self.labels@.len(),
        ensures
            match label_of(*self, id) {
                Some(l) => r matches Some(s) && s@ == l,
                None => r.is_none(),
            },
    {
        match find_position(&self.ids, id) {
            Some(i) => Some(&self.labels[i]),
            None => None,
        }
    }

    pub fn needs_horizontal_scrollbar(&self, width: u16) -> (r: bool)
        requires
            self.ids@.len() == self.labels@.len(),
        ensures
            r == self.spec_needs_horizontal_scrollbar(width),
    {
        let viewport: u16 = width.saturating_sub(if self.variant == DropdownVariant::Bordered { 2 } else { 0 });
        let prefix: usize = if self.multi { 2 } else { 0 };
        let mut widest: Option<usize> = None;
        let mut k: usize = 0;
        while k < self.filtered.len()
            invariant
                k <= self.filtered@.len(),
                self.ids@.len() == self.labels@.len(),
                prefix == (if self.multi { 2usize } else { 0usize }),
                match widest_upto(*self, k as int) {
                    Some(w) => widest == Some(w as usize),
                    None => widest.is_none(),
                },
            decreases self.filtered@.len() - k,
        {
            let id = self.filtered[k];
            proof {
                lemma_widest_bounds(*self, k as int);
                lemma_widest_bounds(*self, k + 1);
            }
            let ghost prev = widest_upto(*self, k as int);
            assert(widest_upto(*self, k + 1) == match label_of(*self, id) {
                None => prev,
                Some(l) => {
                    let w = display_width(l) as int + if self.multi { 2int } else { 0int };
                    let w = if w > usize::MAX as int { usize::MAX as int } else { w };
                    match prev {
                        None => Some(w),
                        Some(p) => Some(max_int(p, w)),
                    }
                },
            });
            match self.label_for(id) {
                None => {},
                Some(l) => {
                    let lw = text_width(l.as_str());
                    assert(lw == display_width(label_of(*self, id)->0));
                    let w = lw.saturating_add(prefix);
                    assert(w as int == (if display_width(label_of(*self, id)->0) as int + prefix as int > usize::MAX as int { usize::MAX as int } else { display_width(label_of(*self, id)->0) as int + prefix as int }));
                    widest = match widest {
                        None => Some(w),
                        Some(p) => Some(if p >= w { p } else { w }),
                    };
                },
            }
            assert(match widest_upto(*self, k + 1) {
                Some(w) => widest == Some(w as usize),
                None => widest.is_none(),
            });
            k += 1;
        }
        proof {
            lemma_widest_bounds(*self, self.filtered@.len() as int);
        }
        let content = match widest {
            Some(w) => w,
            None => text_width("No results"),
        };
        content > viewport as usize
    }

    /// The popup's height for `width` cells: its border, the search row, its rows and a
    /// scrollbar row when labels are too wide.
    pub open spec fn spec_popup_content_height(self, width: u16) -> u16 {
        sat_add16(
            sat_add16(
                sat_add16(
                    if self.spec_popup_has_border() { POPUP_BORDER_HEIGHT as int } else { 0 },
                    if self.spec_search_enabled() { 1 } else { 0 },
                ),
                self.spec_visible_popup_rows() as int,
            ),
            if self.spec_needs_horizontal_scrollbar(width) { 1 } else { 0 },
        ) as u16
    }

    pub fn popup_content_height(&self, width: u16) -> (r: u16)
        requires
            self.ids@.len() == self.labels@.len(),
        ensures
            r == self.spec_popup_content_height(width),
    {
        let border: u16 = if self.variant == DropdownVariant::Bordered { POPUP_BORDER_HEIGHT } else { 0 };
        border
            .saturating_add(if self.search_enabled() { 1 } else { 0 })
            .saturating_add(self.visible_popup_rows())
            .saturating_add(if self.needs_horizontal_scrollbar(width) { 1 } else { 0 })
    }

    pub open spec fn spec_effective_max_popup_height(self) -> u16 {
        let m = match self.max_popup_height {
            Some(h) => h,
            None => DEFAULT_MAX_POPUP_HEIGHT,
        };
        if m < 1 { 1 } else { m }
    }

    /// The tallest the popup grows: the configured maximum or the default, at least one row.
    pub fn effective_max_popup_height(&self) -> (r: u16)
        ensures
            r == self.spec_effective_max_popup_height(),
    {
        let m = match self.max_popup_height {
            Some(h) => h,
            None => DEFAULT_MAX_POPUP_HEIGHT,
        };
        if m < 1 { 1 } else { m }
    }

    /// Where the popup of a field at `field` goes inside `bounds`. Nothing shows while closed
    /// or when either area is empty. A centered popup is at least forty cells wide (at most the
    /// bounds) and centered in the bounds. Otherwise it is as wide as the field, at most as tall
    /// as its content and maximum; downwards it starts on the field's last row when bordered
    /// (just below otherwise) and takes what room is left below; upwards it ends just above the
    /// field and takes what room is left above. It is clipped to the bounds.
    pub open spec fn spec_popup_area_for(self, field: Rect, bounds: Rect) -> Rect {
        if !self.open || field.spec_is_empty() || bounds.spec_is_empty() {
            Rect { x: 0, y: 0, width: 0, height: 0 }
        } else if self.centered {
            let w = min_int(max_int(field.width as int, CENTERED_MIN_WIDTH as int), bounds.width as int);
            let h = min_int(
                min_int(
                    self.spec_popup_content_height(w as u16) as int,
                    self.spec_effective_max_popup_height() as int,
                ),
                bounds.height as int,
            );
            let x = bounds.x + (bounds.width - w) / 2;
            let y = bounds.y + (bounds.height - h) / 2;
            spec_clip_rect(Rect::spec_new(x as u16, y as u16, w as u16, h as u16), bounds)
        } else {
            let desired = min_int(
                self.spec_popup_content_height(field.width) as int,
                self.spec_effective_max_popup_height() as int,
            );
            let overlap: int = if self.spec_popup_has_border() { 1 } else { 0 };
            let (y, available) = match self.popup_direction {
                DropdownPopupDirection::Down => {
                    let y = sat_sub(sat_add16(field.y as int, field.height as int), overlap);
                    (y, sat_sub(bounds.spec_bottom(), y))
                },
                DropdownPopupDirection::Up => {
                    let available = sat_sub(field.y as int, bounds.y as int);
                    (sat_sub(field.y as int, min_int(desired, available)), available)
                },
            };
            spec_clip_rect(
                Rect::spec_new(field.x, y as u16, field.width, min_int(desired, available) as u16),
                bounds,
            )
        }
    }

    pub fn popup_area_for(&self, field: Rect, bounds: Rect) -> (r: Rect)
        requires
            self.ids@.len() == self.labels@.len(),
            bounds.spec_fits(),
        ensures
            r == self.spec_popup_area_for(field, bounds),
    {
        if !self.open || field.is_empty() || bounds.is_empty() {
            return Rect::zero();
        }
        if self.centered {
            let wide = if field.width > CENTERED_MIN_WIDTH { field.width } else { CENTERED_MIN_WIDTH };
            let w = if wide < bounds.width { wide } else { bounds.width };
            let content = self.popup_content_height(w);
            let max = self.effective_max_popup_height();
            let h1 = if content < max { content } else { max };
            let h = if h1 < bounds.height { h1 } else { bounds.height };
            let x = bounds.x + (bounds.width - w) / 2;
            let y = bounds.y + (bounds.height - h) / 2;
            return clip_rect(Rect::new(x, y, w, h), bounds);
        }
        let content = self.popup_content_height(field.width);
        let max = self.effective_max_popup_height();
        let desired = if content < max { content } else { max };
        let overlap: u16 = if self.variant == DropdownVariant::Bordered { 1 } else { 0 };
        let (y, available) = match self.popup_direction {
            DropdownPopupDirection::Down => {
                let y = field.y.saturating_add(field.height).saturating_sub(overlap);
                (y, bounds.y.saturating_add(bounds.height).saturating_sub(y))
            },
            DropdownPopupDirection::Up => {
                let available = field.y.saturating_sub(bounds.y);
                let height = if desired < available { desired } else { available };
                (field.y.saturating_sub(height), available)
            },
        };
        let height = if desired < available { desired } else { available };
        clip_rect(Rect::new(field.x, y, field.width, height), bounds)
    }

    /// The popup of the field of the last layout inside `bounds`.
    pub fn popup_overlay_area(&self, bounds: Rect) -> (r: Rect)
        requires
            self.ids@.len() == self.labels@.len(),
            bounds.spec_fits(),
        ensures
            r == self.spec_popup_area_for(self.spec_effective_field_area(bounds), bounds),
    {
        let field = self.effective_field_area(bounds);
        self.popup_area_for(field, bounds)
    }

    /// The search row and the list below it inside `popup` (inside its border when bordered).
    pub open spec fn spec_popup_inner_areas(self, popup: Rect) -> (Rect, Rect) {
        if popup.spec_is_empty() {
            (popup, popup)
        } else {
            let inner = if self.spec_popup_has_border() { spec_bordered_inner(popup) } else { popup };
            search_split(inner, if self.spec_search_enabled() { 1 } else { 0 })
        }
    }

    pub fn popup_inner_areas(&self, popup: Rect) -> (r: (Rect, Rect))
        ensures
            r == self.spec_popup_inner_areas(popup),
    {
        if popup.is_empty() {
            return (popup, popup);
        }
        let inner = if self.variant == DropdownVariant::Bordered { bordered_inner(popup) } else { popup };
        split_search(inner, if self.search_enabled() { 1 } else { 0 })
    }

    /// The rows area: the list without the clearing row at its top.
    pub open spec fn spec_popup_rows_area(self, list: Rect) -> Rect {
        let skip: int = if self.spec_show_no_selection_row() { 1 } else { 0 };
        Rect::spec_new(
            list.x,
            sat_add16(list.y as int, skip) as u16,
            list.width,
            sat_sub(list.height as int, skip) as u16,
        )
    }

    pub fn popup_rows_area(&self, list: Rect) -> (r: Rect)
        ensures
            r == self.spec_popup_rows_area(list),
    {
        let skip: u16 = if self.show_no_selection_row() { 1 } else { 0 };
        Rect::new(list.x, list.y.saturating_add(skip), list.width, list.height.saturating_sub(skip))
    }

    /// The rows area of the popup drawn in `area`, empty when no popup shows.
    pub open spec fn spec_list_area(self, area: Rect) -> Rect {
        let popup = self.spec_popup_area_for(self.spec_effective_field_area(area), area);
        if popup.spec_is_empty() {
            popup
        } else {
            self.spec_popup_rows_area(self.spec_popup_inner_areas(popup).1)
        }
    }

    pub fn list_area(&self, area: Rect) -> (r: Rect)
        requires
            self.ids@.len() == self.labels@.len(),
            area.spec_fits(),
        ensures
            r == self.spec_list_area(area),
    {
        let popup = self.popup_overlay_area(area);
        if popup.is_empty() {
            return popup;
        }
        let (_, list) = self.popup_inner_areas(popup);
        self.popup_rows_area(list)
    }
}


// ---------------------------------------------------------------------------------------------
// Events
// ---------------------------------------------------------------------------------------------

/// An event delivered to a dropdown.
#[derive(Debug, Clone, PartialEq, Eq)]
pub enum DropdownEvent {
    /// A hotkey sequence has begun with this prefix.
    HotkeyPending(String),
    /// A begun hotkey sequence was abandoned.
    HotkeyCanceled,
    /// A hotkey sequence was completed; `matches` tells whether it is this dropdown's hotkey.
    HotkeyCommit { matches: bool },
    Key(KeyEvent),
    Other,
}

/// Where the focus is to move.
#[derive(Debug, Clone, Copy, PartialEq, Eq, Structural)]
pub enum FocusMove {
    Stay,
    Next,
    Previous,
}

/// What the surroundings are asked to do after an event: whether it was taken, whether to
/// draw and lay out again, stop the event, move the focus, focus the search field, and start
/// dimming the backdrop in (`Some(true)`, from nothing) or out (`Some(false)`).
#[derive(Debug, Clone, Copy, PartialEq, Eq, Structural)]
pub struct DropdownEffects {
    pub handled: bool,
    pub redraw: bool,
    pub layout: bool,
    pub stop: bool,
    pub focus: FocusMove,
    pub focus_search: bool,
    pub backdrop: Option<bool>,
}

pub open spec fn no_effects() -> DropdownEffects {
    DropdownEffects {
        handled: false,
        redraw: false,
        layout: false,
        stop: false,
        focus: FocusMove::Stay,
        focus_search: false,
        backdrop: None,
    }
}

/// The effects of a key outcome: opening or closing re-lays out and dims the backdrop in or
/// out, a handled or changing outcome is drawn, a handled one stops the event.
pub open spec fn key_effects(o: DropdownOutcome) -> DropdownEffects {
    DropdownEffects {
        handled: o.handled,
        redraw: o.handled || o.changed,
        layout: o.opened || o.closed,
        stop: o.handled,
        focus: FocusMove::Stay,
        focus_search: false,
        backdrop: if o.opened || o.closed { Some(o.opened) } else { None },
    }
}

/// The effects of leaving an open dropdown with a focus key: it is canceled and the focus moves.
pub open spec fn leave_effects(focus: FocusMove) -> DropdownEffects {
    DropdownEffects {
        handled: true,
        redraw: true,
        layout: true,
        stop: true,
        focus,
        focus_search: false,
        backdrop: Some(false),
    }
}

impl Dropdown {
    pub open spec fn spec_page(self) -> u16 {
        self.spec_list_area(self.overlay_bounds).height
    }

    /// Answers an event. A pending hotkey prefix is kept and drawn, a canceled one forgotten; a
    /// completed hotkey that is this dropdown's opens it (asking for the search field). While
    /// open, the focus keys cancel and move the focus. Other keys go to `on_key` with pages the
    /// height of the rows area in the overlay bounds.
    #[verifier::spinoff_prover]
    #[verifier::rlimit(40)]
    pub fn event(&mut self, event: DropdownEvent, keys: &DropdownKeys, hotkey: Option<KeyEvent>) -> (r: DropdownEffects)
        requires
            old(self).wf(),
        ensures
            final(self).wf(),
            match event {
                DropdownEvent::HotkeyPending(prefix) => {
                    &&& final(self).pending_hotkey_prefix == Some(prefix)
                    &&& *final(self) == Dropdown {
                        pending_hotkey_prefix: final(self).pending_hotkey_prefix,
                        ..*old(self)
                    }
                    &&& r == DropdownEffects { redraw: true, ..no_effects() }
                },
                DropdownEvent::HotkeyCanceled => {
                    &&& *final(self) == Dropdown { pending_hotkey_prefix: None, ..*old(self) }
                    &&& r == DropdownEffects { redraw: old(self).pending_hotkey_prefix is Some, ..no_effects() }
                },
                DropdownEvent::HotkeyCommit { matches } => {
                    let cleared = Dropdown { pending_hotkey_prefix: None, ..*old(self) };
                    if old(self).hotkey is Some && matches {
                        exists|o: DropdownOutcome| #![trigger open_post(cleared, *final(self), o)]
                            open_post(cleared, *final(self), o) && r == DropdownEffects {
                            handled: true,
                            redraw: true,
                            layout: o.opened,
                            stop: true,
                            focus: FocusMove::Stay,
                            focus_search: o.opened && cleared.spec_search_enabled() && cleared.auto_focus_search,
                            backdrop: if o.opened { Some(true) } else { None },
                        }
                    } else {
                        *final(self) == cleared && r == no_effects()
                    }
                },
                DropdownEvent::Key(k) => {
                    if old(self).open && spec_matches_any(keys.focus_next@, k) {
                        exists|o: DropdownOutcome| #![trigger cancel_post(*old(self), *final(self), o)]
                            cancel_post(*old(self), *final(self), o) && r == leave_effects(FocusMove::Next)
                    } else if old(self).open && spec_matches_any(keys.focus_previous@, k) {
                        exists|o: DropdownOutcome| #![trigger cancel_post(*old(self), *final(self), o)]
                            cancel_post(*old(self), *final(self), o) && r == leave_effects(FocusMove::Previous)
                    } else {
                        exists|o: DropdownOutcome| #![trigger key_post(*old(self), *final(self), k, old(self).spec_page(), *keys, hotkey, o)]
                            key_post(*old(self), *final(self), k, old(self).spec_page(), *keys, hotkey, o)
                                && r == key_effects(o)
                    }
                },
                DropdownEvent::Other => *final(self) == *old(self) && r == no_effects(),
            },
    {
        match event {
            DropdownEvent::HotkeyPending(prefix) => {
                let ghost before = *self;
                self.pending_hotkey_prefix = Some(prefix);
                assert(*self == Dropdown { pending_hotkey_prefix: self.pending_hotkey_prefix, ..before });
                DropdownEffects {
                    handled: false,
                    redraw: true,
                    layout: false,
                    stop: false,
                    focus: FocusMove::Stay,
                    focus_search: false,
                    backdrop: None,
                }
            },
            DropdownEvent::HotkeyCanceled => {
                let had = self.pending_hotkey_prefix.is_some();
                self.pending_hotkey_prefix = None;
                DropdownEffects {
                    handled: false,
                    redraw: had,
                    layout: false,
                    stop: false,
                    focus: FocusMove::Stay,
                    focus_search: false,
                    backdrop: None,
                }
            },
            DropdownEvent::HotkeyCommit { matches } => {
                self.pending_hotkey_prefix = None;
                if self.hotkey.is_some() && matches {
                    let o = self.open();
                    let focus_search = o.opened && self.search_mode != DropdownSearchMode::Off && self.auto_focus_search;
                    DropdownEffects {
                        handled: true,
                        redraw: true,
                        layout: o.opened,
                        stop: true,
                        focus: FocusMove::Stay,
                        focus_search,
                        backdrop: if o.opened { Some(true) } else { None },
                    }
                } else {
                    DropdownEffects {
                        handled: false,
                        redraw: false,
                        layout: false,
                        stop: false,
                        focus: FocusMove::Stay,
                        focus_search: false,
                        backdrop: None,
                    }
                }
            },
            DropdownEvent::Key(k) => {
                if self.open && matches_any(keys.focus_next.as_slice(), k) {
                    let _ = self.cancel();
                    return DropdownEffects {
                        handled: true,
                        redraw: true,
                        layout: true,
                        stop: true,
                        focus: FocusMove::Next,
                        focus_search: false,
                        backdrop: Some(false),
                    };
                }
                if self.open && matches_any(keys.focus_previous.as_slice(), k) {
                    let _ = self.cancel();
                    return DropdownEffects {
                        handled: true,
                        redraw: true,
                        layout: true,
                        stop: true,
                        focus: FocusMove::Previous,
                        focus_search: false,
                        backdrop: Some(false),
                    };
                }
                let page = self.list_area(self.overlay_bounds).height;
                assert(page == old(self).spec_page());
                let o = self.on_key(k, page, keys, hotkey);
                assert(key_post(*old(self), *self, k, old(self).spec_page(), *keys, hotkey, o));
                DropdownEffects {
                    handled: o.handled,
                    redraw: o.handled || o.changed,
                    layout: o.opened || o.closed,
                    stop: o.handled,
                    focus: FocusMove::Stay,
                    focus_search: false,
                    backdrop: if o.opened || o.closed { Some(o.opened) } else { None },
                }
            },
            DropdownEvent::Other => DropdownEffects {
                handled: false,
                redraw: false,
                layout: false,
                stop: false,
                focus: FocusMove::Stay,
                focus_search: false,
                backdrop: None,
            },
        }
    }
}


// ---------------------------------------------------------------------------------------------
// What the field and popup show
// ---------------------------------------------------------------------------------------------

/// The text shown for an empty choice: the clearing row's text, or the placeholder.
pub open spec fn spec_empty_summary(d: Dropdown) -> Seq<char> {
    match d.no_selection_text {
        Some(t) => t@,
        None => d.placeholder@,
    }
}

/// The text shown for the committed choice: the empty-choice text, "n selected" for several
/// rows, or the label of the chosen row (the placeholder when it has none).
pub open spec fn spec_selected_summary(d: Dropdown) -> Seq<char> {
    if d.committed@.len() == 0 {
        spec_empty_summary(d)
    } else if d.multi && d.committed@.len() > 1 {
        decimal(d.committed@.len()) + " selected"@
    } else {
        match label_of(d, d.committed@[0]) {
            Some(l) => l,
            None => d.placeholder@,
        }
    }
}

/// Where the parts of the field go in `area`: the label line above the field when the label
/// sits on top (and there is a label or hotkey to show), and the field itself.
#[derive(Debug, Clone, Copy, PartialEq, Eq, Structural)]
pub struct FieldPlan {
    pub label_area: Option<Rect>,
    pub body: Option<Rect>,
}

/// Where the parts of the popup go: the area inside its border, the search row, the clearing
/// row, the rows, whether "No results" shows in place of rows, and whether its border joins
/// the field's.
#[derive(Debug, Clone, Copy, PartialEq, Eq, Structural)]
pub struct PopupPlan {
    pub inner: Rect,
    pub search: Option<Rect>,
    pub no_selection: Option<Rect>,
    pub rows: Rect,
    pub no_results: bool,
    pub connected_border: bool,
}

/// The text of the label line: the label, then the hotkey between bars after a space.
pub open spec fn spec_alt_label_text(label: Option<String>, hotkey: Option<String>) -> Seq<char> {
    let l = match label {
        Some(l) => l@,
        None => Seq::empty(),
    };
    match hotkey {
        None => l,
        Some(h) => (if l.len() > 0 { l + " "@ } else { l }) + "|"@ + h@ + "|"@,
    }
}

impl Dropdown {
    pub fn empty_summary(&self) -> (r: String)
        ensures
            r@ == spec_empty_summary(*self),
    {
        match &self.no_selection_text {
            Some(t) => t.clone(),
            None => self.placeholder.clone(),
        }
    }

    pub fn selected_summary(&self) -> (r: String)
        requires
            self.ids@.len() == self.labels@.len(),
        ensures
            r@ == spec_selected_summary(*self),
    {
        if self.committed.len() == 0 {
            return self.empty_summary();
        }
        if self.multi && self.committed.len() > 1 {
            return count_selected_text(self.committed.len());
        }
        match self.label_for(self.committed[0]) {
            Some(l) => l.clone(),
            None => self.placeholder.clone(),
        }
    }

    pub fn alt_label_text(&self) -> (r: String)
        ensures
            r@ == spec_alt_label_text(self.label, self.hotkey),
    {
        let mut text = match &self.label {
            Some(l) => l.clone(),
            None => String::new(),
        };
        match &self.hotkey {
            None => {},
            Some(h) => {
                proof {
                    reveal_strlit(" ");
                    reveal_strlit("|");
                }
                if text.as_str().unicode_len() > 0 {
                    text.append(" ");
                }
                text.append("|");
                text.append(h.as_str());
                text.append("|");
            },
        }
        text
    }

    /// The field plan for `area`: with the label on top, a one-row label line (when there is
    /// text for it and room) and the field below it; otherwise the whole area is the field.
    pub open spec fn spec_field_plan(self, area: Rect) -> FieldPlan {
        if self.alt_style && self.label_position == DropdownLabelPosition::Top {
            let label_area = Rect::spec_new(area.x, area.y, area.width, min_int(area.height as int, 1) as u16);
            let body = Rect::spec_new(
                area.x,
                sat_add16(area.y as int, 1) as u16,
                area.width,
                sat_sub(area.height as int, 1) as u16,
            );
            FieldPlan {
                label_area: if spec_alt_label_text(self.label, self.hotkey).len() > 0 && !label_area.spec_is_empty() {
                    Some(label_area)
                } else {
                    None
                },
                body: if body.spec_is_empty() { None } else { Some(body) },
            }
        } else {
            FieldPlan { label_area: None, body: if area.spec_is_empty() { None } else { Some(area) } }
        }
    }

    pub fn field_plan(&self, area: Rect) -> (r: FieldPlan)
        ensures
            r == self.spec_field_plan(area),
    {
        if self.alt_style && self.label_position == DropdownLabelPosition::Top {
            let label_area = Rect::new(area.x, area.y, area.width, if area.height < 1 { area.height } else { 1 });
            let body = Rect::new(area.x, area.y.saturating_add(1), area.width, area.height.saturating_sub(1));
            let text = self.alt_label_text();
            FieldPlan {
                label_area: if text.as_str().unicode_len() > 0 && !label_area.is_empty() {
                    Some(label_area)
                } else {
                    None
                },
                body: if body.is_empty() { None } else { Some(body) },
            }
        } else {
            FieldPlan { label_area: None, body: if area.is_empty() { None } else { Some(area) } }
        }
    }

    /// Where the popup drawn in `area` puts its parts.
    pub open spec fn spec_popup_plan(self, area: Rect) -> PopupPlan {
        let inner = if self.spec_popup_has_border() { spec_bordered_inner(area) } else { area };
        let (search, list) = search_split(inner, if self.spec_search_enabled() { 1 } else { 0 });
        PopupPlan {
            inner,
            search: if self.spec_search_enabled() { Some(search) } else { None },
            no_selection: if self.spec_show_no_selection_row() {
                Some(Rect::spec_new(list.x, list.y, list.width, 1))
            } else {
                None
            },
            rows: self.spec_popup_rows_area(list),
            no_results: self.filtered@.len() == 0,
            connected_border: self.spec_popup_has_border() && !self.centered,
        }
    }

    pub fn popup_plan(&self, area: Rect) -> (r: PopupPlan)
        ensures
            r == self.spec_popup_plan(area),
    {
        let inner = if self.variant == DropdownVariant::Bordered { bordered_inner(area) } else { area };
        let search_enabled = self.search_enabled();
        let (search, list) = split_search(inner, if search_enabled { 1 } else { 0 });
        PopupPlan {
            inner,
            search: if search_enabled { Some(search) } else { None },
            no_selection: if self.show_no_selection_row() {
                Some(Rect::new(list.x, list.y, list.width, 1))
            } else {
                None
            },
            rows: self.popup_rows_area(list),
            no_results: self.filtered.len() == 0,
            connected_border: self.variant == DropdownVariant::Bordered && !self.centered,
        }
    }
}

/// Where a title goes on the top border of `area`, two cells in: the title with a space on each
/// side cut to the width less four cells; nothing when the area is four cells wide or less or
/// the title takes no cell.
pub open spec fn spec_title_placement(area: Rect, title: Seq<char>, y: u16) -> Option<(Seq<char>, Rect)> {
    if area.width <= 4 {
        None
    } else {
        let t = spec_bounded_title(title, (area.width - 4) as usize);
        let w = min_int(display_width(t) as int, u16::MAX as int);
        if w == 0 {
            None
        } else {
            Some((t, Rect::spec_new(sat_add16(area.x as int, 2) as u16, y, w as u16, 1)))
        }
    }
}

pub fn title_placement(area: Rect, title: &str, y: u16) -> (r: Option<(String, Rect)>)
    ensures
        match spec_title_placement(area, title@, y) {
            None => r.is_none(),
            Some((t, rect)) => r matches Some((s, rr)) && s@ == t && rr == rect,
        },
{
    if area.width <= 4 {
        return None;
    }
    let t = bounded_title(title, (area.width - 4) as usize);
    let tw = text_width(t.as_str());
    let w: u16 = if tw > u16::MAX as usize { u16::MAX } else { tw as u16 };
    if w == 0 {
        return None;
    }
    Some((t, Rect::new(area.x.saturating_add(2), y, w, 1)))
}

/// Where the parts of a bordered field go: the area inside the border, the text (which leaves
/// three cells on the right), the arrow (one cell, two from the right edge of the inside, when
/// the inside has width), the label as a title on the top border, and the hotkey badge inset on
/// the bottom border at its right end.
#[derive(Debug, Clone, PartialEq, Eq)]
pub struct BorderedFieldPlan {
    pub inner: Rect,
    pub text_area: Rect,
    pub arrow: Option<Rect>,
    pub label_title: Option<(String, Rect)>,
    pub hotkey_badge: Option<Rect>,
}

impl Dropdown {
    /// The arrow cell of a bordered field whose inside is `inner`.
    pub open spec fn spec_field_arrow(inner: Rect) -> Option<Rect> {
        if inner.width > 0 {
            Some(Rect { x: (inner.x + sat_sub(inner.width as int, 2)) as u16, y: inner.y, width: 1, height: 1 })
        } else {
            None
        }
    }

    /// Where the hotkey badge of width `badge_width` goes on the bottom border of `area`: at its
    /// right end; nothing without a hotkey, with the label line on top, when the area is four
    /// cells wide or less, or when the badge takes no cell.
    pub open spec fn spec_hotkey_badge(self, area: Rect, badge_width: usize) -> Option<Rect> {
        let w = min_int(badge_width as int, u16::MAX as int);
        if self.alt_style || self.hotkey is None || area.width <= 4 || w == 0 {
            None
        } else {
            Some(Rect {
                x: (area.x + sat_sub(area.width as int, w)) as u16,
                y: (area.y + sat_sub(area.height as int, 1)) as u16,
                width: w as u16,
                height: 1,
            })
        }
    }

    /// The title a bordered field in `area` shows on its top border: the label, unless it is
    /// drawn on its own line.
    pub open spec fn spec_label_title(self, area: Rect) -> Option<(Seq<char>, Rect)> {
        if self.alt_style {
            None
        } else {
            match self.label {
                Some(l) => spec_title_placement(area, l@, area.y),
                None => None,
            }
        }
    }

    /// Where the parts of a bordered field drawn in `area` go; `badge_width` is the width of the
    /// hotkey badge, measured where hotkeys are drawn.
    pub fn bordered_field_plan(&self, area: Rect, badge_width: usize) -> (r: BorderedFieldPlan)
        requires
            area.spec_fits(),
        ensures
            r.inner == spec_bordered_inner(area),
            r.text_area == Rect::spec_new(r.inner.x, r.inner.y, sat_sub(r.inner.width as int, 3) as u16, r.inner.height),
            r.arrow == Dropdown::spec_field_arrow(r.inner),
            match self.spec_label_title(area) {
                None => r.label_title.is_none(),
                Some((t, rect)) => r.label_title matches Some((s, rr)) && s@ == t && rr == rect,
            },
            r.hotkey_badge == self.spec_hotkey_badge(area, badge_width),
    {
        let inner = bordered_inner(area);
        let text_area = Rect::new(inner.x, inner.y, inner.width.saturating_sub(3), inner.height);
        let arrow = if inner.width > 0 {
            Some(Rect { x: inner.x + inner.width.saturating_sub(2), y: inner.y, width: 1, height: 1 })
        } else {
            None
        };
        let label_title = if self.alt_style {
            None
        } else {
            match &self.label {
                Some(l) => title_placement(area, l.as_str(), area.y),
                None => None,
            }
        };
        let w: u16 = if badge_width > u16::MAX as usize { u16::MAX } else { badge_width as u16 };
        let hotkey_badge = if self.alt_style || self.hotkey.is_none() || area.width <= 4 || w == 0 {
            None
        } else {
            Some(Rect { x: area.x + area.width.saturating_sub(w), y: area.y + area.height.saturating_sub(1), width: w, height: 1 })
        };
        BorderedFieldPlan { inner, text_area, arrow, label_title, hotkey_badge }
    }
}


pub open spec fn sat_usize(v: int) -> int {
    if v > usize::MAX as int { usize::MAX as int } else { v }
}

impl Dropdown {
    /// The width the field asks for. `badge_width` is the width of the hotkey badge on the
    /// border, `alt_label_width` that of the label line above the field and `inline_hotkey_width`
    /// that of the hotkey shown after the value on one line; they are measured where hotkeys are
    /// drawn. A bordered field fits its text and border, and its title and badge; a filled
    /// field fits its text and arrow, or, with the label inline, the label, value and hotkey; a
    /// label line on top is fitted too.
    pub open spec fn spec_measured_field_width(
        self,
        badge_width: usize,
        alt_label_width: usize,
        inline_hotkey_width: usize,
    ) -> u16 {
        let sw = display_width(spec_selected_summary(self)) as int;
        let base = match self.variant {
            DropdownVariant::Bordered => sat_usize(sw + 2),
            DropdownVariant::Filled => if self.alt_style && self.label_position == DropdownLabelPosition::Inline {
                let label_w = match self.label {
                    Some(l) => display_width(l@ + ": "@) as int,
                    None => 0,
                };
                sat_usize(sat_usize(sat_usize(label_w + sw) + inline_hotkey_width) + 2)
            } else if self.alt_style {
                sat_usize(sw + 2)
            } else {
                sat_usize(sw + 3)
            },
        };
        let titled = if self.variant == DropdownVariant::Bordered && !self.alt_style {
            let with_label = match self.label {
                Some(l) => max_int(base, sat_usize(display_width(spec_bounded_title(l@, usize::MAX)) as int + 4)),
                None => base,
            };
            match self.hotkey {
                Some(_) => max_int(with_label, badge_width as int),
                None => with_label,
            }
        } else {
            base
        };
        let labelled = if self.alt_style && self.label_position == DropdownLabelPosition::Top {
            max_int(titled, alt_label_width as int)
        } else {
            titled
        };
        min_int(labelled, u16::MAX as int) as u16
    }

    pub fn measured_field_width(&self, badge_width: usize, alt_label_width: usize, inline_hotkey_width: usize) -> (r: u16)
        requires
            self.ids@.len() == self.labels@.len(),
        ensures
            r == self.spec_measured_field_width(badge_width, alt_label_width, inline_hotkey_width),
    {
        let summary = self.selected_summary();
        let sw = text_width(summary.as_str());
        let base: usize = match self.variant {
            DropdownVariant::Bordered => sw.saturating_add(2),
            DropdownVariant::Filled => {
                if self.alt_style && self.label_position == DropdownLabelPosition::Inline {
                    let label_w: usize = match &self.label {
                        Some(l) => {
                            let mut t = l.clone();
                            t.append(": ");
                            text_width(t.as_str())
                        },
                        None => 0,
                    };
                    label_w.saturating_add(sw).saturating_add(inline_hotkey_width).saturating_add(2)
                } else if self.alt_style {
                    sw.saturating_add(2)
                } else {
                    sw.saturating_add(3)
                }
            },
        };
        let mut width = base;
        if self.variant == DropdownVariant::Bordered && !self.alt_style {
            match &self.label {
                Some(l) => {
                    let t = bounded_title(l.as_str(), usize::MAX);
                    let tw = text_width(t.as_str()).saturating_add(4);
                    if tw > width {
                        width = tw;
                    }
                },
                None => {},
            }
            if self.hotkey.is_some() && badge_width > width {
                width = badge_width;
            }
        }
        if self.alt_style && self.label_position == DropdownLabelPosition::Top && alt_label_width > width {
            width = alt_label_width;
        }
        if width > u16::MAX as usize { u16::MAX } else { width as u16 }
    }

    /// The size the dropdown asks for: its field's width, and three rows with a border or one
    /// filled, one more for a label on top; it grows across but not down.
    pub fn measure(&self, badge_width: usize, alt_label_width: usize, inline_hotkey_width: usize) -> (r: LayoutSizeHint)
        requires
            self.ids@.len() == self.labels@.len(),
        ensures
            ({
                let h = ((if self.variant == DropdownVariant::Bordered { 3int } else { 1int })
                    + (if self.alt_style && self.label_position == DropdownLabelPosition::Top { 1int } else { 0int })) as u16;
                let w = self.spec_measured_field_width(badge_width, alt_label_width, inline_hotkey_width);
                r == LayoutSizeHint {
                    source: HintSource::Measured,
                    min: LayoutSize { width: w, height: h },
                    preferred: LayoutSize { width: w, height: h },
                    expand: AxisExpand { width: true, height: false },
                }
            }),
    {
        let base: u16 = match self.variant {
            DropdownVariant::Bordered => 3,
            DropdownVariant::Filled => 1,
        };
        let height = base + if self.alt_style && self.label_position == DropdownLabelPosition::Top { 1 } else { 0 };
        let width = self.measured_field_width(badge_width, alt_label_width, inline_hotkey_width);
        LayoutSizeHint {
            source: HintSource::Measured,
            min: LayoutSize::new(width, height),
            preferred: LayoutSize::new(width, height),
            expand: AxisExpand { width: true, height: false },
        }
    }
}


impl Dropdown {
    /// Sets how rows are searched; every row shows, as the search text of a closed dropdown is
    /// empty.
    pub fn search_mode(self, mode: DropdownSearchMode) -> (r: Dropdown)
        requires
            self.wf(),
            !self.open,
        ensures
            r.wf(),
            r == (Dropdown { search_mode: mode, ..self }),
    {
        Dropdown { search_mode: mode, ..self }
    }

    pub fn placeholder(self, placeholder: String) -> (r: Dropdown)
        requires
            self.wf(),
        ensures
            r.wf(),
            r == (Dropdown { placeholder, ..self }),
    {
        Dropdown { placeholder, ..self }
    }

    /// Shows no row for a search text of fewer than `count` characters.
    pub fn min_search_chars(self, count: usize) -> (r: Dropdown)
        requires
            self.wf(),
        ensures
            r.wf(),
            r == (Dropdown { min_search_chars: count, ..self }),
    {
        Dropdown { min_search_chars: count, ..self }
    }

    /// Shows at most `count` matches of a search text.
    pub fn max_filtered_items(self, count: usize) -> (r: Dropdown)
        requires
            self.wf(),
        ensures
            r.wf(),
            r == (Dropdown { max_filtered_items: Some(count), ..self }),
    {
        Dropdown { max_filtered_items: Some(count), ..self }
    }

    /// With no search text, shows only the rows of `ids` (in row order); a search still looks
    /// through every row.
    pub fn visible_without_search(self, ids: Vec<u64>) -> (r: Dropdown)
        requires
            self.wf(),
            !self.open,
        ensures
            r.wf(),
            r == (Dropdown { visible_without_search: Some(ids), filtered: r.filtered, ..self }),
            r.filtered@ == self.ids@.filter(member_of(ids@)),
    {
        let mut d = Dropdown { visible_without_search: Some(ids), ..self };
        d.set_filtered_to_unfiltered();
        d
    }

    /// Offers a row that clears the choice, showing `text`.
    pub fn no_selection_text(self, text: String) -> (r: Dropdown)
        requires
            self.wf(),
        ensures
            r.wf(),
            r == (Dropdown { no_selection_text: Some(text), ..self }),
    {
        Dropdown { no_selection_text: Some(text), ..self }
    }

    pub fn set_no_selection_text(&mut self, text: String)
        requires
            old(self).wf(),
        ensures
            final(self).wf(),
            *final(self) == (Dropdown { no_selection_text: Some(text), ..*old(self) }),
    {
        self.no_selection_text = Some(text);
    }

    /// Stops offering the clearing row.
    pub fn clear_no_selection_text(&mut self)
        requires
            old(self).wf(),
        ensures
            final(self).wf(),
            *final(self) == (Dropdown {
                no_selection_text: None,
                no_selection_highlighted: false,
                ..*old(self)
            }),
    {
        self.no_selection_text = None;
        self.no_selection_highlighted = false;
    }

    pub fn action_keys(self, keys: DropdownActionKeys) -> (r: Dropdown)
        requires
            self.wf(),
        ensures
            r.wf(),
            r == (Dropdown { action_keys: keys, ..self }),
    {
        Dropdown { action_keys: keys, ..self }
    }

    pub fn set_action_keys(&mut self, keys: DropdownActionKeys)
        requires
            old(self).wf(),
        ensures
            final(self).wf(),
            *final(self) == (Dropdown { action_keys: keys, ..*old(self) }),
    {
        self.action_keys = keys;
    }

    pub fn commit_mode(self, mode: DropdownCommitMode) -> (r: Dropdown)
        requires
            self.wf(),
        ensures
            r.wf(),
            r == (Dropdown { commit_mode: mode, ..self }),
    {
        Dropdown { commit_mode: mode, ..self }
    }

    pub fn centered(self, centered: bool) -> (r: Dropdown)
        requires
            self.wf(),
        ensures
            r.wf(),
            r == (Dropdown { centered, ..self }),
    {
        Dropdown { centered, ..self }
    }

    pub fn close_on_select(self, close: bool) -> (r: Dropdown)
        requires
            self.wf(),
        ensures
            r.wf(),
            r == (Dropdown { close_on_select: close, ..self }),
    {
        Dropdown { close_on_select: close, ..self }
    }

    /// Caps the popup at `height` rows (at least one).
    pub fn max_popup_height(self, height: u16) -> (r: Dropdown)
        requires
            self.wf(),
        ensures
            r.wf(),
            r == (Dropdown { max_popup_height: Some(if height < 1 { 1 } else { height }), ..self }),
    {
        Dropdown { max_popup_height: Some(if height < 1 { 1 } else { height }), ..self }
    }

    pub fn auto_focus_search(self, auto_focus: bool) -> (r: Dropdown)
        requires
            self.wf(),
        ensures
            r.wf(),
            r == (Dropdown { auto_focus_search: auto_focus, ..self }),
    {
        Dropdown { auto_focus_search: auto_focus, ..self }
    }

    pub fn label(self, label: String) -> (r: Dropdown)
        requires
            self.wf(),
        ensures
            r.wf(),
            r == (Dropdown { label: Some(label), ..self }),
    {
        Dropdown { label: Some(label), ..self }
    }

    pub fn set_label(&mut self, label: String)
        requires
            old(self).wf(),
        ensures
            final(self).wf(),
            *final(self) == (Dropdown { label: Some(label), ..*old(self) }),
    {
        self.label = Some(label);
    }

    pub fn clear_label(&mut self)
        requires
            old(self).wf(),
        ensures
            final(self).wf(),
            *final(self) == (Dropdown { label: None, ..*old(self) }),
    {
        self.label = None;
    }

    pub fn label_position(self, position: DropdownLabelPosition) -> (r: Dropdown)
        requires
            self.wf(),
        ensures
            r.wf(),
            r == (Dropdown { label_position: position, ..self }),
    {
        Dropdown { label_position: position, ..self }
    }

    pub fn set_label_position(&mut self, position: DropdownLabelPosition)
        requires
            old(self).wf(),
        ensures
            final(self).wf(),
            *final(self) == (Dropdown { label_position: position, ..*old(self) }),
    {
        self.label_position = position;
    }

    pub fn hotkey(self, hotkey: String) -> (r: Dropdown)
        requires
            self.wf(),
        ensures
            r.wf(),
            r == (Dropdown { hotkey: Some(hotkey), ..self }),
    {
        Dropdown { hotkey: Some(hotkey), ..self }
    }

    pub fn set_hotkey(&mut self, hotkey: String)
        requires
            old(self).wf(),
        ensures
            final(self).wf(),
            *final(self) == (Dropdown { hotkey: Some(hotkey), ..*old(self) }),
    {
        self.hotkey = Some(hotkey);
    }

    pub fn clear_hotkey(&mut self)
        requires
            old(self).wf(),
        ensures
            final(self).wf(),
            *final(self) == (Dropdown { hotkey: None, ..*old(self) }),
    {
        self.hotkey = None;
    }

    pub fn tab_stop(self, tab_stop: bool) -> (r: Dropdown)
        requires
            self.wf(),
        ensures
            r.wf(),
            r == (Dropdown { tab_stop, ..self }),
    {
        Dropdown { tab_stop, ..self }
    }

    pub fn set_tab_stop(&mut self, tab_stop: bool)
        requires
            old(self).wf(),
        ensures
            final(self).wf(),
            *final(self) == (Dropdown { tab_stop, ..*old(self) }),
    {
        self.tab_stop = tab_stop;
    }

    pub fn alt_style(self, alt_style: bool) -> (r: Dropdown)
        requires
            self.wf(),
        ensures
            r.wf(),
            r == (Dropdown { alt_style, ..self }),
    {
        Dropdown { alt_style, ..self }
    }

    pub fn set_alt_style(&mut self, alt_style: bool)
        requires
            old(self).wf(),
        ensures
            final(self).wf(),
            *final(self) == (Dropdown { alt_style, ..*old(self) }),
    {
        self.alt_style = alt_style;
    }

    pub fn variant(self, variant: DropdownVariant) -> (r: Dropdown)
        requires
            self.wf(),
        ensures
            r.wf(),
            r == (Dropdown { variant, ..self }),
    {
        Dropdown { variant, ..self }
    }

    pub fn popup_direction(self, direction: DropdownPopupDirection) -> (r: Dropdown)
        requires
            self.wf(),
        ensures
            r.wf(),
            r == (Dropdown { popup_direction: direction, ..self }),
    {
        Dropdown { popup_direction: direction, ..self }
    }

    pub fn set_popup_direction(&mut self, direction: DropdownPopupDirection)
        requires
            old(self).wf(),
        ensures
            final(self).wf(),
            *final(self) == (Dropdown { popup_direction: direction, ..*old(self) }),
    {
        self.popup_direction = direction;
    }

    /// Records where the last layout put the field (the top rows of `area`) and the bounds the
    /// popup may use.
    pub fn layout_overlay(&mut self, area: Rect, overlay_bounds: Rect) -> (r: Rect)
        requires
            old(self).wf(),
            overlay_bounds.spec_fits(),
        ensures
            final(self).wf(),
            *final(self) == (Dropdown {
                field_area: old(self).spec_field_area(area),
                overlay_bounds,
                ..*old(self)
            }),
            r == old(self).spec_field_area(area),
    {
        let field = self.field_area(area);
        self.field_area = field;
        self.overlay_bounds = overlay_bounds;
        field
    }
}


/// The focus targets a dropdown registers.
#[derive(Debug, Clone, Copy, PartialEq, Eq, Structural)]
pub enum DropdownFocusTarget {
    Field,
    Search,
    Other,
}

pub open spec fn target_region(t: DropdownFocusTarget) -> Option<DropdownFocusRegion> {
    match t {
        DropdownFocusTarget::Field => Some(DropdownFocusRegion::Field),
        DropdownFocusTarget::Search => Some(DropdownFocusRegion::Search),
        DropdownFocusTarget::Other => None,
    }
}

impl Dropdown {
    /// Answers a focus change of `target`: gaining it selects the field or the search region;
    /// losing the field while the search is about to take over keeps the popup; losing the
    /// focused region cancels an open popup and clears the focus. Returns whether the backdrop
    /// starts dimming out.
    pub fn focus(&mut self, target: DropdownFocusTarget, focused: bool) -> (r: bool)
        requires
            old(self).wf(),
        ensures
            final(self).wf(),
            ({
                let a = *old(self);
                let region = target_region(target);
                let matches_region = region is Some && a.focus_region == region;
                let opening_blur = a.open && a.spec_search_enabled() && a.auto_focus_search
                    && a.focus_region == Some(DropdownFocusRegion::Field)
                    && target == DropdownFocusTarget::Field;
                if focused && region is Some {
                    *final(self) == Dropdown { focus_region: region, ..a } && !r
                } else if !focused && opening_blur {
                    *final(self) == a && !r
                } else if !focused && a.open && matches_region {
                    exists|mid: Dropdown, o: DropdownOutcome| #![trigger cancel_post(a, mid, o)]
                        cancel_post(a, mid, o) && *final(self) == Dropdown { focus_region: None, ..mid } && r
                } else if !focused && matches_region {
                    *final(self) == Dropdown { focus_region: None, ..a } && !r
                } else {
                    *final(self) == a && !r
                }
            }),
    {
        let region = match target {
            DropdownFocusTarget::Field => Some(DropdownFocusRegion::Field),
            DropdownFocusTarget::Search => Some(DropdownFocusRegion::Search),
            DropdownFocusTarget::Other => None,
        };
        let matches_region = region.is_some() && self.focus_region == region;
        let opening_blur = self.open && self.search_mode != DropdownSearchMode::Off && self.auto_focus_search
            && self.focus_region == Some(DropdownFocusRegion::Field) && target == DropdownFocusTarget::Field;
        if focused && region.is_some() {
            self.focus_region = region;
            false
        } else if !focused && opening_blur {
            false
        } else if !focused && self.open && matches_region {
            let o = self.cancel();
            let ghost mid = *self;
            assert(cancel_post(*old(self), mid, o));
            self.focus_region = None;
            true
        } else if !focused && matches_region {
            self.focus_region = None;
            false
        } else {
            false
        }
    }
}

// ---------------------------------------------------------------------------------------------
// Laws
// ---------------------------------------------------------------------------------------------

/// Opening the popup and canceling it leaves the committed choice as it was, and the popup
/// closed.
pub proof fn law_open_then_cancel_restores(a: Dropdown, b: Dropdown, c: Dropdown, o1: DropdownOutcome, o2: DropdownOutcome)
    requires
        a.wf(),
        !a.open,
        open_post(a, b, o1),
        cancel_post(b, c, o2),
    ensures
        c.committed@ == a.committed@,
        c.draft@ == a.committed@,
        !c.open,
        o2.canceled,
{
}

/// While the popup is open under explicit commit, the committed choice stays the one held when
/// it opened: no key that leaves the popup open commits anything.
pub proof fn law_explicit_keys_keep_choice(
    a: Dropdown,
    b: Dropdown,
    key: KeyEvent,
    page: u16,
    keys: DropdownKeys,
    hotkey: Option<KeyEvent>,
    r: DropdownOutcome,
)
    requires
        a.wf(),
        a.open,
        a.commit_mode == DropdownCommitMode::Explicit,
        a.committed@ == a.opened_committed@,
        key_post(a, b, key, page, keys, hotkey, r),
        b.open,
    ensures
        b.committed@ == a.committed@,
        b.opened_committed@ == a.opened_committed@,
        b.commit_mode == a.commit_mode,
{
}

/// Under explicit commit a new search text leaves the committed choice and the choice held at
/// opening as they were.
pub proof fn law_explicit_search_keeps_choice(a: Dropdown, b: Dropdown, query: Seq<char>, matches: Seq<usize>, r: DropdownOutcome)
    requires
        a.wf(),
        a.commit_mode == DropdownCommitMode::Explicit,
        searched_post(a, b, query, matches, r),
    ensures
        b.committed@ == a.committed@,
        b.opened_committed@ == a.opened_committed@,
        b.commit_mode == a.commit_mode,
{
}

/// One step taken while the popup is open, after which it is still open: a key press
/// (`on_key`, `key_post`) or a new search text (`search_changed`, `searched_post`).
pub open spec fn open_step(a: Dropdown, b: Dropdown) -> bool {
    &&& b.wf()
    &&& b.open
    &&& {
        ||| exists|key: KeyEvent, page: u16, keys: DropdownKeys, hotkey: Option<KeyEvent>, r: DropdownOutcome|
            #[trigger] key_post(a, b, key, page, keys, hotkey, r)
        ||| exists|query: Seq<char>, matches: Seq<usize>, r: DropdownOutcome|
            #[trigger] searched_post(a, b, query, matches, r)
    }
}

/// After `open_post(a, states[0])` and open steps from each state to the next, every state is
/// open under explicit commit, and holds the choice committed at opening, both as its committed
/// choice and as the choice held at opening.
proof fn lemma_open_steps_hold_choice(a: Dropdown, states: Seq<Dropdown>, o: DropdownOutcome, n: int)
    requires
        a.wf(),
        !a.open,
        a.commit_mode == DropdownCommitMode::Explicit,
        0 <= n < states.len(),
        open_post(a, states[0], o),
        states[0].wf(),
        forall|i: int| 0 <= i < states.len() - 1 ==> open_step(#[trigger] states[i], states[i + 1]),
    ensures
        states[n].wf(),
        states[n].open,
        states[n].commit_mode == DropdownCommitMode::Explicit,
        states[n].committed@ == a.committed@,
        states[n].opened_committed@ == a.committed@,
    decreases n,
{
    if n > 0 {
        lemma_open_steps_hold_choice(a, states, o, n - 1);
        let p = states[n - 1];
        let q = states[n];
        assert(open_step(states[n - 1], states[n]));
        if exists|key: KeyEvent, page: u16, keys: DropdownKeys, hotkey: Option<KeyEvent>, r: DropdownOutcome|
            #[trigger] key_post(p, q, key, page, keys, hotkey, r) {
            let (key, page, keys, hotkey, r) = choose|key: KeyEvent, page: u16, keys: DropdownKeys, hotkey: Option<KeyEvent>, r: DropdownOutcome|
                #[trigger] key_post(p, q, key, page, keys, hotkey, r);
            law_explicit_keys_keep_choice(p, q, key, page, keys, hotkey, r);
        } else {
            let (query, matches, r) = choose|query: Seq<char>, matches: Seq<usize>, r: DropdownOutcome|
                #[trigger] searched_post(p, q, query, matches, r);
            law_explicit_search_keeps_choice(p, q, query, matches, r);
        }
    }
}

/// Under explicit commit, canceling undoes everything done since the popup opened, however many
/// keys were pressed and search texts typed while it stayed open: the choice committed at
/// opening is committed and drafted again, the search text is cleared, and the popup closes.
pub proof fn law_cancel_restores_choice_after_open_steps(
    a: Dropdown,
    states: Seq<Dropdown>,
    c: Dropdown,
    o1: DropdownOutcome,
    o2: DropdownOutcome,
)
    requires
        a.wf(),
        !a.open,
        a.commit_mode == DropdownCommitMode::Explicit,
        states.len() > 0,
        open_post(a, states[0], o1),
        states[0].wf(),
        forall|i: int| 0 <= i < states.len() - 1 ==> open_step(#[trigger] states[i], states[i + 1]),
        cancel_post(states.last(), c, o2),
    ensures
        c.committed@ == a.committed@,
        c.draft@ == a.committed@,
        !c.open,
        c.query@.len() == 0,
        o2.canceled && o2.closed && o2.handled,
{
    lemma_open_steps_hold_choice(a, states, o1, states.len() - 1);
    law_cancel_undoes_draft_changes(states.last(), c, o2);
}

/// Canceling under explicit commit undoes every change made to the choice since the popup
/// opened: the choice held then is committed and drafted again, the search text is cleared,
/// and the popup closes.
pub proof fn law_cancel_undoes_draft_changes(a: Dropdown, b: Dropdown, r: DropdownOutcome)
    requires
        a.wf(),
        a.open,
        a.commit_mode == DropdownCommitMode::Explicit,
        cancel_post(a, b, r),
    ensures
        b.committed@ == a.opened_committed@,
        b.draft@ == a.opened_committed@,
        !b.open,
        b.query@.len() == 0,
        r.canceled && r.closed && r.handled,
{
}

/// Opening the popup holds the committed choice as the choice held at opening.
pub proof fn law_open_holds_choice(a: Dropdown, b: Dropdown, r: DropdownOutcome)
    requires
        a.wf(),
        !a.open,
        open_post(a, b, r),
    ensures
        b.open,
        b.committed@ == a.committed@,
        b.opened_committed@ == a.committed@,
{
}

/// Committing takes the commit choice as the committed choice and closes the popup.
pub proof fn law_commit_takes_draft(a: Dropdown, b: Dropdown, r: DropdownOutcome)
    requires
        a.wf(),
        commit_post(a, b, r),
    ensures
        b.committed@ == commit_choice(a),
        !b.open || !a.open,
        r.committed,
{
}

/// Closing never changes the committed choice.
pub proof fn law_close_keeps_choice(a: Dropdown, b: Dropdown, r: DropdownOutcome)
    requires
        a.wf(),
        close_post(a, b, r),
    ensures
        b.committed@ == a.committed@,
        !b.open,
{
}

/// A single-choice dropdown never holds more than one committed row, and every committed row
/// is one of its rows.
pub proof fn law_choice_is_known(d: Dropdown)
    requires
        d.wf(),
    ensures
        !d.multi ==> d.committed@.len() <= 1,
        forall|i: int| 0 <= i < d.committed@.len() ==> d.ids@.contains(#[trigger] d.committed@[i]),
{
}

/// Under immediate commit, a single choice moved by the highlight is committed at once.
pub proof fn law_immediate_follows_highlight(a: Dropdown, b: Dropdown, nav: DropdownNav, page: u16, r: DropdownOutcome)
    requires
        a.wf(),
        !a.multi,
        !a.no_selection_highlighted,
        a.commit_mode == DropdownCommitMode::Immediate,
        navigated_post(a, b, nav, page, r),
    ensures
        b.committed@ == b.draft@,
        r.committed,
{
}

} // verus!
