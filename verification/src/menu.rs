//! A popup menu of items opened from a trigger: it filters its items by a search text, moves a
//! highlight over them and reports the items activated.
use vstd::prelude::*;
use crate::geometry::{clip_rect, max_int, min_int, sat_add16, sat_sub, spec_clip_rect, Rect};
use crate::keys::{keys_match, matches_any, spec_keys_match, spec_matches_any, Key, KeyEvent, KeyModifiers, KeySpec};
use crate::dropdown::{
    all_in, bare, bordered_inner, contains_id, copy_ids, ctrl, find_position, ids_at,
    lemma_position_of, position_of, search_split, spec_bordered_inner, spec_target_index,
    split_search, target_index, FocusMove, POPUP_BORDER_HEIGHT,
};
use crate::text::{display_width, text_width};

verus! {

/// An item of a menu: its id and its label.
#[derive(Debug, Clone, PartialEq, Eq)]
pub struct MenuItem {
    pub id: u64,
    pub label: String,
}

impl MenuItem {
    pub fn new(id: u64, label: String) -> (r: MenuItem)
        ensures
            r.id == id,
            r.label@ == label@,
    {
        MenuItem { id, label }
    }
}

/// How the items are filtered by the search text.
#[derive(Debug, Clone, Copy, PartialEq, Eq, Structural)]
pub enum MenuSearchMode {
    Off,
    Contains,
    Fuzzy,
}

/// How a search matches a label.
#[derive(Debug, Clone, Copy, PartialEq, Eq, Structural)]
pub enum SearchMode {
    Contains,
    Fuzzy,
}

/// The search used to mark matched characters in labels: none without search.
pub fn search_mode_for_highlight(mode: MenuSearchMode) -> (r: Option<SearchMode>)
    ensures
        r == match mode {
            MenuSearchMode::Off => None,
            MenuSearchMode::Contains => Some(SearchMode::Contains),
            MenuSearchMode::Fuzzy => Some(SearchMode::Fuzzy),
        },
{
    match mode {
        MenuSearchMode::Off => None,
        MenuSearchMode::Contains => Some(SearchMode::Contains),
        MenuSearchMode::Fuzzy => Some(SearchMode::Fuzzy),
    }
}

#[derive(Debug, Clone, Copy, PartialEq, Eq, Structural)]
pub enum MenuPopupDirection {
    Down,
    Up,
}

/// The keys that activate the highlighted item.
#[derive(Debug, Clone, PartialEq, Eq)]
pub struct MenuActionKeys {
    pub activate: Vec<KeySpec>,
}

impl MenuActionKeys {
    /// Enter activates.
    pub fn new() -> (r: MenuActionKeys)
        ensures
            r.activate@ == seq![bare(Key::Enter)],
    {
        MenuActionKeys { activate: vec![KeySpec::key(Key::Enter)] }
    }
}

/// The default action key is Enter.
impl Default for MenuActionKeys {
    fn default() -> (r: MenuActionKeys)
        ensures
            r.activate@ == seq![bare(Key::Enter)],
    {
        MenuActionKeys::new()
    }
}

/// What a menu operation did.
#[derive(Debug, Clone, Copy, PartialEq, Eq, Structural)]
pub struct MenuOutcome {
    pub handled: bool,
    pub changed: bool,
    pub opened: bool,
    pub closed: bool,
    pub activated: bool,
}

pub open spec fn menu_idle() -> MenuOutcome {
    MenuOutcome { handled: false, changed: false, opened: false, closed: false, activated: false }
}

pub open spec fn menu_handled() -> MenuOutcome {
    MenuOutcome { handled: true, ..menu_idle() }
}

impl MenuOutcome {
    pub fn idle() -> (r: MenuOutcome)
        ensures
            r == menu_idle(),
    {
        MenuOutcome { handled: false, changed: false, opened: false, closed: false, activated: false }
    }

    pub fn handled() -> (r: MenuOutcome)
        ensures
            r == menu_handled(),
    {
        MenuOutcome { handled: true, ..MenuOutcome::idle() }
    }
}

/// The keys a menu answers while open: close, choose, and move one row or one page.
#[derive(Debug, Clone, PartialEq, Eq)]
pub struct MenuKeys {
    pub close: Vec<KeySpec>,
    pub select: Vec<KeySpec>,
    pub next: Vec<KeySpec>,
    pub previous: Vec<KeySpec>,
    pub page_next: Vec<KeySpec>,
    pub page_previous: Vec<KeySpec>,
    pub focus_next: Vec<KeySpec>,
    pub focus_previous: Vec<KeySpec>,
}

impl MenuKeys {
    /// Esc closes, Ctrl-Enter chooses, Down or Ctrl-j and Up or Ctrl-k move a row, PageDown or
    /// Ctrl-d and PageUp or Ctrl-u move a page, Tab and BackTab move the focus.
    pub fn standard() -> (r: MenuKeys)
        ensures
            r.close@ == seq![bare(Key::Esc)],
            r.select@ == seq![ctrl(Key::Enter)],
            r.next@ == seq![bare(Key::Down), ctrl(Key::Char('j'))],
            r.previous@ == seq![bare(Key::Up), ctrl(Key::Char('k'))],
            r.page_next@ == seq![bare(Key::PageDown), ctrl(Key::Char('d'))],
            r.page_previous@ == seq![bare(Key::PageUp), ctrl(Key::Char('u'))],
            r.focus_next@ == seq![bare(Key::Tab)],
            r.focus_previous@ == seq![bare(Key::BackTab)],
    {
        let c = KeyModifiers::control();
        MenuKeys {
            close: vec![KeySpec::key(Key::Esc)],
            select: vec![KeySpec::key_with_modifiers(Key::Enter, c)],
            next: vec![KeySpec::key(Key::Down), KeySpec::key_with_modifiers(Key::Char('j'), c)],
            previous: vec![KeySpec::key(Key::Up), KeySpec::key_with_modifiers(Key::Char('k'), c)],
            page_next: vec![KeySpec::key(Key::PageDown), KeySpec::key_with_modifiers(Key::Char('d'), c)],
            page_previous: vec![KeySpec::key(Key::PageUp), KeySpec::key_with_modifiers(Key::Char('u'), c)],
            focus_next: vec![KeySpec::key(Key::Tab)],
            focus_previous: vec![KeySpec::key(Key::BackTab)],
        }
    }
}

#[derive(Debug, Clone, Copy, PartialEq, Eq, Structural)]
pub enum MenuFocusRegion {
    Search,
    Panel,
}

/// The rows a popup lists at most by default.
pub const DEFAULT_VISIBLE_ITEMS: u16 = 10;

/// A popup menu. `filtered` holds the items the search leaves, `highlighted` the item under the
/// cursor, `activated` the items activated since they were last taken.
#[derive(Debug)]
pub struct Menu {
    pub ids: Vec<u64>,
    pub labels: Vec<String>,
    pub filtered: Vec<u64>,
    pub highlighted: Option<u64>,
    pub open: bool,
    pub search_mode: MenuSearchMode,
    pub max_popup_height: Option<u16>,
    pub visible_items: u16,
    pub min_popup_width: u16,
    pub popup_direction: MenuPopupDirection,
    pub trigger_area: Rect,
    pub overlay_bounds: Rect,
    pub focus_region: Option<MenuFocusRegion>,
    pub action_keys: MenuActionKeys,
    pub trigger_hotkey: Option<String>,
    pub activated: Vec<u64>,
    pub query: String,
}

/// The configuration of `b` is that of `a`.
pub open spec fn menu_same_config(a: Menu, b: Menu) -> bool {
    &&& b.ids@ == a.ids@
    &&& b.labels@ == a.labels@
    &&& b.search_mode == a.search_mode
    &&& b.max_popup_height == a.max_popup_height
    &&& b.visible_items == a.visible_items
    &&& b.min_popup_width == a.min_popup_width
    &&& b.popup_direction == a.popup_direction
    &&& b.trigger_area == a.trigger_area
    &&& b.overlay_bounds == a.overlay_bounds
    &&& b.action_keys == a.action_keys
    &&& b.trigger_hotkey == a.trigger_hotkey
}

impl Menu {
    /// Items and labels pair up, the shown items and the highlight are known items, a closed
    /// menu has no search text, and without search text every item shows.
    pub open spec fn wf(self) -> bool {
        &&& self.ids@.len() == self.labels@.len()
        &&& all_in(self.filtered@, self.ids@)
        &&& all_in(self.activated@, self.ids@)
        &&& (self.highlighted matches Some(h) ==> self.ids@.contains(h))
        &&& (!self.open ==> self.query@.len() == 0)
        &&& (self.query@.len() == 0 ==> self.filtered@ == self.ids@)
        &&& self.overlay_bounds.spec_fits()
    }

    pub open spec fn spec_search_enabled(self) -> bool {
        self.search_mode != MenuSearchMode::Off
    }

    /// A closed menu of `items`, searched fuzzily, with nothing highlighted.
    pub fn new(items: Vec<MenuItem>) -> (r: Menu)
        ensures
            r.wf(),
            r.ids@ == Seq::new(items@.len(), |i: int| items@[i].id),
            r.labels@.len() == items@.len(),
            forall|i: int| 0 <= i < items@.len() ==> #[trigger] r.labels@[i]@ == items@[i].label@,
            r.filtered@ == r.ids@,
            r.highlighted == (if items@.len() > 0 { Some(items@[0].id) } else { None::<u64> }),
            !r.open,
            r.search_mode == MenuSearchMode::Fuzzy,
            r.max_popup_height.is_none(),
            r.visible_items == DEFAULT_VISIBLE_ITEMS,
            r.min_popup_width == 24,
            r.popup_direction == MenuPopupDirection::Down,
            r.focus_region.is_none(),
            r.trigger_hotkey.is_none(),
            r.activated@.len() == 0,
            r.query@.len() == 0,
    {
        let mut ids: Vec<u64> = Vec::new();
        let mut labels: Vec<String> = Vec::new();
        let mut i: usize = 0;
        while i < items.len()
            invariant
                i <= items@.len(),
                ids@ == Seq::new(i as nat, |j: int| items@[j].id),
                labels@.len() == i,
                forall|j: int| 0 <= j < i ==> #[trigger] labels@[j]@ == items@[j].label@,
            decreases items@.len() - i,
        {
            ids.push(items[i].id);
            labels.push(items[i].label.clone());
            i += 1;
            assert(ids@ =~= Seq::new(i as nat, |j: int| items@[j].id));
        }
        let filtered = copy_ids(&ids);
        let highlighted = if ids.len() > 0 { Some(ids[0]) } else { None };
        proof {
            if ids@.len() > 0 {
                assert(ids@.contains(ids@[0]));
            }
        }
        Menu {
            ids,
            labels,
            filtered,
            highlighted,
            open: false,
            search_mode: MenuSearchMode::Fuzzy,
            max_popup_height: None,
            visible_items: DEFAULT_VISIBLE_ITEMS,
            min_popup_width: 24,
            popup_direction: MenuPopupDirection::Down,
            trigger_area: Rect::zero(),
            overlay_bounds: Rect::zero(),
            focus_region: None,
            action_keys: MenuActionKeys::new(),
            trigger_hotkey: None,
            activated: Vec::new(),
            query: String::new(),
        }
    }

    /// Sets how items are searched; every item shows, as the search text of a closed menu is
    /// empty.
    pub fn search_mode(self, mode: MenuSearchMode) -> (r: Menu)
        requires
            self.wf(),
            !self.open,
        ensures
            r.wf(),
            r == (Menu { search_mode: mode, ..self }),
    {
        Menu { search_mode: mode, ..self }
    }

    /// Caps the popup at `height` rows (at least one).
    pub fn max_popup_height(self, height: u16) -> (r: Menu)
        requires
            self.wf(),
        ensures
            r.wf(),
            r == (Menu { max_popup_height: Some(if height < 1 { 1 } else { height }), ..self }),
    {
        Menu { max_popup_height: Some(if height < 1 { 1 } else { height }), ..self }
    }

    /// Shows at most `count` rows (at least one) when no maximum height is set.
    pub fn visible_items(self, count: u16) -> (r: Menu)
        requires
            self.wf(),
        ensures
            r.wf(),
            r == (Menu { visible_items: if count < 1 { 1 } else { count }, ..self }),
    {
        Menu { visible_items: if count < 1 { 1 } else { count }, ..self }
    }

    /// Makes the popup at least `width` cells wide (at least one).
    pub fn min_popup_width(self, width: u16) -> (r: Menu)
        requires
            self.wf(),
        ensures
            r.wf(),
            r == (Menu { min_popup_width: if width < 1 { 1 } else { width }, ..self }),
    {
        Menu { min_popup_width: if width < 1 { 1 } else { width }, ..self }
    }

    pub fn popup_direction(self, direction: MenuPopupDirection) -> (r: Menu)
        requires
            self.wf(),
        ensures
            r.wf(),
            r == (Menu { popup_direction: direction, ..self }),
    {
        Menu { popup_direction: direction, ..self }
    }

    pub fn action_keys(self, keys: MenuActionKeys) -> (r: Menu)
        requires
            self.wf(),
        ensures
            r.wf(),
            r == (Menu { action_keys: keys, ..self }),
    {
        Menu { action_keys: keys, ..self }
    }

    /// Mirrors the trigger's hotkey, so that pressing it again closes the open menu.
    pub fn trigger_hotkey(self, hotkey: String) -> (r: Menu)
        requires
            self.wf(),
        ensures
            r.wf(),
            r == (Menu { trigger_hotkey: Some(hotkey), ..self }),
    {
        Menu { trigger_hotkey: Some(hotkey), ..self }
    }

    pub fn set_trigger_hotkey(&mut self, hotkey: String)
        requires
            old(self).wf(),
        ensures
            final(self).wf(),
            *final(self) == (Menu { trigger_hotkey: Some(hotkey), ..*old(self) }),
    {
        self.trigger_hotkey = Some(hotkey);
    }

    pub fn clear_trigger_hotkey(&mut self)
        requires
            old(self).wf(),
        ensures
            final(self).wf(),
            *final(self) == (Menu { trigger_hotkey: None, ..*old(self) }),
    {
        self.trigger_hotkey = None;
    }

    pub fn is_open(&self) -> (r: bool)
        ensures
            r == self.open,
    {
        self.open
    }

    pub fn search_query(&self) -> (r: &String)
        ensures
            r@ == self.query@,
    {
        &self.query
    }

    pub fn search_enabled(&self) -> (r: bool)
        ensures
            r == self.spec_search_enabled(),
    {
        self.search_mode != MenuSearchMode::Off
    }

    /// Hands out the items activated so far and forgets them.
    pub fn take_activated(&mut self) -> (r: Vec<u64>)
        requires
            old(self).wf(),
        ensures
            final(self).wf(),
            r@ == old(self).activated@,
            *final(self) == (Menu { activated: final(self).activated, ..*old(self) }),
            final(self).activated@.len() == 0,
    {
        let taken = copy_ids(&self.activated);
        self.activated = Vec::new();
        taken
    }
}


/// The menu is open: every item shows, the first is highlighted (the highlight stays when there
/// is none), and the focus goes to the search field, or to the panel without search.
pub open spec fn menu_opened_post(a: Menu, b: Menu) -> bool {
    &&& menu_same_config(a, b)
    &&& b.open
    &&& b.filtered@ == a.ids@
    &&& b.highlighted == (if a.ids@.len() > 0 { Some(a.ids@[0]) } else { a.highlighted })
    &&& b.query@ == a.query@
    &&& b.focus_region == Some(if a.spec_search_enabled() { MenuFocusRegion::Search } else { MenuFocusRegion::Panel })
    &&& b.activated@ == a.activated@
}

/// The menu is closed: the search text is cleared, every item shows again and the focus leaves
/// it.
pub open spec fn menu_closed_post(a: Menu, b: Menu) -> bool {
    &&& menu_same_config(a, b)
    &&& !b.open
    &&& b.query@.len() == 0
    &&& b.filtered@ == a.ids@
    &&& b.highlighted == (if a.query@.len() > 0 && a.ids@.len() > 0 && !(a.highlighted is Some && a.ids@.contains(a.highlighted->0)) {
        Some(a.ids@[0])
    } else {
        a.highlighted
    })
    &&& b.focus_region.is_none()
    &&& b.activated@ == a.activated@
}

pub open spec fn menu_open_post(a: Menu, b: Menu, r: MenuOutcome) -> bool {
    if a.open {
        b == a && r == menu_handled()
    } else {
        menu_opened_post(a, b) && r == MenuOutcome { handled: true, changed: true, opened: true, ..menu_idle() }
    }
}

pub open spec fn menu_close_post(a: Menu, b: Menu, r: MenuOutcome) -> bool {
    if !a.open {
        b == a && r == menu_handled()
    } else {
        menu_closed_post(a, b) && r == MenuOutcome { handled: true, changed: true, closed: true, ..menu_idle() }
    }
}

/// Activating: with an item highlighted it is recorded as activated and the menu closes.
pub open spec fn menu_activated_post(a: Menu, b: Menu, r: MenuOutcome) -> bool {
    match a.highlighted {
        None => b == a && r == menu_handled(),
        Some(id) => {
            let recorded = Menu { activated: b.activated, ..a };
            &&& b.activated@ == a.activated@.push(id)
            &&& menu_close_post(recorded, b, MenuOutcome { activated: false, changed: true, ..r })
            &&& r.activated
            &&& r.changed
        },
    }
}

/// Moving the highlight `delta` items among the visible ones, from where it is (from the first
/// when it is not among them), stopping at the first and the last.
pub open spec fn menu_moved_post(a: Menu, b: Menu, delta: int, r: MenuOutcome) -> bool {
    if a.filtered@.len() == 0 {
        b == a && r == menu_handled()
    } else {
        let current = match a.highlighted {
            Some(h) => if a.filtered@.contains(h) { position_of(a.filtered@, h) } else { 0 },
            None => 0,
        };
        let h2 = Some(a.filtered@[spec_target_index(current, delta, a.filtered@.len() as int)]);
        &&& b == Menu { highlighted: h2, ..a }
        &&& r == MenuOutcome { handled: true, changed: h2 != a.highlighted, ..menu_idle() }
    }
}

impl Menu {
    fn clear_search_query(&mut self)
        requires
            old(self).wf(),
        ensures
            final(self).wf(),
            *final(self) == (Menu {
                query: final(self).query,
                filtered: final(self).filtered,
                highlighted: final(self).highlighted,
                ..*old(self)
            }),
            final(self).query@.len() == 0,
            final(self).filtered@ == old(self).ids@,
            final(self).highlighted == (if old(self).query@.len() > 0 && old(self).ids@.len() > 0
                && !(old(self).highlighted is Some && old(self).ids@.contains(old(self).highlighted->0)) {
                Some(old(self).ids@[0])
            } else {
                old(self).highlighted
            }),
    {
        if self.query.as_str().unicode_len() > 0 {
            self.query = String::new();
            self.filtered = copy_ids(&self.ids);
            if self.filtered.len() > 0 {
                let keep = match self.highlighted {
                    Some(h) => contains_id(&self.filtered, h),
                    None => false,
                };
                if !keep {
                    self.highlighted = Some(self.filtered[0]);
                    assert(self.ids@.contains(self.ids@[0]));
                }
            }
        }
    }

    /// Opens the menu.
    pub fn open(&mut self) -> (r: MenuOutcome)
        requires
            old(self).wf(),
        ensures
            final(self).wf(),
            menu_open_post(*old(self), *final(self), r),
    {
        if self.open {
            return MenuOutcome::handled();
        }
        self.open = true;
        self.filtered = copy_ids(&self.ids);
        if self.filtered.len() > 0 {
            self.highlighted = Some(self.filtered[0]);
            assert(self.ids@.contains(self.ids@[0]));
        }
        self.focus_region = Some(
            if self.search_mode != MenuSearchMode::Off { MenuFocusRegion::Search } else { MenuFocusRegion::Panel },
        );
        MenuOutcome { handled: true, changed: true, opened: true, ..MenuOutcome::idle() }
    }

    /// Closes the menu.
    pub fn close(&mut self) -> (r: MenuOutcome)
        requires
            old(self).wf(),
        ensures
            final(self).wf(),
            menu_close_post(*old(self), *final(self), r),
    {
        if !self.open {
            return MenuOutcome::handled();
        }
        self.clear_search_query();
        self.open = false;
        self.focus_region = None;
        MenuOutcome { handled: true, changed: true, closed: true, ..MenuOutcome::idle() }
    }

    /// Opens a closed menu and closes an open one.
    pub fn toggle(&mut self) -> (r: MenuOutcome)
        requires
            old(self).wf(),
        ensures
            final(self).wf(),
            old(self).open ==> menu_close_post(*old(self), *final(self), r),
            !old(self).open ==> menu_open_post(*old(self), *final(self), r),
    {
        if self.open { self.close() } else { self.open() }
    }

    /// Activates the highlighted item (see `menu_activated_post`).
    pub fn activate_highlighted(&mut self) -> (r: MenuOutcome)
        requires
            old(self).wf(),
            old(self).open,
        ensures
            final(self).wf(),
            menu_activated_post(*old(self), *final(self), r),
    {
        let id = match self.highlighted {
            None => {
                return MenuOutcome::handled();
            },
            Some(id) => id,
        };
        self.activated.push(id);
        proof {
            assert forall|i: int| 0 <= i < self.activated@.len() implies self.ids@.contains(#[trigger] self.activated@[i]) by {
                if i < old(self).activated@.len() {
                    assert(self.activated@[i] == old(self).activated@[i]);
                }
            }
        }
        let ghost recorded = *self;
        let mut outcome = self.close();
        outcome.activated = true;
        outcome.changed = true;
        assert(menu_close_post(recorded, *self, MenuOutcome { activated: false, changed: true, ..outcome }));
        outcome
    }

    /// Moves the highlight `delta` items (see `menu_moved_post`).
    pub fn navigate_by(&mut self, delta: isize) -> (r: MenuOutcome)
        requires
            old(self).wf(),
        ensures
            final(self).wf(),
            menu_moved_post(*old(self), *final(self), delta as int, r),
    {
        let len = self.filtered.len();
        if len == 0 {
            return MenuOutcome::handled();
        }
        let current: usize = match self.highlighted {
            Some(h) => match find_position(&self.filtered, h) {
                Some(i) => i,
                None => 0,
            },
            None => 0,
        };
        proof {
            match self.highlighted {
                Some(h) => lemma_position_of(self.filtered@, h),
                None => {},
            }
        }
        let t = target_index(current, delta, len);
        let before = self.highlighted;
        self.highlighted = Some(self.filtered[t]);
        proof {
            assert(self.ids@.contains(self.filtered@[t as int]));
        }
        MenuOutcome { handled: true, changed: before != self.highlighted, ..MenuOutcome::idle() }
    }

    /// Takes a new search text while open: the visible items become the matches (every item for
    /// an empty text) and the first of them is highlighted. `matches` holds the positions, best
    /// first, of the items whose labels match `query`.
    pub fn search_changed(&mut self, query: String, matches: &Vec<usize>) -> (r: MenuOutcome)
        requires
            old(self).wf(),
            old(self).open,
            old(self).spec_search_enabled(),
            forall|i: int| 0 <= i < matches@.len() ==> matches@[i] < old(self).ids@.len(),
        ensures
            final(self).wf(),
            ({
                let filtered = if query@.len() == 0 { old(self).ids@ } else { ids_at(old(self).ids@, matches@) };
                &&& *final(self) == Menu {
                    query: final(self).query,
                    filtered: final(self).filtered,
                    highlighted: final(self).highlighted,
                    ..*old(self)
                }
                &&& final(self).query@ == query@
                &&& final(self).filtered@ == filtered
                &&& final(self).highlighted == (if filtered.len() > 0 { Some(filtered[0]) } else { old(self).highlighted })
                &&& r == MenuOutcome { handled: true, changed: true, ..menu_idle() }
            }),
    {
        let empty = query.as_str().unicode_len() == 0;
        self.query = query;
        if empty {
            self.filtered = copy_ids(&self.ids);
        } else {
            let mut out: Vec<u64> = Vec::new();
            let mut i: usize = 0;
            while i < matches.len()
                invariant
                    i <= matches@.len(),
                    self.ids@ == old(self).ids@,
                    forall|j: int| 0 <= j < matches@.len() ==> matches@[j] < self.ids@.len(),
                    out@ == ids_at(self.ids@, matches@.take(i as int)),
                decreases matches@.len() - i,
            {
                out.push(self.ids[matches[i]]);
                i += 1;
                assert(out@ =~= ids_at(self.ids@, matches@.take(i as int)));
            }
            assert(matches@.take(matches@.len() as int) =~= matches@);
            proof {
                assert forall|j: int| 0 <= j < out@.len() implies self.ids@.contains(#[trigger] out@[j]) by {
                    assert(self.ids@[matches@[j] as int] == out@[j]);
                }
            }
            self.filtered = out;
        }
        if self.filtered.len() > 0 {
            self.highlighted = Some(self.filtered[0]);
            assert(self.ids@.contains(self.filtered@[0]));
        }
        MenuOutcome { handled: true, changed: true, ..MenuOutcome::idle() }
    }
}


/// The label of item `id`.
pub open spec fn menu_label_of(m: Menu, id: u64) -> Option<Seq<char>> {
    let i = position_of(m.ids@, id);
    if 0 <= i < m.labels@.len() { Some(m.labels@[i]@) } else { None }
}

/// The widest label among the first `k` visible items.
pub open spec fn menu_widest_visible(m: Menu, k: int) -> Option<int>
    decreases k,
{
    if k <= 0 {
        None
    } else {
        let prev = menu_widest_visible(m, k - 1);
        match menu_label_of(m, m.filtered@[k - 1]) {
            None => prev,
            Some(l) => {
                let w = display_width(l) as int;
                match prev {
                    None => Some(w),
                    Some(p) => Some(max_int(p, w)),
                }
            },
        }
    }
}

/// The widest of the first `k` labels.
pub open spec fn menu_widest_label(m: Menu, k: int) -> int
    decreases k,
{
    if k <= 0 {
        0
    } else {
        max_int(menu_widest_label(m, k - 1), display_width(m.labels@[k - 1]@) as int)
    }
}

pub proof fn lemma_menu_widths(m: Menu, k: int)
    ensures
        menu_widest_visible(m, k) matches Some(w) ==> 0 <= w <= usize::MAX,
        0 <= menu_widest_label(m, k) <= usize::MAX,
    decreases k,
{
    if k > 0 {
        lemma_menu_widths(m, k - 1);
    }
}

impl Menu {
    /// Whether the widest visible label (or the no-results text) is wider than a popup of
    /// `width` cells shows inside its border.
    pub open spec fn spec_needs_horizontal_scrollbar(self, width: u16) -> bool {
        let content = match menu_widest_visible(self, self.filtered@.len() as int) {
            Some(w) => w,
            None => display_width("No results"@) as int,
        };
        content > sat_sub(width as int, 2)
    }

    fn label_for(&self, id: u64) -> (r: Option<&String>)
        requires
            self.ids@.len() == self.labels@.len(),
        ensures
            match menu_label_of(*self, id) {
                Some(l) => r matches Some(s) && s@ == l,
                None => r.is_none(),
            },
    {
        match find_position(&self.ids, id) {
            Some(i) => Some(&self.labels[i]),
            None => None,
        }
    }

    pub fn needs_horizontal_scrollbar(&self, width: u16) -> (r: bool)
        requires
            self.ids@.len() == self.labels@.len(),
        ensures
            r == self.spec_needs_horizontal_scrollbar(width),
    {
        let mut widest: Option<usize> = None;
        let mut k: usize = 0;
        while k < self.filtered.len()
            invariant
                k <= self.filtered@.len(),
                self.ids@.len() == self.labels@.len(),
                match menu_widest_visible(*self, k as int) {
                    Some(w) => widest == Some(w as usize),
                    None => widest.is_none(),
                },
            decreases self.filtered@.len() - k,
        {
            proof {
                lemma_menu_widths(*self, k as int);
                lemma_menu_widths(*self, k + 1);
            }
            let id = self.filtered[k];
            match self.label_for(id) {
                None => {},
                Some(l) => {
                    let w = text_width(l.as_str());
                    widest = match widest {
                        None => Some(w),
                        Some(p) => Some(if p >= w { p } else { w }),
                    };
                },
            }
            k += 1;
        }
        proof {
            lemma_menu_widths(*self, self.filtered@.len() as int);
        }
        let content = match widest {
            Some(w) => w,
            None => text_width("No results"),
        };
        content > width.saturating_sub(2) as usize
    }

    /// The rows the popup lists: the visible items, at least one.
    pub open spec fn spec_visible_popup_rows(self) -> u16 {
        min_int(max_int(self.filtered@.len() as int, 1), u16::MAX as int) as u16
    }

    pub fn visible_popup_rows(&self) -> (r: u16)
        ensures
            r == self.spec_visible_popup_rows(),
    {
        let n = if self.filtered.len() < 1 { 1 } else { self.filtered.len() };
        if n > u16::MAX as usize { u16::MAX } else { n as u16 }
    }

    /// The popup's height for `width` cells: border, search row, rows and a scrollbar row when
    /// labels are too wide.
    pub open spec fn spec_popup_content_height(self, width: u16) -> u16 {
        sat_add16(
            sat_add16(
                sat_add16(POPUP_BORDER_HEIGHT as int, if self.spec_search_enabled() { 1 } else { 0 }),
                self.spec_visible_popup_rows() as int,
            ),
            if self.spec_needs_horizontal_scrollbar(width) { 1 } else { 0 },
        ) as u16
    }

    pub fn popup_content_height(&self, width: u16) -> (r: u16)
        requires
            self.ids@.len() == self.labels@.len(),
        ensures
            r == self.spec_popup_content_height(width),
    {
        POPUP_BORDER_HEIGHT
            .saturating_add(if self.search_enabled() { 1 } else { 0 })
            .saturating_add(self.visible_popup_rows())
            .saturating_add(if self.needs_horizontal_scrollbar(width) { 1 } else { 0 })
    }

    /// The width the popup asks for: its minimum, or its widest label and border.
    pub open spec fn spec_measured_popup_width(self) -> u16 {
        let label = min_int(
            if menu_widest_label(self, self.labels@.len() as int) + 2 > usize::MAX as int {
                usize::MAX as int
            } else {
                menu_widest_label(self, self.labels@.len() as int) + 2
            },
            u16::MAX as int,
        );
        max_int(self.min_popup_width as int, label) as u16
    }

    pub fn measured_popup_width(&self) -> (r: u16)
        ensures
            r == self.spec_measured_popup_width(),
    {
        let mut widest: usize = 0;
        let mut k: usize = 0;
        while k < self.labels.len()
            invariant
                k <= self.labels@.len(),
                widest == menu_widest_label(*self, k as int),
            decreases self.labels@.len() - k,
        {
            proof {
                lemma_menu_widths(*self, k as int);
            }
            let w = text_width(self.labels[k].as_str());
            if w > widest {
                widest = w;
            }
            k += 1;
        }
        let label = widest.saturating_add(2);
        let label16: u16 = if label > u16::MAX as usize { u16::MAX } else { label as u16 };
        if self.min_popup_width >= label16 { self.min_popup_width } else { label16 }
    }

    /// The tallest the popup grows for `width` cells: the configured maximum, or the border,
    /// search row, the visible item count and a scrollbar row; at least one row.
    pub open spec fn spec_effective_max_popup_height(self, width: u16) -> u16 {
        let m = match self.max_popup_height {
            Some(h) => h as int,
            None => sat_add16(
                sat_add16(
                    sat_add16(POPUP_BORDER_HEIGHT as int, if self.spec_search_enabled() { 1 } else { 0 }),
                    self.visible_items as int,
                ),
                if self.spec_needs_horizontal_scrollbar(width) { 1 } else { 0 },
            ),
        };
        max_int(m, 1) as u16
    }

    pub fn effective_max_popup_height(&self, width: u16) -> (r: u16)
        requires
            self.ids@.len() == self.labels@.len(),
        ensures
            r == self.spec_effective_max_popup_height(width),
    {
        let m = match self.max_popup_height {
            Some(h) => h,
            None => POPUP_BORDER_HEIGHT
                .saturating_add(if self.search_enabled() { 1 } else { 0 })
                .saturating_add(self.visible_items)
                .saturating_add(if self.needs_horizontal_scrollbar(width) { 1 } else { 0 }),
        };
        if m < 1 { 1 } else { m }
    }

    pub open spec fn spec_effective_trigger_area(self, bounds: Rect) -> Rect {
        if self.trigger_area.spec_is_empty() {
            Rect::spec_new(bounds.x, bounds.y, min_int(self.min_popup_width as int, bounds.width as int) as u16, 1)
        } else {
            self.trigger_area
        }
    }

    /// The trigger of the last layout, or a one-row trigger at the top of `bounds`.
    pub fn effective_trigger_area(&self, bounds: Rect) -> (r: Rect)
        ensures
            r == self.spec_effective_trigger_area(bounds),
    {
        if self.trigger_area.is_empty() {
            let w = if self.min_popup_width < bounds.width { self.min_popup_width } else { bounds.width };
            Rect::new(bounds.x, bounds.y, w, 1)
        } else {
            self.trigger_area
        }
    }

    /// Where the popup of a trigger at `trigger` goes in `bounds`: nothing while closed or when
    /// either area is empty; otherwise as wide as its labels need (at least the trigger, at
    /// most the bounds), kept inside the bounds' right edge, as tall as its content and maximum
    /// allow, below the trigger or above it, clipped to the bounds.
    pub open spec fn spec_popup_area_for(self, trigger: Rect, bounds: Rect) -> Rect {
        if !self.open || trigger.spec_is_empty() || bounds.spec_is_empty() {
            Rect { x: 0, y: 0, width: 0, height: 0 }
        } else {
            let width = min_int(max_int(self.spec_measured_popup_width() as int, trigger.width as int), bounds.width as int) as u16;
            let desired = min_int(
                self.spec_popup_content_height(width) as int,
                self.spec_effective_max_popup_height(width) as int,
            );
            let x = min_int(trigger.x as int, sat_sub(bounds.spec_right(), width as int));
            let (y, available) = match self.popup_direction {
                MenuPopupDirection::Down => {
                    let y = trigger.spec_bottom();
                    (y, sat_sub(bounds.spec_bottom(), y))
                },
                MenuPopupDirection::Up => {
                    let available = sat_sub(trigger.y as int, bounds.y as int);
                    (sat_sub(trigger.y as int, min_int(desired, available)), available)
                },
            };
            spec_clip_rect(Rect::spec_new(x as u16, y as u16, width, min_int(desired, available) as u16), bounds)
        }
    }

    pub fn popup_area_for(&self, trigger: Rect, bounds: Rect) -> (r: Rect)
        requires
            self.ids@.len() == self.labels@.len(),
        ensures
            r == self.spec_popup_area_for(trigger, bounds),
    {
        if !self.open || trigger.is_empty() || bounds.is_empty() {
            return Rect::zero();
        }
        let measured = self.measured_popup_width();
        let wide = if measured >= trigger.width { measured } else { trigger.width };
        let width = if wide < bounds.width { wide } else { bounds.width };
        let content = self.popup_content_height(width);
        let max = self.effective_max_popup_height(width);
        let desired = if content < max { content } else { max };
        let limit = bounds.right().saturating_sub(width);
        let x = if trigger.x < limit { trigger.x } else { limit };
        let (y, available) = match self.popup_direction {
            MenuPopupDirection::Down => {
                let y = trigger.bottom();
                (y, bounds.bottom().saturating_sub(y))
            },
            MenuPopupDirection::Up => {
                let available = trigger.y.saturating_sub(bounds.y);
                let h = if desired < available { desired } else { available };
                (trigger.y.saturating_sub(h), available)
            },
        };
        let height = if desired < available { desired } else { available };
        clip_rect(Rect::new(x, y, width, height), bounds)
    }

    /// The search row and the list inside the popup's border.
    pub open spec fn spec_popup_inner_areas(self, popup: Rect) -> (Rect, Rect) {
        if popup.spec_is_empty() {
            (popup, popup)
        } else {
            search_split(spec_bordered_inner(popup), if self.spec_search_enabled() { 1 } else { 0 })
        }
    }

    pub fn popup_inner_areas(&self, popup: Rect) -> (r: (Rect, Rect))
        ensures
            r == self.spec_popup_inner_areas(popup),
    {
        if popup.is_empty() {
            return (popup, popup);
        }
        split_search(bordered_inner(popup), if self.search_enabled() { 1 } else { 0 })
    }

    /// The list of the popup drawn in `area`, empty when no popup shows.
    pub open spec fn spec_list_area(self, area: Rect) -> Rect {
        let popup = self.spec_popup_area_for(self.spec_effective_trigger_area(area), area);
        if popup.spec_is_empty() { popup } else { self.spec_popup_inner_areas(popup).1 }
    }

    pub fn list_area(&self, area: Rect) -> (r: Rect)
        requires
            self.ids@.len() == self.labels@.len(),
        ensures
            r == self.spec_list_area(area),
    {
        let popup = self.popup_area_for(self.effective_trigger_area(area), area);
        if popup.is_empty() {
            return popup;
        }
        self.popup_inner_areas(popup).1
    }

    /// The rows a page move covers in `area`: the list's height less a scrollbar row, at least
    /// one.
    pub open spec fn spec_list_viewport_height(self, area: Rect) -> u16 {
        let list = self.spec_list_area(area);
        let h = sat_sub(
            list.height as int,
            if self.spec_needs_horizontal_scrollbar(sat_add16(list.width as int, 2) as u16) { 1 } else { 0 },
        );
        max_int(h, 1) as u16
    }

    pub fn list_viewport_height(&self, area: Rect) -> (r: u16)
        requires
            self.ids@.len() == self.labels@.len(),
        ensures
            r == self.spec_list_viewport_height(area),
    {
        let list = self.list_area(area);
        let scroll: u16 = if self.needs_horizontal_scrollbar(list.width.saturating_add(2)) { 1 } else { 0 };
        let h = list.height.saturating_sub(scroll);
        if h < 1 { 1 } else { h }
    }
}


/// A highlight move of a menu.
#[derive(Debug, Clone, Copy, PartialEq, Eq, Structural)]
pub enum MenuNav {
    Down,
    Up,
    PageDown,
    PageUp,
}

/// What a key press does to a menu.
#[derive(Debug, Clone, Copy, PartialEq, Eq, Structural)]
pub enum MenuKeyAction {
    Ignore,
    Toggle,
    Close,
    Activate,
    Move(MenuNav),
}

/// The action of `key`: nothing while closed; the trigger's hotkey (the single key press
/// `trigger_key`) toggles, then the close, activate and move keys, in that order; anything else
/// is left to the search text.
pub open spec fn menu_key_action(m: Menu, key: KeyEvent, keys: MenuKeys, trigger_key: Option<KeyEvent>) -> MenuKeyAction {
    if !m.open {
        MenuKeyAction::Ignore
    } else if trigger_key matches Some(h) && spec_keys_match(h, key) {
        MenuKeyAction::Toggle
    } else if spec_matches_any(keys.close@, key) {
        MenuKeyAction::Close
    } else if spec_matches_any(m.action_keys.activate@, key) || spec_matches_any(keys.select@, key) {
        MenuKeyAction::Activate
    } else if spec_matches_any(keys.next@, key) {
        MenuKeyAction::Move(MenuNav::Down)
    } else if spec_matches_any(keys.previous@, key) {
        MenuKeyAction::Move(MenuNav::Up)
    } else if spec_matches_any(keys.page_next@, key) {
        MenuKeyAction::Move(MenuNav::PageDown)
    } else if spec_matches_any(keys.page_previous@, key) {
        MenuKeyAction::Move(MenuNav::PageUp)
    } else {
        MenuKeyAction::Ignore
    }
}

/// How many items a move goes for pages of `page` rows.
pub open spec fn menu_nav_delta(nav: MenuNav, page: u16) -> int {
    match nav {
        MenuNav::Down => 1,
        MenuNav::Up => -1,
        MenuNav::PageDown => page as int,
        MenuNav::PageUp => -(page as int),
    }
}

/// The effect of the key press `key` in a menu drawn in `area`.
pub open spec fn menu_key_post(a: Menu, b: Menu, key: KeyEvent, area: Rect, keys: MenuKeys, trigger_key: Option<KeyEvent>, r: MenuOutcome) -> bool {
    match menu_key_action(a, key, keys, trigger_key) {
        MenuKeyAction::Ignore => b == a && r == menu_idle(),
        MenuKeyAction::Toggle => menu_close_post(a, b, r),
        MenuKeyAction::Close => menu_close_post(a, b, r),
        MenuKeyAction::Activate => menu_activated_post(a, b, r),
        MenuKeyAction::Move(nav) => menu_moved_post(a, b, menu_nav_delta(nav, a.spec_list_viewport_height(area)), r),
    }
}

/// What the surroundings are asked to do after a menu event: whether it was taken, to draw and
/// lay out again, stop it, move the focus, focus a region of the newly opened popup, and give
/// the focus back after closing.
#[derive(Debug, Clone, Copy, PartialEq, Eq, Structural)]
pub struct MenuEffects {
    pub handled: bool,
    pub redraw: bool,
    pub layout: bool,
    pub stop: bool,
    pub focus: FocusMove,
    pub open_focus: Option<MenuFocusRegion>,
    pub return_focus: bool,
}

/// The effects of an outcome: opening or closing re-lays out; opening focuses the search field
/// (the panel without search); closing gives the focus back; a handled or changing outcome is
/// drawn; a handled one stops the event.
pub open spec fn menu_effects(m: Menu, o: MenuOutcome) -> MenuEffects {
    MenuEffects {
        handled: o.handled,
        redraw: o.handled || o.changed,
        layout: o.opened || o.closed,
        stop: o.handled,
        focus: FocusMove::Stay,
        open_focus: if o.opened {
            Some(if m.spec_search_enabled() { MenuFocusRegion::Search } else { MenuFocusRegion::Panel })
        } else {
            None
        },
        return_focus: o.closed,
    }
}

/// An event delivered to a menu.
#[derive(Debug, Clone, Copy, PartialEq, Eq, Structural)]
pub enum MenuEvent {
    Key(KeyEvent),
    Other,
}

#[derive(Debug, Clone, Copy, PartialEq, Eq, Structural)]
pub enum MenuFocusTarget {
    Search,
    Panel,
    Other,
}

impl Menu {
    pub fn key_action(&self, key: KeyEvent, keys: &MenuKeys, trigger_key: Option<KeyEvent>) -> (r: MenuKeyAction)
        ensures
            r == menu_key_action(*self, key, *keys, trigger_key),
    {
        if !self.open {
            MenuKeyAction::Ignore
        } else if match trigger_key {
            Some(h) => keys_match(h, key),
            None => false,
        } {
            MenuKeyAction::Toggle
        } else if matches_any(keys.close.as_slice(), key) {
            MenuKeyAction::Close
        } else if matches_any(self.action_keys.activate.as_slice(), key) || matches_any(keys.select.as_slice(), key) {
            MenuKeyAction::Activate
        } else if matches_any(keys.next.as_slice(), key) {
            MenuKeyAction::Move(MenuNav::Down)
        } else if matches_any(keys.previous.as_slice(), key) {
            MenuKeyAction::Move(MenuNav::Up)
        } else if matches_any(keys.page_next.as_slice(), key) {
            MenuKeyAction::Move(MenuNav::PageDown)
        } else if matches_any(keys.page_previous.as_slice(), key) {
            MenuKeyAction::Move(MenuNav::PageUp)
        } else {
            MenuKeyAction::Ignore
        }
    }

    /// Answers a key press in a menu drawn in `area` (see `menu_key_action`); keys it ignores
    /// while open belong to the search text.
    pub fn on_key(&mut self, key: KeyEvent, area: Rect, keys: &MenuKeys, trigger_key: Option<KeyEvent>) -> (r: MenuOutcome)
        requires
            old(self).wf(),
        ensures
            final(self).wf(),
            menu_key_post(*old(self), *final(self), key, area, *keys, trigger_key, r),
    {
        match self.key_action(key, keys, trigger_key) {
            MenuKeyAction::Ignore => MenuOutcome::idle(),
            MenuKeyAction::Toggle => self.toggle(),
            MenuKeyAction::Close => self.close(),
            MenuKeyAction::Activate => self.activate_highlighted(),
            MenuKeyAction::Move(nav) => {
                let page = self.list_viewport_height(area);
                let delta: isize = match nav {
                    MenuNav::Down => 1,
                    MenuNav::Up => -1,
                    MenuNav::PageDown => page as isize,
                    MenuNav::PageUp => -(page as isize),
                };
                self.navigate_by(delta)
            },
        }
    }

    /// Answers an event: while open, the focus keys close the menu and move the focus; other
    /// keys go to `on_key` in the overlay bounds.
    pub fn event(&mut self, event: MenuEvent, keys: &MenuKeys, trigger_key: Option<KeyEvent>) -> (r: MenuEffects)
        requires
            old(self).wf(),
        ensures
            final(self).wf(),
            match event {
                MenuEvent::Other => *final(self) == *old(self) && !r.handled && !r.redraw,
                MenuEvent::Key(k) => {
                    let leave = old(self).open && (spec_matches_any(keys.focus_next@, k) || spec_matches_any(keys.focus_previous@, k));
                    if leave {
                        &&& menu_closed_post(*old(self), *final(self))
                        &&& r == MenuEffects {
                            handled: true,
                            redraw: true,
                            layout: true,
                            stop: true,
                            focus: if spec_matches_any(keys.focus_next@, k) { FocusMove::Next } else { FocusMove::Previous },
                            open_focus: None,
                            return_focus: false,
                        }
                    } else {
                        exists|o: MenuOutcome| #![trigger menu_key_post(*old(self), *final(self), k, old(self).overlay_bounds, *keys, trigger_key, o)]
                            menu_key_post(*old(self), *final(self), k, old(self).overlay_bounds, *keys, trigger_key, o)
                                && r == menu_effects(*old(self), o)
                    }
                },
            },
    {
        match event {
            MenuEvent::Other => MenuEffects {
                handled: false,
                redraw: false,
                layout: false,
                stop: false,
                focus: FocusMove::Stay,
                open_focus: None,
                return_focus: false,
            },
            MenuEvent::Key(k) => {
                if self.open {
                    let next = matches_any(keys.focus_next.as_slice(), k);
                    if next || matches_any(keys.focus_previous.as_slice(), k) {
                        let _ = self.close();
                        return MenuEffects {
                            handled: true,
                            redraw: true,
                            layout: true,
                            stop: true,
                            focus: if next { FocusMove::Next } else { FocusMove::Previous },
                            open_focus: None,
                            return_focus: false,
                        };
                    }
                }
                let search = self.search_mode != MenuSearchMode::Off;
                let bounds = self.overlay_bounds;
                let o = self.on_key(k, bounds, keys, trigger_key);
                assert(menu_key_post(*old(self), *self, k, old(self).overlay_bounds, *keys, trigger_key, o));
                MenuEffects {
                    handled: o.handled,
                    redraw: o.handled || o.changed,
                    layout: o.opened || o.closed,
                    stop: o.handled,
                    focus: FocusMove::Stay,
                    open_focus: if o.opened {
                        Some(if search { MenuFocusRegion::Search } else { MenuFocusRegion::Panel })
                    } else {
                        None
                    },
                    return_focus: o.closed,
                }
            },
        }
    }

    /// Answers a focus change: gaining the search field or the panel selects that region;
    /// losing the focus closes an open menu, or clears the region.
    pub fn focus(&mut self, target: MenuFocusTarget, focused: bool)
        requires
            old(self).wf(),
        ensures
            final(self).wf(),
            focused && target == MenuFocusTarget::Search ==> *final(self) == (Menu {
                focus_region: Some(MenuFocusRegion::Search),
                ..*old(self)
            }),
            focused && target == MenuFocusTarget::Panel ==> *final(self) == (Menu {
                focus_region: Some(MenuFocusRegion::Panel),
                ..*old(self)
            }),
            focused && target == MenuFocusTarget::Other ==> *final(self) == *old(self),
            !focused && old(self).open ==> menu_closed_post(*old(self), *final(self)),
            !focused && !old(self).open ==> *final(self) == (Menu { focus_region: None, ..*old(self) }),
    {
        if focused && target == MenuFocusTarget::Search {
            self.focus_region = Some(MenuFocusRegion::Search);
        } else if focused && target == MenuFocusTarget::Panel {
            self.focus_region = Some(MenuFocusRegion::Panel);
        } else if !focused && self.open {
            let _ = self.close();
        } else if !focused {
            self.focus_region = None;
        }
    }

    /// Records the trigger and the bounds the popup may use.
    pub fn layout(&mut self, trigger: Rect, overlay_bounds: Rect)
        requires
            old(self).wf(),
            overlay_bounds.spec_fits(),
        ensures
            final(self).wf(),
            *final(self) == (Menu { trigger_area: trigger, overlay_bounds, ..*old(self) }),
    {
        self.trigger_area = trigger;
        self.overlay_bounds = overlay_bounds;
    }
}

/// Where an open menu's popup goes for a trigger inside the bounds (all within `u16`): it is at
/// least as wide as the trigger (as far as the bounds allow) and stays within the bounds
/// across; it starts at the trigger's left edge whenever it fits to the right of it, and
/// otherwise ends at the bounds' right edge, never starting right of the trigger. Opening
/// downward it starts just below the trigger, opening upward it ends just above it.
pub proof fn law_popup_area_placement(m: Menu, trigger: Rect, bounds: Rect)
    requires
        m.open,
        !trigger.spec_is_empty(),
        !bounds.spec_is_empty(),
        trigger.spec_fits(),
        bounds.spec_fits(),
        bounds.x <= trigger.x < bounds.spec_right(),
        bounds.y <= trigger.y,
        trigger.spec_bottom() <= bounds.spec_bottom(),
    ensures
        ({
            let r = m.spec_popup_area_for(trigger, bounds);
            &&& r.width >= min_int(trigger.width as int, bounds.width as int)
            &&& r.width <= bounds.width
            &&& bounds.x <= r.x && r.x + r.width <= bounds.spec_right()
            &&& r.x <= trigger.x
            &&& (trigger.x + r.width <= bounds.spec_right() ==> r.x == trigger.x)
            &&& (trigger.x + r.width > bounds.spec_right() ==> r.x + r.width == bounds.spec_right())
            &&& (m.popup_direction == MenuPopupDirection::Down ==> r.y == trigger.spec_bottom()
                && r.y + r.height <= bounds.spec_bottom())
            &&& (m.popup_direction == MenuPopupDirection::Up ==> r.y + r.height == trigger.y
                && bounds.y <= r.y)
        }),
{
}

/// Opening a closed menu and closing it again leaves it closed with no search text and the
/// activated items unchanged.
pub proof fn law_menu_open_close(a: Menu, b: Menu, c: Menu, o1: MenuOutcome, o2: MenuOutcome)
    requires
        a.wf(),
        !a.open,
        menu_open_post(a, b, o1),
        menu_close_post(b, c, o2),
    ensures
        !c.open,
        c.query@.len() == 0,
        c.activated@ == a.activated@,
        c.filtered@ == a.ids@,
        o1.opened,
        o2.closed,
{
}

/// A move keeps the highlight on a visible item.
pub proof fn law_menu_move_stays_visible(a: Menu, b: Menu, delta: int, r: MenuOutcome)
    requires
        a.wf(),
        a.filtered@.len() > 0,
        menu_moved_post(a, b, delta, r),
    ensures
        (b.highlighted matches Some(h) && a.filtered@.contains(h)),
{
    let current = match a.highlighted {
        Some(h) => if a.filtered@.contains(h) { position_of(a.filtered@, h) } else { 0 },
        None => 0,
    };
    match a.highlighted {
        Some(h) => lemma_position_of(a.filtered@, h),
        None => {},
    }
    let t = spec_target_index(current, delta, a.filtered@.len() as int);
    assert(0 <= t < a.filtered@.len());
    assert(a.filtered@.contains(a.filtered@[t]));
}

} // verus!
