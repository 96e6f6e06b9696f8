//! A selectable list of text items that keeps its selection in range and in view.
use vstd::prelude::*;
use crate::keys::{matches_any, spec_matches_any, Key, KeyEvent, KeyModifiers, KeySpec};
use crate::geometry::sat_sub;

verus! {

/// What a list operation did.
#[derive(Debug, Clone, Copy, PartialEq, Eq, Structural)]
pub struct ListOutcome {
    pub handled: bool,
    pub changed: bool,
    pub active: bool,
}

impl ListOutcome {
    /// Nothing was done.
    pub fn idle() -> (r: ListOutcome)
        ensures
            r == (ListOutcome { handled: false, changed: false, active: false }),
    {
        ListOutcome { handled: false, changed: false, active: false }
    }

    /// The input was taken and nothing changed.
    pub fn handled() -> (r: ListOutcome)
        ensures
            r == (ListOutcome { handled: true, changed: false, active: false }),
    {
        ListOutcome { handled: true, changed: false, active: false }
    }

    /// The input was taken and the list changed.
    pub fn changed() -> (r: ListOutcome)
        ensures
            r == (ListOutcome { handled: true, changed: true, active: false }),
    {
        ListOutcome { handled: true, changed: true, active: false }
    }

    /// Whether the list must be drawn again.
    pub fn needs_redraw(self) -> (r: bool)
        ensures
            r == (self.changed || self.active),
    {
        self.changed || self.active
    }
}

/// The binding of `code` with no modifier.
pub open spec fn plain_key(code: Key) -> KeySpec {
    KeySpec { code, modifiers: KeyModifiers { control: false, shift: false, alt: false } }
}

/// The keys that move a list's selection.
#[derive(Debug, Clone, PartialEq, Eq)]
pub struct NavigationKeys {
    pub line_up: Vec<KeySpec>,
    pub line_down: Vec<KeySpec>,
    pub page_up: Vec<KeySpec>,
    pub page_down: Vec<KeySpec>,
    pub home: Vec<KeySpec>,
    pub end: Vec<KeySpec>,
}

impl NavigationKeys {
    /// The arrow, page and home/end keys.
    pub fn arrows() -> (r: NavigationKeys)
        ensures
            r.line_up@ == seq![plain_key(Key::Up)],
            r.line_down@ == seq![plain_key(Key::Down)],
            r.page_up@ == seq![plain_key(Key::PageUp)],
            r.page_down@ == seq![plain_key(Key::PageDown)],
            r.home@ == seq![plain_key(Key::Home)],
            r.end@ == seq![plain_key(Key::End)],
    {
        NavigationKeys {
            line_up: vec![KeySpec::key(Key::Up)],
            line_down: vec![KeySpec::key(Key::Down)],
            page_up: vec![KeySpec::key(Key::PageUp)],
            page_down: vec![KeySpec::key(Key::PageDown)],
            home: vec![KeySpec::key(Key::Home)],
            end: vec![KeySpec::key(Key::End)],
        }
    }
}

/// The largest index a selection can take among `len` items (0 when there are none).
pub open spec fn last_index(len: nat) -> int {
    sat_sub(len as int, 1)
}

/// `selected` moved into the list's range.
pub open spec fn clamp_index(selected: int, len: nat) -> int {
    if selected <= last_index(len) {
        selected
    } else {
        last_index(len)
    }
}

/// The first visible row after scrolling so that row `selected` shows in a viewport of
/// `height` rows whose first row is `current`: unchanged when it already shows, otherwise just
/// far enough.
pub open spec fn spec_scroll_target(selected: int, current: int, height: int) -> int {
    let height = if height < 1 { 1 } else { height };
    if selected < current {
        selected
    } else if selected >= current + height {
        selected + 1 - height
    } else {
        current
    }
}

pub fn scroll_target(selected: usize, current: usize, height: usize) -> (r: usize)
    ensures
        r == spec_scroll_target(selected as int, current as int, height as int),
{
    let height = if height < 1 { 1 } else { height };
    if selected < current {
        selected
    } else if current > usize::MAX - height || selected >= current + height {
        if current > usize::MAX - height {
            // `selected < current + height` holds in integers: the row already shows.
            current
        } else {
            selected - height + 1
        }
    } else {
        current
    }
}

/// A list of text items with one selected.
#[derive(Debug)]
pub struct List {
    items: Vec<String>,
    selected: usize,
    highlight_symbol: String,
    focused: bool,
    scroll_y: usize,
}

/// The default list has no items.
impl Default for List {
    fn default() -> (r: List)
        ensures
            r.spec_items().len() == 0,
            r.spec_selected() == 0,
            r.spec_scroll() == 0,
            !r.spec_focused(),
    {
        List::new(Vec::new())
    }
}

impl List {
    /// The selection stays in range: at most the last index.
    #[verifier::type_invariant]
    spec fn selection_in_range(self) -> bool {
        self.selected <= last_index(self.items@.len())
    }

    pub closed spec fn spec_items(self) -> Seq<String> {
        self.items@
    }

    pub closed spec fn spec_selected(self) -> int {
        self.selected as int
    }

    pub closed spec fn spec_scroll(self) -> int {
        self.scroll_y as int
    }

    pub closed spec fn spec_focused(self) -> bool {
        self.focused
    }

    pub closed spec fn spec_highlight_symbol(self) -> Seq<char> {
        self.highlight_symbol@
    }

    /// A list of `items` with the first selected.
    pub fn new(items: Vec<String>) -> (r: List)
        ensures
            r.spec_items() == items@,
            r.spec_selected() == 0,
            r.spec_scroll() == 0,
            !r.spec_focused(),
    {
        List { items, selected: 0, highlight_symbol: String::from_str("› "), focused: false, scroll_y: 0 }
    }

    /// Selects `selected`, moved into range.
    pub fn selected(self, selected: usize) -> (r: List)
        ensures
            r.spec_items() == self.spec_items(),
            r.spec_selected() == clamp_index(selected as int, self.spec_items().len()),
            r.spec_scroll() == self.spec_scroll(),
            r.spec_focused() == self.spec_focused(),
            r.spec_highlight_symbol() == self.spec_highlight_symbol(),
    {
        let s = self.clamp_selected(selected);
        List { selected: s, ..self }
    }

    pub fn highlight_symbol(self, symbol: String) -> (r: List)
        ensures
            r.spec_items() == self.spec_items(),
            r.spec_selected() == self.spec_selected(),
            r.spec_scroll() == self.spec_scroll(),
            r.spec_focused() == self.spec_focused(),
            r.spec_highlight_symbol() == symbol@,
    {
        proof {
            use_type_invariant(&self);
        }
        List { highlight_symbol: symbol, ..self }
    }

    pub fn focused(self, focused: bool) -> (r: List)
        ensures
            r.spec_items() == self.spec_items(),
            r.spec_selected() == self.spec_selected(),
            r.spec_scroll() == self.spec_scroll(),
            r.spec_focused() == focused,
            r.spec_highlight_symbol() == self.spec_highlight_symbol(),
    {
        proof {
            use_type_invariant(&self);
        }
        List { focused, ..self }
    }

    pub fn set_focused(&mut self, focused: bool)
        ensures
            final(self).spec_items() == old(self).spec_items(),
            final(self).spec_selected() == old(self).spec_selected(),
            final(self).spec_scroll() == old(self).spec_scroll(),
            final(self).spec_focused() == focused,
            final(self).spec_highlight_symbol() == old(self).spec_highlight_symbol(),
    {
        proof {
            use_type_invariant(&*self);
        }
        self.focused = focused;
    }

    pub fn items(&self) -> (r: &Vec<String>)
        ensures
            r@ == self.spec_items(),
    {
        &self.items
    }

    pub fn is_focused(&self) -> (r: bool)
        ensures
            r == self.spec_focused(),
    {
        self.focused
    }

    pub fn symbol(&self) -> (r: &String)
        ensures
            r@ == self.spec_highlight_symbol(),
    {
        &self.highlight_symbol
    }

    /// The first row the list scrolls to.
    pub fn scroll_target_offset(&self) -> (r: usize)
        ensures
            r == self.spec_scroll(),
    {
        self.scroll_y
    }

    fn clamp_selected(&self, selected: usize) -> (r: usize)
        ensures
            r == clamp_index(selected as int, self.items@.len()),
    {
        let last = if self.items.len() > 0 { self.items.len() - 1 } else { 0 };
        if selected <= last { selected } else { last }
    }

    /// The selected index; it always lies among the items (it is 0 for an empty list).
    pub fn selected_index(&self) -> (r: usize)
        ensures
            r == self.spec_selected(),
            r <= last_index(self.spec_items().len()),
    {
        proof {
            use_type_invariant(self);
        }
        self.selected
    }

    /// The selected item, `None` for an empty list.
    pub fn selected_item(&self) -> (r: Option<&String>)
        ensures
            self.spec_items().len() == 0 ==> r.is_none(),
            self.spec_items().len() > 0 ==> r == Some(&self.spec_items()[self.spec_selected()]),
    {
        proof {
            use_type_invariant(self);
        }
        if self.selected < self.items.len() {
            Some(&self.items[self.selected])
        } else {
            None
        }
    }

    /// Selects `selected`, moved into range; reports a change when the selection moved.
    pub fn select_index(&mut self, selected: usize) -> (r: ListOutcome)
        ensures
            final(self).spec_items() == old(self).spec_items(),
            final(self).spec_selected() == clamp_index(selected as int, old(self).spec_items().len()),
            final(self).spec_scroll() == old(self).spec_scroll(),
            final(self).spec_focused() == old(self).spec_focused(),
            final(self).spec_highlight_symbol() == old(self).spec_highlight_symbol(),
            r == (ListOutcome {
                handled: true,
                changed: final(self).spec_selected() != old(self).spec_selected(),
                active: false,
            }),
    {
        proof {
            use_type_invariant(&*self);
        }
        let s = self.clamp_selected(selected);
        let changed = s != self.selected;
        self.selected = s;
        ListOutcome { handled: true, changed, active: false }
    }

    pub fn next(&mut self) -> (r: ListOutcome)
        ensures
            final(self).spec_items() == old(self).spec_items(),
            final(self).spec_selected() == clamp_index(
                old(self).spec_selected() + 1,
                old(self).spec_items().len(),
            ),
            final(self).spec_scroll() == old(self).spec_scroll(),
            r.handled,
            r.changed == (final(self).spec_selected() != old(self).spec_selected()),
            !r.active,
    {
        proof {
            use_type_invariant(&*self);
        }
        let _len = self.items.len();
        let s = self.selected_index().saturating_add(1);
        self.select_index(s)
    }

    pub fn previous(&mut self) -> (r: ListOutcome)
        ensures
            final(self).spec_items() == old(self).spec_items(),
            final(self).spec_selected() == sat_sub(old(self).spec_selected(), 1),
            final(self).spec_scroll() == old(self).spec_scroll(),
            r.handled,
            r.changed == (final(self).spec_selected() != old(self).spec_selected()),
            !r.active,
    {
        proof {
            use_type_invariant(&*self);
        }
        let s = self.selected_index().saturating_sub(1);
        self.select_index(s)
    }

    /// Moves the selection down by `page` rows (at least one).
    pub fn page_down(&mut self, page: usize) -> (r: ListOutcome)
        ensures
            final(self).spec_items() == old(self).spec_items(),
            final(self).spec_selected() == clamp_index(
                old(self).spec_selected() + (if page < 1 { 1 } else { page as int }),
                old(self).spec_items().len(),
            ),
            final(self).spec_scroll() == old(self).spec_scroll(),
            r.handled,
            r.changed == (final(self).spec_selected() != old(self).spec_selected()),
            !r.active,
    {
        proof {
            use_type_invariant(&*self);
        }
        let _len = self.items.len();
        let step = if page < 1 { 1 } else { page };
        let s = self.selected_index().saturating_add(step);
        self.select_index(s)
    }

    /// Moves the selection up by `page` rows (at least one).
    pub fn page_up(&mut self, page: usize) -> (r: ListOutcome)
        ensures
            final(self).spec_items() == old(self).spec_items(),
            final(self).spec_selected() == sat_sub(
                old(self).spec_selected(),
                if page < 1 { 1 } else { page as int },
            ),
            final(self).spec_scroll() == old(self).spec_scroll(),
            r.handled,
            r.changed == (final(self).spec_selected() != old(self).spec_selected()),
            !r.active,
    {
        proof {
            use_type_invariant(&*self);
        }
        let step = if page < 1 { 1 } else { page };
        let s = self.selected_index().saturating_sub(step);
        self.select_index(s)
    }

    pub fn first(&mut self) -> (r: ListOutcome)
        ensures
            final(self).spec_items() == old(self).spec_items(),
            final(self).spec_selected() == 0,
            final(self).spec_scroll() == old(self).spec_scroll(),
            r.handled,
            r.changed == (old(self).spec_selected() != 0),
            !r.active,
    {
        self.select_index(0)
    }

    pub fn last(&mut self) -> (r: ListOutcome)
        ensures
            final(self).spec_items() == old(self).spec_items(),
            final(self).spec_selected() == last_index(old(self).spec_items().len()),
            final(self).spec_scroll() == old(self).spec_scroll(),
            r.handled,
            r.changed == (final(self).spec_selected() != old(self).spec_selected()),
            !r.active,
    {
        let last = if self.items.len() > 0 { self.items.len() - 1 } else { 0 };
        self.select_index(last)
    }

    /// Selects `selected` (moved into range) and scrolls a viewport of `height` rows so that
    /// it shows.
    pub fn select_index_in_view(&mut self, selected: usize, height: usize) -> (r: ListOutcome)
        ensures
            final(self).spec_items() == old(self).spec_items(),
            final(self).spec_selected() == clamp_index(selected as int, old(self).spec_items().len()),
            final(self).spec_scroll() == spec_scroll_target(
                final(self).spec_selected(),
                old(self).spec_scroll(),
                height as int,
            ),
            final(self).spec_focused() == old(self).spec_focused(),
            final(self).spec_highlight_symbol() == old(self).spec_highlight_symbol(),
            r == (ListOutcome {
                handled: true,
                changed: final(self).spec_selected() != old(self).spec_selected()
                    || final(self).spec_scroll() != old(self).spec_scroll(),
                active: false,
            }),
    {
        proof {
            use_type_invariant(&*self);
        }
        let s = self.clamp_selected(selected);
        let selection_changed = s != self.selected;
        self.selected = s;
        let target = scroll_target(s, self.scroll_y, height);
        let scroll_changed = target != self.scroll_y;
        self.scroll_y = target;
        ListOutcome { handled: true, changed: selection_changed || scroll_changed, active: false }
    }

    /// Answers a key press in a viewport of `height` rows: one row up or down, a page (one row
    /// less than the viewport, at least one) up or down, the first or the last item.
    pub fn on_key(&mut self, key: KeyEvent, height: usize, keys: &NavigationKeys) -> (r: ListOutcome)
        ensures
            ({
                let sel = old(self).spec_selected();
                let len = old(self).spec_items().len();
                let page = if sat_sub(height as int, 1) < 1 { 1 } else { sat_sub(height as int, 1) };
                let target: Option<int> = if spec_matches_any(keys.line_up@, key) {
                    Some(sat_sub(sel, 1))
                } else if spec_matches_any(keys.line_down@, key) {
                    Some(sel + 1)
                } else if spec_matches_any(keys.page_up@, key) {
                    Some(sat_sub(sel, page))
                } else if spec_matches_any(keys.page_down@, key) {
                    Some(sel + page)
                } else if spec_matches_any(keys.home@, key) {
                    Some(0)
                } else if spec_matches_any(keys.end@, key) {
                    Some(last_index(len))
                } else {
                    None
                };
                &&& final(self).spec_items() == old(self).spec_items()
                &&& final(self).spec_focused() == old(self).spec_focused()
                &&& match target {
                    None => {
                        &&& r == (ListOutcome { handled: false, changed: false, active: false })
                        &&& final(self).spec_selected() == sel
                        &&& final(self).spec_scroll() == old(self).spec_scroll()
                    },
                    Some(t) => {
                        &&& final(self).spec_selected() == clamp_index(t, len)
                        &&& final(self).spec_scroll() == spec_scroll_target(
                            final(self).spec_selected(),
                            old(self).spec_scroll(),
                            height as int,
                        )
                        &&& r.handled
                        &&& r.changed == (final(self).spec_selected() != sel
                            || final(self).spec_scroll() != old(self).spec_scroll())
                        &&& !r.active
                    },
                }
            }),
    {
        proof {
            use_type_invariant(&*self);
        }
        let _len = self.items.len();
        let page_base = if height > 0 { height - 1 } else { 0 };
        let page = if page_base < 1 { 1 } else { page_base };
        let sel = self.selected;
        if matches_any(keys.line_up.as_slice(), key) {
            self.select_index_in_view(sel.saturating_sub(1), height)
        } else if matches_any(keys.line_down.as_slice(), key) {
            self.select_index_in_view(sel.saturating_add(1), height)
        } else if matches_any(keys.page_up.as_slice(), key) {
            self.select_index_in_view(sel.saturating_sub(page), height)
        } else if matches_any(keys.page_down.as_slice(), key) {
            self.select_index_in_view(sel.saturating_add(page), height)
        } else if matches_any(keys.home.as_slice(), key) {
            self.select_index_in_view(0, height)
        } else if matches_any(keys.end.as_slice(), key) {
            let last = if self.items.len() > 0 { self.items.len() - 1 } else { 0 };
            self.select_index_in_view(last, height)
        } else {
            ListOutcome::idle()
        }
    }

    /// The first row shown in a viewport of `height` rows: the scroll position, kept so that
    /// the viewport is not left past the last item.
    pub fn visible_offset(&self, height: usize) -> (r: usize)
        ensures
            r as int == (if self.spec_scroll() <= sat_sub(self.spec_items().len() as int, height as int) {
                self.spec_scroll()
            } else {
                sat_sub(self.spec_items().len() as int, height as int)
            }),
    {
        let max = self.items.len().saturating_sub(height);
        if self.scroll_y <= max { self.scroll_y } else { max }
    }

    /// What a viewport of `height` rows shows: the first item shown, how many items show, and
    /// which shown row is the selected item's, when it is shown.
    pub fn visible_window(&self, height: usize) -> (r: (usize, usize, Option<usize>))
        ensures
            ({
                let offset = if self.spec_scroll() <= sat_sub(self.spec_items().len() as int, height as int) {
                    self.spec_scroll()
                } else {
                    sat_sub(self.spec_items().len() as int, height as int)
                };
                let rest = self.spec_items().len() - offset;
                let sel = self.spec_selected();
                let end = if offset + height <= usize::MAX { offset + height } else { usize::MAX as int };
                &&& r.0 as int == offset
                &&& r.1 as int == if rest <= height { rest } else { height as int }
                &&& r.2 == if self.spec_items().len() > 0 && offset <= sel < end {
                    Some((sel - offset) as usize)
                } else {
                    None
                }
            }),
    {
        proof {
            use_type_invariant(self);
        }
        let offset = self.visible_offset(height);
        let rest = self.items.len() - offset;
        let count = if rest <= height { rest } else { height };
        let end = offset.saturating_add(height);
        let shown = if self.items.len() > 0 && self.selected >= offset && self.selected < end {
            Some(self.selected - offset)
        } else {
            None
        };
        (offset, count, shown)
    }
}

} // verus!
