//! Reordering rows of a list control by keyboard: moving one row through the rows of its scope,
//! and moving a block of selected rows to a new place among the others. Rows are known by their
//! ids, in the order the data view showed them when the move began (its snapshot).
use vstd::prelude::*;
use crate::list_control::{contains_u64, move_block_visual_boundary, spec_move_block_visual_boundary, ListControlEvent};
use crate::keys::{matches_any, spec_matches_any, Key, KeyEvent, KeyModifiers, KeySpec};
use crate::dropdown::{all_in, contains_id, copy_ids, find_position, lemma_position_of, position_of};

verus! {

// ---------------------------------------------------------------------------------------------
// Picking ids by membership
// ---------------------------------------------------------------------------------------------

/// The ids of `s`, in their order, that are among `among` (for `inside`) or are not (otherwise).
pub open spec fn select(s: Seq<u64>, among: Seq<u64>, inside: bool) -> Seq<u64>
    decreases s.len(),
{
    if s.len() == 0 {
        Seq::empty()
    } else {
        let rest = select(s.drop_last(), among, inside);
        if among.contains(s.last()) == inside {
            rest.push(s.last())
        } else {
            rest
        }
    }
}

/// An id is in a list with one more id pushed exactly when it is that id or was there before.
pub proof fn lemma_push_contains(a: Seq<u64>, x: u64)
    ensures
        forall|y: u64| #[trigger] a.push(x).contains(y) <==> (a.contains(y) || y == x),
{
    assert forall|y: u64| a.push(x).contains(y) <==> (a.contains(y) || y == x) by {
        if a.push(x).contains(y) {
            let i = choose|i: int| 0 <= i < a.push(x).len() && a.push(x)[i] == y;
            if i < a.len() {
                assert(a[i] == y);
            }
        }
        if a.contains(y) {
            let i = choose|i: int| 0 <= i < a.len() && a[i] == y;
            assert(a.push(x)[i] == y);
        }
        if y == x {
            assert(a.push(x)[a.len() as int] == y);
        }
    }
}

/// What `select` keeps: exactly the ids of `s` whose membership in `among` is `inside`, without
/// adding duplicates, and never more of them than `s` has.
pub proof fn lemma_select(s: Seq<u64>, among: Seq<u64>, inside: bool)
    ensures
        forall|x: u64| #[trigger] select(s, among, inside).contains(x) <==> (s.contains(x) && among.contains(x) == inside),
        s.no_duplicates() ==> select(s, among, inside).no_duplicates(),
        select(s, among, inside).len() <= s.len(),
    decreases s.len(),
{
    if s.len() > 0 {
        let init = s.drop_last();
        let rest = select(init, among, inside);
        lemma_select(init, among, inside);
        assert(s =~= init.push(s.last()));
        lemma_push_contains(init, s.last());
        lemma_push_contains(rest, s.last());
        if s.no_duplicates() {
            assert(init.no_duplicates());
            assert(!init.contains(s.last())) by {
                if init.contains(s.last()) {
                    let i = choose|i: int| 0 <= i < init.len() && init[i] == s.last();
                    assert(s[i] == s[s.len() - 1]);
                }
            }
            if among.contains(s.last()) == inside {
                let r = rest.push(s.last());
                assert forall|i: int, j: int| 0 <= i < j < r.len() implies r[i] != r[j] by {
                    if j == r.len() - 1 {
                        assert(rest.contains(rest[i]));
                    }
                }
            }
        }
    }
}

/// Picking the ids of a longer prefix keeps what the shorter prefix picked, and picks no more
/// than the whole list does.
pub proof fn lemma_select_prefix(s: Seq<u64>, among: Seq<u64>, inside: bool, i: int)
    requires
        0 <= i <= s.len(),
    ensures
        select(s.take(i), among, inside).len() <= select(s, among, inside).len(),
    decreases s.len() - i,
{
    if i < s.len() {
        lemma_select_prefix(s, among, inside, i + 1);
        assert(s.take(i + 1).drop_last() =~= s.take(i));
    } else {
        assert(s.take(i) =~= s);
    }
}

/// The ids of `s`, in their order, whose membership in `among` is `inside`.
pub fn select_ids(s: &Vec<u64>, among: &Vec<u64>, inside: bool) -> (r: Vec<u64>)
    ensures
        r@ == select(s@, among@, inside),
{
    let mut r: Vec<u64> = Vec::new();
    let mut i: usize = 0;
    while i < s.len()
        invariant
            i <= s@.len(),
            r@ == select(s@.take(i as int), among@, inside),
        decreases s@.len() - i,
    {
        let x = s[i];
        assert(s@.take(i as int + 1).drop_last() =~= s@.take(i as int));
        if contains_u64(among, x) == inside {
            r.push(x);
        }
        i += 1;
    }
    assert(s@.take(i as int) =~= s@);
    r
}

// ---------------------------------------------------------------------------------------------
// Putting a scoped order back among the other rows
// ---------------------------------------------------------------------------------------------

/// `full` with the ids that are in `scope` replaced, one after another, by those of `order`:
/// rows outside the scope keep their places.
pub open spec fn merged(full: Seq<u64>, scope: Seq<u64>, order: Seq<u64>) -> Seq<u64>
    decreases full.len(),
{
    if full.len() == 0 {
        Seq::empty()
    } else {
        let before = merged(full.drop_last(), scope, order);
        if scope.contains(full.last()) {
            before.push(order[select(full.drop_last(), scope, true).len() as int])
        } else {
            before.push(full.last())
        }
    }
}

/// The merge has the length of `full`; it keeps every row outside the scope where it was, and
/// its rows in the scope are the first rows of `order`, in order, where the order's rows are all
/// in the scope.
pub proof fn lemma_merged(full: Seq<u64>, scope: Seq<u64>, order: Seq<u64>)
    requires
        select(full, scope, true).len() <= order.len(),
    ensures
        merged(full, scope, order).len() == full.len(),
        forall|i: int| 0 <= i < full.len() && !scope.contains(full[i]) ==> #[trigger] merged(full, scope, order)[i] == full[i],
        (forall|j: int| 0 <= j < order.len() ==> scope.contains(#[trigger] order[j])) ==> select(merged(full, scope, order), scope, true)
            == order.take(select(full, scope, true).len() as int),
    decreases full.len(),
{
    if full.len() > 0 {
        let init = full.drop_last();
        lemma_select_prefix(full, scope, true, full.len() - 1);
        assert(full.take(full.len() - 1) =~= init);
        lemma_merged(init, scope, order);
        let m = merged(full, scope, order);
        let before = merged(init, scope, order);
        assert(m.drop_last() =~= before);
        assert forall|i: int| 0 <= i < full.len() && !scope.contains(full[i]) implies #[trigger] m[i] == full[i] by {
            if i < full.len() - 1 {
                assert(init[i] == full[i]);
                assert(m[i] == before[i]);
            }
        }
        if forall|j: int| 0 <= j < order.len() ==> scope.contains(#[trigger] order[j]) {
            let c = select(init, scope, true).len() as int;
            if scope.contains(full.last()) {
                assert(scope.contains(order[c]));
                assert(order.take(c + 1) =~= order.take(c).push(order[c]));
            }
        }
    }
}

/// The rows of `full` with those in the scope (when there is one) put in `order`; without a
/// scope the order is the whole list.
pub fn merge_scope_order(full: &Vec<u64>, scope_ids: &Option<Vec<u64>>, order: &Vec<u64>) -> (r: Vec<u64>)
    requires
        scope_ids matches Some(scope) ==> select(full@, scope@, true).len() <= order@.len(),
    ensures
        r@ == match scope_ids {
            Some(scope) => merged(full@, scope@, order@),
            None => order@,
        },
{
    match scope_ids {
        None => order.clone(),
        Some(scope) => {
            let mut r: Vec<u64> = Vec::new();
            let mut used: usize = 0;
            let mut i: usize = 0;
            while i < full.len()
                invariant
                    i <= full@.len(),
                    select(full@, scope@, true).len() <= order@.len(),
                    used == select(full@.take(i as int), scope@, true).len(),
                    r@ == merged(full@.take(i as int), scope@, order@),
                decreases full@.len() - i,
            {
                let x = full[i];
                assert(full@.take(i as int + 1).drop_last() =~= full@.take(i as int));
                proof {
                    lemma_select_prefix(full@, scope@, true, i as int + 1);
                }
                assert(full@.take(i as int + 1).last() == x);
                if contains_u64(scope, x) {
                    assert(select(full@.take(i as int + 1), scope@, true) == select(full@.take(i as int), scope@, true).push(x));
                    assert(used < order.len());
                    r.push(order[used]);
                    used += 1;
                } else {
                    r.push(x);
                }
                i += 1;
            }
            assert(full@.take(i as int) =~= full@);
            r
        },
    }
}

/// Merging a list's own scoped order back into it gives the list.
pub proof fn lemma_merge_own_order(full: Seq<u64>, scope: Seq<u64>)
    ensures
        merged(full, scope, select(full, scope, true)) == full,
    decreases full.len(),
{
    if full.len() > 0 {
        let init = full.drop_last();
        lemma_merge_own_order(init, scope);
        lemma_merged_agreeing(init, scope, select(init, scope, true), select(full, scope, true));
        assert(merged(full, scope, select(full, scope, true)).drop_last() =~= init);
        assert(merged(full, scope, select(full, scope, true)) =~= full);
    }
}

/// The merge reads only as many ids of the order as the list has rows in the scope.
pub proof fn lemma_merged_agreeing(full: Seq<u64>, scope: Seq<u64>, a: Seq<u64>, b: Seq<u64>)
    requires
        select(full, scope, true).len() <= a.len(),
        select(full, scope, true).len() <= b.len(),
        forall|j: int| 0 <= j < select(full, scope, true).len() ==> a[j] == b[j],
    ensures
        merged(full, scope, a) == merged(full, scope, b),
    decreases full.len(),
{
    if full.len() > 0 {
        let init = full.drop_last();
        lemma_select_prefix(full, scope, true, full.len() - 1);
        assert(full.take(full.len() - 1) =~= init);
        lemma_merged_agreeing(init, scope, a, b);
    }
}

/// When every id of `s` is among `among`, picking those ids keeps all of `s`.
pub proof fn lemma_select_all(s: Seq<u64>, among: Seq<u64>)
    requires
        forall|j: int| 0 <= j < s.len() ==> among.contains(#[trigger] s[j]),
    ensures
        select(s, among, true) == s,
    decreases s.len(),
{
    if s.len() > 0 {
        lemma_select_all(s.drop_last(), among);
        assert(among.contains(s[s.len() - 1]));
        assert(s.drop_last().push(s.last()) =~= s);
    }
}

// ---------------------------------------------------------------------------------------------
// Moving one row
// ---------------------------------------------------------------------------------------------

/// `s` with its id at `from` taken out and put back at `to`.
pub open spec fn moved(s: Seq<u64>, from: int, to: int) -> Seq<u64> {
    s.remove(from).insert(to, s[from])
}

/// Moving an id keeps the length, the ids present and their distinctness, and leaves the moved
/// id at its new place.
pub proof fn lemma_moved(s: Seq<u64>, from: int, to: int)
    requires
        0 <= from < s.len(),
        0 <= to < s.len(),
    ensures
        moved(s, from, to).len() == s.len(),
        moved(s, from, to)[to] == s[from],
        forall|x: u64| #[trigger] moved(s, from, to).contains(x) <==> s.contains(x),
        s.no_duplicates() ==> moved(s, from, to).no_duplicates(),
{
    let m = moved(s, from, to);
    let r = s.remove(from);
    // where each place of the moved list came from
    assert forall|k: int| 0 <= k < m.len() implies #[trigger] m[k] == s[if k == to {
        from
    } else {
        let j = if k < to { k } else { k - 1 };
        if j < from { j } else { j + 1 }
    }] by {
        if k != to {
            let j = if k < to { k } else { k - 1 };
            assert(m[k] == r[j]);
        }
    }
    assert forall|x: u64| m.contains(x) <==> s.contains(x) by {
        if m.contains(x) {
            let k = choose|k: int| 0 <= k < m.len() && m[k] == x;
            assert(m[k] == x);
        }
        if s.contains(x) {
            let i = choose|i: int| 0 <= i < s.len() && s[i] == x;
            if i == from {
                assert(m[to] == x);
            } else {
                let j = if i < from { i } else { i - 1 };
                let k = if j < to { j } else { j + 1 };
                assert(m[k] == x);
            }
        }
    }
}

/// Moving an id away and then back to where it was gives the list back.
pub proof fn law_move_back_restores(s: Seq<u64>, from: int, to: int)
    requires
        0 <= from < s.len(),
        0 <= to < s.len(),
    ensures
        moved(moved(s, from, to), to, from) == s,
{
    lemma_moved(s, from, to);
    let m = moved(s, from, to);
    assert(m.remove(to) =~= s.remove(from));
    assert(moved(m, to, from) =~= s);
}

/// The rows a move may pass: those of the scope when there is one, else all rows of the
/// snapshot.
pub open spec fn scope_of(snapshot: Seq<u64>, scope_ids: Option<Vec<u64>>) -> Seq<u64> {
    match scope_ids {
        Some(scope) => scope@,
        None => snapshot,
    }
}

/// The whole row order that a scoped order stands for.
pub open spec fn staged_from(snapshot: Seq<u64>, scope_ids: Option<Vec<u64>>, order: Seq<u64>) -> Seq<u64> {
    match scope_ids {
        Some(scope) => merged(snapshot, scope@, order),
        None => order,
    }
}

/// What a key does while rows are being reordered.
#[derive(Debug, Clone, Copy, PartialEq, Eq, Structural)]
pub enum ReorderKey {
    /// The reorder binding itself.
    Reorder,
    Enter,
    Space,
    /// Escape, or Ctrl-[.
    Cancel,
    LineUp,
    LineDown,
    PageUp,
    PageDown,
    Top,
    Bottom,
    /// The first key of the two-key jump to the top.
    TopPrefix,
    /// Left, or `<`: out to the parent's level.
    Outdent,
    /// Right, or `>`: in under the sibling before.
    Indent,
    Other,
}

/// The bindings by which a move of rows reads key presses: the reorder binding, and the
/// navigation bindings in effect (the list's own display bindings when it has them).
#[derive(Debug, Clone, PartialEq, Eq)]
pub struct ReorderKeyBindings {
    pub reorder: Vec<KeySpec>,
    pub line_up: Vec<KeySpec>,
    pub line_down: Vec<KeySpec>,
    pub page_up: Vec<KeySpec>,
    pub page_down: Vec<KeySpec>,
    pub top: Vec<KeySpec>,
    pub bottom: Vec<KeySpec>,
    pub top_prefix: Vec<KeySpec>,
    pub line_left: Vec<KeySpec>,
    pub line_right: Vec<KeySpec>,
}

pub open spec fn unmodified(key: KeyEvent) -> bool {
    key.modifiers == (KeyModifiers { control: false, shift: false, alt: false })
}

pub open spec fn plain_char(key: KeyEvent, c: char) -> bool {
    key.code == Key::Char(c) && unmodified(key)
}

/// What a key press means to a move of rows, the first that applies: the reorder binding; a
/// bare Enter; a bare space; Escape (with any modifiers) or Ctrl-[; the line, page, top and
/// bottom bindings; the first key of the two-key jump to the top; the left binding or a bare
/// `<`; the right binding or a bare `>`; otherwise nothing.
pub open spec fn spec_classify_reorder_key(key: KeyEvent, b: ReorderKeyBindings) -> ReorderKey {
    if spec_matches_any(b.reorder@, key) {
        ReorderKey::Reorder
    } else if key.code == Key::Enter && unmodified(key) {
        ReorderKey::Enter
    } else if plain_char(key, ' ') {
        ReorderKey::Space
    } else if key.code == Key::Esc || (key.code == Key::Char('[') && key.modifiers == (KeyModifiers {
        control: true,
        shift: false,
        alt: false,
    })) {
        ReorderKey::Cancel
    } else if spec_matches_any(b.line_up@, key) {
        ReorderKey::LineUp
    } else if spec_matches_any(b.line_down@, key) {
        ReorderKey::LineDown
    } else if spec_matches_any(b.page_up@, key) {
        ReorderKey::PageUp
    } else if spec_matches_any(b.page_down@, key) {
        ReorderKey::PageDown
    } else if spec_matches_any(b.top@, key) {
        ReorderKey::Top
    } else if spec_matches_any(b.bottom@, key) {
        ReorderKey::Bottom
    } else if spec_matches_any(b.top_prefix@, key) {
        ReorderKey::TopPrefix
    } else if spec_matches_any(b.line_left@, key) || plain_char(key, '<') {
        ReorderKey::Outdent
    } else if spec_matches_any(b.line_right@, key) || plain_char(key, '>') {
        ReorderKey::Indent
    } else {
        ReorderKey::Other
    }
}

/// Reads a key press for a move of rows (`spec_classify_reorder_key`).
pub fn classify_reorder_key(key: KeyEvent, b: &ReorderKeyBindings) -> (r: ReorderKey)
    ensures
        r == spec_classify_reorder_key(key, *b),
{
    let none = KeyModifiers::none();
    let bare = key.modifiers == none;
    if matches_any(b.reorder.as_slice(), key) {
        ReorderKey::Reorder
    } else if key.code == Key::Enter && bare {
        ReorderKey::Enter
    } else if key.code == Key::Char(' ') && bare {
        ReorderKey::Space
    } else if key.code == Key::Esc || (key.code == Key::Char('[') && key.modifiers == KeyModifiers::control()) {
        ReorderKey::Cancel
    } else if matches_any(b.line_up.as_slice(), key) {
        ReorderKey::LineUp
    } else if matches_any(b.line_down.as_slice(), key) {
        ReorderKey::LineDown
    } else if matches_any(b.page_up.as_slice(), key) {
        ReorderKey::PageUp
    } else if matches_any(b.page_down.as_slice(), key) {
        ReorderKey::PageDown
    } else if matches_any(b.top.as_slice(), key) {
        ReorderKey::Top
    } else if matches_any(b.bottom.as_slice(), key) {
        ReorderKey::Bottom
    } else if matches_any(b.top_prefix.as_slice(), key) {
        ReorderKey::TopPrefix
    } else if matches_any(b.line_left.as_slice(), key) || (key.code == Key::Char('<') && bare) {
        ReorderKey::Outdent
    } else if matches_any(b.line_right.as_slice(), key) || (key.code == Key::Char('>') && bare) {
        ReorderKey::Indent
    } else {
        ReorderKey::Other
    }
}

/// How a key leaves a move of rows.
#[derive(Debug, Clone, Copy, PartialEq, Eq, Structural)]
pub enum ReorderStep {
    /// The move goes on.
    Moving,
    /// The staged order is to be written to the rows.
    Commit,
    /// The rows are to stay as they were.
    Cancel,
}

/// Where a key sends the moving row among `len` rows, from `index`, when it sends it anywhere;
/// `page` is how many rows a page holds.
pub open spec fn key_target(key: ReorderKey, index: int, len: int, page: int, pending_g: bool) -> Option<int> {
    let last = len - 1;
    match key {
        ReorderKey::LineUp => Some(if index >= 1 { index - 1 } else { 0 }),
        ReorderKey::LineDown => Some(if index + 1 <= last { index + 1 } else { last }),
        ReorderKey::PageUp => Some(if index >= page { index - page } else { 0 }),
        ReorderKey::PageDown => Some(if index + page <= last { index + page } else { last }),
        ReorderKey::Top => Some(0),
        ReorderKey::Bottom => Some(last),
        ReorderKey::TopPrefix => if pending_g { Some(0) } else { None },
        _ => None,
    }
}

/// One row being moved through the rows of its scope. `staged` is the order the rows would
/// have if the move were committed now; while the row moves, the rows are shown in that order,
/// all of them (a reorder starts only when every row is shown, untransformed).
pub struct RowReorder {
    pub snapshot: Vec<u64>,
    pub staged: Vec<u64>,
    pub scope_ids: Option<Vec<u64>>,
    pub moving_id: u64,
    pub pending_g: bool,
}

impl RowReorder {
    pub open spec fn scope(&self) -> Seq<u64> {
        scope_of(self.snapshot@, self.scope_ids)
    }

    /// The staged order of the rows in the scope: the rows the moving row passes, as shown.
    pub open spec fn order(&self) -> Seq<u64> {
        select(self.staged@, self.scope(), true)
    }

    /// Where the moving row stands in the scoped order.
    pub open spec fn index(&self) -> int {
        self.order().index_of(self.moving_id)
    }

    pub open spec fn wf(&self) -> bool {
        &&& self.order().no_duplicates()
        &&& self.order().contains(self.moving_id)
        &&& self.order().len() == select(self.snapshot@, self.scope(), true).len()
        &&& forall|j: int| 0 <= j < self.order().len() ==> self.scope().contains(#[trigger] self.order()[j])
        &&& self.scope_ids is None ==> forall|j: int| 0 <= j < self.order().len() ==> self.snapshot@.contains(#[trigger] self.order()[j])
        &&& self.staged@ == staged_from(self.snapshot@, self.scope_ids, self.order())
    }

    /// Starts moving `moving_id`, with the rows in their snapshot order.
    pub fn begin(snapshot: Vec<u64>, scope_ids: Option<Vec<u64>>, moving_id: u64) -> (r: RowReorder)
        requires
            snapshot@.no_duplicates(),
            snapshot@.contains(moving_id),
            scope_of(snapshot@, scope_ids).contains(moving_id),
        ensures
            r.wf(),
            r.snapshot == snapshot,
            r.scope_ids == scope_ids,
            r.moving_id == moving_id,
            r.staged@ == snapshot@,
            !r.pending_g,
    {
        let staged = snapshot.clone();
        let r = RowReorder { snapshot, staged, scope_ids, moving_id, pending_g: false };
        proof {
            let scope = r.scope();
            lemma_select(snapshot@, scope, true);
            lemma_merge_own_order(snapshot@, scope);
            if scope_ids is None {
                assert forall|j: int| 0 <= j < snapshot@.len() implies scope.contains(#[trigger] snapshot@[j]) by {
                    assert(snapshot@[j] == snapshot@[j]);
                }
                lemma_select_all(snapshot@, scope);
            }
            let order = r.order();
            assert forall|j: int| 0 <= j < order.len() implies scope.contains(#[trigger] order[j]) by {
                assert(order.contains(order[j]));
            }
            if scope_ids is None {
                assert forall|j: int| 0 <= j < order.len() implies snapshot@.contains(#[trigger] order[j]) by {
                    assert(order.contains(order[j]));
                }
            }
        }
        r
    }

    /// The staged order of the rows in the scope.
    pub fn scoped_order(&self) -> (r: Vec<u64>)
        ensures
            r@ == self.order(),
    {
        match &self.scope_ids {
            Some(scope) => select_ids(&self.staged, scope, true),
            None => select_ids(&self.staged, &self.snapshot, true),
        }
    }

    /// Moves the moving row to place `target` of the scoped order (the last place at most);
    /// says whether it moved.
    pub fn move_to(&mut self, target: usize) -> (r: bool)
        requires
            old(self).wf(),
        ensures
            final(self).wf(),
            final(self).snapshot == old(self).snapshot,
            final(self).scope_ids == old(self).scope_ids,
            final(self).moving_id == old(self).moving_id,
            final(self).pending_g == old(self).pending_g,
            ({
                let t = if target < old(self).order().len() - 1 { target as int } else { old(self).order().len() - 1 };
                &&& r == (t != old(self).index())
                &&& final(self).order() == moved(old(self).order(), old(self).index(), t)
            }),
    {
        let ghost vis = self.order();
        let ghost idx = self.index();
        proof {
            assert(vis.contains(self.moving_id));
            assert(0 <= idx < vis.len() && vis[idx] == self.moving_id);
        }
        let visible = self.scoped_order();
        let index = match position_u64(&visible, self.moving_id) {
            Some(i) => i,
            None => {
                return false;
            },
        };
        proof {
            assert(index as int == idx) by {
                if (index as int) < idx {
                    assert(vis[index as int] == vis[idx]);
                } else if (index as int) > idx {
                    assert(vis[index as int] == vis[idx]);
                }
            }
        }
        let last = visible.len() - 1;
        let t = if target < last { target } else { last };
        if t == index {
            proof {
                lemma_moved(vis, idx, idx);
                assert(moved(vis, idx, idx) =~= vis);
            }
            return false;
        }
        let mut staged_scope = visible.clone();
        let moving = staged_scope.remove(index);
        let anchor_id = visible[t];
        let ghost expected: int = if t < index { t as int } else { t as int - 1 };
        proof {
            assert(staged_scope@ == vis.remove(idx));
            assert(staged_scope@[expected] == anchor_id);
        }
        let anchor_index = match position_u64(&staged_scope, anchor_id) {
            Some(i) => i,
            None => {
                proof {
                    assert(staged_scope@.contains(anchor_id)) by {
                        assert(staged_scope@[expected] == anchor_id);
                    }
                }
                return false;
            },
        };
        proof {
            assert(anchor_index as int == expected) by {
                let a = anchor_index as int;
                let src = |k: int| if k < idx { k } else { k + 1 };
                assert(staged_scope@[a] == vis[src(a)]);
                assert(staged_scope@[expected] == vis[src(expected)]);
                if a != expected {
                    assert(src(a) != src(expected));
                }
            }
        }
        let insertion = if t < index { anchor_index } else { anchor_index + 1 };
        staged_scope.insert(insertion, moving);
        proof {
            assert(staged_scope@ == moved(vis, idx, t as int));
            lemma_moved(vis, idx, t as int);
            let order2 = staged_scope@;
            let scope = self.scope();
            assert forall|j: int| 0 <= j < order2.len() implies scope.contains(#[trigger] order2[j]) by {
                assert(order2.contains(order2[j]));
                let i = choose|i: int| 0 <= i < vis.len() && vis[i] == order2[j];
                assert(scope.contains(vis[i]));
            }
            if self.scope_ids is None {
                assert forall|j: int| 0 <= j < order2.len() implies self.snapshot@.contains(#[trigger] order2[j]) by {
                    assert(order2.contains(order2[j]));
                    let i = choose|i: int| 0 <= i < vis.len() && vis[i] == order2[j];
                    assert(self.snapshot@.contains(vis[i]));
                }
            }
        }
        let staged = merge_scope_order(&self.snapshot, &self.scope_ids, &staged_scope);
        self.staged = staged;
        proof {
            let order2 = staged_scope@;
            let scope = self.scope();
            match &self.scope_ids {
                Some(sc) => {
                    lemma_merged(self.snapshot@, sc@, order2);
                    assert(order2.take(order2.len() as int) =~= order2);
                },
                None => {
                    lemma_select_all(order2, self.snapshot@);
                },
            }
            assert(self.order() == order2);
            assert(self.order().contains(self.moving_id)) by {
                assert(order2[t as int] == self.moving_id);
            }
        }
        true
    }

    /// Moves the moving row `count` places forward or back, as far as the ends allow.
    pub fn move_lines(&mut self, forward: bool, count: usize) -> (r: bool)
        requires
            old(self).wf(),
        ensures
            final(self).wf(),
            final(self).snapshot == old(self).snapshot,
            final(self).scope_ids == old(self).scope_ids,
            final(self).moving_id == old(self).moving_id,
            final(self).pending_g == old(self).pending_g,
            ({
                let n = old(self).order().len();
                let i = old(self).index();
                let t = if forward {
                    if i + count <= n - 1 { i + count } else { n - 1 }
                } else {
                    if i >= count { i - count } else { 0 }
                };
                &&& r == (t != i)
                &&& final(self).order() == moved(old(self).order(), i, t)
            }),
    {
        let ghost vis = self.order();
        let ghost idx = self.index();
        proof {
            assert(vis.contains(self.moving_id));
        }
        let visible = self.scoped_order();
        let index = match position_u64(&visible, self.moving_id) {
            Some(i) => i,
            None => {
                return false;
            },
        };
        proof {
            assert(index as int == idx) by {
                if index as int != idx {
                    assert(vis[index as int] == vis[idx]);
                }
            }
        }
        let target = if forward { index.saturating_add(count) } else { index.saturating_sub(count) };
        assert(visible.len() == vis.len());
        self.move_to(target)
    }

    /// Handles a key while the row moves: the page keys move it by `page` rows, the two-key jump
    /// moves it to the top on its second key; committing and cancelling are for the caller to
    /// carry out.
    pub fn handle_key(&mut self, key: ReorderKey, page: usize) -> (r: ReorderStep)
        requires
            old(self).wf(),
        ensures
            final(self).wf(),
            final(self).snapshot == old(self).snapshot,
            final(self).scope_ids == old(self).scope_ids,
            final(self).moving_id == old(self).moving_id,
            final(self).pending_g == (key == ReorderKey::TopPrefix && !old(self).pending_g),
            r == match key {
                ReorderKey::Reorder | ReorderKey::Enter | ReorderKey::Space => ReorderStep::Commit,
                ReorderKey::Cancel => ReorderStep::Cancel,
                _ => ReorderStep::Moving,
            },
            final(self).order() == match key_target(key, old(self).index(), old(self).order().len() as int, page as int, old(self).pending_g) {
                Some(t) => moved(old(self).order(), old(self).index(), t),
                None => old(self).order(),
            },
    {
        let ghost vis = self.order();
        let ghost idx = self.index();
        proof {
            assert(vis.contains(self.moving_id));
            lemma_moved(vis, idx, idx);
            assert(moved(vis, idx, idx) =~= vis);
            lemma_select(self.staged@, self.scope(), true);
        }
        assert(self.staged@.len() == self.staged.len());
        let was_pending = self.pending_g;
        if key != ReorderKey::TopPrefix {
            self.pending_g = false;
        }
        match key {
            ReorderKey::Reorder | ReorderKey::Enter | ReorderKey::Space => ReorderStep::Commit,
            ReorderKey::Cancel => ReorderStep::Cancel,
            ReorderKey::LineUp => {
                self.move_lines(false, 1);
                ReorderStep::Moving
            },
            ReorderKey::LineDown => {
                self.move_lines(true, 1);
                ReorderStep::Moving
            },
            ReorderKey::PageUp => {
                self.move_lines(false, page);
                ReorderStep::Moving
            },
            ReorderKey::PageDown => {
                self.move_lines(true, page);
                ReorderStep::Moving
            },
            ReorderKey::Top => {
                self.move_to(0);
                ReorderStep::Moving
            },
            ReorderKey::Bottom => {
                self.move_to(usize::MAX);
                ReorderStep::Moving
            },
            ReorderKey::TopPrefix => {
                if was_pending {
                    self.pending_g = false;
                    self.move_to(0);
                } else {
                    self.pending_g = true;
                }
                ReorderStep::Moving
            },
            ReorderKey::Outdent | ReorderKey::Indent | ReorderKey::Other => ReorderStep::Moving,
        }
    }

    /// The row ids a committed move reports: the staged order of the scope.
    pub fn committed_ids(&self) -> (r: Vec<u64>)
        requires
            self.wf(),
        ensures
            r@ == self.order(),
    {
        match &self.scope_ids {
            Some(scope) => select_ids(&self.staged, scope, true),
            None => self.staged.clone(),
        }
    }

    /// What a committed move reports.
    pub fn committed_event(&self) -> (r: ListControlEvent)
        requires
            self.wf(),
        ensures
            r matches ListControlEvent::Reordered { row_ids } && row_ids@ == self.order(),
    {
        ListControlEvent::Reordered { row_ids: self.committed_ids() }
    }

    /// What a cancelled move reports.
    pub fn cancelled_event(&self) -> (r: ListControlEvent)
        ensures
            r == (ListControlEvent::ReorderCancelled { row_id: self.moving_id }),
    {
        ListControlEvent::ReorderCancelled { row_id: self.moving_id }
    }
}

/// Once moved to place `t`, the row stands there; moving it back to where it stood gives the
/// staged order the rows had before.
pub proof fn law_row_move_back_restores(r: RowReorder, t: int)
    requires
        r.wf(),
        0 <= t < r.order().len(),
    ensures
        moved(r.order(), r.index(), t).index_of(r.moving_id) == t,
        staged_from(r.snapshot@, r.scope_ids, moved(moved(r.order(), r.index(), t), t, r.index())) == r.staged@,
{
    let vis = r.order();
    let idx = r.index();
    assert(vis.contains(r.moving_id));
    assert(0 <= idx < vis.len() && vis[idx] == r.moving_id);
    lemma_moved(vis, idx, t);
    let m = moved(vis, idx, t);
    assert(m.contains(r.moving_id)) by {
        assert(m[t] == r.moving_id);
    }
    let k = m.index_of(r.moving_id);
    assert(m[k] == r.moving_id);
    if k != t {
        assert(m[k] == m[t]);
    }
    law_move_back_restores(vis, idx, t);
}

/// Where `x` first occurs in `v`, if it does.
pub fn position_u64(v: &Vec<u64>, x: u64) -> (r: Option<usize>)
    ensures
        match r {
            Some(i) => i < v@.len() && v@[i as int] == x && forall|j: int| 0 <= j < i ==> v@[j] != x,
            None => !v@.contains(x),
        },
{
    let mut i: usize = 0;
    while i < v.len()
        invariant
            i <= v@.len(),
            forall|j: int| 0 <= j < i ==> v@[j] != x,
        decreases v@.len() - i,
    {
        if v[i] == x {
            return Some(i);
        }
        i += 1;
    }
    None
}

// ---------------------------------------------------------------------------------------------
// Counting picked ids
// ---------------------------------------------------------------------------------------------

/// Every id of `s` is picked one way or the other.
pub proof fn lemma_select_split(s: Seq<u64>, among: Seq<u64>)
    ensures
        select(s, among, true).len() + select(s, among, false).len() == s.len(),
    decreases s.len(),
{
    if s.len() > 0 {
        lemma_select_split(s.drop_last(), among);
    }
}

/// Picking from two lists one after the other picks from each in turn.
pub proof fn lemma_select_concat(a: Seq<u64>, b: Seq<u64>, among: Seq<u64>, inside: bool)
    ensures
        select(a + b, among, inside) == select(a, among, inside) + select(b, among, inside),
    decreases b.len(),
{
    if b.len() == 0 {
        assert(a + b =~= a);
        assert(select(a, among, inside) + select(b, among, inside) =~= select(a, among, inside));
    } else {
        lemma_select_concat(a, b.drop_last(), among, inside);
        assert((a + b).drop_last() =~= a + b.drop_last());
        assert((a + b).last() == b.last());
        let sa = select(a, among, inside);
        let sb = select(b.drop_last(), among, inside);
        assert((sa + sb).push(b.last()) =~= sa + sb.push(b.last()));
    }
}

/// Picking from a list whose ids all share one membership keeps all of it or none of it.
pub proof fn lemma_select_uniform(s: Seq<u64>, among: Seq<u64>, inside: bool)
    requires
        forall|j: int| 0 <= j < s.len() ==> among.contains(#[trigger] s[j]) == inside,
    ensures
        select(s, among, inside) == s,
        select(s, among, !inside) == Seq::<u64>::empty(),
    decreases s.len(),
{
    if s.len() > 0 {
        lemma_select_uniform(s.drop_last(), among, inside);
        assert(among.contains(s[s.len() - 1]) == inside);
        assert(s.drop_last().push(s.last()) =~= s);
    }
}

/// A list without repeats whose ids all occur in another list without repeats is no longer.
pub proof fn lemma_distinct_within(a: Seq<u64>, b: Seq<u64>)
    requires
        a.no_duplicates(),
        b.no_duplicates(),
        forall|x: u64| a.contains(x) ==> b.contains(x),
    ensures
        a.len() <= b.len(),
{
    a.unique_seq_to_set();
    b.unique_seq_to_set();
    vstd::seq_lib::seq_to_set_is_finite(b);
    assert(a.to_set().subset_of(b.to_set()));
    vstd::set_lib::lemma_len_subset(a.to_set(), b.to_set());
}

/// Picking from a list the ids of a part of it picks as many ids as the part has.
pub proof fn lemma_select_count_part(s: Seq<u64>, part: Seq<u64>)
    requires
        s.no_duplicates(),
        part.no_duplicates(),
        forall|j: int| 0 <= j < part.len() ==> s.contains(#[trigger] part[j]),
    ensures
        select(s, part, true).len() == part.len(),
{
    let r = select(s, part, true);
    lemma_select(s, part, true);
    assert forall|x: u64| part.contains(x) implies r.contains(x) by {
        let j = choose|j: int| 0 <= j < part.len() && part[j] == x;
        assert(s.contains(part[j]));
    }
    lemma_distinct_within(r, part);
    lemma_distinct_within(part, r);
}

// ---------------------------------------------------------------------------------------------
// Moving a block of selected rows
// ---------------------------------------------------------------------------------------------

/// Where the placeholder of a moving block is drawn: just before or just after a row.
#[derive(Debug, Clone, Copy, PartialEq, Eq, Structural)]
pub enum OverlayPosition {
    Before(u64),
    After(u64),
}

/// Rows picked in a flat list: which, the row the picking started from, and whether they were
/// picked as a range.
#[derive(Debug, Clone, PartialEq, Eq)]
pub struct FlatSelection {
    pub selected: Vec<u64>,
    pub anchor: u64,
    pub range_mode: bool,
}

/// The rows of `ids` from place `i` to place `j`, both included, in their order.
pub open spec fn span(ids: Seq<u64>, i: int, j: int) -> Seq<u64> {
    if i <= j { ids.subrange(i, j + 1) } else { ids.subrange(j, i + 1) }
}

/// The rows of `ids` picked once `current` is toggled in `selected`: in the order of `ids`.
pub open spec fn toggled_rows(ids: Seq<u64>, selected: Seq<u64>, current: u64) -> Seq<u64> {
    ids.filter(picked_after_toggle(selected, current))
}

/// Whether a row is picked once `current` is toggled in `selected`.
pub open spec fn picked_after_toggle(selected: Seq<u64>, current: u64) -> spec_fn(u64) -> bool {
    |x: u64| if x == current { !selected.contains(current) } else { selected.contains(x) }
}

impl FlatSelection {
    /// A picking started from `current`, with nothing picked yet.
    pub fn start(current: u64, range_mode: bool) -> (r: FlatSelection)
        ensures
            r.selected@.len() == 0,
            r.anchor == current,
            r.range_mode == range_mode,
    {
        FlatSelection { selected: Vec::new(), anchor: current, range_mode }
    }

    /// Whether every picked row is among `ids`; a picking that is not is dropped before it is
    /// extended or toggled.
    pub fn fits(&self, ids: &Vec<u64>) -> (r: bool)
        ensures
            r == all_in(self.selected@, ids@),
    {
        let mut i: usize = 0;
        while i < self.selected.len()
            invariant
                i <= self.selected@.len(),
                forall|j: int| 0 <= j < i ==> ids@.contains(#[trigger] self.selected@[j]),
            decreases self.selected@.len() - i,
        {
            if !contains_id(ids, self.selected[i]) {
                return false;
            }
            i += 1;
        }
        true
    }

    /// Shift with a line key, the highlight moving from `current` to `destination`: the picking
    /// becomes the range of `ids` between the anchor (or `current`, when the anchor is not among
    /// `ids`) and `destination`, picked as a range.
    pub fn extend_range(&mut self, ids: &Vec<u64>, current: u64, destination: u64)
        requires
            ids@.contains(current),
            ids@.contains(destination),
        ensures
            ({
                let a = if ids@.contains(old(self).anchor) {
                    position_of(ids@, old(self).anchor)
                } else {
                    position_of(ids@, current)
                };
                final(self).selected@ == span(ids@, a, position_of(ids@, destination))
            }),
            final(self).anchor == old(self).anchor,
            final(self).range_mode,
    {
        proof {
            lemma_position_of(ids@, current);
            lemma_position_of(ids@, destination);
            lemma_position_of(ids@, self.anchor);
        }
        let a = match find_position(ids, self.anchor) {
            Some(i) => i,
            None => match find_position(ids, current) {
                Some(i) => i,
                None => 0,
            },
        };
        let d = match find_position(ids, destination) {
            Some(i) => i,
            None => 0,
        };
        let (start, end) = if a <= d { (a, d) } else { (d, a) };
        let mut out: Vec<u64> = Vec::new();
        let mut k: usize = start;
        while k <= end
            invariant
                start <= k <= end + 1,
                end < ids@.len(),
                ids@.len() == ids.len(),
                out@ == ids@.subrange(start as int, k as int),
            decreases end + 1 - k,
        {
            out.push(ids[k]);
            k += 1;
            assert(out@ =~= ids@.subrange(start as int, k as int));
        }
        self.selected = out;
        self.range_mode = true;
    }

    /// Control with a line key: the row the highlight leaves, `current`, is picked when nothing
    /// is yet, and becomes the anchor of a picking row by row.
    pub fn move_with_control(&mut self, current: u64)
        ensures
            final(self).selected@ == (if old(self).selected@.len() == 0 { seq![current] } else { old(self).selected@ }),
            final(self).anchor == current,
            !final(self).range_mode,
    {
        if self.selected.len() == 0 {
            self.selected.push(current);
            assert(self.selected@ =~= seq![current]);
        }
        self.anchor = current;
        self.range_mode = false;
    }

    /// Space: `current` is picked, or no longer picked when it was, the picked rows keep the
    /// order of `ids`, `current` becomes the anchor, and the picking goes row by row. Returns
    /// the rows now picked.
    pub fn toggle(&mut self, ids: &Vec<u64>, current: u64) -> (r: Vec<u64>)
        ensures
            final(self).selected@ == toggled_rows(ids@, old(self).selected@, current),
            r@ == final(self).selected@,
            final(self).anchor == current,
            !final(self).range_mode,
    {
        let picked = contains_id(&self.selected, current);
        let ghost pred = picked_after_toggle(old(self).selected@, current);
        let mut out: Vec<u64> = Vec::new();
        let mut i: usize = 0;
        while i < ids.len()
            invariant
                i <= ids@.len(),
                self.selected@ == old(self).selected@,
                picked == old(self).selected@.contains(current),
                pred == picked_after_toggle(old(self).selected@, current),
                out@ == ids@.take(i as int).filter(pred),
            decreases ids@.len() - i,
        {
            assert(ids@.take(i + 1) =~= ids@.take(i as int).push(ids@[i as int]));
            proof {
                ids@.take(i as int).lemma_filter_push(ids@[i as int], pred);
            }
            let x = ids[i];
            let keep = if x == current { !picked } else { contains_id(&self.selected, x) };
            if keep {
                out.push(x);
            }
            i += 1;
        }
        assert(ids@.take(ids@.len() as int) =~= ids@);
        let r = copy_ids(&out);
        self.selected = out;
        self.anchor = current;
        self.range_mode = false;
        r
    }
}

/// How many of the rows before boundary `visual` of `full` are in the scope and not moving:
/// the target a visual boundary stands for among the rows that stay.
pub open spec fn scoped_target(full: Seq<u64>, scope: Seq<u64>, selected: Seq<u64>, visual: int) -> int {
    let v = if visual <= full.len() { visual } else { full.len() as int };
    select(select(full.take(v), scope, true), selected, false).len() as int
}

/// A block of selected rows being moved, as a whole, to a new place among the other rows of
/// its scope. `target_index` counts the staying rows before the block; `visual_target_index`,
/// when known, is the same place as a boundary in the snapshot, rows outside the scope included.
pub struct FlatBlockMove {
    pub snapshot: Vec<u64>,
    pub selected: Vec<u64>,
    pub scope_ids: Option<Vec<u64>>,
    pub target_index: usize,
    pub visual_target_index: Option<usize>,
    pub highlighted_id: u64,
    pub pending_g: bool,
}

/// Whether `scope` lists distinct rows of the snapshot.
pub open spec fn scope_fits(snapshot: Seq<u64>, scope: Seq<u64>) -> bool {
    &&& snapshot.no_duplicates()
    &&& scope.no_duplicates()
    &&& forall|j: int| 0 <= j < scope.len() ==> snapshot.contains(#[trigger] scope[j])
}

impl FlatBlockMove {
    pub open spec fn scope(&self) -> Seq<u64> {
        scope_of(self.snapshot@, self.scope_ids)
    }

    /// The rows of the scope that stay, in their order.
    pub open spec fn remaining(&self) -> Seq<u64> {
        select(self.scope(), self.selected@, false)
    }

    pub open spec fn wf(&self) -> bool {
        &&& scope_fits(self.snapshot@, self.scope())
        &&& self.selected@.no_duplicates()
        &&& self.selected@.len() >= 2
        &&& forall|j: int| 0 <= j < self.selected@.len() ==> self.scope().contains(#[trigger] self.selected@[j])
        &&& self.target_index <= self.remaining().len()
        &&& self.visual_target_index matches Some(v) ==> v <= self.snapshot@.len()
    }

    /// The rows in their new order: the staying rows with the block put in at the target.
    pub open spec fn staged(&self) -> Seq<u64> {
        self.remaining().take(self.target_index as int) + self.selected@ + self.remaining().skip(self.target_index as int)
    }

    /// Starts moving the picked rows: those of the scope that were picked, when they are at least
    /// two and all of the picked rows are in the scope. The block's place is next to the row it
    /// is drawn at: the highlighted row for a range, else the row the picking started from;
    /// before that row when it is the block's first, after it otherwise. Also gives where the
    /// placeholder is first drawn.
    pub fn begin(snapshot: Vec<u64>, scope_ids: Option<Vec<u64>>, selection: &FlatSelection, highlighted_id: u64)
        -> (r: Option<(FlatBlockMove, OverlayPosition)>)
        requires
            scope_fits(snapshot@, scope_of(snapshot@, scope_ids)),
            snapshot@.contains(if selection.range_mode { highlighted_id } else { selection.anchor }),
        ensures
            ({
                let scope = scope_of(snapshot@, scope_ids);
                let picked = select(scope, selection.selected@, true);
                let placement = if selection.range_mode { highlighted_id } else { selection.anchor };
                let first = picked[0] == placement;
                let visual = snapshot@.index_of(placement) + if first { 0int } else { 1int };
                match r {
                    None => picked.len() < 2 || picked.len() != selection.selected@.len(),
                    Some((m, overlay)) => {
                        &&& picked.len() >= 2 && picked.len() == selection.selected@.len()
                        &&& m.wf()
                        &&& m.snapshot == snapshot
                        &&& m.scope_ids == scope_ids
                        &&& m.selected@ == picked
                        &&& m.visual_target_index == Some(visual as usize)
                        &&& m.target_index == scoped_target(snapshot@, scope, picked, visual)
                        &&& m.highlighted_id == highlighted_id
                        &&& !m.pending_g
                        &&& overlay == if first { OverlayPosition::Before(placement) } else { OverlayPosition::After(placement) }
                    },
                }
            }),
    {
        let ghost scope = scope_of(snapshot@, scope_ids);
        let placement = if selection.range_mode { highlighted_id } else { selection.anchor };
        let (selected, placement_index, target) = {
            let scope_ref: &Vec<u64> = match &scope_ids {
                Some(ids) => ids,
                None => &snapshot,
            };
            let selected = select_ids(scope_ref, &selection.selected, true);
            if selected.len() < 2 || selected.len() != selection.selected.len() {
                return None;
            }
            let placement_index = match position_u64(&snapshot, placement) {
                Some(i) => i,
                None => {
                    return None;
                },
            };
            proof {
                assert(snapshot@.index_of(placement) == placement_index as int) by {
                    let k = snapshot@.index_of(placement);
                    assert(snapshot@[k] == placement);
                    if k != placement_index as int {
                        assert(snapshot@[k] == snapshot@[placement_index as int]);
                    }
                }
            }
            let first = selected[0] == placement;
            assert(placement_index < snapshot.len());
            let visual = if first { placement_index } else { placement_index + 1 };
            let target = scoped_target_index(&snapshot, scope_ref, &selected, visual);
            (selected, visual, target)
        };
        let first = selected[0] == placement;
        let overlay = if first { OverlayPosition::Before(placement) } else { OverlayPosition::After(placement) };
        let m = FlatBlockMove {
            snapshot,
            selected,
            scope_ids,
            target_index: target,
            visual_target_index: Some(placement_index),
            highlighted_id,
            pending_g: false,
        };
        proof {
            lemma_select(scope, selection.selected@, true);
            assert forall|j: int| 0 <= j < m.selected@.len() implies scope.contains(#[trigger] m.selected@[j]) by {
                assert(m.selected@.contains(m.selected@[j]));
            }
            lemma_scoped_target_bound(m.snapshot@, scope, m.selected@, placement_index as int);
        }
        Some((m, overlay))
    }

    /// The rows of the scope that stay, in their order.
    pub fn remaining_ids(&self) -> (r: Vec<u64>)
        ensures
            r@ == self.remaining(),
    {
        match &self.scope_ids {
            Some(scope) => select_ids(scope, &self.selected, false),
            None => select_ids(&self.snapshot, &self.selected, false),
        }
    }

    /// The block's place as a boundary in the snapshot: the one last set by a line move, else
    /// the place of the staying row the block goes before (the end when it goes last).
    pub fn visual_target(&self) -> (r: usize)
        requires
            self.wf(),
        ensures
            r as int == match self.visual_target_index {
                Some(v) => v as int,
                None => if self.target_index < self.remaining().len() {
                    self.snapshot@.index_of(self.remaining()[self.target_index as int])
                } else {
                    self.snapshot@.len() as int
                },
            },
            r <= self.snapshot@.len(),
    {
        match self.visual_target_index {
            Some(v) => v,
            None => {
                let remaining = self.remaining_ids();
                if self.target_index < remaining.len() {
                    let id = remaining[self.target_index];
                    proof {
                        lemma_select(self.scope(), self.selected@, false);
                        assert(remaining@.contains(id));
                        let j = choose|j: int| 0 <= j < self.scope().len() && self.scope()[j] == id;
                        assert(self.snapshot@.contains(self.scope()[j]));
                    }
                    match position_u64(&self.snapshot, id) {
                        Some(i) => {
                            proof {
                                let k = self.snapshot@.index_of(id);
                                assert(self.snapshot@[k] == id);
                                if k != i as int {
                                    assert(self.snapshot@[k] == self.snapshot@[i as int]);
                                }
                            }
                            i
                        },
                        None => self.snapshot.len(),
                    }
                } else {
                    self.snapshot.len()
                }
            },
        }
    }

    /// Puts the block before the staying row `target_index` (after the last one at most); the
    /// visual boundary is then worked out again from it.
    pub fn set_target(&mut self, target_index: usize)
        requires
            old(self).wf(),
        ensures
            final(self).wf(),
            final(self).target_index == if target_index <= old(self).remaining().len() {
                target_index as int
            } else {
                old(self).remaining().len() as int
            },
            final(self).visual_target_index is None,
            final(self).snapshot == old(self).snapshot,
            final(self).selected == old(self).selected,
            final(self).scope_ids == old(self).scope_ids,
            final(self).highlighted_id == old(self).highlighted_id,
            final(self).pending_g == old(self).pending_g,
    {
        let remaining = self.remaining_ids();
        self.target_index = if target_index < remaining.len() { target_index } else { remaining.len() };
        self.visual_target_index = None;
    }

    /// Moves the block's place `count` staying rows forward or back, as far as the ends allow.
    pub fn move_target(&mut self, forward: bool, count: usize)
        requires
            old(self).wf(),
        ensures
            final(self).wf(),
            final(self).target_index == ({
                let n = old(self).remaining().len() as int;
                let t = old(self).target_index as int;
                if forward {
                    if t + count <= n { t + count } else { n }
                } else {
                    if t >= count { t - count } else { 0 }
                }
            }),
            final(self).visual_target_index is None,
            final(self).snapshot == old(self).snapshot,
            final(self).selected == old(self).selected,
            final(self).scope_ids == old(self).scope_ids,
            final(self).highlighted_id == old(self).highlighted_id,
            final(self).pending_g == old(self).pending_g,
    {
        let target = if forward { self.target_index.saturating_add(count) } else { self.target_index.saturating_sub(count) };
        proof {
            lemma_remaining_fits(*self);
        }
        assert(self.snapshot@.len() == self.snapshot.len());
        self.set_target(target);
    }

    /// Moves the block one row forward or back on screen: over one staying row, or over the whole
    /// run of the block's own rows next to it.
    pub fn move_target_line(&mut self, forward: bool)
        requires
            old(self).wf(),
        ensures
            final(self).wf(),
            ({
                let v = spec_move_block_visual_boundary(
                    old(self).snapshot@,
                    old(self).selected@,
                    old(self).visual_target_spec() as usize,
                    if forward { 1int } else { -1int },
                );
                &&& final(self).visual_target_index == Some(v as usize)
                &&& final(self).target_index == scoped_target(old(self).snapshot@, old(self).scope(), old(self).selected@, v)
            }),
            final(self).snapshot == old(self).snapshot,
            final(self).selected == old(self).selected,
            final(self).scope_ids == old(self).scope_ids,
            final(self).highlighted_id == old(self).highlighted_id,
            final(self).pending_g == old(self).pending_g,
    {
        let boundary = self.visual_target();
        let delta: isize = if forward { 1 } else { -1 };
        let visual = move_block_visual_boundary(&self.snapshot, &self.selected, boundary, delta);
        proof {
            crate::list_control::law_block_boundary_moves_within(self.snapshot@, self.selected@, boundary, delta as int);
            lemma_scoped_target_bound(self.snapshot@, self.scope(), self.selected@, visual as int);
        }
        let target = match &self.scope_ids {
            Some(scope) => scoped_target_index(&self.snapshot, scope, &self.selected, visual),
            None => scoped_target_index(&self.snapshot, &self.snapshot, &self.selected, visual),
        };
        self.visual_target_index = Some(visual);
        self.target_index = target;
    }

    /// The block's place as a boundary in the snapshot (see `visual_target`).
    pub open spec fn visual_target_spec(&self) -> int {
        match self.visual_target_index {
            Some(v) => v as int,
            None => if self.target_index < self.remaining().len() {
                self.snapshot@.index_of(self.remaining()[self.target_index as int])
            } else {
                self.snapshot@.len() as int
            },
        }
    }

    /// Handles a key that moves the block's place; says whether it was one. Line keys move one
    /// row on screen; page keys move `page` staying rows; the ends and the two-key jump to the
    /// top move it to the first or after the last staying row.
    pub fn handle_target_key(&mut self, key: ReorderKey, page: usize) -> (r: bool)
        requires
            old(self).wf(),
        ensures
            final(self).wf(),
            r == !(key == ReorderKey::Other || key == ReorderKey::Reorder || key == ReorderKey::Enter
                || key == ReorderKey::Space || key == ReorderKey::Cancel || key == ReorderKey::Outdent
                || key == ReorderKey::Indent),
            final(self).snapshot == old(self).snapshot,
            final(self).selected == old(self).selected,
            final(self).scope_ids == old(self).scope_ids,
            final(self).highlighted_id == old(self).highlighted_id,
            final(self).pending_g == match key {
                ReorderKey::LineUp | ReorderKey::LineDown => old(self).pending_g,
                ReorderKey::TopPrefix => !old(self).pending_g,
                _ => false,
            },
            ({
                let n = old(self).remaining().len() as int;
                let t = old(self).target_index as int;
                match key {
                    ReorderKey::PageUp => final(self).target_index == (if t >= page { t - page } else { 0 }),
                    ReorderKey::PageDown => final(self).target_index == (if t + page <= n { t + page } else { n }),
                    ReorderKey::Top => final(self).target_index == 0,
                    ReorderKey::Bottom => final(self).target_index == n,
                    ReorderKey::TopPrefix => final(self).target_index == (if old(self).pending_g { 0 } else { t }),
                    ReorderKey::LineUp | ReorderKey::LineDown => {
                        let v = spec_move_block_visual_boundary(
                            old(self).snapshot@,
                            old(self).selected@,
                            old(self).visual_target_spec() as usize,
                            if key == ReorderKey::LineDown { 1int } else { -1int },
                        );
                        &&& final(self).visual_target_index == Some(v as usize)
                        &&& final(self).target_index == scoped_target(old(self).snapshot@, old(self).scope(), old(self).selected@, v)
                    },
                    _ => final(self).target_index == t && final(self).visual_target_index == old(self).visual_target_index,
                }
            }),
    {
        proof {
            lemma_remaining_fits(*self);
        }
        assert(self.snapshot@.len() == self.snapshot.len());
        if key == ReorderKey::LineUp {
            self.move_target_line(false);
            return true;
        }
        if key == ReorderKey::LineDown {
            self.move_target_line(true);
            return true;
        }
        let was_pending = self.pending_g;
        if key != ReorderKey::TopPrefix {
            self.pending_g = false;
        }
        match key {
            ReorderKey::PageUp => self.move_target(false, page),
            ReorderKey::PageDown => self.move_target(true, page),
            ReorderKey::Top => self.set_target(0),
            ReorderKey::Bottom => self.set_target(usize::MAX),
            ReorderKey::TopPrefix => {
                if was_pending {
                    self.pending_g = false;
                    self.set_target(0);
                } else {
                    self.pending_g = true;
                }
            },
            _ => {
                return false;
            },
        }
        true
    }

    /// Handles a key while the block moves: a repeated key does nothing; the reorder binding and
    /// Enter commit; Escape cancels; the others may move the block's place.
    pub fn handle_key(&mut self, key: ReorderKey, repeat: bool, page: usize) -> (r: ReorderStep)
        requires
            old(self).wf(),
        ensures
            final(self).wf(),
            r == if repeat {
                ReorderStep::Moving
            } else {
                match key {
                    ReorderKey::Reorder | ReorderKey::Enter => ReorderStep::Commit,
                    ReorderKey::Cancel => ReorderStep::Cancel,
                    _ => ReorderStep::Moving,
                }
            },
            (repeat || key == ReorderKey::Reorder || key == ReorderKey::Enter || key == ReorderKey::Cancel) ==> *final(self) == *old(self),
            final(self).snapshot == old(self).snapshot,
            final(self).selected == old(self).selected,
            final(self).scope_ids == old(self).scope_ids,
    {
        if repeat {
            return ReorderStep::Moving;
        }
        match key {
            ReorderKey::Reorder | ReorderKey::Enter => ReorderStep::Commit,
            ReorderKey::Cancel => ReorderStep::Cancel,
            _ => {
                self.handle_target_key(key, page);
                ReorderStep::Moving
            },
        }
    }

    /// Where the block's placeholder is drawn: before the row at the visual boundary when there
    /// is one, else before the staying row at the target, else after the last staying row, else
    /// after the block's own last row.
    pub fn overlay_position(&self) -> (r: OverlayPosition)
        requires
            self.wf(),
        ensures
            r == ({
                let rem = self.remaining();
                if self.visual_target_index matches Some(v) && v < self.snapshot@.len() {
                    OverlayPosition::Before(self.snapshot@[self.visual_target_index->0 as int])
                } else if self.target_index < rem.len() {
                    OverlayPosition::Before(rem[self.target_index as int])
                } else if rem.len() > 0 {
                    OverlayPosition::After(rem.last())
                } else {
                    OverlayPosition::After(self.selected@.last())
                }
            }),
    {
        if let Some(v) = self.visual_target_index {
            if v < self.snapshot.len() {
                return OverlayPosition::Before(self.snapshot[v]);
            }
        }
        let remaining = self.remaining_ids();
        if self.target_index < remaining.len() {
            OverlayPosition::Before(remaining[self.target_index])
        } else if remaining.len() > 0 {
            OverlayPosition::After(remaining[remaining.len() - 1])
        } else {
            OverlayPosition::After(self.selected[self.selected.len() - 1])
        }
    }

    /// The scope's rows in their new order.
    pub fn staged_ids(&self) -> (r: Vec<u64>)
        requires
            self.wf(),
        ensures
            r@ == self.staged(),
    {
        let remaining = self.remaining_ids();
        let mut staged: Vec<u64> = Vec::new();
        let mut i: usize = 0;
        while i < self.target_index
            invariant
                self.target_index <= remaining@.len(),
                i <= self.target_index,
                staged@ == remaining@.take(i as int),
            decreases self.target_index - i,
        {
            staged.push(remaining[i]);
            assert(remaining@.take(i as int + 1) =~= remaining@.take(i as int).push(remaining@[i as int]));
            i += 1;
        }
        let mut k: usize = 0;
        while k < self.selected.len()
            invariant
                staged@ == remaining@.take(self.target_index as int) + self.selected@.take(k as int),
                k <= self.selected@.len(),
            decreases self.selected@.len() - k,
        {
            staged.push(self.selected[k]);
            assert(self.selected@.take(k as int + 1) =~= self.selected@.take(k as int).push(self.selected@[k as int]));
            k += 1;
        }
        assert(self.selected@.take(k as int) =~= self.selected@);
        let mut j: usize = self.target_index;
        while j < remaining.len()
            invariant
                self.target_index <= j <= remaining@.len(),
                staged@ == remaining@.take(self.target_index as int) + self.selected@ + remaining@.subrange(
                    self.target_index as int,
                    j as int,
                ),
            decreases remaining@.len() - j,
        {
            staged.push(remaining[j]);
            assert(remaining@.subrange(self.target_index as int, j as int + 1) =~= remaining@.subrange(
                self.target_index as int,
                j as int,
            ).push(remaining@[j as int]));
            j += 1;
        }
        assert(remaining@.subrange(self.target_index as int, j as int) =~= remaining@.skip(self.target_index as int));
        staged
    }

    /// What a committed block move reports: the scope's rows in their new order.
    pub fn committed_event(&self) -> (r: ListControlEvent)
        requires
            self.wf(),
        ensures
            r matches ListControlEvent::Reordered { row_ids } && row_ids@ == self.staged(),
    {
        ListControlEvent::Reordered { row_ids: self.staged_ids() }
    }

    /// What a cancelled block move reports: the row that was highlighted when it began.
    pub fn cancelled_event(&self) -> (r: ListControlEvent)
        ensures
            r == (ListControlEvent::ReorderCancelled { row_id: self.highlighted_id }),
    {
        ListControlEvent::ReorderCancelled { row_id: self.highlighted_id }
    }

    /// The whole row order to commit: the new order of the scope put back among the other rows.
    pub fn committed_order(&self) -> (r: Vec<u64>)
        requires
            self.wf(),
        ensures
            r@ == staged_from(self.snapshot@, self.scope_ids, self.staged()),
    {
        let staged = self.staged_ids();
        proof {
            law_block_lands_whole(*self);
            if let Some(scope) = &self.scope_ids {
                lemma_select_count_part(self.snapshot@, scope@);
            }
        }
        merge_scope_order(&self.snapshot, &self.scope_ids, &staged)
    }
}

/// There are no more staying rows than rows in the snapshot.
pub proof fn lemma_remaining_fits(m: FlatBlockMove)
    requires
        m.wf(),
    ensures
        m.remaining().len() <= m.scope().len() <= m.snapshot@.len(),
{
    lemma_select(m.scope(), m.selected@, false);
    assert forall|x: u64| m.scope().contains(x) implies m.snapshot@.contains(x) by {
        let j = choose|j: int| 0 <= j < m.scope().len() && m.scope()[j] == x;
        assert(m.snapshot@.contains(m.scope()[j]));
    }
    lemma_distinct_within(m.scope(), m.snapshot@);
}

/// The target a visual boundary stands for never passes the staying rows.
pub proof fn lemma_scoped_target_bound(full: Seq<u64>, scope: Seq<u64>, selected: Seq<u64>, visual: int)
    requires
        scope_fits(full, scope),
        0 <= visual,
    ensures
        0 <= scoped_target(full, scope, selected, visual) <= select(scope, selected, false).len(),
{
    let v = if visual <= full.len() { visual } else { full.len() as int };
    let pre = full.take(v);
    let inner = select(pre, scope, true);
    let a = select(inner, selected, false);
    let b = select(scope, selected, false);
    assert(pre.no_duplicates()) by {
        assert forall|i: int, j: int| 0 <= i < j < pre.len() implies pre[i] != pre[j] by {
            assert(pre[i] == full[i] && pre[j] == full[j]);
        }
    }
    lemma_select(pre, scope, true);
    lemma_select(inner, selected, false);
    lemma_select(scope, selected, false);
    assert forall|x: u64| a.contains(x) implies b.contains(x) by {
        assert(inner.contains(x));
        assert(scope.contains(x));
    }
    lemma_distinct_within(a, b);
}

/// How many rows before boundary `visual` of `full` are in the scope and not moving.
pub fn scoped_target_index(full: &Vec<u64>, scope: &Vec<u64>, selected: &Vec<u64>, visual: usize) -> (r: usize)
    ensures
        r as int == scoped_target(full@, scope@, selected@, visual as int),
{
    let v = if visual < full.len() { visual } else { full.len() };
    let mut count: usize = 0;
    let mut i: usize = 0;
    while i < v
        invariant
            v <= full@.len(),
            i <= v,
            count as int == select(select(full@.take(i as int), scope@, true), selected@, false).len(),
            count <= i,
        decreases v - i,
    {
        let id = full[i];
        assert(full@.take(i as int + 1).drop_last() =~= full@.take(i as int));
        assert(full@.take(i as int + 1).last() == id);
        let in_scope = contains_u64(scope, id);
        let moving = contains_u64(selected, id);
        proof {
            let inner = select(full@.take(i as int), scope@, true);
            if in_scope {
                assert(select(full@.take(i as int + 1), scope@, true) == inner.push(id));
                assert(inner.push(id).drop_last() =~= inner);
                assert(inner.push(id).last() == id);
            } else {
                assert(select(full@.take(i as int + 1), scope@, true) == inner);
            }
        }
        if in_scope && !moving {
            count += 1;
        }
        i += 1;
    }
    count
}

/// The block lands whole, in its order, at the target, and the staying rows keep their order
/// around it; the staged rows are as many as the scope's.
pub proof fn law_block_lands_whole(m: FlatBlockMove)
    requires
        m.wf(),
    ensures
        m.staged().subrange(m.target_index as int, m.target_index + m.selected@.len()) == m.selected@,
        select(m.staged(), m.selected@, false) == m.remaining(),
        m.staged().len() == m.scope().len(),
{
    let rem = m.remaining();
    let t = m.target_index as int;
    let sel = m.selected@;
    let head = rem.take(t);
    let tail = rem.skip(t);
    lemma_select(m.scope(), sel, false);
    assert forall|j: int| 0 <= j < head.len() implies sel.contains(#[trigger] head[j]) == false by {
        assert(rem.contains(rem[j]));
    }
    assert forall|j: int| 0 <= j < tail.len() implies sel.contains(#[trigger] tail[j]) == false by {
        assert(rem.contains(rem[t + j]));
    }
    assert forall|j: int| 0 <= j < sel.len() implies sel.contains(#[trigger] sel[j]) == true by {}
    lemma_select_uniform(head, sel, false);
    lemma_select_uniform(tail, sel, false);
    lemma_select_uniform(sel, sel, true);
    lemma_select_concat(head + sel, tail, sel, false);
    lemma_select_concat(head, sel, sel, false);
    assert(head + tail =~= rem);
    lemma_select_split(m.scope(), sel);
    lemma_select_count_part(m.scope(), sel);
}

/// What a key starts when no rows are being moved.
#[derive(Debug, Clone, Copy, PartialEq, Eq, Structural)]
pub enum ReorderStart {
    /// Move the picked rows of the flat list as a block.
    FlatBlock,
    /// One picked row of the flat list: the key is taken and nothing starts.
    FlatSingle,
    /// Move the picked rows of the tree as a block.
    TreeBlock,
    /// One picked row of the tree: the key is taken and nothing starts.
    TreeSingle,
    /// Move the highlighted row within the tree.
    TreeRow,
    /// Move the highlighted row among the rows.
    Row,
    /// The key is not for reordering.
    NotReorder,
}

/// What a key starts when nothing is moving: with two or more rows picked, the reorder binding
/// or a plain Space moves them as a block (a flat pick first), one picked row takes such a key
/// and does nothing; otherwise the reorder binding moves the highlighted row, in the tree when
/// the tree can be edited, else among the rows when they have a column to rank them by.
pub open spec fn spec_reorder_start(flat_picked: Option<usize>, tree_picked: Option<usize>, reorder_key: bool, plain_space: bool,
    tree_mutable: bool, has_reorder_column: bool) -> ReorderStart {
    let block_command = reorder_key || plain_space;
    if block_command && (flat_picked matches Some(n) && n >= 2) {
        ReorderStart::FlatBlock
    } else if block_command && flat_picked == Some(1usize) {
        ReorderStart::FlatSingle
    } else if block_command && (tree_picked matches Some(n) && n >= 2) {
        ReorderStart::TreeBlock
    } else if block_command && tree_picked == Some(1usize) {
        ReorderStart::TreeSingle
    } else if !reorder_key {
        ReorderStart::NotReorder
    } else if tree_mutable {
        ReorderStart::TreeRow
    } else if has_reorder_column {
        ReorderStart::Row
    } else {
        ReorderStart::NotReorder
    }
}

/// What a key starts when nothing is moving; `flat_picked` and `tree_picked` are how many rows
/// are picked, when a picking is under way.
pub fn reorder_start(flat_picked: Option<usize>, tree_picked: Option<usize>, reorder_key: bool, plain_space: bool,
    tree_mutable: bool, has_reorder_column: bool) -> (r: ReorderStart)
    ensures
        r == spec_reorder_start(flat_picked, tree_picked, reorder_key, plain_space, tree_mutable, has_reorder_column),
{
    let block_command = reorder_key || plain_space;
    let flat_many = match flat_picked { Some(n) => n >= 2, None => false };
    let flat_one = match flat_picked { Some(n) => n == 1, None => false };
    let tree_many = match tree_picked { Some(n) => n >= 2, None => false };
    let tree_one = match tree_picked { Some(n) => n == 1, None => false };
    if block_command && flat_many {
        ReorderStart::FlatBlock
    } else if block_command && flat_one {
        ReorderStart::FlatSingle
    } else if block_command && tree_many {
        ReorderStart::TreeBlock
    } else if block_command && tree_one {
        ReorderStart::TreeSingle
    } else if !reorder_key {
        ReorderStart::NotReorder
    } else if tree_mutable {
        ReorderStart::TreeRow
    } else if has_reorder_column {
        ReorderStart::Row
    } else {
        ReorderStart::NotReorder
    }
}

} // verus!
