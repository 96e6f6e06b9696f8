//! The editing rules of a list control: the events it reports, its key bindings, the fields of
//! its add and edit form and how they are checked and walked through, and how a block of
//! selected rows moves past its neighbours.
use vstd::prelude::*;
use crate::keys::{matches_any, spec_matches_any, Key, KeyEvent, KeyModifiers, KeySpec};
use crate::dropdown::{bare, ctrl, Dropdown, DropdownCommitMode, DropdownSearchMode, DropdownVariant};
use crate::geometry::{min_int, sat_sub, LayoutSize, Rect};

verus! {

/// What a list control reports to its owner.
#[derive(Debug, Clone, PartialEq, Eq)]
pub enum ListControlEvent {
    Added { row_id: u64 },
    AddedChild { row_id: u64, parent_id: u64 },
    Removed { row_id: u64 },
    Edited { row_id: u64 },
    AddCancelled,
    EditCancelled { row_id: u64 },
    Reordered { row_ids: Vec<u64> },
    TreeMoved { row_id: u64, parent_id: Option<u64>, sibling_index: usize },
    TreeBlockMoved { row_ids: Vec<u64>, parent_id: Option<u64>, sibling_index: usize },
    TreeBlockMoveCancelled { row_ids: Vec<u64> },
    ReorderCancelled { row_id: u64 },
    ReorderUnavailable { reason: ListControlReorderUnavailable },
    CheckedChanged { checked: Vec<u64>, added: Vec<u64>, removed: Vec<u64> },
}

/// Why rows cannot be reordered.
#[derive(Debug, Clone, Copy, PartialEq, Eq, Structural)]
pub enum ListControlReorderUnavailable {
    Tree,
    VisibleSubset,
    TransformActive,
    Paginated,
    DuplicateRowIds,
    DuplicateRankKeys,
    DataChanged,
}

/// Why the rows of a data view cannot be reordered.
#[derive(Debug, Clone, Copy, PartialEq, Eq, Structural)]
pub enum ReorderUnavailableReason {
    Tree,
    VisibleSubset,
    TransformActive,
    Paginated,
    DuplicateRowIds,
    DuplicateRankKeys,
}

/// The list control's name for a data view's reason.
pub fn unavailable_reason(reason: ReorderUnavailableReason) -> (r: ListControlReorderUnavailable)
    ensures
        r == match reason {
            ReorderUnavailableReason::Tree => ListControlReorderUnavailable::Tree,
            ReorderUnavailableReason::VisibleSubset => ListControlReorderUnavailable::VisibleSubset,
            ReorderUnavailableReason::TransformActive => ListControlReorderUnavailable::TransformActive,
            ReorderUnavailableReason::Paginated => ListControlReorderUnavailable::Paginated,
            ReorderUnavailableReason::DuplicateRowIds => ListControlReorderUnavailable::DuplicateRowIds,
            ReorderUnavailableReason::DuplicateRankKeys => ListControlReorderUnavailable::DuplicateRankKeys,
        },
{
    match reason {
        ReorderUnavailableReason::Tree => ListControlReorderUnavailable::Tree,
        ReorderUnavailableReason::VisibleSubset => ListControlReorderUnavailable::VisibleSubset,
        ReorderUnavailableReason::TransformActive => ListControlReorderUnavailable::TransformActive,
        ReorderUnavailableReason::Paginated => ListControlReorderUnavailable::Paginated,
        ReorderUnavailableReason::DuplicateRowIds => ListControlReorderUnavailable::DuplicateRowIds,
        ReorderUnavailableReason::DuplicateRankKeys => ListControlReorderUnavailable::DuplicateRankKeys,
    }
}

/// A display-only list control's navigation.
#[derive(Debug, Clone, Copy, PartialEq, Eq, Structural)]
pub enum DataViewDisplayAction {
    LineUp,
    LineDown,
    PageUp,
    PageDown,
    Top,
    Bottom,
    Activate,
}

/// The keys that add a row, add a child row, remove, edit and start reordering.
#[derive(Debug, Clone, PartialEq, Eq)]
pub struct ListControlKeyBindings {
    pub add: Vec<KeySpec>,
    pub add_child: Vec<KeySpec>,
    pub remove: Vec<KeySpec>,
    pub edit: Vec<KeySpec>,
    pub reorder: Vec<KeySpec>,
}

/// The default bindings are the standard ones.
impl Default for ListControlKeyBindings {
    fn default() -> (r: ListControlKeyBindings)
        ensures
            r.add@ == seq![bare(Key::Char('+'))],
            r.add_child@ == seq![bare(Key::Char('\\'))],
            r.remove@ == seq![ctrl(Key::Char('x'))],
            r.edit@ == seq![bare(Key::Char('e'))],
            r.reorder@ == seq![ctrl(Key::Char('m'))],
    {
        ListControlKeyBindings::standard()
    }
}

impl ListControlKeyBindings {
    /// `+` adds, `\` adds a child, Ctrl-x removes, `e` edits, Ctrl-m reorders.
    pub fn standard() -> (r: ListControlKeyBindings)
        ensures
            r.add@ == seq![bare(Key::Char('+'))],
            r.add_child@ == seq![bare(Key::Char('\\'))],
            r.remove@ == seq![ctrl(Key::Char('x'))],
            r.edit@ == seq![bare(Key::Char('e'))],
            r.reorder@ == seq![ctrl(Key::Char('m'))],
    {
        ListControlKeyBindings {
            add: vec![KeySpec::plain('+')],
            add_child: vec![KeySpec::plain('\\')],
            remove: vec![KeySpec::key_with_modifiers(Key::Char('x'), KeyModifiers::control())],
            edit: vec![KeySpec::plain('e')],
            reorder: vec![KeySpec::key_with_modifiers(Key::Char('m'), KeyModifiers::control())],
        }
    }

    pub fn add(self, keys: Vec<KeySpec>) -> (r: ListControlKeyBindings)
        ensures
            r == (ListControlKeyBindings { add: keys, ..self }),
    {
        ListControlKeyBindings { add: keys, ..self }
    }

    pub fn remove(self, keys: Vec<KeySpec>) -> (r: ListControlKeyBindings)
        ensures
            r == (ListControlKeyBindings { remove: keys, ..self }),
    {
        ListControlKeyBindings { remove: keys, ..self }
    }

    pub fn add_child(self, keys: Vec<KeySpec>) -> (r: ListControlKeyBindings)
        ensures
            r == (ListControlKeyBindings { add_child: keys, ..self }),
    {
        ListControlKeyBindings { add_child: keys, ..self }
    }

    pub fn edit(self, keys: Vec<KeySpec>) -> (r: ListControlKeyBindings)
        ensures
            r == (ListControlKeyBindings { edit: keys, ..self }),
    {
        ListControlKeyBindings { edit: keys, ..self }
    }

    pub fn reorder(self, keys: Vec<KeySpec>) -> (r: ListControlKeyBindings)
        ensures
            r == (ListControlKeyBindings { reorder: keys, ..self }),
    {
        ListControlKeyBindings { reorder: keys, ..self }
    }

    pub fn add_matches(&self, key: KeyEvent) -> (r: bool)
        ensures
            r == spec_matches_any(self.add@, key),
    {
        matches_any(self.add.as_slice(), key)
    }

    pub fn remove_matches(&self, key: KeyEvent) -> (r: bool)
        ensures
            r == spec_matches_any(self.remove@, key),
    {
        matches_any(self.remove.as_slice(), key)
    }

    pub fn add_child_matches(&self, key: KeyEvent) -> (r: bool)
        ensures
            r == spec_matches_any(self.add_child@, key),
    {
        matches_any(self.add_child.as_slice(), key)
    }

    pub fn edit_matches(&self, key: KeyEvent) -> (r: bool)
        ensures
            r == spec_matches_any(self.edit@, key),
    {
        matches_any(self.edit.as_slice(), key)
    }

    pub fn reorder_matches(&self, key: KeyEvent) -> (r: bool)
        ensures
            r == spec_matches_any(self.reorder@, key),
    {
        matches_any(self.reorder.as_slice(), key)
    }
}

/// The keys of a display-only list control; none is bound until set.
#[derive(Debug, Clone, PartialEq, Eq)]
pub struct ListControlDisplayKeyBindings {
    pub line_up: Vec<KeySpec>,
    pub line_down: Vec<KeySpec>,
    pub page_up: Vec<KeySpec>,
    pub page_down: Vec<KeySpec>,
    pub top: Vec<KeySpec>,
    pub top_prefix: Vec<KeySpec>,
    pub bottom: Vec<KeySpec>,
    pub activate: Vec<KeySpec>,
    pub reorder: Vec<KeySpec>,
}

impl ListControlDisplayKeyBindings {
    pub fn new() -> (r: ListControlDisplayKeyBindings)
        ensures
            r.line_up@.len() == 0,
            r.line_down@.len() == 0,
            r.page_up@.len() == 0,
            r.page_down@.len() == 0,
            r.top@.len() == 0,
            r.top_prefix@.len() == 0,
            r.bottom@.len() == 0,
            r.activate@.len() == 0,
            r.reorder@.len() == 0,
    {
        ListControlDisplayKeyBindings {
            line_up: Vec::new(),
            line_down: Vec::new(),
            page_up: Vec::new(),
            page_down: Vec::new(),
            top: Vec::new(),
            top_prefix: Vec::new(),
            bottom: Vec::new(),
            activate: Vec::new(),
            reorder: Vec::new(),
        }
    }

    pub fn line_up(self, keys: Vec<KeySpec>) -> (r: ListControlDisplayKeyBindings)
        ensures
            r == (ListControlDisplayKeyBindings { line_up: keys, ..self }),
    {
        ListControlDisplayKeyBindings { line_up: keys, ..self }
    }

    pub fn line_down(self, keys: Vec<KeySpec>) -> (r: ListControlDisplayKeyBindings)
        ensures
            r == (ListControlDisplayKeyBindings { line_down: keys, ..self }),
    {
        ListControlDisplayKeyBindings { line_down: keys, ..self }
    }

    pub fn page_up(self, keys: Vec<KeySpec>) -> (r: ListControlDisplayKeyBindings)
        ensures
            r == (ListControlDisplayKeyBindings { page_up: keys, ..self }),
    {
        ListControlDisplayKeyBindings { page_up: keys, ..self }
    }

    pub fn page_down(self, keys: Vec<KeySpec>) -> (r: ListControlDisplayKeyBindings)
        ensures
            r == (ListControlDisplayKeyBindings { page_down: keys, ..self }),
    {
        ListControlDisplayKeyBindings { page_down: keys, ..self }
    }

    pub fn top(self, keys: Vec<KeySpec>) -> (r: ListControlDisplayKeyBindings)
        ensures
            r == (ListControlDisplayKeyBindings { top: keys, ..self }),
    {
        ListControlDisplayKeyBindings { top: keys, ..self }
    }

    pub fn top_prefix(self, keys: Vec<KeySpec>) -> (r: ListControlDisplayKeyBindings)
        ensures
            r == (ListControlDisplayKeyBindings { top_prefix: keys, ..self }),
    {
        ListControlDisplayKeyBindings { top_prefix: keys, ..self }
    }

    pub fn bottom(self, keys: Vec<KeySpec>) -> (r: ListControlDisplayKeyBindings)
        ensures
            r == (ListControlDisplayKeyBindings { bottom: keys, ..self }),
    {
        ListControlDisplayKeyBindings { bottom: keys, ..self }
    }

    pub fn activate(self, keys: Vec<KeySpec>) -> (r: ListControlDisplayKeyBindings)
        ensures
            r == (ListControlDisplayKeyBindings { activate: keys, ..self }),
    {
        ListControlDisplayKeyBindings { activate: keys, ..self }
    }

    pub fn reorder(self, keys: Vec<KeySpec>) -> (r: ListControlDisplayKeyBindings)
        ensures
            r == (ListControlDisplayKeyBindings { reorder: keys, ..self }),
    {
        ListControlDisplayKeyBindings { reorder: keys, ..self }
    }

    /// The navigation a key press asks for: the first binding list that recognises it, in the
    /// order line up, line down, page up, page down, top, bottom, activate.
    pub open spec fn spec_action(self, key: KeyEvent) -> Option<DataViewDisplayAction> {
        if spec_matches_any(self.line_up@, key) {
            Some(DataViewDisplayAction::LineUp)
        } else if spec_matches_any(self.line_down@, key) {
            Some(DataViewDisplayAction::LineDown)
        } else if spec_matches_any(self.page_up@, key) {
            Some(DataViewDisplayAction::PageUp)
        } else if spec_matches_any(self.page_down@, key) {
            Some(DataViewDisplayAction::PageDown)
        } else if spec_matches_any(self.top@, key) {
            Some(DataViewDisplayAction::Top)
        } else if spec_matches_any(self.bottom@, key) {
            Some(DataViewDisplayAction::Bottom)
        } else if spec_matches_any(self.activate@, key) {
            Some(DataViewDisplayAction::Activate)
        } else {
            None
        }
    }

    pub fn action(&self, key: KeyEvent) -> (r: Option<DataViewDisplayAction>)
        ensures
            r == self.spec_action(key),
    {
        if matches_any(self.line_up.as_slice(), key) {
            Some(DataViewDisplayAction::LineUp)
        } else if matches_any(self.line_down.as_slice(), key) {
            Some(DataViewDisplayAction::LineDown)
        } else if matches_any(self.page_up.as_slice(), key) {
            Some(DataViewDisplayAction::PageUp)
        } else if matches_any(self.page_down.as_slice(), key) {
            Some(DataViewDisplayAction::PageDown)
        } else if matches_any(self.top.as_slice(), key) {
            Some(DataViewDisplayAction::Top)
        } else if matches_any(self.bottom.as_slice(), key) {
            Some(DataViewDisplayAction::Bottom)
        } else if matches_any(self.activate.as_slice(), key) {
            Some(DataViewDisplayAction::Activate)
        } else {
            None
        }
    }

    pub fn reorder_matches(&self, key: KeyEvent) -> (r: bool)
        ensures
            r == spec_matches_any(self.reorder@, key),
    {
        matches_any(self.reorder.as_slice(), key)
    }

    pub fn top_prefix_matches(&self, key: KeyEvent) -> (r: bool)
        ensures
            r == spec_matches_any(self.top_prefix@, key),
    {
        matches_any(self.top_prefix.as_slice(), key)
    }
}

// ---------------------------------------------------------------------------------------------
// Moving a block of selected rows
// ---------------------------------------------------------------------------------------------

/// Where the run of selected rows that ends just before `k` starts.
pub open spec fn run_start(ids: Seq<u64>, selected: Seq<u64>, k: int) -> int
    decreases k,
{
    if k > 0 && selected.contains(ids[k - 1]) {
        run_start(ids, selected, k - 1)
    } else {
        k
    }
}

/// Where the run of selected rows that starts at `k` ends.
pub open spec fn run_end(ids: Seq<u64>, selected: Seq<u64>, k: int) -> int
    decreases ids.len() - k,
{
    if 0 <= k < ids.len() && selected.contains(ids[k]) {
        run_end(ids, selected, k + 1)
    } else {
        k
    }
}

/// Where a block boundary among `ids` goes when moved by `delta`: it is first brought into the
/// list; moving back, it jumps over the run of selected rows just before it, or one row; moving
/// forward, it jumps over the run of selected rows just after it, or one row; it stays at the
/// ends and for no move.
pub open spec fn spec_move_block_visual_boundary(ids: Seq<u64>, selected: Seq<u64>, boundary: usize, delta: int) -> int {
    let b = if boundary as int <= ids.len() { boundary as int } else { ids.len() as int };
    if delta < 0 {
        if b == 0 {
            0
        } else if selected.contains(ids[b - 1]) {
            run_start(ids, selected, b - 1)
        } else {
            b - 1
        }
    } else if delta > 0 {
        if b == ids.len() {
            b
        } else if selected.contains(ids[b]) {
            run_end(ids, selected, b)
        } else {
            b + 1
        }
    } else {
        b
    }
}

proof fn lemma_run_start(ids: Seq<u64>, selected: Seq<u64>, k: int)
    requires
        0 <= k <= ids.len(),
    ensures
        0 <= run_start(ids, selected, k) <= k,
        forall|i: int| run_start(ids, selected, k) <= i < k ==> selected.contains(#[trigger] ids[i]),
    decreases k,
{
    if k > 0 && selected.contains(ids[k - 1]) {
        lemma_run_start(ids, selected, k - 1);
    }
}

proof fn lemma_run_end(ids: Seq<u64>, selected: Seq<u64>, k: int)
    requires
        0 <= k <= ids.len(),
    ensures
        k <= run_end(ids, selected, k) <= ids.len(),
        forall|i: int| k <= i < run_end(ids, selected, k) ==> selected.contains(#[trigger] ids[i]),
    decreases ids.len() - k,
{
    if k < ids.len() && selected.contains(ids[k]) {
        lemma_run_end(ids, selected, k + 1);
    }
}

/// A moved block boundary stays within the list and moves the way it is pushed: back (or not
/// at all) for a negative move, forward (or not at all) for a positive one; the rows it jumps
/// over are either one unselected row or a run of selected rows.
pub proof fn law_block_boundary_moves_within(ids: Seq<u64>, selected: Seq<u64>, boundary: usize, delta: int)
    ensures
        ({
            let b = if boundary as int <= ids.len() { boundary as int } else { ids.len() as int };
            let r = spec_move_block_visual_boundary(ids, selected, boundary, delta);
            &&& 0 <= r <= ids.len()
            &&& delta < 0 ==> r <= b && (r == b - 1 || forall|i: int| r <= i < b ==> selected.contains(#[trigger] ids[i]))
            &&& delta > 0 ==> r >= b && (r == b + 1 || forall|i: int| b <= i < r ==> selected.contains(#[trigger] ids[i]))
            &&& delta == 0 ==> r == b
        }),
{
    let b = if boundary as int <= ids.len() { boundary as int } else { ids.len() as int };
    if delta < 0 && b > 0 {
        lemma_run_start(ids, selected, b - 1);
    }
    if delta > 0 && b < ids.len() {
        lemma_run_end(ids, selected, b);
    }
}

pub(crate) fn contains_u64(v: &Vec<u64>, x: u64) -> (r: bool)
    ensures
        r == v@.contains(x),
{
    let mut i: usize = 0;
    while i < v.len()
        invariant
            i <= v@.len(),
            forall|j: int| 0 <= j < i ==> v@[j] != x,
        decreases v@.len() - i,
    {
        if v[i] == x {
            assert(v@[i as int] == x);
            return true;
        }
        i += 1;
    }
    false
}

pub fn move_block_visual_boundary(ids: &Vec<u64>, selected: &Vec<u64>, boundary: usize, delta: isize) -> (r: usize)
    ensures
        r as int == spec_move_block_visual_boundary(ids@, selected@, boundary, delta as int),
{
    let mut b = if boundary <= ids.len() { boundary } else { ids.len() };
    if delta < 0 {
        if b == 0 {
            return b;
        }
        if contains_u64(selected, ids[b - 1]) {
            b -= 1;
            while b > 0 && contains_u64(selected, ids[b - 1])
                invariant
                    b < ids@.len(),
                    run_start(ids@, selected@, b as int) == spec_move_block_visual_boundary(
                        ids@,
                        selected@,
                        boundary,
                        delta as int,
                    ),
                decreases b,
            {
                b -= 1;
            }
        } else {
            b -= 1;
        }
    } else if delta > 0 {
        if b == ids.len() {
            return b;
        }
        if contains_u64(selected, ids[b]) {
            while b < ids.len() && contains_u64(selected, ids[b])
                invariant
                    b <= ids@.len(),
                    run_end(ids@, selected@, b as int) == spec_move_block_visual_boundary(
                        ids@,
                        selected@,
                        boundary,
                        delta as int,
                    ),
                decreases ids@.len() - b,
            {
                b += 1;
            }
        } else {
            b += 1;
        }
    }
    b
}


// ---------------------------------------------------------------------------------------------
// Form fields
// ---------------------------------------------------------------------------------------------

/// A field shown only while an earlier field holds one of `allowed_values`.
#[derive(Debug, Clone, PartialEq, Eq)]
pub struct ListControlFieldVisibility {
    pub field_index: usize,
    pub allowed_values: Vec<String>,
}

/// What a field is edited with: a text input, or a dropdown of `(id, label)` options.
#[derive(Debug, Clone, PartialEq, Eq)]
pub enum ListControlFieldKind {
    Text,
    Dropdown {
        options: Vec<(String, String)>,
        min_search_chars: usize,
        max_filtered_items: Option<usize>,
        visible_without_search: Option<Vec<String>>,
    },
}

/// A field of the add and edit form.
#[derive(Debug, Clone, PartialEq, Eq)]
pub struct ListControlField {
    pub placeholder: String,
    pub kind: ListControlFieldKind,
    pub required: bool,
    pub visibility: Option<ListControlFieldVisibility>,
}

/// Whether two texts are the same.
fn same_text(a: &String, b: &String) -> (r: bool)
    ensures
        r == (a@ == b@),
{
    let n = a.as_str().unicode_len();
    if n != b.as_str().unicode_len() {
        return false;
    }
    let mut i: usize = 0;
    while i < n
        invariant
            i <= n,
            n == a@.len(),
            n == b@.len(),
            a@.take(i as int) == b@.take(i as int),
        decreases n - i,
    {
        if a.as_str().get_char(i) != b.as_str().get_char(i) {
            return false;
        }
        assert(a@.take(i + 1) =~= a@.take(i as int).push(a@[i as int]));
        assert(b@.take(i + 1) =~= b@.take(i as int).push(b@[i as int]));
        i += 1;
    }
    assert(a@ =~= a@.take(n as int));
    assert(b@ =~= b@.take(n as int));
    true
}

/// Whether `id` is one of `ids`.
pub open spec fn names_option(ids: Seq<String>, id: Seq<char>) -> bool {
    exists|j: int| 0 <= j < ids.len() && #[trigger] ids[j]@ == id
}

fn text_among(ids: &Vec<String>, id: &String) -> (r: bool)
    ensures
        r == names_option(ids@, id@),
{
    let mut j: usize = 0;
    while j < ids.len()
        invariant
            j <= ids@.len(),
            forall|k: int| 0 <= k < j ==> #[trigger] ids@[k]@ != id@,
        decreases ids@.len() - j,
    {
        if same_text(&ids[j], id) {
            return true;
        }
        j += 1;
    }
    false
}

/// The places, in order, of the options whose ids are among `ids`.
pub open spec fn option_places(options: Seq<(String, String)>, ids: Seq<String>) -> Seq<u64> {
    Seq::new(options.len(), |k: int| k as u64).filter(|k: u64| names_option(ids, options[k as int].0@))
}

fn option_positions(options: &Vec<(String, String)>, ids: &Vec<String>) -> (r: Vec<u64>)
    ensures
        r@ == option_places(options@, ids@),
{
    let ghost pred = |k: u64| names_option(ids@, options@[k as int].0@);
    assert(options@.len() == options.len());
    let mut out: Vec<u64> = Vec::new();
    let mut i: usize = 0;
    while i < options.len()
        invariant
            i <= options@.len(),
            options@.len() <= u64::MAX,
            pred == (|k: u64| names_option(ids@, options@[k as int].0@)),
            out@ == Seq::new(i as nat, |k: int| k as u64).filter(pred),
        decreases options@.len() - i,
    {
        let ghost before = Seq::new(i as nat, |k: int| k as u64);
        assert(Seq::new((i + 1) as nat, |k: int| k as u64) =~= before.push(i as u64));
        proof {
            before.lemma_filter_push(i as u64, pred);
        }
        if text_among(ids, &options[i].0) {
            out.push(i as u64);
        }
        i += 1;
    }
    out
}

fn copy_string(s: &String) -> (r: String)
    ensures
        r@ == s@,
{
    s.clone()
}

impl ListControlField {
    /// A required text field.
    pub fn text(placeholder: String) -> (r: ListControlField)
        ensures
            r == (ListControlField { placeholder, kind: ListControlFieldKind::Text, required: true, visibility: None }),
    {
        ListControlField { placeholder, kind: ListControlFieldKind::Text, required: true, visibility: None }
    }

    /// A required dropdown field whose options are their own ids. Option strings must not be
    /// empty, as `""` stands for no choice.
    pub fn dropdown(placeholder: String, options: Vec<String>) -> (r: ListControlField)
        ensures
            r.placeholder == placeholder,
            r.required,
            r.visibility.is_none(),
            r.kind matches ListControlFieldKind::Dropdown { options: o, min_search_chars, max_filtered_items, visible_without_search }
                && min_search_chars == 0 && max_filtered_items.is_none() && visible_without_search.is_none()
                && o@.len() == options@.len()
                && forall|i: int| 0 <= i < options@.len() ==> (#[trigger] o@[i]).0@ == options@[i]@ && o@[i].1@ == options@[i]@,
    {
        let mut pairs: Vec<(String, String)> = Vec::new();
        let mut i: usize = 0;
        while i < options.len()
            invariant
                i <= options@.len(),
                pairs@.len() == i,
                forall|j: int| 0 <= j < i ==> (#[trigger] pairs@[j]).0@ == options@[j]@ && pairs@[j].1@ == options@[j]@,
            decreases options@.len() - i,
        {
            let a = copy_string(&options[i]);
            let b = copy_string(&options[i]);
            pairs.push((a, b));
            i += 1;
        }
        ListControlField {
            placeholder,
            kind: ListControlFieldKind::Dropdown {
                options: pairs,
                min_search_chars: 0,
                max_filtered_items: None,
                visible_without_search: None,
            },
            required: true,
            visibility: None,
        }
    }

    /// A required dropdown field of `(id, label)` options.
    pub fn dropdown_options(placeholder: String, options: Vec<(String, String)>) -> (r: ListControlField)
        ensures
            r == (ListControlField {
                placeholder,
                kind: ListControlFieldKind::Dropdown {
                    options,
                    min_search_chars: 0,
                    max_filtered_items: None,
                    visible_without_search: None,
                },
                required: true,
                visibility: None,
            }),
    {
        ListControlField {
            placeholder,
            kind: ListControlFieldKind::Dropdown {
                options,
                min_search_chars: 0,
                max_filtered_items: None,
                visible_without_search: None,
            },
            required: true,
            visibility: None,
        }
    }

    /// A dropdown field searches only from `count` typed characters on; other fields are kept.
    pub fn min_search_chars(self, count: usize) -> (r: ListControlField)
        ensures
            match self.kind {
                ListControlFieldKind::Dropdown { options, max_filtered_items, visible_without_search, .. } => r == (ListControlField {
                    kind: ListControlFieldKind::Dropdown { options, min_search_chars: count, max_filtered_items, visible_without_search },
                    ..self
                }),
                ListControlFieldKind::Text => r == self,
            },
    {
        match self.kind {
            ListControlFieldKind::Dropdown { options, max_filtered_items, visible_without_search, .. } => ListControlField {
                kind: ListControlFieldKind::Dropdown { options, min_search_chars: count, max_filtered_items, visible_without_search },
                ..self
            },
            ListControlFieldKind::Text => ListControlField { kind: ListControlFieldKind::Text, ..self },
        }
    }

    /// A dropdown field shows at most `count` matches; other fields are kept.
    pub fn max_filtered_items(self, count: usize) -> (r: ListControlField)
        ensures
            match self.kind {
                ListControlFieldKind::Dropdown { options, min_search_chars, visible_without_search, .. } => r == (ListControlField {
                    kind: ListControlFieldKind::Dropdown { options, min_search_chars, max_filtered_items: Some(count), visible_without_search },
                    ..self
                }),
                ListControlFieldKind::Text => r == self,
            },
    {
        match self.kind {
            ListControlFieldKind::Dropdown { options, min_search_chars, visible_without_search, .. } => ListControlField {
                kind: ListControlFieldKind::Dropdown { options, min_search_chars, max_filtered_items: Some(count), visible_without_search },
                ..self
            },
            ListControlFieldKind::Text => ListControlField { kind: ListControlFieldKind::Text, ..self },
        }
    }

    /// A dropdown field shows only `ids` until something is typed; other fields are kept.
    pub fn visible_without_search(self, ids: Vec<String>) -> (r: ListControlField)
        ensures
            match self.kind {
                ListControlFieldKind::Dropdown { options, min_search_chars, max_filtered_items, .. } => r == (ListControlField {
                    kind: ListControlFieldKind::Dropdown { options, min_search_chars, max_filtered_items, visible_without_search: Some(ids) },
                    ..self
                }),
                ListControlFieldKind::Text => r == self,
            },
    {
        match self.kind {
            ListControlFieldKind::Dropdown { options, min_search_chars, max_filtered_items, .. } => ListControlField {
                kind: ListControlFieldKind::Dropdown { options, min_search_chars, max_filtered_items, visible_without_search: Some(ids) },
                ..self
            },
            ListControlFieldKind::Text => ListControlField { kind: ListControlFieldKind::Text, ..self },
        }
    }

    pub fn optional(self) -> (r: ListControlField)
        ensures
            r == (ListControlField { required: false, ..self }),
    {
        ListControlField { required: false, ..self }
    }

    pub fn required(self, required: bool) -> (r: ListControlField)
        ensures
            r == (ListControlField { required, ..self }),
    {
        ListControlField { required, ..self }
    }

    /// Shows this field only when field `field_index` holds one of `allowed_values`.
    pub fn visible_when(self, field_index: usize, allowed_values: Vec<String>) -> (r: ListControlField)
        ensures
            r == (ListControlField {
                visibility: Some(ListControlFieldVisibility { field_index, allowed_values }),
                ..self
            }),
    {
        ListControlField { visibility: Some(ListControlFieldVisibility { field_index, allowed_values }), ..self }
    }
}

/// What is wrong with a list of fields.
#[derive(Debug, Clone, Copy, PartialEq, Eq, Structural)]
pub enum FieldsProblem {
    NoFields,
    EmptyOption,
    LaterVisibility,
}

/// Whether every option of a field has a non-empty id and label.
pub open spec fn options_filled(field: ListControlField) -> bool {
    match field.kind {
        ListControlFieldKind::Text => true,
        ListControlFieldKind::Dropdown { options, .. } => forall|j: int|
            0 <= j < options@.len() ==> (#[trigger] options@[j]).0@.len() > 0 && options@[j].1@.len() > 0,
    }
}

/// Whether a field's visibility depends only on an earlier field.
pub open spec fn visibility_earlier(field: ListControlField, index: int) -> bool {
    match field.visibility {
        None => true,
        Some(v) => v.field_index < index,
    }
}

/// The first problem of `fields`: none at all, an empty option string, or a visibility that
/// depends on the field itself or a later one.
pub open spec fn spec_fields_problem(fields: Seq<ListControlField>) -> Option<FieldsProblem> {
    if fields.len() == 0 {
        Some(FieldsProblem::NoFields)
    } else if !(forall|i: int| 0 <= i < fields.len() ==> options_filled(#[trigger] fields[i])) {
        Some(FieldsProblem::EmptyOption)
    } else if !(forall|i: int| 0 <= i < fields.len() ==> visibility_earlier(#[trigger] fields[i], i)) {
        Some(FieldsProblem::LaterVisibility)
    } else {
        None
    }
}

fn field_options_filled(field: &ListControlField) -> (r: bool)
    ensures
        r == options_filled(*field),
{
    match &field.kind {
        ListControlFieldKind::Text => true,
        ListControlFieldKind::Dropdown { options, .. } => {
            let mut j: usize = 0;
            while j < options.len()
                invariant
                    j <= options@.len(),
                    (field.kind matches ListControlFieldKind::Dropdown { options: o, .. } && o == *options),
                    forall|k: int| 0 <= k < j ==> (#[trigger] options@[k]).0@.len() > 0 && options@[k].1@.len() > 0,
                decreases options@.len() - j,
            {
                if options[j].0.as_str().unicode_len() == 0 || options[j].1.as_str().unicode_len() == 0 {
                    assert(!(options@[j as int].0@.len() > 0 && options@[j as int].1@.len() > 0));
                    return false;
                }
                j += 1;
            }
            true
        },
    }
}

/// Checks a list of fields before a form is built from it.
pub fn check_fields(fields: &Vec<ListControlField>) -> (r: Option<FieldsProblem>)
    ensures
        r == spec_fields_problem(fields@),
{
    if fields.len() == 0 {
        return Some(FieldsProblem::NoFields);
    }
    let mut i: usize = 0;
    while i < fields.len()
        invariant
            i <= fields@.len(),
            forall|k: int| 0 <= k < i ==> options_filled(#[trigger] fields@[k]),
        decreases fields@.len() - i,
    {
        if !field_options_filled(&fields[i]) {
            return Some(FieldsProblem::EmptyOption);
        }
        i += 1;
    }
    let mut i: usize = 0;
    while i < fields.len()
        invariant
            i <= fields@.len(),
            forall|k: int| 0 <= k < fields@.len() ==> options_filled(#[trigger] fields@[k]),
            forall|k: int| 0 <= k < i ==> visibility_earlier(#[trigger] fields@[k], k),
        decreases fields@.len() - i,
    {
        let earlier = match &fields[i].visibility {
            None => true,
            Some(v) => v.field_index < i,
        };
        if !earlier {
            assert(!visibility_earlier(fields@[i as int], i as int));
            return Some(FieldsProblem::LaterVisibility);
        }
        i += 1;
    }
    None
}

// ---------------------------------------------------------------------------------------------
// The add and edit form
// ---------------------------------------------------------------------------------------------

/// The same visibility condition: the same field and the same allowed values.
pub open spec fn same_visibility(a: Option<ListControlFieldVisibility>, b: Option<ListControlFieldVisibility>) -> bool {
    match (a, b) {
        (None, None) => true,
        (Some(x), Some(y)) => x.field_index == y.field_index && x.allowed_values@ == y.allowed_values@,
        _ => false,
    }
}

fn copy_visibility(v: &Option<ListControlFieldVisibility>) -> (r: Option<ListControlFieldVisibility>)
    ensures
        same_visibility(r, *v),
{
    match v {
        None => None,
        Some(x) => {
            let mut values: Vec<String> = Vec::new();
            let mut i: usize = 0;
            while i < x.allowed_values.len()
                invariant
                    i <= x.allowed_values@.len(),
                    values@ == x.allowed_values@.take(i as int),
                decreases x.allowed_values@.len() - i,
            {
                values.push(x.allowed_values[i].clone());
                i += 1;
                assert(values@ =~= x.allowed_values@.take(i as int));
            }
            assert(x.allowed_values@.take(x.allowed_values@.len() as int) =~= x.allowed_values@);
            Some(ListControlFieldVisibility { field_index: x.field_index, allowed_values: values })
        },
    }
}

/// What advancing past the current field leads to.
#[derive(Debug, Clone, Copy, PartialEq, Eq, Structural)]
pub enum EditorStep {
    /// The current field is required and empty.
    Blocked,
    /// The last field was passed: the form is to be submitted.
    Submit,
    /// The form moved on to this field.
    Next(usize),
}

/// The state of the add and edit form: which fields are required and when they show, the value
/// of each input, whether a row is being added (under which parent) or edited, the field being
/// filled, and the events reported so far.
#[derive(Debug)]
pub struct ListControlEditor {
    pub required_fields: Vec<bool>,
    pub field_visibility: Vec<Option<ListControlFieldVisibility>>,
    pub values: Vec<String>,
    pub adding: bool,
    pub adding_parent: Option<Option<u64>>,
    pub editing: Option<u64>,
    pub active_field: usize,
    pub events: Vec<ListControlEvent>,
}

/// Every value is empty.
pub open spec fn all_empty(values: Seq<String>) -> bool {
    forall|i: int| 0 <= i < values.len() ==> (#[trigger] values[i])@.len() == 0
}

/// Whether a required field holds nothing.
pub open spec fn missing_required(required: Seq<bool>, values: Seq<String>) -> bool {
    exists|i: int| 0 <= i < required.len() && i < values.len() && #[trigger] required[i] && values[i]@.len() == 0
}

fn empty_values(n: usize) -> (r: Vec<String>)
    ensures
        r@.len() == n,
        all_empty(r@),
{
    let mut out: Vec<String> = Vec::new();
    let mut i: usize = 0;
    while i < n
        invariant
            i <= n,
            out@.len() == i,
            all_empty(out@),
        decreases n - i,
    {
        out.push(String::new());
        i += 1;
    }
    out
}

impl ListControlEditor {
    /// One value, requirement and visibility per field, and a field in range.
    pub open spec fn wf(self) -> bool {
        &&& self.values@.len() == self.required_fields@.len()
        &&& self.field_visibility@.len() == self.required_fields@.len()
        &&& self.required_fields@.len() > 0
        &&& self.active_field < self.required_fields@.len()
    }

    /// The form for `fields`, which must pass `check_fields`; nothing is being added or
    /// edited.
    pub fn new_fields(fields: &Vec<ListControlField>) -> (r: ListControlEditor)
        requires
            spec_fields_problem(fields@).is_none(),
        ensures
            r.wf(),
            r.required_fields@ == Seq::new(fields@.len(), |i: int| fields@[i].required),
            r.field_visibility@.len() == fields@.len(),
            forall|i: int| 0 <= i < fields@.len() ==> same_visibility(#[trigger] r.field_visibility@[i], fields@[i].visibility),
            all_empty(r.values@),
            !r.adding,
            r.adding_parent.is_none(),
            r.editing.is_none(),
            r.active_field == 0,
            r.events@.len() == 0,
    {
        let mut required: Vec<bool> = Vec::new();
        let mut visibility: Vec<Option<ListControlFieldVisibility>> = Vec::new();
        let mut i: usize = 0;
        while i < fields.len()
            invariant
                i <= fields@.len(),
                required@ == Seq::new(i as nat, |k: int| fields@[k].required),
                visibility@.len() == i,
                forall|k: int| 0 <= k < i ==> same_visibility(#[trigger] visibility@[k], fields@[k].visibility),
            decreases fields@.len() - i,
        {
            required.push(fields[i].required);
            visibility.push(copy_visibility(&fields[i].visibility));
            i += 1;
            assert(required@ =~= Seq::new(i as nat, |k: int| fields@[k].required));
        }
        ListControlEditor {
            values: empty_values(fields.len()),
            required_fields: required,
            field_visibility: visibility,
            adding: false,
            adding_parent: None,
            editing: None,
            active_field: 0,
            events: Vec::new(),
        }
    }

    /// The dropdown that edits a dropdown field: a single choice over the field's options (each
    /// known by its place among them and shown by its label), filled, with fuzzy search and the
    /// field's placeholder, and a "No selection" row when the field is optional; otherwise a
    /// new dropdown's defaults (nothing chosen, closed, explicit commit). None for a text field.
    pub fn field_dropdown(field: &ListControlField) -> (r: Option<Dropdown>)
        ensures
            match field.kind {
                ListControlFieldKind::Text => r is None,
                ListControlFieldKind::Dropdown { options, min_search_chars, max_filtered_items, visible_without_search } => r matches Some(d) && {
                    &&& d.wf()
                    &&& d.ids@ == Seq::new(options@.len(), |i: int| i as u64)
                    &&& d.labels@.len() == options@.len()
                    &&& forall|i: int| 0 <= i < options@.len() ==> #[trigger] d.labels@[i]@ == options@[i].1@
                    &&& !d.multi
                    &&& !d.open
                    &&& d.committed@.len() == 0
                    &&& d.commit_mode == DropdownCommitMode::Explicit
                    &&& d.variant == DropdownVariant::Filled
                    &&& d.search_mode == DropdownSearchMode::Fuzzy
                    &&& d.placeholder@ == field.placeholder@
                    &&& d.min_search_chars == min_search_chars
                    &&& d.max_filtered_items == max_filtered_items
                    &&& match visible_without_search {
                        Some(wanted) => d.visible_without_search matches Some(v) && v@ == option_places(options@, wanted@),
                        None => d.visible_without_search is None,
                    }
                    &&& if field.required {
                        d.no_selection_text is None
                    } else {
                        d.no_selection_text matches Some(t) && t@ == "No selection"@
                    }
                },
            },
    {
        match &field.kind {
            ListControlFieldKind::Text => None,
            ListControlFieldKind::Dropdown { options, min_search_chars, max_filtered_items, visible_without_search } => {
                let mut ids: Vec<u64> = Vec::new();
                let mut labels: Vec<String> = Vec::new();
                let mut i: usize = 0;
                while i < options.len()
                    invariant
                        i <= options@.len(),
                        ids@ == Seq::new(i as nat, |k: int| k as u64),
                        labels@.len() == i,
                        forall|k: int| 0 <= k < i ==> #[trigger] labels@[k]@ == options@[k].1@,
                    decreases options@.len() - i,
                {
                    ids.push(i as u64);
                    labels.push(copy_string(&options[i].1));
                    i += 1;
                    assert(ids@ =~= Seq::new(i as nat, |k: int| k as u64));
                }
                let mut d = Dropdown::single(ids, labels)
                    .variant(DropdownVariant::Filled)
                    .search_mode(DropdownSearchMode::Fuzzy)
                    .min_search_chars(*min_search_chars)
                    .placeholder(copy_string(&field.placeholder));
                if let Some(limit) = max_filtered_items {
                    d = d.max_filtered_items(*limit);
                }
                if let Some(wanted) = visible_without_search {
                    d = d.visible_without_search(option_positions(options, wanted));
                }
                if field.required {
                    Some(d)
                } else {
                    let text = String::from_str("No selection");
                    proof {
                        reveal_strlit("No selection");
                    }
                    Some(d.no_selection_text(text))
                }
            },
        }
    }

    /// Whether a row is being added or edited.
    pub fn editor_active(&self) -> (r: bool)
        ensures
            r == (self.adding || self.editing.is_some()),
    {
        self.adding || self.editing.is_some()
    }

    /// Starts adding a row (under `parent` in a tree) from an empty form at its first field.
    pub fn begin_add(&mut self, parent: Option<u64>)
        requires
            old(self).wf(),
        ensures
            final(self).wf(),
            final(self).adding,
            final(self).adding_parent == Some(parent),
            final(self).editing.is_none(),
            final(self).active_field == 0,
            all_empty(final(self).values@),
            final(self).required_fields@ == old(self).required_fields@,
            final(self).field_visibility@ == old(self).field_visibility@,
            final(self).events@ == old(self).events@,
    {
        self.adding = true;
        self.adding_parent = Some(parent);
        self.editing = None;
        self.active_field = 0;
        self.values = empty_values(self.required_fields.len());
    }

    /// Starts editing row `row_id` from its `values`, one per field, at the first field.
    pub fn begin_edit(&mut self, row_id: u64, values: Vec<String>)
        requires
            old(self).wf(),
            values@.len() == old(self).required_fields@.len(),
        ensures
            final(self).wf(),
            !final(self).adding,
            final(self).adding_parent.is_none(),
            final(self).editing == Some(row_id),
            final(self).active_field == 0,
            final(self).values@ == values@,
            final(self).required_fields@ == old(self).required_fields@,
            final(self).field_visibility@ == old(self).field_visibility@,
            final(self).events@ == old(self).events@,
    {
        self.adding = false;
        self.adding_parent = None;
        self.editing = Some(row_id);
        self.active_field = 0;
        self.values = values;
    }

    /// Sets what field `index` holds.
    pub fn set_value(&mut self, index: usize, value: String)
        requires
            old(self).wf(),
            index < old(self).values@.len(),
        ensures
            final(self).wf(),
            final(self).values@ == old(self).values@.update(index as int, value),
            *final(self) == (ListControlEditor { values: final(self).values, ..*old(self) }),
    {
        self.values.set(index, value);
    }

    fn finish_editor(&mut self)
        requires
            old(self).wf(),
        ensures
            final(self).wf(),
            !final(self).adding,
            final(self).adding_parent.is_none(),
            final(self).editing.is_none(),
            final(self).active_field == 0,
            all_empty(final(self).values@),
            final(self).required_fields@ == old(self).required_fields@,
            final(self).field_visibility@ == old(self).field_visibility@,
            final(self).events@ == old(self).events@,
    {
        self.adding = false;
        self.adding_parent = None;
        self.editing = None;
        self.active_field = 0;
        self.values = empty_values(self.required_fields.len());
    }

    /// Abandons the form, reporting a canceled addition or edit, and empties it.
    pub fn cancel_editor(&mut self)
        requires
            old(self).wf(),
        ensures
            final(self).wf(),
            !final(self).adding,
            final(self).editing.is_none(),
            final(self).active_field == 0,
            all_empty(final(self).values@),
            final(self).required_fields@ == old(self).required_fields@,
            final(self).events@ == (if old(self).adding {
                old(self).events@.push(ListControlEvent::AddCancelled)
            } else {
                match old(self).editing {
                    Some(id) => old(self).events@.push(ListControlEvent::EditCancelled { row_id: id }),
                    None => old(self).events@,
                }
            }),
    {
        if self.adding {
            self.events.push(ListControlEvent::AddCancelled);
        } else {
            match self.editing {
                Some(id) => self.events.push(ListControlEvent::EditCancelled { row_id: id }),
                None => {},
            }
        }
        self.finish_editor();
    }

    /// Whether the form may be submitted: no required field is empty.
    pub fn can_submit(&self) -> (r: bool)
        requires
            self.wf(),
        ensures
            r == !missing_required(self.required_fields@, self.values@),
    {
        let mut i: usize = 0;
        while i < self.required_fields.len()
            invariant
                self.wf(),
                i <= self.required_fields@.len(),
                forall|k: int| 0 <= k < i ==> !(#[trigger] self.required_fields@[k] && self.values@[k]@.len() == 0),
            decreases self.required_fields@.len() - i,
        {
            if self.required_fields[i] && self.values[i].as_str().unicode_len() == 0 {
                return false;
            }
            i += 1;
        }
        true
    }

    /// Moves past the current field: not while it is required and empty; past the last field
    /// the form is to be submitted; otherwise on to the next field.
    pub fn advance_field(&mut self) -> (r: EditorStep)
        requires
            old(self).wf(),
        ensures
            final(self).wf(),
            ({
                let a = old(self).active_field as int;
                if old(self).required_fields@[a] && old(self).values@[a]@.len() == 0 {
                    r == EditorStep::Blocked && *final(self) == *old(self)
                } else if a + 1 == old(self).required_fields@.len() {
                    r == EditorStep::Submit && *final(self) == *old(self)
                } else {
                    r == EditorStep::Next((a + 1) as usize)
                        && *final(self) == (ListControlEditor { active_field: (a + 1) as usize, ..*old(self) })
                }
            }),
    {
        let a = self.active_field;
        let n = self.required_fields.len();
        if self.required_fields[a] && self.values[a].as_str().unicode_len() == 0 {
            return EditorStep::Blocked;
        }
        if a + 1 == n {
            return EditorStep::Submit;
        }
        self.active_field = a + 1;
        EditorStep::Next(a + 1)
    }

    /// Reports an added row (a child of `parent` in a tree) and empties the form.
    pub fn finish_add(&mut self, row_id: u64, parent: Option<u64>)
        requires
            old(self).wf(),
        ensures
            final(self).wf(),
            !final(self).adding,
            final(self).editing.is_none(),
            all_empty(final(self).values@),
            final(self).events@ == old(self).events@.push(match parent {
                Some(p) => ListControlEvent::AddedChild { row_id, parent_id: p },
                None => ListControlEvent::Added { row_id },
            }),
    {
        match parent {
            Some(p) => self.events.push(ListControlEvent::AddedChild { row_id, parent_id: p }),
            None => self.events.push(ListControlEvent::Added { row_id }),
        }
        self.finish_editor();
    }

    /// Reports an edited row, or a canceled edit when the row was gone, and empties the form.
    pub fn finish_edit(&mut self, row_id: u64, updated: bool)
        requires
            old(self).wf(),
        ensures
            final(self).wf(),
            !final(self).adding,
            final(self).editing.is_none(),
            all_empty(final(self).values@),
            final(self).events@ == old(self).events@.push(if updated {
                ListControlEvent::Edited { row_id }
            } else {
                ListControlEvent::EditCancelled { row_id }
            }),
    {
        if updated {
            self.events.push(ListControlEvent::Edited { row_id });
        } else {
            self.events.push(ListControlEvent::EditCancelled { row_id });
        }
        self.finish_editor();
    }
}

// ---------------------------------------------------------------------------------------------
// Layout
// ---------------------------------------------------------------------------------------------

/// Where the parts of a list control go: the rows, the input row of the add and edit form, and
/// the confirmation dialog with the bounds it is centred in.
#[derive(Debug, Clone, Copy, PartialEq, Eq, Structural)]
pub struct ListControlAreas {
    pub data: Rect,
    pub input: Rect,
    pub dialog_bounds: Rect,
    pub dialog: Rect,
}

/// The height of the input row: the row height, at most the inner height, while a row is being
/// added or edited; none otherwise.
pub open spec fn spec_input_height(inner: Rect, editor_active: bool, row_height: u16) -> int {
    if editor_active { min_int(row_height as int, inner.height as int) } else { 0 }
}

/// The input row at the bottom of `inner`, `height` rows high.
pub open spec fn spec_input_row(inner: Rect, height: int) -> Rect {
    Rect::spec_new(inner.x, sat_sub(inner.spec_bottom(), height) as u16, inner.width, height as u16)
}

/// The leftmost start and rightmost end of the non-empty columns among the first `n`.
pub open spec fn column_span(columns: Seq<Rect>, n: int) -> Option<(int, int)>
    decreases n,
{
    if n <= 0 || n > columns.len() {
        None
    } else {
        let c = columns[n - 1];
        let before = column_span(columns, n - 1);
        if c.spec_is_empty() {
            before
        } else {
            match before {
                None => Some((c.x as int, c.spec_right())),
                Some((l, r)) => Some((min_int(l, c.x as int), if c.spec_right() > r { c.spec_right() } else { r })),
            }
        }
    }
}

/// The input row widened or narrowed to span the visible columns, from the leftmost start to
/// the rightmost end of the non-empty ones; the row itself when none is.
pub open spec fn spec_full_row_input(row: Rect, columns: Seq<Rect>) -> Rect {
    match column_span(columns, columns.len() as int) {
        None => row,
        Some((l, r)) => Rect::spec_new(l as u16, row.y, sat_sub(r, l) as u16, row.height),
    }
}

/// The bounds the confirmation dialog is centred in: the overlay bounds, or the control's own
/// area when they are empty.
pub open spec fn spec_dialog_bounds(area: Rect, overlay_bounds: Rect) -> Rect {
    if overlay_bounds.spec_is_empty() { area } else { overlay_bounds }
}

/// The dialog's preferred size, at most the bounds, centred in them (rounding up and left).
pub open spec fn spec_dialog_area(bounds: Rect, preferred: LayoutSize) -> Rect {
    let w = min_int(preferred.width as int, bounds.width as int);
    let h = min_int(preferred.height as int, bounds.height as int);
    Rect::spec_new((bounds.x + (bounds.width - w) / 2) as u16, (bounds.y + (bounds.height - h) / 2) as u16, w as u16, h as u16)
}

/// Whether centring a dialog of `preferred` size in `bounds` stays within `u16`.
pub open spec fn dialog_fits(bounds: Rect, preferred: LayoutSize) -> bool {
    let w = min_int(preferred.width as int, bounds.width as int);
    let h = min_int(preferred.height as int, bounds.height as int);
    bounds.x + (bounds.width - w) / 2 <= u16::MAX && bounds.y + (bounds.height - h) / 2 <= u16::MAX
}

fn column_span_of(columns: &Vec<Rect>) -> (r: Option<(u16, u16)>)
    ensures
        match column_span(columns@, columns@.len() as int) {
            None => r is None,
            Some((l, rr)) => r matches Some((a, b)) && a == l && b == rr,
        },
{
    let mut span: Option<(u16, u16)> = None;
    let mut i: usize = 0;
    while i < columns.len()
        invariant
            i <= columns@.len(),
            match column_span(columns@, i as int) {
                None => span is None,
                Some((l, rr)) => span matches Some((a, b)) && a == l && b == rr,
            },
        decreases columns@.len() - i,
    {
        let c = columns[i];
        if !c.is_empty() {
            let right = c.right();
            span = match span {
                None => Some((c.x, right)),
                Some((l, r)) => Some((if c.x < l { c.x } else { l }, if right > r { right } else { r })),
            };
        }
        i += 1;
    }
    span
}

/// Lays out a list control in `area`, whose inside (within the panel's border when the panel
/// shows) is `inner`: the rows fill the inside above the input row; while a row is being added
/// or edited the input row takes the bottom `row_height` rows (at most the inside's height),
/// spanning the visible `columns` (`spec_full_row_input`), and is empty otherwise; a
/// confirmation dialog of `dialog_preferred` size is centred in the overlay bounds (the area
/// when they are empty), and both are empty when no dialog shows.
pub fn list_control_areas(
    area: Rect,
    inner: Rect,
    overlay_bounds: Rect,
    editor_active: bool,
    row_height: u16,
    columns: &Vec<Rect>,
    dialog_preferred: Option<LayoutSize>,
) -> (r: ListControlAreas)
    requires
        dialog_preferred matches Some(p) ==> dialog_fits(spec_dialog_bounds(area, overlay_bounds), p),
    ensures
        ({
            let h = spec_input_height(inner, editor_active, row_height);
            &&& r.data == Rect::spec_new(inner.x, inner.y, inner.width, (inner.height - h) as u16)
            &&& r.input == (if editor_active {
                spec_full_row_input(spec_input_row(inner, h), columns@)
            } else {
                Rect { x: 0, y: 0, width: 0, height: 0 }
            })
        }),
        match dialog_preferred {
            Some(p) => r.dialog_bounds == spec_dialog_bounds(area, overlay_bounds)
                && r.dialog == spec_dialog_area(r.dialog_bounds, p),
            None => r.dialog_bounds == (Rect { x: 0, y: 0, width: 0, height: 0 })
                && r.dialog == (Rect { x: 0, y: 0, width: 0, height: 0 }),
        },
{
    let h: u16 = if editor_active { if row_height < inner.height { row_height } else { inner.height } } else { 0 };
    let data = Rect::new(inner.x, inner.y, inner.width, inner.height - h);
    let input = if editor_active {
        let row = Rect::new(inner.x, inner.bottom().saturating_sub(h), inner.width, h);
        match column_span_of(columns) {
            None => row,
            Some((l, right)) => Rect::new(l, row.y, right.saturating_sub(l), row.height),
        }
    } else {
        Rect::zero()
    };
    let (dialog_bounds, dialog) = match dialog_preferred {
        None => (Rect::zero(), Rect::zero()),
        Some(p) => {
            let bounds = if overlay_bounds.is_empty() { area } else { overlay_bounds };
            let w = if p.width < bounds.width { p.width } else { bounds.width };
            let dh = if p.height < bounds.height { p.height } else { bounds.height };
            let dialog = Rect::new(bounds.x + (bounds.width - w) / 2, bounds.y + (bounds.height - dh) / 2, w, dh);
            (bounds, dialog)
        },
    };
    ListControlAreas { data, input, dialog_bounds, dialog }
}

// ---------------------------------------------------------------------------------------------
// Routing events
// ---------------------------------------------------------------------------------------------

/// Where an event is addressed within a list control.
#[derive(Debug, Clone, Copy, PartialEq, Eq, Structural)]
pub enum ListControlTarget {
    /// The control itself.
    Control,
    /// The input of the field being edited.
    ActiveInput,
    /// The rows: the data view itself, or (`deeper`) a part within it.
    Data { deeper: bool },
    /// Anything else.
    Elsewhere,
}

/// A handler an event is offered to.
#[derive(Debug, Clone, Copy, PartialEq, Eq, Structural)]
pub enum ListControlRoute {
    /// The keys of a move of rows (`classify_reorder_key` and the moves' `handle_key`).
    Reorder,
    /// The confirmation dialog.
    Dialog,
    /// The control's own keys: add, remove, edit and the editor's keys.
    ControlKey,
    /// The input of the field being edited.
    Input,
    /// The data view.
    DataView,
}

/// The state of a list control that decides where an event goes.
#[derive(Debug, Clone, Copy, PartialEq, Eq, Structural)]
pub struct RoutingState {
    pub reordering: bool,
    pub dialog_open: bool,
    pub editor_active: bool,
    pub data_interaction: bool,
}

pub open spec fn route_if(cond: bool, route: ListControlRoute) -> Seq<ListControlRoute> {
    if cond { seq![route] } else { Seq::empty() }
}

/// The handlers an event is offered to, in order, until one takes it; an event none takes is
/// ignored. A key during a move of rows goes first to the move; an open confirmation dialog
/// then takes every event; while a row is being edited a key goes to the editor's keys and an
/// event for the active input to that input; an event for the rows goes to a part within them,
/// or to the data view while it is in the middle of an interaction, and otherwise (a key) to a
/// move of rows when no row is edited, then to the control's keys, and last to the data view;
/// a key for the control itself goes to a move of rows when no row is edited, then to the
/// control's keys.
pub open spec fn spec_event_routes(state: RoutingState, is_key: bool, target: ListControlTarget) -> Seq<ListControlRoute> {
    let first = route_if(is_key && state.reordering, ListControlRoute::Reorder);
    if state.dialog_open {
        first + seq![ListControlRoute::Dialog]
    } else {
        let editor_key = route_if(state.editor_active && is_key, ListControlRoute::ControlKey);
        let own_keys = route_if(!state.editor_active && is_key, ListControlRoute::Reorder)
            + route_if(is_key, ListControlRoute::ControlKey);
        let rest = if state.editor_active && target == ListControlTarget::ActiveInput {
            seq![ListControlRoute::Input]
        } else {
            match target {
                ListControlTarget::Data { deeper } => if deeper || state.data_interaction {
                    seq![ListControlRoute::DataView]
                } else {
                    own_keys + seq![ListControlRoute::DataView]
                },
                ListControlTarget::Control => own_keys,
                _ => Seq::empty(),
            }
        };
        first + editor_key + rest
    }
}

/// The handlers an event is offered to, in order (`spec_event_routes`).
pub fn event_routes(state: RoutingState, is_key: bool, target: ListControlTarget) -> (r: Vec<ListControlRoute>)
    ensures
        r@ == spec_event_routes(state, is_key, target),
{
    let mut routes: Vec<ListControlRoute> = Vec::new();
    if is_key && state.reordering {
        routes.push(ListControlRoute::Reorder);
    }
    if state.dialog_open {
        routes.push(ListControlRoute::Dialog);
        assert(routes@ =~= spec_event_routes(state, is_key, target));
        return routes;
    }
    if state.editor_active && is_key {
        routes.push(ListControlRoute::ControlKey);
    }
    let ghost before = routes@;
    if state.editor_active && target == ListControlTarget::ActiveInput {
        routes.push(ListControlRoute::Input);
    } else {
        let own = match target {
            ListControlTarget::Data { deeper } => !(deeper || state.data_interaction),
            ListControlTarget::Control => true,
            _ => false,
        };
        if own {
            if !state.editor_active && is_key {
                routes.push(ListControlRoute::Reorder);
            }
            if is_key {
                routes.push(ListControlRoute::ControlKey);
            }
        }
        if target matches ListControlTarget::Data { .. } {
            routes.push(ListControlRoute::DataView);
        }
    }
    assert(routes@ =~= spec_event_routes(state, is_key, target));
    routes
}

} // verus!
