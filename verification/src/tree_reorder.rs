//! Picking sibling rows of a tree and moving them as a block: to another place among their
//! siblings, out to their parent's level, or in under the sibling before them.
use vstd::prelude::*;
use crate::keys::{Key, KeyEvent};
use crate::list_control::{contains_u64, move_block_visual_boundary, spec_move_block_visual_boundary, ListControlEvent};
use crate::reorder::{
    lemma_push_contains, lemma_select, lemma_select_prefix, position_u64, select, select_ids, OverlayPosition, ReorderKey,
    ReorderStep,
};

verus! {

// ---------------------------------------------------------------------------------------------
// The rows of a tree
// ---------------------------------------------------------------------------------------------

/// Of the first `n` rows, those whose parent is `parent`, in order.
pub open spec fn children_upto(ids: Seq<u64>, parents: Seq<Option<u64>>, parent: Option<u64>, n: int) -> Seq<u64>
    decreases n,
{
    if n <= 0 {
        Seq::empty()
    } else {
        let before = children_upto(ids, parents, parent, n - 1);
        if parents[n - 1] == parent {
            before.push(ids[n - 1])
        } else {
            before
        }
    }
}

/// The rows of a tree as they are shown: each row with its parent (`None` for a root); the
/// children of a row come in the order they are shown.
#[derive(Debug, Clone, PartialEq, Eq)]
pub struct TreeRows {
    pub ids: Vec<u64>,
    pub parents: Vec<Option<u64>>,
}

impl TreeRows {
    pub open spec fn wf(&self) -> bool {
        &&& self.ids@.len() == self.parents@.len()
        &&& self.ids@.no_duplicates()
    }

    /// The children of `parent` (the roots for `None`), in order.
    pub open spec fn children(&self, parent: Option<u64>) -> Seq<u64> {
        children_upto(self.ids@, self.parents@, parent, self.ids@.len() as int)
    }

    /// The parent of a shown row; `None` for a row that is not shown.
    pub open spec fn parent(&self, id: u64) -> Option<Option<u64>> {
        if self.ids@.contains(id) {
            Some(self.parents@[self.ids@.index_of(id)])
        } else {
            None
        }
    }

    /// The children of `parent`, in order.
    pub fn children_of(&self, parent: Option<u64>) -> (r: Vec<u64>)
        requires
            self.wf(),
        ensures
            r@ == self.children(parent),
    {
        let mut r: Vec<u64> = Vec::new();
        let mut i: usize = 0;
        while i < self.ids.len()
            invariant
                self.wf(),
                i <= self.ids@.len(),
                r@ == children_upto(self.ids@, self.parents@, parent, i as int),
            decreases self.ids@.len() - i,
        {
            if self.parents[i] == parent {
                r.push(self.ids[i]);
            }
            i += 1;
        }
        r
    }

    /// The parent of a shown row.
    pub fn parent_of(&self, id: u64) -> (r: Option<Option<u64>>)
        requires
            self.wf(),
        ensures
            r == self.parent(id),
    {
        match position_u64(&self.ids, id) {
            Some(i) => {
                proof {
                    let k = self.ids@.index_of(id);
                    assert(self.ids@.contains(id)) by {
                        assert(self.ids@[i as int] == id);
                    }
                    assert(self.ids@[k] == id);
                    if k != i as int {
                        assert(self.ids@[k] == self.ids@[i as int]);
                    }
                }
                Some(self.parents[i])
            },
            None => None,
        }
    }

    /// The parent of a shown row and its children: the row and its siblings.
    pub fn siblings_of(&self, id: u64) -> (r: Option<(Option<u64>, Vec<u64>)>)
        requires
            self.wf(),
        ensures
            match self.parent(id) {
                Some(p) => r matches Some((q, sibs)) && q == p && sibs@ == self.children(p),
                None => r is None,
            },
    {
        match self.parent_of(id) {
            Some(p) => Some((p, self.children_of(p))),
            None => None,
        }
    }
}

/// A row is among the children of `parent` exactly when it is shown with that parent; the
/// children are distinct.
pub proof fn lemma_children(rows: TreeRows, parent: Option<u64>)
    requires
        rows.wf(),
    ensures
        forall|x: u64| #[trigger] rows.children(parent).contains(x) <==> rows.parent(x) == Some(parent),
        rows.children(parent).no_duplicates(),
{
    lemma_children_upto(rows, parent, rows.ids@.len() as int);
    assert forall|x: u64| #[trigger] rows.children(parent).contains(x) <==> rows.parent(x) == Some(parent) by {
        if rows.ids@.contains(x) {
            let k = rows.ids@.index_of(x);
            assert(rows.ids@[k] == x);
            assert forall|j: int| 0 <= j < rows.ids@.len() && rows.ids@[j] == x implies j == k by {
                if j != k {
                    assert(rows.ids@[j] == rows.ids@[k]);
                }
            }
        }
    }
}

proof fn lemma_children_upto(rows: TreeRows, parent: Option<u64>, n: int)
    requires
        rows.wf(),
        0 <= n <= rows.ids@.len(),
    ensures
        forall|x: u64| #[trigger] children_upto(rows.ids@, rows.parents@, parent, n).contains(x) <==> exists|j: int|
            0 <= j < n && rows.ids@[j] == x && rows.parents@[j] == parent,
        children_upto(rows.ids@, rows.parents@, parent, n).no_duplicates(),
    decreases n,
{
    if n > 0 {
        lemma_children_upto(rows, parent, n - 1);
        let before = children_upto(rows.ids@, rows.parents@, parent, n - 1);
        lemma_push_contains(before, rows.ids@[n - 1]);
        assert forall|x: u64| #[trigger] children_upto(rows.ids@, rows.parents@, parent, n).contains(x) <==> exists|j: int|
            0 <= j < n && rows.ids@[j] == x && rows.parents@[j] == parent by {
            if exists|j: int| 0 <= j < n && rows.ids@[j] == x && rows.parents@[j] == parent {
                let j = choose|j: int| 0 <= j < n && rows.ids@[j] == x && rows.parents@[j] == parent;
                if j < n - 1 {
                    assert(before.contains(x));
                }
            }
        }
        if rows.parents@[n - 1] == parent {
            let r = before.push(rows.ids@[n - 1]);
            assert(!before.contains(rows.ids@[n - 1])) by {
                if before.contains(rows.ids@[n - 1]) {
                    let j = choose|j: int| 0 <= j < n - 1 && rows.ids@[j] == rows.ids@[n - 1] && rows.parents@[j] == parent;
                    assert(rows.ids@[j] == rows.ids@[n - 1]);
                }
            }
            assert forall|i: int, j: int| 0 <= i < j < r.len() implies r[i] != r[j] by {
                if j == r.len() - 1 {
                    assert(before.contains(before[i]));
                }
            }
        }
    }
}

// ---------------------------------------------------------------------------------------------
// Picking sibling rows
// ---------------------------------------------------------------------------------------------

/// Rows picked among siblings of a tree: which, the row the picking last started from, and
/// whether they were picked as a range.
#[derive(Debug, Clone, PartialEq, Eq)]
pub struct TreeSelection {
    pub selected: Vec<u64>,
    pub anchor: Option<u64>,
    pub range_mode: bool,
}

/// The parts of a selection: picked rows, anchor, range mode.
pub open spec fn selection_parts(s: TreeSelection) -> (Seq<u64>, Option<u64>, bool) {
    (s.selected@, s.anchor, s.range_mode)
}

/// `picked` in sibling order: rows that are not among `siblings` first, in their order, then
/// the others in the siblings' order.
pub open spec fn sibling_sorted(picked: Seq<u64>, siblings: Seq<u64>) -> Seq<u64> {
    select(picked, siblings, false) + select(siblings, picked, true)
}

/// Sorting distinct picked rows into sibling order keeps them distinct and keeps which rows
/// they are.
pub proof fn lemma_sibling_sorted(picked: Seq<u64>, siblings: Seq<u64>)
    requires
        picked.no_duplicates(),
        siblings.no_duplicates(),
    ensures
        sibling_sorted(picked, siblings).no_duplicates(),
        forall|x: u64| #[trigger] sibling_sorted(picked, siblings).contains(x) <==> picked.contains(x),
        sibling_sorted(picked, siblings).len() == 0 <==> picked.len() == 0,
{
    let a = select(picked, siblings, false);
    let b = select(siblings, picked, true);
    lemma_select(picked, siblings, false);
    lemma_select(siblings, picked, true);
    assert forall|i: int, j: int| 0 <= i < a.len() && 0 <= j < b.len() implies a[i] != b[j] by {
        assert(a.contains(a[i]));
        assert(b.contains(b[j]));
    }
    vstd::seq_lib::lemma_no_dup_in_concat(a, b);
    assert forall|x: u64| #[trigger] (a + b).contains(x) <==> (a.contains(x) || b.contains(x)) by {
        if (a + b).contains(x) {
            let k = choose|k: int| 0 <= k < (a + b).len() && (a + b)[k] == x;
            if k < a.len() {
                assert(a[k] == x);
            } else {
                assert(b[k - a.len()] == x);
            }
        }
        if a.contains(x) {
            let k = choose|k: int| 0 <= k < a.len() && a[k] == x;
            assert((a + b)[k] == x);
        }
        if b.contains(x) {
            let k = choose|k: int| 0 <= k < b.len() && b[k] == x;
            assert((a + b)[a.len() + k] == x);
        }
    }
    if picked.len() > 0 {
        assert(picked.contains(picked[0]));
        assert((a + b).contains(picked[0]));
    } else if (a + b).len() > 0 {
        assert((a + b).contains((a + b)[0]));
    }
}

/// `picked` in sibling order.
pub fn sort_by_siblings(picked: &Vec<u64>, siblings: &Vec<u64>) -> (r: Vec<u64>)
    ensures
        r@ == sibling_sorted(picked@, siblings@),
{
    let mut r = select_ids(picked, siblings, false);
    let rest = select_ids(siblings, picked, true);
    let ghost start = r@;
    let mut i: usize = 0;
    while i < rest.len()
        invariant
            i <= rest@.len(),
            r@ == start + rest@.take(i as int),
        decreases rest@.len() - i,
    {
        r.push(rest[i]);
        assert(rest@.take(i as int + 1) =~= rest@.take(i as int).push(rest@[i as int]));
        i += 1;
    }
    assert(rest@.take(i as int) =~= rest@);
    r
}

/// What extending the picking from `current` one sibling forward or back does: `None` when the
/// row is not shown; else the new picking and the sibling the highlight moves to. A picking in
/// the other mode, or of other siblings, starts over. A range runs from its anchor (the
/// current row when there is none) to the new sibling; otherwise the picking starts with the
/// current row, which becomes the anchor.
pub open spec fn extension(selection: Option<TreeSelection>, rows: TreeRows, current: u64, forward: bool, range: bool)
    -> Option<((Seq<u64>, Option<u64>, bool), u64)> {
    match rows.parent(current) {
        None => None,
        Some(p) => {
            let sibs = rows.children(p);
            let ci = sibs.index_of(current);
            let last = sibs.len() - 1;
            let di = if forward {
                if ci + 1 <= last { ci + 1 } else { last }
            } else {
                if ci >= 1 { ci - 1 } else { 0 }
            };
            let kept = selection matches Some(s) && s.range_mode == range;
            let picked0 = if kept { selection->0.selected@ } else { Seq::<u64>::empty() };
            let anchor0 = if kept { selection->0.anchor } else { None };
            let same_parent = picked0.len() > 0 && rows.parent(picked0[0]) == Some(p);
            let picked1 = if same_parent { picked0 } else { Seq::<u64>::empty() };
            let anchor1 = if same_parent { anchor0 } else { None };
            let a = match anchor1 {
                Some(a) => a,
                None => current,
            };
            let ai = if sibs.contains(a) { sibs.index_of(a) } else { ci };
            let lo = if ai <= di { ai } else { di };
            let hi = if ai <= di { di } else { ai };
            let picked2 = if range {
                sibs.subrange(lo, hi + 1)
            } else if picked1.len() == 0 {
                seq![current]
            } else {
                picked1
            };
            let anchor2 = if range { Some(a) } else { Some(current) };
            Some(((sibling_sorted(picked2, sibs), anchor2, range), sibs[di]))
        },
    }
}

/// A picking without repeated rows.
pub open spec fn selection_wf(selection: Option<TreeSelection>) -> bool {
    selection matches Some(s) ==> s.selected@.no_duplicates()
}

/// Extends the picking from `current` one sibling forward or back; gives the new picking and
/// the sibling to highlight (nothing when the row is not shown).
pub fn extend_tree_selection(selection: Option<TreeSelection>, rows: &TreeRows, current: u64, forward: bool, range: bool)
    -> (r: (Option<TreeSelection>, Option<u64>))
    requires
        rows.wf(),
        selection_wf(selection),
    ensures
        selection_wf(r.0),
        match extension(selection, *rows, current, forward, range) {
            None => r.0 == selection && r.1 is None,
            Some((parts, dest)) => r.0 matches Some(s) && selection_parts(s) == parts && r.1 == Some(dest),
        },
{
    let (p, sibs) = match rows.siblings_of(current) {
        Some(found) => found,
        None => {
            return (selection, None);
        },
    };
    proof {
        lemma_children(*rows, p);
        assert(sibs@.contains(current));
    }
    let ci = match position_u64(&sibs, current) {
        Some(i) => i,
        None => 0,
    };
    proof {
        let k = sibs@.index_of(current);
        assert(sibs@[k] == current);
        if k != ci as int {
            assert(sibs@[k] == sibs@[ci as int]);
        }
    }
    let last = sibs.len() - 1;
    let di = if forward {
        if ci < last { ci + 1 } else { last }
    } else {
        if ci >= 1 { ci - 1 } else { 0 }
    };
    let destination = sibs[di];
    let kept = match &selection {
        Some(s) => s.range_mode == range,
        None => false,
    };
    let (picked0, anchor0) = if kept {
        match selection {
            Some(s) => (s.selected, s.anchor),
            None => (Vec::new(), None),
        }
    } else {
        (Vec::new(), None)
    };
    let same_parent = if picked0.len() > 0 {
        match rows.parent_of(picked0[0]) {
            Some(q) => q == p,
            None => false,
        }
    } else {
        false
    };
    let (picked1, anchor1) = if same_parent { (picked0, anchor0) } else { (Vec::new(), None) };
    let a = match anchor1 {
        Some(a) => a,
        None => current,
    };
    let ai = match position_u64(&sibs, a) {
        Some(i) => i,
        None => ci,
    };
    proof {
        if sibs@.contains(a) {
            let k = sibs@.index_of(a);
            assert(sibs@[k] == a);
            if k != ai as int {
                assert(sibs@[k] == sibs@[ai as int]);
            }
        }
    }
    let picked2: Vec<u64> = if range {
        let lo = if ai <= di { ai } else { di };
        let hi = if ai <= di { di } else { ai };
        let mut v: Vec<u64> = Vec::new();
        let mut k: usize = lo;
        while k <= hi
            invariant
                lo <= k <= hi + 1,
                hi < sibs.len(),
                v@ == sibs@.subrange(lo as int, k as int),
            decreases hi + 1 - k,
        {
            v.push(sibs[k]);
            assert(sibs@.subrange(lo as int, k as int + 1) =~= sibs@.subrange(lo as int, k as int).push(sibs@[k as int]));
            k += 1;
        }
        v
    } else if picked1.len() == 0 {
        let mut v: Vec<u64> = Vec::new();
        v.push(current);
        assert(v@ =~= seq![current]);
        v
    } else {
        picked1
    };
    let anchor2 = if range { Some(a) } else { Some(current) };
    proof {
        assert(picked2@.no_duplicates()) by {
            if range {
                let lo = if ai <= di { ai } else { di };
                assert forall|i: int, j: int| 0 <= i < j < picked2@.len() implies picked2@[i] != picked2@[j] by {
                    assert(picked2@[i] == sibs@[lo + i]);
                    assert(picked2@[j] == sibs@[lo + j]);
                }
            }
        }
        lemma_sibling_sorted(picked2@, sibs@);
    }
    let sorted = sort_by_siblings(&picked2, &sibs);
    (Some(TreeSelection { selected: sorted, anchor: anchor2, range_mode: range }), Some(destination))
}

/// What toggling the highlighted row `current` does: `None` when the row is not shown; else
/// the new picking, which is gone once it holds no rows. Rows of another parent are dropped
/// first; the current row becomes the anchor and the picking leaves range mode.
pub open spec fn toggling(selection: Option<TreeSelection>, rows: TreeRows, current: u64)
    -> Option<Option<(Seq<u64>, Option<u64>, bool)>> {
    match rows.parent(current) {
        None => None,
        Some(p) => {
            let sibs = rows.children(p);
            let picked0 = match selection {
                Some(s) => s.selected@,
                None => Seq::<u64>::empty(),
            };
            let same_parent = picked0.len() > 0 && rows.parent(picked0[0]) == Some(p);
            let picked1 = if same_parent { picked0 } else { Seq::<u64>::empty() };
            let picked2 = if picked1.contains(current) {
                picked1.remove(picked1.index_of(current))
            } else {
                picked1.push(current)
            };
            let sorted = sibling_sorted(picked2, sibs);
            Some(if sorted.len() == 0 { None } else { Some((sorted, Some(current), false)) })
        },
    }
}

/// Toggles the highlighted row `current` in the picking.
pub fn toggle_tree_selection(selection: Option<TreeSelection>, rows: &TreeRows, current: u64) -> (r: Option<TreeSelection>)
    requires
        rows.wf(),
        selection_wf(selection),
    ensures
        selection_wf(r),
        match toggling(selection, *rows, current) {
            None => r == selection,
            Some(None) => r is None,
            Some(Some(parts)) => r matches Some(s) && selection_parts(s) == parts,
        },
{
    let (p, sibs) = match rows.siblings_of(current) {
        Some(found) => found,
        None => {
            return selection;
        },
    };
    proof {
        lemma_children(*rows, p);
    }
    let picked0: Vec<u64> = match selection {
        Some(s) => s.selected,
        None => Vec::new(),
    };
    let same_parent = if picked0.len() > 0 {
        match rows.parent_of(picked0[0]) {
            Some(q) => q == p,
            None => false,
        }
    } else {
        false
    };
    let mut picked1: Vec<u64> = if same_parent { picked0 } else { Vec::new() };
    let ghost before = picked1@;
    match position_u64(&picked1, current) {
        Some(i) => {
            proof {
                assert(before.contains(current)) by {
                    assert(before[i as int] == current);
                }
                let k = before.index_of(current);
                assert(before[k] == current);
                if k != i as int {
                    assert(before[k] == before[i as int]);
                }
            }
            picked1.remove(i);
            proof {
                assert forall|a: int, b: int| 0 <= a < b < picked1@.len() implies picked1@[a] != picked1@[b] by {
                    let sa = if a < i { a } else { a + 1 };
                    let sb = if b < i { b } else { b + 1 };
                    assert(picked1@[a] == before[sa]);
                    assert(picked1@[b] == before[sb]);
                }
            }
        },
        None => {
            picked1.push(current);
            proof {
                assert forall|a: int, b: int| 0 <= a < b < picked1@.len() implies picked1@[a] != picked1@[b] by {
                    if b == picked1@.len() - 1 {
                        assert(before.contains(before[a]));
                    }
                }
            }
        },
    }
    proof {
        lemma_sibling_sorted(picked1@, sibs@);
    }
    let sorted = sort_by_siblings(&picked1, &sibs);
    if sorted.len() == 0 {
        None
    } else {
        Some(TreeSelection { selected: sorted, anchor: Some(current), range_mode: false })
    }
}

// ---------------------------------------------------------------------------------------------
// Moving picked siblings as a block
// ---------------------------------------------------------------------------------------------

/// Where a block move of the picked siblings is drawn from: the row next to which its
/// placeholder first shows. For a range it is the highlighted row; otherwise the anchor, or
/// the last picked sibling when there is no anchor.
pub open spec fn block_placement(selection: TreeSelection, highlighted: Option<u64>, picked: Seq<u64>) -> u64 {
    if selection.range_mode {
        highlighted->0
    } else {
        match selection.anchor {
            Some(a) => a,
            None => picked.last(),
        }
    }
}

/// How many of the first `visual` of `siblings` are not being moved.
pub open spec fn staying_before(siblings: Seq<u64>, selected: Seq<u64>, visual: int) -> int {
    let v = if visual <= siblings.len() { visual } else { siblings.len() as int };
    select(siblings.take(v), selected, false).len() as int
}

/// A block of picked sibling rows being moved: from among the children of `source_parent_id`
/// to place `sibling_index` among the staying children of `parent_id`. `visual_sibling_index`,
/// when known, is the same place as a boundary among all the source parent's children.
#[derive(Debug, Clone, PartialEq, Eq)]
pub struct TreeBlockMove {
    pub source_parent_id: Option<u64>,
    pub parent_id: Option<u64>,
    pub selected: Vec<u64>,
    pub sibling_index: usize,
    pub visual_sibling_index: Option<usize>,
    pub pending_g: bool,
}

impl TreeBlockMove {
    /// The children of the target parent that stay: the block goes between them.
    pub open spec fn targets(&self, rows: TreeRows) -> Seq<u64> {
        select(rows.children(self.parent_id), self.selected@, false)
    }

    pub open spec fn wf(&self) -> bool {
        &&& self.selected@.no_duplicates()
        &&& self.selected@.len() >= 2
    }

    /// The block's place as a boundary among the source parent's children (see
    /// `visual_target`).
    pub open spec fn spec_visual_target(&self, rows: TreeRows) -> int {
        match self.visual_sibling_index {
            Some(v) => v as int,
            None => {
                let targets = self.targets(rows);
                let siblings = rows.children(self.source_parent_id);
                if self.sibling_index < targets.len() && siblings.contains(targets[self.sibling_index as int]) {
                    siblings.index_of(targets[self.sibling_index as int])
                } else {
                    siblings.len() as int
                }
            },
        }
    }

    /// Where a line move puts the block: among its own siblings it moves on screen, over one
    /// staying sibling or over the whole run of its own rows next to it; under another parent it
    /// moves one staying child.
    pub open spec fn after_line_move(&self, rows: TreeRows, forward: bool) -> (int, Option<usize>) {
        if self.parent_id != self.source_parent_id {
            let n = self.targets(rows).len() as int;
            let t = self.sibling_index as int;
            let moved = if forward {
                if t + 1 <= usize::MAX { t + 1 } else { usize::MAX as int }
            } else {
                if t >= 1 { t - 1 } else { 0 }
            };
            (if moved <= n { moved } else { n }, self.visual_sibling_index)
        } else {
            let siblings = rows.children(self.source_parent_id);
            let v = spec_move_block_visual_boundary(
                siblings,
                self.selected@,
                self.spec_visual_target(rows) as usize,
                if forward { 1int } else { -1int },
            );
            (staying_before(siblings, self.selected@, v), Some(v as usize))
        }
    }

    /// Starts moving the picked siblings: those children of the first picked row's parent
    /// that are picked, when they are at least two and are all the picked rows. The block is
    /// drawn before its placement row when that row is the block's first, after it otherwise.
    pub fn begin(rows: &TreeRows, selection: &TreeSelection, highlighted: Option<u64>) -> (r: Option<(TreeBlockMove, OverlayPosition)>)
        requires
            rows.wf(),
            ({
                let sel = selection.selected@;
                (sel.len() > 0 && rows.parent(sel[0]) is Some) ==> ({
                    let p = rows.parent(sel[0])->0;
                    let picked = select(rows.children(p), sel, true);
                    (picked.len() >= 2 && picked.len() == sel.len()) ==> {
                        &&& selection.range_mode ==> highlighted is Some
                        &&& rows.children(p).contains(block_placement(*selection, highlighted, picked))
                    }
                })
            }),
        ensures
            ({
                let sel = selection.selected@;
                if sel.len() > 0 && rows.parent(sel[0]) is Some {
                    let p = rows.parent(sel[0])->0;
                    let siblings = rows.children(p);
                    let picked = select(siblings, sel, true);
                    if picked.len() >= 2 && picked.len() == sel.len() {
                        let placement = block_placement(*selection, highlighted, picked);
                        let first = picked[0] == placement;
                        let visual = siblings.index_of(placement) + if first { 0int } else { 1int };
                        r matches Some((m, overlay)) && {
                            &&& m.wf()
                            &&& m.source_parent_id == p
                            &&& m.parent_id == p
                            &&& m.selected@ == picked
                            &&& m.visual_sibling_index == Some(visual as usize)
                            &&& m.sibling_index == staying_before(siblings, picked, visual)
                            &&& !m.pending_g
                            &&& overlay == if first { OverlayPosition::Before(placement) } else { OverlayPosition::After(placement) }
                        }
                    } else {
                        r is None
                    }
                } else {
                    r is None
                }
            }),
    {
        if selection.selected.len() == 0 {
            return None;
        }
        let (p, siblings) = match rows.siblings_of(selection.selected[0]) {
            Some(found) => found,
            None => {
                return None;
            },
        };
        proof {
            lemma_children(*rows, p);
        }
        let picked = select_ids(&siblings, &selection.selected, true);
        if picked.len() < 2 || picked.len() != selection.selected.len() {
            return None;
        }
        let placement = if selection.range_mode {
            match highlighted {
                Some(h) => h,
                None => {
                    return None;
                },
            }
        } else {
            match selection.anchor {
                Some(a) => a,
                None => picked[picked.len() - 1],
            }
        };
        let placement_index = match position_u64(&siblings, placement) {
            Some(i) => i,
            None => {
                return None;
            },
        };
        proof {
            let k = siblings@.index_of(placement);
            assert(siblings@[k] == placement);
            if k != placement_index as int {
                assert(siblings@[k] == siblings@[placement_index as int]);
            }
        }
        let first = picked[0] == placement;
        assert(placement_index < siblings.len());
        let visual = if first { placement_index } else { placement_index + 1 };
        let sibling_index = count_staying(&siblings, &picked, visual);
        let overlay = if first { OverlayPosition::Before(placement) } else { OverlayPosition::After(placement) };
        proof {
            lemma_select(siblings@, selection.selected@, true);
        }
        let m = TreeBlockMove {
            source_parent_id: p,
            parent_id: p,
            selected: picked,
            sibling_index,
            visual_sibling_index: Some(visual),
            pending_g: false,
        };
        Some((m, overlay))
    }

    /// The children of the target parent that stay.
    pub fn targets_of(&self, rows: &TreeRows) -> (r: Vec<u64>)
        requires
            rows.wf(),
        ensures
            r@ == self.targets(*rows),
    {
        let children = rows.children_of(self.parent_id);
        select_ids(&children, &self.selected, false)
    }

    /// The block's place as a boundary among the source parent's children: the one last set by
    /// a line move, else the place of the staying child the block goes before (the end when it
    /// goes last).
    pub fn visual_target(&self, rows: &TreeRows) -> (r: usize)
        requires
            rows.wf(),
        ensures
            r as int == self.spec_visual_target(*rows),
    {
        match self.visual_sibling_index {
            Some(v) => v,
            None => {
                let targets = self.targets_of(rows);
                let siblings = rows.children_of(self.source_parent_id);
                proof {
                    lemma_children(*rows, self.source_parent_id);
                }
                if self.sibling_index < targets.len() {
                    let id = targets[self.sibling_index];
                    match position_u64(&siblings, id) {
                        Some(i) => {
                            proof {
                                assert(siblings@.contains(id)) by {
                                    assert(siblings@[i as int] == id);
                                }
                                let k = siblings@.index_of(id);
                                assert(siblings@[k] == id);
                                if k != i as int {
                                    assert(siblings@[k] == siblings@[i as int]);
                                }
                            }
                            i
                        },
                        None => siblings.len(),
                    }
                } else {
                    siblings.len()
                }
            },
        }
    }

    /// Puts the block before staying child `sibling_index` (after the last one at most).
    pub fn set_target(&mut self, rows: &TreeRows, sibling_index: usize)
        requires
            rows.wf(),
            old(self).wf(),
        ensures
            final(self).wf(),
            final(self).sibling_index == if sibling_index <= old(self).targets(*rows).len() {
                sibling_index as int
            } else {
                old(self).targets(*rows).len() as int
            },
            final(self).visual_sibling_index is None,
            final(self).source_parent_id == old(self).source_parent_id,
            final(self).parent_id == old(self).parent_id,
            final(self).selected == old(self).selected,
            final(self).pending_g == old(self).pending_g,
    {
        let targets = self.targets_of(rows);
        self.sibling_index = if sibling_index < targets.len() { sibling_index } else { targets.len() };
        self.visual_sibling_index = None;
    }

    /// Moves the block's place `count` staying children forward or back, as far as the ends
    /// allow.
    pub fn move_target(&mut self, rows: &TreeRows, forward: bool, count: usize)
        requires
            rows.wf(),
            old(self).wf(),
        ensures
            final(self).wf(),
            final(self).sibling_index == ({
                let n = old(self).targets(*rows).len() as int;
                let t = old(self).sibling_index as int;
                let moved = if forward {
                    if t + count <= usize::MAX { t + count } else { usize::MAX as int }
                } else {
                    if t >= count { t - count } else { 0 }
                };
                if moved <= n { moved } else { n }
            }),
            final(self).visual_sibling_index is None,
            final(self).source_parent_id == old(self).source_parent_id,
            final(self).parent_id == old(self).parent_id,
            final(self).selected == old(self).selected,
            final(self).pending_g == old(self).pending_g,
    {
        let target = if forward { self.sibling_index.saturating_add(count) } else { self.sibling_index.saturating_sub(count) };
        self.set_target(rows, target);
    }

    /// Moves the block one row forward or back. Among its own siblings it moves on screen:
    /// over one staying sibling, or over the whole run of its own rows next to it; under
    /// another parent it moves one staying child.
    pub fn move_target_line(&mut self, rows: &TreeRows, forward: bool)
        requires
            rows.wf(),
            old(self).wf(),
        ensures
            final(self).wf(),
            (final(self).sibling_index as int, final(self).visual_sibling_index) == old(self).after_line_move(*rows, forward),
            final(self).source_parent_id == old(self).source_parent_id,
            final(self).parent_id == old(self).parent_id,
            final(self).selected == old(self).selected,
            final(self).pending_g == old(self).pending_g,
    {
        if self.parent_id != self.source_parent_id {
            let targets = self.targets_of(rows);
            let moved = if forward { self.sibling_index.saturating_add(1) } else { self.sibling_index.saturating_sub(1) };
            self.sibling_index = if moved < targets.len() { moved } else { targets.len() };
            return;
        }
        let siblings = rows.children_of(self.source_parent_id);
        let boundary = self.visual_target(rows);
        let delta: isize = if forward { 1 } else { -1 };
        let visual = move_block_visual_boundary(&siblings, &self.selected, boundary, delta);
        proof {
            crate::list_control::law_block_boundary_moves_within(siblings@, self.selected@, boundary, delta as int);
        }
        let index = count_staying(&siblings, &self.selected, visual);
        self.visual_sibling_index = Some(visual);
        self.sibling_index = index;
    }

    /// Moves the block out to its parent's level, just after the parent; nothing happens at the
    /// top level.
    pub fn outdent(&mut self, rows: &TreeRows)
        requires
            rows.wf(),
            old(self).wf(),
        ensures
            final(self).wf(),
            match old(self).parent_id {
                Some(parent) => match rows.parent(parent) {
                    Some(grandparent) => {
                        &&& final(self).parent_id == grandparent
                        &&& final(self).sibling_index == rows.children(grandparent).index_of(parent) + 1
                        &&& final(self).visual_sibling_index is None
                    },
                    None => *final(self) == *old(self),
                },
                None => *final(self) == *old(self),
            },
            final(self).source_parent_id == old(self).source_parent_id,
            final(self).selected == old(self).selected,
            final(self).pending_g == old(self).pending_g,
    {
        let parent = match self.parent_id {
            Some(parent) => parent,
            None => {
                return;
            },
        };
        let (grandparent, uncles) = match rows.siblings_of(parent) {
            Some(found) => found,
            None => {
                return;
            },
        };
        proof {
            lemma_children(*rows, grandparent);
            assert(uncles@.contains(parent));
        }
        let parent_index = match position_u64(&uncles, parent) {
            Some(i) => i,
            None => {
                return;
            },
        };
        proof {
            let k = uncles@.index_of(parent);
            assert(uncles@[k] == parent);
            if k != parent_index as int {
                assert(uncles@[k] == uncles@[parent_index as int]);
            }
        }
        assert(parent_index < uncles.len());
        self.parent_id = grandparent;
        self.sibling_index = parent_index + 1;
        self.visual_sibling_index = None;
    }

    /// Moves the block in under the staying child just before it, after that child's own
    /// children; gives that child, which is to be shown expanded. Nothing happens when the
    /// block is first.
    pub fn indent(&mut self, rows: &TreeRows) -> (r: Option<u64>)
        requires
            rows.wf(),
            old(self).wf(),
        ensures
            final(self).wf(),
            ({
                let targets = old(self).targets(*rows);
                let i = old(self).sibling_index as int;
                if 1 <= i <= targets.len() {
                    let new_parent = targets[i - 1];
                    &&& r == Some(new_parent)
                    &&& final(self).parent_id == Some(new_parent)
                    &&& final(self).sibling_index == rows.children(Some(new_parent)).len()
                    &&& final(self).visual_sibling_index is None
                } else {
                    &&& r is None
                    &&& *final(self) == *old(self)
                }
            }),
            final(self).source_parent_id == old(self).source_parent_id,
            final(self).selected == old(self).selected,
            final(self).pending_g == old(self).pending_g,
    {
        if self.sibling_index == 0 {
            return None;
        }
        let targets = self.targets_of(rows);
        if self.sibling_index - 1 >= targets.len() {
            return None;
        }
        let new_parent = targets[self.sibling_index - 1];
        let children = rows.children_of(Some(new_parent));
        self.parent_id = Some(new_parent);
        self.sibling_index = children.len();
        self.visual_sibling_index = None;
        Some(new_parent)
    }

    /// Handles a key that moves the block's place; says whether it was one. Line keys move one
    /// row; page keys move `page` staying children; the ends and the two-key jump to the top
    /// move it first or last.
    pub fn handle_target_key(&mut self, rows: &TreeRows, key: ReorderKey, page: usize) -> (r: bool)
        requires
            rows.wf(),
            old(self).wf(),
        ensures
            final(self).wf(),
            r == (key == ReorderKey::LineUp || key == ReorderKey::LineDown || key == ReorderKey::PageUp
                || key == ReorderKey::PageDown || key == ReorderKey::Top || key == ReorderKey::Bottom
                || key == ReorderKey::TopPrefix),
            final(self).source_parent_id == old(self).source_parent_id,
            final(self).parent_id == old(self).parent_id,
            final(self).selected == old(self).selected,
            final(self).pending_g == match key {
                ReorderKey::LineUp | ReorderKey::LineDown => old(self).pending_g,
                ReorderKey::TopPrefix => !old(self).pending_g,
                _ => false,
            },
            ({
                let n = old(self).targets(*rows).len() as int;
                let t = old(self).sibling_index as int;
                match key {
                    ReorderKey::Top => final(self).sibling_index == 0,
                    ReorderKey::Bottom => final(self).sibling_index == n,
                    ReorderKey::TopPrefix => final(self).sibling_index == (if old(self).pending_g { 0 } else { t }),
                    ReorderKey::LineUp => (final(self).sibling_index as int, final(self).visual_sibling_index)
                        == old(self).after_line_move(*rows, false),
                    ReorderKey::LineDown => (final(self).sibling_index as int, final(self).visual_sibling_index)
                        == old(self).after_line_move(*rows, true),
                    ReorderKey::PageUp => {
                        let moved = if t >= page { t - page } else { 0 };
                        final(self).sibling_index == (if moved <= n { moved } else { n })
                    },
                    ReorderKey::PageDown => {
                        let moved = if t + page <= usize::MAX { t + page } else { usize::MAX as int };
                        final(self).sibling_index == (if moved <= n { moved } else { n })
                    },
                    _ => true,
                }
            }),
            !r ==> *final(self) == (TreeBlockMove { pending_g: false, ..*old(self) }),
    {
        proof {
            lemma_select(rows.children(self.parent_id), self.selected@, false);
            lemma_children(*rows, self.parent_id);
            lemma_children_fit(*rows, self.parent_id);
        }
        assert(rows.ids@.len() == rows.ids.len());
        if key == ReorderKey::LineUp {
            self.move_target_line(rows, false);
            return true;
        }
        if key == ReorderKey::LineDown {
            self.move_target_line(rows, true);
            return true;
        }
        let was_pending = self.pending_g;
        if key != ReorderKey::TopPrefix {
            self.pending_g = false;
        }
        match key {
            ReorderKey::PageUp => self.move_target(rows, false, page),
            ReorderKey::PageDown => self.move_target(rows, true, page),
            ReorderKey::Top => self.set_target(rows, 0),
            ReorderKey::Bottom => self.set_target(rows, usize::MAX),
            ReorderKey::TopPrefix => {
                if was_pending {
                    self.pending_g = false;
                    self.set_target(rows, 0);
                } else {
                    self.pending_g = true;
                }
            },
            _ => {
                return false;
            },
        }
        true
    }

    /// Handles a key while the block moves: a repeated key does nothing; the reorder binding
    /// and Enter commit; Escape cancels; the moving keys move the block's place, and Left and
    /// Right (or `<` and `>`) move it out or in when moving across levels is allowed. Gives
    /// the step and the row to show expanded, when the block went in under one.
    pub fn handle_key(&mut self, rows: &TreeRows, key: ReorderKey, repeat: bool, allow_horizontal: bool, page: usize)
        -> (r: (ReorderStep, Option<u64>))
        requires
            rows.wf(),
            old(self).wf(),
        ensures
            final(self).wf(),
            r.0 == if repeat {
                ReorderStep::Moving
            } else {
                match key {
                    ReorderKey::Reorder | ReorderKey::Enter => ReorderStep::Commit,
                    ReorderKey::Cancel => ReorderStep::Cancel,
                    _ => ReorderStep::Moving,
                }
            },
            (repeat || key == ReorderKey::Reorder || key == ReorderKey::Enter || key == ReorderKey::Cancel) ==> *final(self)
                == *old(self),
            !repeat && (key == ReorderKey::Outdent || key == ReorderKey::Indent) && !allow_horizontal ==> r.1 is None && *final(self) == (
            TreeBlockMove { pending_g: false, ..*old(self) }),
            r.1 is Some ==> key == ReorderKey::Indent && allow_horizontal && !repeat,
            final(self).source_parent_id == old(self).source_parent_id,
            final(self).selected == old(self).selected,
    {
        if repeat {
            return (ReorderStep::Moving, None);
        }
        match key {
            ReorderKey::Reorder | ReorderKey::Enter => (ReorderStep::Commit, None),
            ReorderKey::Cancel => (ReorderStep::Cancel, None),
            _ => {
                if self.handle_target_key(rows, key, page) {
                    return (ReorderStep::Moving, None);
                }
                if !allow_horizontal {
                    return (ReorderStep::Moving, None);
                }
                if key == ReorderKey::Outdent {
                    self.outdent(rows);
                    (ReorderStep::Moving, None)
                } else if key == ReorderKey::Indent {
                    let expand = self.indent(rows);
                    (ReorderStep::Moving, expand)
                } else {
                    (ReorderStep::Moving, None)
                }
            },
        }
    }

    /// Where the block's placeholder is drawn: before the source sibling at the visual
    /// boundary while the block stays under its parent, else before the staying child at the
    /// target, else after the last staying child, else after the new parent, else after the
    /// block's own last row.
    pub fn overlay_position(&self, rows: &TreeRows) -> (r: OverlayPosition)
        requires
            rows.wf(),
            self.wf(),
        ensures
            r == ({
                let targets = self.targets(*rows);
                let siblings = rows.children(self.source_parent_id);
                if self.parent_id == self.source_parent_id && (self.visual_sibling_index matches Some(v) && v < siblings.len()) {
                    OverlayPosition::Before(siblings[self.visual_sibling_index->0 as int])
                } else if self.sibling_index < targets.len() {
                    OverlayPosition::Before(targets[self.sibling_index as int])
                } else if targets.len() > 0 {
                    OverlayPosition::After(targets.last())
                } else if self.parent_id != self.source_parent_id && self.parent_id is Some {
                    OverlayPosition::After(self.parent_id->0)
                } else {
                    OverlayPosition::After(self.selected@.last())
                }
            }),
    {
        if self.parent_id == self.source_parent_id {
            if let Some(v) = self.visual_sibling_index {
                let siblings = rows.children_of(self.source_parent_id);
                if v < siblings.len() {
                    return OverlayPosition::Before(siblings[v]);
                }
            }
        }
        let targets = self.targets_of(rows);
        if self.sibling_index < targets.len() {
            OverlayPosition::Before(targets[self.sibling_index])
        } else if targets.len() > 0 {
            OverlayPosition::After(targets[targets.len() - 1])
        } else if self.parent_id != self.source_parent_id && self.parent_id.is_some() {
            match self.parent_id {
                Some(p) => OverlayPosition::After(p),
                None => OverlayPosition::After(self.selected[self.selected.len() - 1]),
            }
        } else {
            OverlayPosition::After(self.selected[self.selected.len() - 1])
        }
    }

    /// What a cancelled block move reports: the rows that were to move.
    pub fn cancelled_event(&self) -> (r: ListControlEvent)
        ensures
            r matches ListControlEvent::TreeBlockMoveCancelled { row_ids } && row_ids@ == self.selected@,
    {
        ListControlEvent::TreeBlockMoveCancelled { row_ids: self.selected.clone() }
    }
}

/// A parent has no more children than the tree has rows.
pub proof fn lemma_children_fit(rows: TreeRows, parent: Option<u64>)
    requires
        rows.wf(),
    ensures
        rows.children(parent).len() <= rows.ids@.len(),
{
    lemma_children_upto_len(rows.ids@, rows.parents@, parent, rows.ids@.len() as int);
}

proof fn lemma_children_upto_len(ids: Seq<u64>, parents: Seq<Option<u64>>, parent: Option<u64>, n: int)
    requires
        0 <= n,
    ensures
        children_upto(ids, parents, parent, n).len() <= n,
    decreases n,
{
    if n > 0 {
        lemma_children_upto_len(ids, parents, parent, n - 1);
    }
}

/// How many of the first `visual` of `siblings` are not being moved.
pub fn count_staying(siblings: &Vec<u64>, selected: &Vec<u64>, visual: usize) -> (r: usize)
    ensures
        r as int == staying_before(siblings@, selected@, visual as int),
{
    let v = if visual < siblings.len() { visual } else { siblings.len() };
    let mut count: usize = 0;
    let mut i: usize = 0;
    while i < v
        invariant
            v <= siblings@.len(),
            i <= v,
            count as int == select(siblings@.take(i as int), selected@, false).len(),
            count <= i,
        decreases v - i,
    {
        let id = siblings[i];
        assert(siblings@.take(i as int + 1).drop_last() =~= siblings@.take(i as int));
        assert(siblings@.take(i as int + 1).last() == id);
        if !contains_u64(selected, id) {
            count += 1;
        }
        i += 1;
    }
    count
}

/// Moving a block out of a parent and straight back in puts it under that parent again: once
/// out, the staying child just before the block is the parent it left (when none of the
/// moving rows is a child of the grandparent).
pub proof fn law_out_then_in_returns_under_parent(rows: TreeRows, selected: Seq<u64>, parent: u64)
    requires
        rows.wf(),
        rows.parent(parent) is Some,
        forall|j: int| 0 <= j < selected.len() ==> rows.parent(#[trigger] selected[j]) != rows.parent(parent),
    ensures
        ({
            let grandparent = rows.parent(parent)->0;
            let uncles = rows.children(grandparent);
            let i = uncles.index_of(parent);
            &&& 0 <= i < select(uncles, selected, false).len()
            &&& select(uncles, selected, false)[i] == parent
        }),
{
    let grandparent = rows.parent(parent)->0;
    let uncles = rows.children(grandparent);
    lemma_children(rows, grandparent);
    assert(uncles.contains(parent));
    assert forall|j: int| 0 <= j < uncles.len() implies selected.contains(#[trigger] uncles[j]) == false by {
        assert(uncles.contains(uncles[j]));
        if selected.contains(uncles[j]) {
            let k = choose|k: int| 0 <= k < selected.len() && selected[k] == uncles[j];
            assert(rows.parent(selected[k]) != rows.parent(parent));
        }
    }
    crate::reorder::lemma_select_uniform(uncles, selected, false);
}

// ---------------------------------------------------------------------------------------------
// Keys while picking rows
// ---------------------------------------------------------------------------------------------

/// What a key does to a picking of rows.
#[derive(Debug, Clone, Copy, PartialEq, Eq, Structural)]
pub enum PickAction {
    /// Drop the picking; the key is taken.
    Clear,
    /// Drop the picking and let the key move the highlight as usual.
    ClearAndPass,
    /// Pick or unpick the highlighted row.
    Toggle,
    /// Extend the picking one row forward or back: as a range with Shift, one row at a time
    /// with Control.
    Extend { forward: bool, range: bool },
    /// Not a picking key.
    Pass,
}

/// Whether a key is Escape or Ctrl-[.
pub open spec fn is_cancel_key(key: KeyEvent) -> bool {
    key.code == Key::Esc || (key.code == Key::Char('[') && key.modifiers.control && !key.modifiers.shift && !key.modifiers.alt)
}

pub open spec fn only_shift(key: KeyEvent) -> bool {
    key.modifiers.shift && !key.modifiers.control && !key.modifiers.alt
}

pub open spec fn only_control(key: KeyEvent) -> bool {
    key.modifiers.control && !key.modifiers.shift && !key.modifiers.alt
}

pub open spec fn unmodified(key: KeyEvent) -> bool {
    !key.modifiers.control && !key.modifiers.shift && !key.modifiers.alt
}

/// What a key does to a picking of sibling rows in a tree. `direction` is where the key moves
/// by line (forward or back) once its modifiers are set aside, `navigation` whether it moves
/// the highlight, `available` whether picking is possible now, and `picking` the range mode of
/// the picking under way, if any. Escape drops a picking; a key that moves the highlight
/// without extending drops it and moves on; Ctrl-Space, or a plain Space while picking row by
/// row, toggles the highlighted row; Shift or Control with a line key extends the picking.
pub open spec fn spec_tree_pick_action(key: KeyEvent, direction: Option<bool>, navigation: bool, available: bool, picking: Option<bool>) -> PickAction {
    let extending = (only_shift(key) || only_control(key)) && direction is Some;
    if is_cancel_key(key) {
        if picking is Some { PickAction::Clear } else { PickAction::Pass }
    } else if picking is Some && navigation && !extending {
        PickAction::ClearAndPass
    } else if !available {
        PickAction::Pass
    } else if key.code == Key::Char(' ') && (only_control(key) || (unmodified(key) && picking == Some(false))) {
        PickAction::Toggle
    } else if extending {
        PickAction::Extend { forward: direction->0, range: only_shift(key) }
    } else {
        PickAction::Pass
    }
}

/// What a key does to a picking of sibling rows in a tree.
pub fn tree_pick_action(key: KeyEvent, direction: Option<bool>, navigation: bool, available: bool, picking: Option<bool>) -> (r: PickAction)
    ensures
        r == spec_tree_pick_action(key, direction, navigation, available, picking),
{
    let shift = key.modifiers.shift && !key.modifiers.control && !key.modifiers.alt;
    let control = key.modifiers.control && !key.modifiers.shift && !key.modifiers.alt;
    let plain = !key.modifiers.control && !key.modifiers.shift && !key.modifiers.alt;
    let cancel = key.code == Key::Esc || (key.code == Key::Char('[') && control);
    let extending = (shift || control) && direction.is_some();
    if cancel {
        return if picking.is_some() { PickAction::Clear } else { PickAction::Pass };
    }
    if picking.is_some() && navigation && !extending {
        return PickAction::ClearAndPass;
    }
    if !available {
        return PickAction::Pass;
    }
    let row_by_row = match picking {
        Some(range) => !range,
        None => false,
    };
    if key.code == Key::Char(' ') && (control || (plain && row_by_row)) {
        return PickAction::Toggle;
    }
    match direction {
        Some(forward) => {
            if shift || control {
                PickAction::Extend { forward, range: shift }
            } else {
                PickAction::Pass
            }
        },
        None => PickAction::Pass,
    }
}

/// What a key does to a picking of rows in a flat list; as in a tree, except that only Shift
/// extends a picking without dropping it on a move, and a line key extends the picking only
/// with Shift (as a range) or Control (moving the picking's end).
pub open spec fn spec_flat_pick_action(key: KeyEvent, direction: Option<bool>, navigation: bool, available: bool, picking: Option<bool>) -> PickAction {
    let extending = only_shift(key) && direction is Some;
    if is_cancel_key(key) {
        if picking is Some { PickAction::Clear } else { PickAction::Pass }
    } else if picking is Some && navigation && !extending {
        PickAction::ClearAndPass
    } else if !available {
        PickAction::Pass
    } else if key.code == Key::Char(' ') && (only_control(key) || (unmodified(key) && picking == Some(false))) {
        PickAction::Toggle
    } else if (only_shift(key) || only_control(key)) && direction is Some {
        PickAction::Extend { forward: direction->0, range: only_shift(key) }
    } else {
        PickAction::Pass
    }
}

/// What a key does to a picking of rows in a flat list.
pub fn flat_pick_action(key: KeyEvent, direction: Option<bool>, navigation: bool, available: bool, picking: Option<bool>) -> (r: PickAction)
    ensures
        r == spec_flat_pick_action(key, direction, navigation, available, picking),
{
    let shift = key.modifiers.shift && !key.modifiers.control && !key.modifiers.alt;
    let control = key.modifiers.control && !key.modifiers.shift && !key.modifiers.alt;
    let plain = !key.modifiers.control && !key.modifiers.shift && !key.modifiers.alt;
    let cancel = key.code == Key::Esc || (key.code == Key::Char('[') && control);
    let extending = shift && direction.is_some();
    if cancel {
        return if picking.is_some() { PickAction::Clear } else { PickAction::Pass };
    }
    if picking.is_some() && navigation && !extending {
        return PickAction::ClearAndPass;
    }
    if !available {
        return PickAction::Pass;
    }
    let row_by_row = match picking {
        Some(range) => !range,
        None => false,
    };
    if key.code == Key::Char(' ') && (control || (plain && row_by_row)) {
        return PickAction::Toggle;
    }
    match direction {
        Some(forward) => {
            if shift || control {
                PickAction::Extend { forward, range: shift }
            } else {
                PickAction::Pass
            }
        },
        None => PickAction::Pass,
    }
}

} // verus!
