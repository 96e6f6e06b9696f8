//! Line differences between two texts and how they are laid out as text.
use vstd::prelude::*;
use crate::text::{
    chars_of, decimal, decimal_len, display_width, fit_count, lemma_fit_count_bounds, number, prefix_cells, push_char,
    push_decimal, push_number, push_spaces, push_text, spaces, string_of, text_width,
};
use crate::geometry::{AxisExpand, HintSource, LayoutProposal, LayoutSize, LayoutSizeHint, Rect};

verus! {

/// One line of a text: its characters without the line break, and whether a line break
/// ended it.
#[derive(Debug, Clone, PartialEq, Eq)]
pub struct DiffLine {
    pub text: String,
    pub newline: bool,
}

/// What a line is, as a value: its characters and whether it ended with a line break.
pub open spec fn line_view(line: DiffLine) -> (Seq<char>, bool) {
    (line.text@, line.newline)
}

pub open spec fn line_views(lines: Seq<DiffLine>) -> Seq<(Seq<char>, bool)> {
    lines.map_values(|l: DiffLine| line_view(l))
}

/// The first position at or after `k` that holds a line feed, or the length of `s`.
pub open spec fn next_newline(s: Seq<char>, k: int) -> int
    decreases s.len() - k,
{
    if k >= s.len() {
        s.len() as int
    } else if s[k] == '\n' {
        k
    } else {
        next_newline(s, k + 1)
    }
}

pub proof fn lemma_next_newline(s: Seq<char>, k: int)
    requires
        0 <= k,
    ensures
        k <= next_newline(s, k) || k > s.len(),
        next_newline(s, k) <= s.len() || k > s.len(),
        k <= s.len() ==> (next_newline(s, k) < s.len() ==> s[next_newline(s, k)] == '\n'),
        k <= s.len() ==> (forall|x: int| k <= x < next_newline(s, k) ==> s[x] != '\n'),
    decreases s.len() - k,
{
    if k < s.len() && s[k] != '\n' {
        lemma_next_newline(s, k + 1);
    }
}

/// A line's characters with a carriage return that stood before its line feed taken off.
pub open spec fn strip_cr(t: Seq<char>) -> Seq<char> {
    if t.len() > 0 && t.last() == '\r' {
        t.drop_last()
    } else {
        t
    }
}

/// The lines of `s` from position `k` on. A line ends at a line feed, which is not part of
/// it, nor is a carriage return just before that line feed; the last line may end without
/// one. An empty text has no lines, and a text ending in a line feed has no empty line after it.
pub open spec fn lines_from(s: Seq<char>, k: int) -> Seq<(Seq<char>, bool)>
    decreases s.len() - k,
{
    if k < 0 || k >= s.len() {
        Seq::empty()
    } else {
        let e = next_newline(s, k);
        proof {
            lemma_next_newline(s, k);
        }
        if e >= s.len() {
            seq![(s.subrange(k, s.len() as int), false)]
        } else {
            seq![(strip_cr(s.subrange(k, e)), true)] + lines_from(s, e + 1)
        }
    }
}

/// The lines of a whole text.
pub open spec fn text_lines(s: Seq<char>) -> Seq<(Seq<char>, bool)> {
    lines_from(s, 0)
}

/// Splits `text` into its lines.
pub fn split_lines(text: &str) -> (r: Vec<DiffLine>)
    ensures
        line_views(r@) == text_lines(text@),
{
    let chars = chars_of(text);
    let n = chars.len();
    let mut lines: Vec<DiffLine> = Vec::new();
    let mut k: usize = 0;
    while k < n
        invariant
            n == chars@.len(),
            chars@ == text@,
            k <= n,
            line_views(lines@) + lines_from(text@, k as int) == text_lines(text@),
        decreases n - k,
    {
        let mut e = k;
        while e < n && chars[e] != '\n'
            invariant
                k <= e <= n,
                n == chars@.len(),
                next_newline(chars@, k as int) == next_newline(chars@, e as int),
            decreases n - e,
        {
            e += 1;
        }
        let ghost before = lines@;
        proof {
            lemma_next_newline(chars@, k as int);
        }
        if e >= n {
            let line = DiffLine { text: string_of(&chars, k, n), newline: false };
            lines.push(line);
            assert(line_views(lines@) =~= line_views(before) + lines_from(text@, k as int));
            k = n;
        } else {
            let end = if e > k && chars[e - 1] == '\r' { e - 1 } else { e };
            let line = DiffLine { text: string_of(&chars, k, end), newline: true };
            lines.push(line);
            assert(strip_cr(chars@.subrange(k as int, e as int)) =~= chars@.subrange(k as int, end as int));
            assert(line_views(lines@) =~= line_views(before).push(line_view(line)));
            assert(lines_from(text@, k as int) == seq![line_view(line)] + lines_from(text@, e + 1));
            assert(line_views(lines@) + lines_from(text@, e + 1) =~= line_views(before) + lines_from(text@, k as int));
            k = e + 1;
        }
    }
    assert(line_views(lines@) =~= text_lines(text@));
    lines
}

/// The length of a longest common subsequence of `a[i..]` and `b[j..]`: equal heads are
/// matched, and otherwise the better of dropping either head is taken.
pub open spec fn lcs<T>(a: Seq<T>, b: Seq<T>, i: int, j: int) -> nat
    decreases a.len() - i + b.len() - j,
{
    if i < 0 || j < 0 || i >= a.len() || j >= b.len() {
        0
    } else if a[i] == b[j] {
        1 + lcs(a, b, i + 1, j + 1)
    } else {
        let drop_a = lcs(a, b, i + 1, j);
        let drop_b = lcs(a, b, i, j + 1);
        if drop_a >= drop_b { drop_a } else { drop_b }
    }
}

proof fn lemma_lcs_bound<T>(a: Seq<T>, b: Seq<T>, i: int, j: int)
    requires
        0 <= i <= a.len(),
        0 <= j <= b.len(),
    ensures
        lcs(a, b, i, j) <= a.len() - i,
    decreases a.len() - i + b.len() - j,
{
    if i < a.len() && j < b.len() {
        lemma_lcs_bound(a, b, i + 1, j + 1);
        lemma_lcs_bound(a, b, i + 1, j);
        lemma_lcs_bound(a, b, i, j + 1);
    }
}

/// One step of a line script: a line kept in both texts, a line only in the old text, or a
/// line only in the new text. The numbers are positions in the old and new lines.
#[derive(Debug, Clone, Copy, PartialEq, Eq, Structural)]
pub enum DiffOp {
    Equal { old: usize, new: usize },
    Delete { old: usize },
    Insert { new: usize },
}

pub open spec fn takes_old(op: DiffOp) -> bool {
    !(op is Insert)
}

pub open spec fn takes_new(op: DiffOp) -> bool {
    !(op is Delete)
}

/// How many old lines the steps walk over.
pub open spec fn old_count(ops: Seq<DiffOp>) -> nat
    decreases ops.len(),
{
    if ops.len() == 0 {
        0
    } else {
        old_count(ops.drop_last()) + if takes_old(ops.last()) { 1nat } else { 0nat }
    }
}

/// How many new lines the steps walk over.
pub open spec fn new_count(ops: Seq<DiffOp>) -> nat
    decreases ops.len(),
{
    if ops.len() == 0 {
        0
    } else {
        new_count(ops.drop_last()) + if takes_new(ops.last()) { 1nat } else { 0nat }
    }
}

/// How many lines the steps keep.
pub open spec fn equal_count(ops: Seq<DiffOp>) -> nat
    decreases ops.len(),
{
    if ops.len() == 0 {
        0
    } else {
        equal_count(ops.drop_last()) + if ops.last() is Equal { 1nat } else { 0nat }
    }
}

/// Step `k` names the next unread line of the text it reads, and a kept line is the same
/// line in both texts.
pub open spec fn step_ok<T>(a: Seq<T>, b: Seq<T>, ops: Seq<DiffOp>, k: int) -> bool {
    let i = old_count(ops.take(k)) as int;
    let j = new_count(ops.take(k)) as int;
    match ops[k] {
        DiffOp::Equal { old, new } => old == i && new == j && i < a.len() && j < b.len() && a[i] == b[j],
        DiffOp::Delete { old } => old == i && i < a.len(),
        DiffOp::Insert { new } => new == j && j < b.len(),
    }
}

/// The steps read both texts from start to end, each line once and in order.
pub open spec fn valid_script<T>(a: Seq<T>, b: Seq<T>, ops: Seq<DiffOp>) -> bool {
    &&& old_count(ops) == a.len()
    &&& new_count(ops) == b.len()
    &&& forall|k: int| 0 <= k < ops.len() ==> #[trigger] step_ok(a, b, ops, k)
}

/// Whether two lines are the same, line break included.
fn lines_equal(x: &DiffLine, y: &DiffLine) -> (r: bool)
    ensures
        r == (line_view(*x) == line_view(*y)),
{
    x.newline == y.newline && x.text == y.text
}

/// The table of `lcs(a, b, i, j)` for the lines that exist: row `r` is for `i == n - 1 - r`,
/// and entry `c` of a row for `j == m - 1 - c`.
pub open spec fn lcs_table_ok(a: Seq<DiffLine>, b: Seq<DiffLine>, rows: Seq<Vec<usize>>) -> bool {
    &&& rows.len() == a.len()
    &&& forall|r: int| 0 <= r < rows.len() ==> #[trigger] rows[r]@.len() == b.len()
    &&& forall|r: int, c: int|
        0 <= r < rows.len() && 0 <= c < rows[r]@.len() ==> #[trigger] rows[r]@[c] as int
            == lcs(line_views(a), line_views(b), a.len() - 1 - r, b.len() - 1 - c)
}

/// `lcs(a, b, i, j)` read from the table, with the empty ends answered directly.
fn lcs_at(a: &Vec<DiffLine>, b: &Vec<DiffLine>, rows: &Vec<Vec<usize>>, i: usize, j: usize) -> (v: usize)
    requires
        lcs_table_ok(a@, b@, rows@),
        i <= a.len(),
        j <= b.len(),
    ensures
        v == lcs(line_views(a@), line_views(b@), i as int, j as int),
{
    if i == a.len() || j == b.len() {
        0
    } else {
        let r = a.len() - 1 - i;
        let c = b.len() - 1 - j;
        assert(rows@[r as int]@.len() == b.len());
        rows[r][c]
    }
}

fn lcs_table(a: &Vec<DiffLine>, b: &Vec<DiffLine>) -> (rows: Vec<Vec<usize>>)
    ensures
        lcs_table_ok(a@, b@, rows@),
{
    let n = a.len();
    let m = b.len();
    let ghost av = line_views(a@);
    let ghost bv = line_views(b@);
    let mut rows: Vec<Vec<usize>> = Vec::new();
    let mut r: usize = 0;
    while r < n
        invariant
            n == a.len(),
            m == b.len(),
            av == line_views(a@),
            bv == line_views(b@),
            r <= n,
            rows.len() == r,
            forall|x: int| 0 <= x < rows.len() ==> #[trigger] rows@[x]@.len() == m,
            forall|x: int, c: int|
                0 <= x < rows.len() && 0 <= c < rows@[x]@.len() ==> #[trigger] rows@[x]@[c] as int
                    == lcs(av, bv, n - 1 - x, m - 1 - c),
        decreases n - r,
    {
        let i = n - 1 - r;
        let mut row: Vec<usize> = Vec::new();
        let mut c: usize = 0;
        while c < m
            invariant
                n == a.len(),
                m == b.len(),
                av == line_views(a@),
                bv == line_views(b@),
                r < n,
                i == n - 1 - r,
                rows.len() == r,
                forall|x: int| 0 <= x < rows.len() ==> #[trigger] rows@[x]@.len() == m,
                forall|x: int, c2: int|
                    0 <= x < rows.len() && 0 <= c2 < rows@[x]@.len() ==> #[trigger] rows@[x]@[c2] as int
                        == lcs(av, bv, n - 1 - x, m - 1 - c2),
                c <= m,
                row.len() == c,
                forall|c2: int| 0 <= c2 < row.len() ==> #[trigger] row@[c2] as int == lcs(av, bv, i as int, m - 1 - c2),
            decreases m - c,
        {
            let j = m - 1 - c;
            proof {
                lemma_lcs_bound(av, bv, i + 1, j + 1);
                assert(av[i as int] == line_view(a@[i as int]));
                assert(bv[j as int] == line_view(b@[j as int]));
            }
            // lcs(i + 1, j + 1), lcs(i + 1, j) and lcs(i, j + 1), with the empty ends as 0.
            let diag: usize = if r == 0 || c == 0 { 0 } else {
                assert(rows@[r - 1]@.len() == m);
                rows[r - 1][c - 1]
            };
            let below: usize = if r == 0 { 0 } else {
                assert(rows@[r - 1]@.len() == m);
                rows[r - 1][c]
            };
            let right: usize = if c == 0 { 0 } else { row[c - 1] };
            let value: usize = if lines_equal(&a[i], &b[j]) {
                1 + diag
            } else if below >= right {
                below
            } else {
                right
            };
            assert(diag == lcs(av, bv, i + 1, j + 1));
            assert(below == lcs(av, bv, i + 1, j as int));
            assert(right == lcs(av, bv, i as int, j + 1));
            assert(value == lcs(av, bv, i as int, j as int));
            row.push(value);
            c += 1;
        }
        rows.push(row);
        r += 1;
    }
    rows
}

/// Whether a script step keeps a line.
pub open spec fn kept(op: DiffOp) -> bool {
    op is Equal
}

/// Dropping one more line of `b` keeps no more lines in common.
proof fn lemma_lcs_drop_b<T>(a: Seq<T>, b: Seq<T>, i: int, j: int)
    requires
        0 <= i <= a.len(),
        0 <= j < b.len(),
    ensures
        lcs(a, b, i, j + 1) <= lcs(a, b, i, j),
    decreases a.len() - i + b.len() - j,
{
    if i < a.len() && j + 1 < b.len() && a[i] == b[j] {
        lemma_lcs_drop_b(a, b, i + 1, j + 1);
        if a[i] != b[j + 1] {
            lemma_lcs_drop_a_one(a, b, i, j + 2);
        }
    }
}

/// Dropping one line of `a` loses at most one line in common.
proof fn lemma_lcs_drop_a_one<T>(a: Seq<T>, b: Seq<T>, i: int, j: int)
    requires
        0 <= i < a.len(),
        0 <= j <= b.len(),
    ensures
        lcs(a, b, i, j) <= 1 + lcs(a, b, i + 1, j),
    decreases a.len() - i + b.len() - j,
{
    if j < b.len() {
        lemma_lcs_drop_b(a, b, i + 1, j);
        if a[i] != b[j] {
            lemma_lcs_drop_a_one(a, b, i, j + 1);
        }
    }
}

/// The script read off the table of `lcs` from `i` and `j` on: keep equal heads; otherwise
/// drop the old head when that keeps as many lines in common as adding the new head, and add
/// the new head when not.
pub open spec fn lcs_script<T>(a: Seq<T>, b: Seq<T>, i: int, j: int) -> Seq<DiffOp>
    decreases a.len() - i + b.len() - j,
{
    if i < 0 || j < 0 || i > a.len() || j > b.len() || (i == a.len() && j == b.len()) {
        Seq::empty()
    } else if i < a.len() && j < b.len() && a[i] == b[j] {
        seq![DiffOp::Equal { old: i as usize, new: j as usize }] + lcs_script(a, b, i + 1, j + 1)
    } else if i < a.len() && (j == b.len() || lcs(a, b, i + 1, j) >= lcs(a, b, i, j + 1)) {
        seq![DiffOp::Delete { old: i as usize }] + lcs_script(a, b, i + 1, j)
    } else {
        seq![DiffOp::Insert { new: j as usize }] + lcs_script(a, b, i, j + 1)
    }
}

/// A line script from `a` to `b` that keeps as many lines as any script can; within a run of
/// changes, no added line comes just before a dropped one.
pub fn diff_lines(a: &Vec<DiffLine>, b: &Vec<DiffLine>) -> (ops: Vec<DiffOp>)
    ensures
        valid_script(line_views(a@), line_views(b@), ops@),
        equal_count(ops@) == lcs(line_views(a@), line_views(b@), 0, 0),
        forall|k: int| 0 <= k < ops@.len() - 1 ==> !(#[trigger] ops@[k] is Insert && ops@[k + 1] is Delete),
        ops@ == lcs_script(line_views(a@), line_views(b@), 0, 0),
{
    let table = lcs_table(a, b);
    let n = a.len();
    let m = b.len();
    let ghost av = line_views(a@);
    let ghost bv = line_views(b@);
    let mut ops: Vec<DiffOp> = Vec::new();
    let mut i: usize = 0;
    let mut j: usize = 0;
    while i < n || j < m
        invariant
            n == a.len(),
            m == b.len(),
            av == line_views(a@),
            bv == line_views(b@),
            lcs_table_ok(a@, b@, table@),
            i <= n,
            j <= m,
            old_count(ops@) == i,
            new_count(ops@) == j,
            forall|k: int| 0 <= k < ops@.len() ==> #[trigger] step_ok(av, bv, ops@, k),
            equal_count(ops@) + lcs(av, bv, i as int, j as int) == lcs(av, bv, 0, 0),
            forall|k: int| 0 <= k < ops@.len() - 1 ==> !(#[trigger] ops@[k] is Insert && ops@[k + 1] is Delete),
            ops@.len() > 0 && ops@.last() is Insert ==> j > 0 && (i == n || lcs(av, bv, i + 1, j - 1) < lcs(av, bv, i as int, j as int)),
            ops@ + lcs_script(av, bv, i as int, j as int) == lcs_script(av, bv, 0, 0),
        decreases n - i + m - j,
    {
        let ghost before = ops@;
        let op = if i < n && j < m && lines_equal(&a[i], &b[j]) {
            DiffOp::Equal { old: i, new: j }
        } else if i < n && (j == m || lcs_at(a, b, &table, i + 1, j) >= lcs_at(a, b, &table, i, j + 1)) {
            DiffOp::Delete { old: i }
        } else {
            DiffOp::Insert { new: j }
        };
        proof {
            if i < n {
                assert(av[i as int] == line_view(a@[i as int]));
            }
            if j < m {
                assert(bv[j as int] == line_view(b@[j as int]));
            }
            if op is Delete && before.len() > 0 && before.last() is Insert && i < n {
                if j < m {
                    lemma_lcs_drop_b(av, bv, i + 1, j - 1);
                }
                assert(false);
            }
        }
        ops.push(op);
        proof {
            let ni: int = if op is Insert { i as int } else { i + 1 };
            let nj: int = if op is Delete { j as int } else { j + 1 };
            assert(lcs_script(av, bv, i as int, j as int) == seq![op] + lcs_script(av, bv, ni, nj));
            assert(ops@ + lcs_script(av, bv, ni, nj) =~= before + lcs_script(av, bv, i as int, j as int));
            assert(ops@.drop_last() =~= before);
            assert(ops@.take(before.len() as int) =~= before);
            assert forall|k: int| 0 <= k < ops@.len() implies #[trigger] step_ok(av, bv, ops@, k) by {
                if k < before.len() {
                    assert(ops@.take(k) =~= before.take(k));
                    assert(step_ok(av, bv, before, k));
                }
            }
            assert forall|k: int| 0 <= k < ops@.len() - 1 implies !(#[trigger] ops@[k] is Insert && ops@[k + 1] is Delete) by {
                if k < before.len() - 1 {
                    assert(ops@[k] == before[k] && ops@[k + 1] == before[k + 1]);
                } else {
                    assert(ops@[k] == before.last());
                }
            }
        }
        match op {
            DiffOp::Equal { .. } => {
                i += 1;
                j += 1;
            },
            DiffOp::Delete { .. } => {
                i += 1;
            },
            DiffOp::Insert { .. } => {
                j += 1;
            },
        }
    }
    ops
}

/// Step `c` adds or drops a line.
pub open spec fn is_change(ops: Seq<DiffOp>, c: int) -> bool {
    0 <= c < ops.len() && !(ops[c] is Equal)
}

/// Step `k` is shown in a patch with `context` lines of context: a change lies at most
/// `context` steps before or after it.
pub open spec fn shown(ops: Seq<DiffOp>, context: nat, k: int) -> bool {
    exists|c: int| #[trigger] is_change(ops, c) && k - context <= c <= k + context
}

/// Some step adds or drops a line.
pub open spec fn has_change(ops: Seq<DiffOp>) -> bool {
    exists|c: int| #[trigger] is_change(ops, c)
}

/// Whether a step keeps a line.
pub fn keeps_line(op: &DiffOp) -> (r: bool)
    ensures
        r == (*op is Equal),
{
    match op {
        DiffOp::Equal { .. } => true,
        _ => false,
    }
}

/// Which steps are shown with `context` lines of context.
fn shown_flags(ops: &Vec<DiffOp>, context: usize) -> (flags: Vec<bool>)
    ensures
        flags.len() == ops.len(),
        forall|k: int| 0 <= k < ops.len() ==> #[trigger] flags[k] == shown(ops@, context as nat, k),
{
    let n = ops.len();
    let mut flags: Vec<bool> = Vec::new();
    let mut last: Option<usize> = None;
    let mut k: usize = 0;
    while k < n
        invariant
            n == ops.len(),
            k <= n,
            flags.len() == k,
            forall|x: int| 0 <= x < k ==> #[trigger] flags[x] == exists|c: int|
                #[trigger] is_change(ops@, c) && x - context <= c <= x,
            match last {
                Some(c0) => c0 < k && is_change(ops@, c0 as int) && forall|c: int|
                    c0 < c < k ==> !#[trigger] is_change(ops@, c),
                None => forall|c: int| 0 <= c < k ==> !#[trigger] is_change(ops@, c),
            },
        decreases n - k,
    {
        if !keeps_line(&ops[k]) {
            last = Some(k);
        }
        let near = match last {
            Some(c0) => k - c0 <= context,
            None => false,
        };
        proof {
            let ex = exists|c: int| #[trigger] is_change(ops@, c) && k - context <= c <= k;
            match last {
                Some(c0) => {
                    if near {
                        assert(is_change(ops@, c0 as int));
                    } else {
                        assert forall|c: int| #[trigger] is_change(ops@, c) && k - context <= c <= k implies false by {
                            if c > c0 {
                                assert(c == k || !is_change(ops@, c));
                            }
                        }
                    }
                },
                None => {},
            }
            assert(near == ex);
        }
        flags.push(near);
        k += 1;
    }
    let mut next: Option<usize> = None;
    let mut x: usize = n;
    while x > 0
        invariant
            n == ops.len(),
            x <= n,
            flags.len() == n,
            forall|y: int| 0 <= y < x ==> #[trigger] flags[y] == exists|c: int|
                #[trigger] is_change(ops@, c) && y - context <= c <= y,
            forall|y: int| x <= y < n ==> #[trigger] flags[y] == shown(ops@, context as nat, y),
            match next {
                Some(c0) => x <= c0 < n && is_change(ops@, c0 as int) && forall|c: int|
                    x <= c < c0 ==> !#[trigger] is_change(ops@, c),
                None => forall|c: int| x <= c < n ==> !#[trigger] is_change(ops@, c),
            },
        decreases x,
    {
        x -= 1;
        if !keeps_line(&ops[x]) {
            next = Some(x);
        }
        let near = match next {
            Some(c0) => c0 - x <= context,
            None => false,
        };
        let left = flags[x];
        proof {
            let ex = exists|c: int| #[trigger] is_change(ops@, c) && x <= c <= x + context;
            match next {
                Some(c0) => {
                    if near {
                        assert(is_change(ops@, c0 as int));
                    } else {
                        assert forall|c: int| #[trigger] is_change(ops@, c) && x <= c <= x + context implies false by {
                            if c < c0 {
                                assert(c == x || !is_change(ops@, c));
                            }
                        }
                    }
                },
                None => {},
            }
            assert(near == ex);
            if left || near {
                if left {
                    let w = choose|c: int| #[trigger] is_change(ops@, c) && x - context <= c <= x;
                    assert(is_change(ops@, w) && x - context <= w <= x + context);
                } else {
                    let w = choose|c: int| #[trigger] is_change(ops@, c) && x <= c <= x + context;
                    assert(is_change(ops@, w) && x - context <= w <= x + context);
                }
            } else {
                assert forall|c: int| #[trigger] is_change(ops@, c) && x - context <= c <= x + context implies false by {
                    if c <= x {
                    } else {
                    }
                }
            }
            assert((left || near) == shown(ops@, context as nat, x as int));
        }
        flags.set(x, left || near);
    }
    flags
}

/// The first step at or after `k` that is not shown, or the number of steps.
pub open spec fn run_end(ops: Seq<DiffOp>, context: nat, k: int) -> int
    decreases ops.len() - k,
{
    if k >= ops.len() || !shown(ops, context, k) {
        if k >= ops.len() { ops.len() as int } else { k }
    } else {
        run_end(ops, context, k + 1)
    }
}

pub proof fn lemma_run_end(ops: Seq<DiffOp>, context: nat, k: int)
    requires
        0 <= k <= ops.len(),
    ensures
        k <= run_end(ops, context, k) <= ops.len(),
        forall|x: int| k <= x < run_end(ops, context, k) ==> shown(ops, context, x),
        run_end(ops, context, k) < ops.len() ==> !shown(ops, context, run_end(ops, context, k)),
    decreases ops.len() - k,
{
    if k < ops.len() && shown(ops, context, k) {
        lemma_run_end(ops, context, k + 1);
    }
}

/// The hunks of a patch from step `k` on: the runs of shown steps, as ranges of steps.
pub open spec fn hunks_from(ops: Seq<DiffOp>, context: nat, k: int) -> Seq<(int, int)>
    decreases ops.len() - k,
{
    if k < 0 || k >= ops.len() {
        Seq::empty()
    } else if !shown(ops, context, k) {
        hunks_from(ops, context, k + 1)
    } else {
        let e = run_end(ops, context, k);
        proof {
            lemma_run_end(ops, context, k);
        }
        if e <= k {
            Seq::empty()
        } else {
            seq![(k, e)] + hunks_from(ops, context, e)
        }
    }
}

/// The hunks of a patch with `context` lines of context.
pub open spec fn hunks(ops: Seq<DiffOp>, context: nat) -> Seq<(int, int)> {
    hunks_from(ops, context, 0)
}

/// A range of steps, as the first step and the step after the last.
#[derive(Debug, Clone, Copy, PartialEq, Eq, Structural)]
pub struct Hunk {
    pub start: usize,
    pub end: usize,
}

pub open spec fn hunk_views(v: Seq<Hunk>) -> Seq<(int, int)> {
    v.map_values(|h: Hunk| (h.start as int, h.end as int))
}

/// The hunks of the script `ops` with `context` lines of context.
pub fn find_hunks(ops: &Vec<DiffOp>, context: usize) -> (r: Vec<Hunk>)
    ensures
        hunk_views(r@) == hunks(ops@, context as nat),
        forall|h: int| 0 <= h < r.len() ==> #[trigger] r[h].start < r[h].end <= ops.len(),
{
    let flags = shown_flags(ops, context);
    let n = ops.len();
    let mut out: Vec<Hunk> = Vec::new();
    let mut k: usize = 0;
    while k < n
        invariant
            n == ops.len(),
            flags.len() == n,
            forall|x: int| 0 <= x < n ==> #[trigger] flags[x] == shown(ops@, context as nat, x),
            k <= n,
            hunk_views(out@) + hunks_from(ops@, context as nat, k as int) == hunks(ops@, context as nat),
            forall|h: int| 0 <= h < out.len() ==> #[trigger] out[h].start < out[h].end <= n,
        decreases n - k,
    {
        if !flags[k] {
            k += 1;
        } else {
            let mut e = k;
            while e < n && flags[e]
                invariant
                    n == ops.len(),
                    flags.len() == n,
                    forall|x: int| 0 <= x < n ==> #[trigger] flags[x] == shown(ops@, context as nat, x),
                    k <= e <= n,
                    run_end(ops@, context as nat, k as int) == run_end(ops@, context as nat, e as int),
                decreases n - e,
            {
                e += 1;
            }
            proof {
                lemma_run_end(ops@, context as nat, k as int);
            }
            let ghost before = out@;
            out.push(Hunk { start: k, end: e });
            assert(hunk_views(out@) =~= hunk_views(before).push((k as int, e as int)));
            assert(hunks_from(ops@, context as nat, k as int) == seq![(k as int, e as int)] + hunks_from(ops@, context as nat, e as int));
            assert(hunk_views(out@) + hunks_from(ops@, context as nat, e as int) =~= hunk_views(before) + hunks_from(ops@, context as nat, k as int));
            k = e;
        }
    }
    assert(hunk_views(out@) =~= hunks(ops@, context as nat));
    out
}

/// Strings as character sequences.
pub open spec fn string_views(v: Seq<String>) -> Seq<Seq<char>> {
    v.map_values(|s: String| s@)
}

pub proof fn lemma_counts_append(x: Seq<DiffOp>, y: Seq<DiffOp>)
    ensures
        old_count(x + y) == old_count(x) + old_count(y),
        new_count(x + y) == new_count(x) + new_count(y),
    decreases y.len(),
{
    if y.len() > 0 {
        lemma_counts_append(x, y.drop_last());
        assert((x + y).drop_last() =~= x + y.drop_last());
    } else {
        assert(x + y =~= x);
    }
}

/// Where a range of lines starts in a hunk header: the first line's number, or the number
/// of the line before when the range is empty.
pub open spec fn range_start(before: nat, count: nat) -> nat {
    if count == 0 { before } else { before + 1 }
}

/// The old start, old count, new start and new count of the hunk `h`.
pub open spec fn hunk_ranges(ops: Seq<DiffOp>, h: (int, int)) -> (nat, nat, nat, nat) {
    let pre = ops.take(h.0);
    let body = ops.subrange(h.0, h.1);
    (
        range_start(old_count(pre), old_count(body)),
        old_count(body),
        range_start(new_count(pre), new_count(body)),
        new_count(body),
    )
}

/// `-start,count` or `+start,count`.
pub open spec fn range_text(sign: char, start: nat, count: nat) -> Seq<char> {
    seq![sign] + decimal(start) + seq![','] + decimal(count)
}

/// The `@@ -a,b +c,d @@` line of a hunk.
pub open spec fn hunk_header(ops: Seq<DiffOp>, h: (int, int)) -> Seq<char> {
    let r = hunk_ranges(ops, h);
    "@@ "@ + range_text('-', r.0, r.1) + seq![' '] + range_text('+', r.2, r.3) + " @@"@
}

/// The line that follows a line with no line break at its end.
pub open spec fn no_newline_marker() -> Seq<char> {
    "\\ No newline at end of file"@
}

pub open spec fn with_marker(line: Seq<char>, newline: bool) -> Seq<Seq<char>> {
    if newline { seq![line] } else { seq![line, no_newline_marker()] }
}

/// The patch lines of one step: the line behind a space, `-` or `+`, and the marker when
/// that line has no line break.
pub open spec fn raw_op_lines(a: Seq<(Seq<char>, bool)>, b: Seq<(Seq<char>, bool)>, op: DiffOp) -> Seq<Seq<char>> {
    match op {
        DiffOp::Equal { old, .. } => with_marker(seq![' '] + a[old as int].0, a[old as int].1),
        DiffOp::Delete { old } => with_marker(seq!['-'] + a[old as int].0, a[old as int].1),
        DiffOp::Insert { new } => with_marker(seq!['+'] + b[new as int].0, b[new as int].1),
    }
}

/// The patch lines of the steps `k..e`.
pub open spec fn raw_body(a: Seq<(Seq<char>, bool)>, b: Seq<(Seq<char>, bool)>, ops: Seq<DiffOp>, k: int, e: int) -> Seq<Seq<char>>
    decreases e - k,
{
    if k >= e {
        Seq::empty()
    } else {
        raw_op_lines(a, b, ops[k]) + raw_body(a, b, ops, k + 1, e)
    }
}

/// The patch lines of the hunks `hs[t..]`, each behind its header when headers are shown.
pub open spec fn raw_hunks(
    a: Seq<(Seq<char>, bool)>,
    b: Seq<(Seq<char>, bool)>,
    ops: Seq<DiffOp>,
    hs: Seq<(int, int)>,
    t: int,
    headers: bool,
) -> Seq<Seq<char>>
    decreases hs.len() - t,
{
    if t < 0 || t >= hs.len() {
        Seq::empty()
    } else {
        (if headers { seq![hunk_header(ops, hs[t])] } else { Seq::empty() }) + raw_body(a, b, ops, hs[t].0, hs[t].1)
            + raw_hunks(a, b, ops, hs, t + 1, headers)
    }
}

/// The `--- old` and `+++ new` lines.
pub open spec fn file_headers(old_label: Seq<char>, new_label: Seq<char>) -> Seq<Seq<char>> {
    seq!["--- "@ + old_label, "+++ "@ + new_label]
}

/// A unified patch: nothing when the texts have the same lines; else the file headers and
/// each hunk with its header, when headers are shown, and the hunks' lines.
pub open spec fn raw_patch(
    a: Seq<(Seq<char>, bool)>,
    b: Seq<(Seq<char>, bool)>,
    ops: Seq<DiffOp>,
    context: nat,
    old_label: Seq<char>,
    new_label: Seq<char>,
    headers: bool,
) -> Seq<Seq<char>> {
    let hs = hunks(ops, context);
    if hs.len() == 0 {
        Seq::empty()
    } else {
        (if headers { file_headers(old_label, new_label) } else { Seq::empty() }) + raw_hunks(a, b, ops, hs, 0, headers)
    }
}

/// The number of old and of new lines before each step, and after the last.
fn prefix_counts(ops: &Vec<DiffOp>) -> (r: (Vec<usize>, Vec<usize>))
    ensures
        r.0.len() == ops.len() + 1,
        r.1.len() == ops.len() + 1,
        forall|k: int| 0 <= k <= ops.len() ==> #[trigger] r.0[k] == old_count(ops@.take(k)),
        forall|k: int| 0 <= k <= ops.len() ==> #[trigger] r.1[k] == new_count(ops@.take(k)),
{
    let mut olds: Vec<usize> = Vec::new();
    let mut news: Vec<usize> = Vec::new();
    olds.push(0);
    news.push(0);
    assert(ops@.take(0) =~= Seq::<DiffOp>::empty());
    let mut k: usize = 0;
    while k < ops.len()
        invariant
            k <= ops.len(),
            olds.len() == k + 1,
            news.len() == k + 1,
            forall|x: int| 0 <= x <= k ==> #[trigger] olds[x] == old_count(ops@.take(x)),
            forall|x: int| 0 <= x <= k ==> #[trigger] news[x] == new_count(ops@.take(x)),
            forall|x: int| 0 <= x <= k ==> #[trigger] olds[x] <= x,
            forall|x: int| 0 <= x <= k ==> #[trigger] news[x] <= x,
        decreases ops.len() - k,
    {
        let o = olds[k];
        let w = news[k];
        assert(ops@.take(k + 1).drop_last() =~= ops@.take(k as int));
        let op = ops[k];
        let o2 = if keeps_line(&op) { o + 1 } else {
            match op {
                DiffOp::Delete { .. } => o + 1,
                _ => o,
            }
        };
        let w2 = if keeps_line(&op) { w + 1 } else {
            match op {
                DiffOp::Insert { .. } => w + 1,
                _ => w,
            }
        };
        olds.push(o2);
        news.push(w2);
        k += 1;
    }
    (olds, news)
}

/// The header line of the hunk `h`.
#[verifier::spinoff_prover]
#[verifier::rlimit(40)]
fn hunk_header_text(ops: &Vec<DiffOp>, olds: &Vec<usize>, news: &Vec<usize>, h: Hunk) -> (r: String)
    requires
        h.start <= h.end <= ops.len(),
        olds.len() == ops.len() + 1,
        news.len() == ops.len() + 1,
        forall|k: int| 0 <= k <= ops.len() ==> #[trigger] olds[k] == old_count(ops@.take(k)),
        forall|k: int| 0 <= k <= ops.len() ==> #[trigger] news[k] == new_count(ops@.take(k)),
    ensures
        r@ == hunk_header(ops@, (h.start as int, h.end as int)),
{
    let s = h.start;
    let e = h.end;
    proof {
        assert(ops@.take(e as int) =~= ops@.take(s as int) + ops@.subrange(s as int, e as int));
        lemma_counts_append(ops@.take(s as int), ops@.subrange(s as int, e as int));
    }
    let old_before = olds[s];
    let old_len = olds[e] - olds[s];
    let new_before = news[s];
    let new_len = news[e] - news[s];
    let old_start = if old_len == 0 { old_before } else { old_before + 1 };
    let new_start = if new_len == 0 { new_before } else { new_before + 1 };
    let mut out = String::new();
    push_text(&mut out, "@@ -");
    push_decimal(&mut out, old_start);
    push_char(&mut out, ',');
    push_decimal(&mut out, old_len);
    push_text(&mut out, " +");
    push_decimal(&mut out, new_start);
    push_char(&mut out, ',');
    push_decimal(&mut out, new_len);
    push_text(&mut out, " @@");
    proof {
        reveal_strlit("@@ -");
        reveal_strlit("@@ ");
        reveal_strlit(" +");
        reveal_strlit(" @@");
        assert(out@ =~= hunk_header(ops@, (h.start as int, h.end as int)));
    }
    out
}

/// The script's lines are the old and new lines and it reads them in order.
pub open spec fn script_ok(old_lines: Seq<DiffLine>, new_lines: Seq<DiffLine>, ops: Seq<DiffOp>) -> bool {
    valid_script(line_views(old_lines), line_views(new_lines), ops)
}

/// Pushes `line` and, when it had no line break, the marker.
fn push_with_marker(out: &mut Vec<String>, line: String, newline: bool)
    ensures
        string_views(final(out)@) == string_views(old(out)@) + with_marker(line@, newline),
{
    out.push(line);
    if !newline {
        let marker = String::from_str("\\ No newline at end of file");
        proof {
            reveal_strlit("\\ No newline at end of file");
        }
        out.push(marker);
    }
    assert(string_views(final(out)@) =~= string_views(old(out)@) + with_marker(line@, newline));
}

/// The patch lines of step `k`.
fn push_raw_op(out: &mut Vec<String>, a: &Vec<DiffLine>, b: &Vec<DiffLine>, ops: &Vec<DiffOp>, k: usize)
    requires
        script_ok(a@, b@, ops@),
        k < ops.len(),
    ensures
        string_views(final(out)@) == string_views(old(out)@) + raw_op_lines(line_views(a@), line_views(b@), ops@[k as int]),
{
    assert(step_ok(line_views(a@), line_views(b@), ops@, k as int));
    match ops[k] {
        DiffOp::Equal { old, .. } => {
            let mut line = String::new();
            push_char(&mut line, ' ');
            line.append(a[old].text.as_str());
            assert(line_views(a@)[old as int] == line_view(a@[old as int]));
            push_with_marker(out, line, a[old].newline);
        },
        DiffOp::Delete { old } => {
            let mut line = String::new();
            push_char(&mut line, '-');
            line.append(a[old].text.as_str());
            assert(line_views(a@)[old as int] == line_view(a@[old as int]));
            push_with_marker(out, line, a[old].newline);
        },
        DiffOp::Insert { new } => {
            let mut line = String::new();
            push_char(&mut line, '+');
            line.append(b[new].text.as_str());
            assert(line_views(b@)[new as int] == line_view(b@[new as int]));
            push_with_marker(out, line, b[new].newline);
        },
    }
}

/// The unified patch of the script `ops` between `a` and `b`.
pub fn raw_patch_lines(
    a: &Vec<DiffLine>,
    b: &Vec<DiffLine>,
    ops: &Vec<DiffOp>,
    context: usize,
    old_label: &String,
    new_label: &String,
    headers: bool,
) -> (r: Vec<String>)
    requires
        script_ok(a@, b@, ops@),
    ensures
        string_views(r@) == raw_patch(line_views(a@), line_views(b@), ops@, context as nat, old_label@, new_label@, headers),
{
    let ghost av = line_views(a@);
    let ghost bv = line_views(b@);
    let hs = find_hunks(ops, context);
    let ghost hv = hunk_views(hs@);
    let mut out: Vec<String> = Vec::new();
    if hs.len() == 0 {
        assert(string_views(out@) =~= Seq::<Seq<char>>::empty());
        return out;
    }
    if headers {
        let mut first = String::from_str("--- ");
        first.append(old_label.as_str());
        let mut second = String::from_str("+++ ");
        second.append(new_label.as_str());
        out.push(first);
        out.push(second);
        proof {
            reveal_strlit("--- ");
            reveal_strlit("+++ ");
        }
    }
    let ghost start = string_views(out@);
    assert(start =~= (if headers { file_headers(old_label@, new_label@) } else { Seq::empty() }));
    let (olds, news) = prefix_counts(ops);
    let mut t: usize = 0;
    while t < hs.len()
        invariant
            script_ok(a@, b@, ops@),
            av == line_views(a@),
            bv == line_views(b@),
            hv == hunk_views(hs@),
            hv == hunks(ops@, context as nat),
            forall|h: int| 0 <= h < hs.len() ==> #[trigger] hs[h].start < hs[h].end <= ops.len(),
            olds.len() == ops.len() + 1,
            news.len() == ops.len() + 1,
            forall|k: int| 0 <= k <= ops.len() ==> #[trigger] olds[k] == old_count(ops@.take(k)),
            forall|k: int| 0 <= k <= ops.len() ==> #[trigger] news[k] == new_count(ops@.take(k)),
            t <= hs.len(),
            string_views(out@) + raw_hunks(av, bv, ops@, hv, t as int, headers) == start + raw_hunks(av, bv, ops@, hv, 0, headers),
        decreases hs.len() - t,
    {
        let h = hs[t];
        let ghost before = string_views(out@);
        if headers {
            let header = hunk_header_text(ops, &olds, &news, h);
            out.push(header);
        }
        assert(hv[t as int] == (h.start as int, h.end as int));
        let ghost mid = string_views(out@);
        assert(mid =~= before + (if headers { seq![hunk_header(ops@, hv[t as int])] } else { Seq::empty() }));
        let mut k = h.start;
        while k < h.end
            invariant
                script_ok(a@, b@, ops@),
                av == line_views(a@),
                bv == line_views(b@),
                h.start <= k <= h.end <= ops.len(),
                string_views(out@) + raw_body(av, bv, ops@, k as int, h.end as int) == mid + raw_body(av, bv, ops@, h.start as int, h.end as int),
            decreases h.end - k,
        {
            let ghost prev = string_views(out@);
            push_raw_op(&mut out, a, b, ops, k);
            assert(raw_body(av, bv, ops@, k as int, h.end as int) == raw_op_lines(av, bv, ops@[k as int]) + raw_body(av, bv, ops@, k + 1, h.end as int));
            assert(string_views(out@) + raw_body(av, bv, ops@, k + 1, h.end as int) =~= prev + raw_body(av, bv, ops@, k as int, h.end as int));
            k += 1;
        }
        assert(raw_hunks(av, bv, ops@, hv, t as int, headers) == (if headers { seq![hunk_header(ops@, hv[t as int])] } else { Seq::empty() }) + raw_body(av, bv, ops@, hv[t as int].0, hv[t as int].1) + raw_hunks(av, bv, ops@, hv, t + 1, headers));
        assert(string_views(out@) =~= mid + raw_body(av, bv, ops@, h.start as int, h.end as int));
        assert(string_views(out@) + raw_hunks(av, bv, ops@, hv, t + 1, headers) =~= before + raw_hunks(av, bv, ops@, hv, t as int, headers));
        t += 1;
    }
    assert(string_views(out@) =~= start + raw_hunks(av, bv, ops@, hv, 0, headers));
    out
}

/// The width of the line-number columns: the digits of the larger line count.
pub open spec fn number_width(a_len: nat, b_len: nat) -> nat {
    decimal(if a_len >= b_len { a_len } else { b_len }).len()
}

/// One inline row: the old and new line numbers, the sign, and the line.
pub open spec fn inline_op_line(a: Seq<(Seq<char>, bool)>, b: Seq<(Seq<char>, bool)>, op: DiffOp, w: nat) -> Seq<char> {
    match op {
        DiffOp::Equal { old, new } => number((old + 1) as nat, w) + seq![' '] + number((new + 1) as nat, w) + "   "@
            + a[old as int].0,
        DiffOp::Delete { old } => number((old + 1) as nat, w) + seq![' '] + spaces(w) + " - "@ + a[old as int].0,
        DiffOp::Insert { new } => spaces(w) + seq![' '] + number((new + 1) as nat, w) + " + "@ + b[new as int].0,
    }
}

pub open spec fn inline_body(a: Seq<(Seq<char>, bool)>, b: Seq<(Seq<char>, bool)>, ops: Seq<DiffOp>, k: int, e: int, w: nat) -> Seq<Seq<char>>
    decreases e - k,
{
    if k >= e {
        Seq::empty()
    } else {
        seq![inline_op_line(a, b, ops[k], w)] + inline_body(a, b, ops, k + 1, e, w)
    }
}

pub open spec fn inline_hunks(
    a: Seq<(Seq<char>, bool)>,
    b: Seq<(Seq<char>, bool)>,
    ops: Seq<DiffOp>,
    hs: Seq<(int, int)>,
    t: int,
    headers: bool,
    w: nat,
) -> Seq<Seq<char>>
    decreases hs.len() - t,
{
    if t < 0 || t >= hs.len() {
        Seq::empty()
    } else {
        (if headers { seq![hunk_header(ops, hs[t])] } else { Seq::empty() }) + inline_body(a, b, ops, hs[t].0, hs[t].1, w)
            + inline_hunks(a, b, ops, hs, t + 1, headers, w)
    }
}

/// The inline view: the file headers when headers are shown, then each hunk (behind its
/// header when headers are shown) with one row per step; when nothing changed, every line.
pub open spec fn inline_lines(
    a: Seq<(Seq<char>, bool)>,
    b: Seq<(Seq<char>, bool)>,
    ops: Seq<DiffOp>,
    context: nat,
    old_label: Seq<char>,
    new_label: Seq<char>,
    headers: bool,
) -> Seq<Seq<char>> {
    let w = number_width(a.len(), b.len());
    let hs = hunks(ops, context);
    (if headers { file_headers(old_label, new_label) } else { Seq::empty() }) + if hs.len() == 0 {
        inline_body(a, b, ops, 0, ops.len() as int, w)
    } else {
        inline_hunks(a, b, ops, hs, 0, headers, w)
    }
}

/// The number width for `a` and `b`.
fn number_width_of(a_len: usize, b_len: usize) -> (w: usize)
    ensures
        w == number_width(a_len as nat, b_len as nat),
{
    decimal_len(if a_len >= b_len { a_len } else { b_len })
}

/// The inline row of step `k`.
fn inline_row(a: &Vec<DiffLine>, b: &Vec<DiffLine>, ops: &Vec<DiffOp>, k: usize, w: usize) -> (r: String)
    requires
        script_ok(a@, b@, ops@),
        k < ops.len(),
    ensures
        r@ == inline_op_line(line_views(a@), line_views(b@), ops@[k as int], w as nat),
{
    assert(step_ok(line_views(a@), line_views(b@), ops@, k as int));
    let mut line = String::new();
    match ops[k] {
        DiffOp::Equal { old, new } => {
            assert(line_views(a@).len() == a.len());
            assert(old < a.len() && new < b.len());
            push_number(&mut line, old + 1, w);
            push_char(&mut line, ' ');
            push_number(&mut line, new + 1, w);
            push_text(&mut line, "   ");
            line.append(a[old].text.as_str());
            assert(line_views(a@)[old as int] == line_view(a@[old as int]));
        },
        DiffOp::Delete { old } => {
            assert(line_views(a@).len() == a.len());
            assert(old < a.len());
            push_number(&mut line, old + 1, w);
            push_char(&mut line, ' ');
            push_spaces(&mut line, w);
            push_text(&mut line, " - ");
            line.append(a[old].text.as_str());
            assert(line_views(a@)[old as int] == line_view(a@[old as int]));
        },
        DiffOp::Insert { new } => {
            assert(line_views(b@).len() == b.len());
            assert(new < b.len());
            push_spaces(&mut line, w);
            push_char(&mut line, ' ');
            push_number(&mut line, new + 1, w);
            push_text(&mut line, " + ");
            line.append(b[new].text.as_str());
            assert(line_views(b@)[new as int] == line_view(b@[new as int]));
        },
    }
    proof {
        reveal_strlit("   ");
        reveal_strlit(" - ");
        reveal_strlit(" + ");
    }
    assert(line@ =~= inline_op_line(line_views(a@), line_views(b@), ops@[k as int], w as nat));
    line
}

/// Pushes the inline rows of the steps `k..e`.
fn push_inline_body(out: &mut Vec<String>, a: &Vec<DiffLine>, b: &Vec<DiffLine>, ops: &Vec<DiffOp>, k: usize, e: usize, w: usize)
    requires
        script_ok(a@, b@, ops@),
        k <= e <= ops.len(),
    ensures
        string_views(final(out)@) == string_views(old(out)@) + inline_body(line_views(a@), line_views(b@), ops@, k as int, e as int, w as nat),
{
    let ghost av = line_views(a@);
    let ghost bv = line_views(b@);
    let ghost start = string_views(out@);
    let mut x = k;
    while x < e
        invariant
            script_ok(a@, b@, ops@),
            av == line_views(a@),
            bv == line_views(b@),
            k <= x <= e <= ops.len(),
            string_views(out@) + inline_body(av, bv, ops@, x as int, e as int, w as nat) == start + inline_body(av, bv, ops@, k as int, e as int, w as nat),
        decreases e - x,
    {
        let ghost prev = string_views(out@);
        let row = inline_row(a, b, ops, x, w);
        out.push(row);
        assert(string_views(out@) =~= prev.push(row@));
        assert(string_views(out@) + inline_body(av, bv, ops@, x + 1, e as int, w as nat) =~= prev + inline_body(av, bv, ops@, x as int, e as int, w as nat));
        x += 1;
    }
    assert(string_views(out@) =~= start + inline_body(av, bv, ops@, k as int, e as int, w as nat));
}

/// The inline view of the script `ops` between `a` and `b`.
pub fn inline_view_lines(
    a: &Vec<DiffLine>,
    b: &Vec<DiffLine>,
    ops: &Vec<DiffOp>,
    context: usize,
    old_label: &String,
    new_label: &String,
    headers: bool,
) -> (r: Vec<String>)
    requires
        script_ok(a@, b@, ops@),
    ensures
        string_views(r@) == inline_lines(line_views(a@), line_views(b@), ops@, context as nat, old_label@, new_label@, headers),
{
    let ghost av = line_views(a@);
    let ghost bv = line_views(b@);
    let w = number_width_of(a.len(), b.len());
    let hs = find_hunks(ops, context);
    let ghost hv = hunk_views(hs@);
    let mut out: Vec<String> = Vec::new();
    if headers {
        let mut first = String::from_str("--- ");
        first.append(old_label.as_str());
        let mut second = String::from_str("+++ ");
        second.append(new_label.as_str());
        out.push(first);
        out.push(second);
        proof {
            reveal_strlit("--- ");
            reveal_strlit("+++ ");
        }
    }
    let ghost start = string_views(out@);
    assert(start =~= (if headers { file_headers(old_label@, new_label@) } else { Seq::empty() }));
    if hs.len() == 0 {
        push_inline_body(&mut out, a, b, ops, 0, ops.len(), w);
        return out;
    }
    let (olds, news) = prefix_counts(ops);
    let mut t: usize = 0;
    while t < hs.len()
        invariant
            script_ok(a@, b@, ops@),
            av == line_views(a@),
            bv == line_views(b@),
            hv == hunk_views(hs@),
            hv == hunks(ops@, context as nat),
            forall|h: int| 0 <= h < hs.len() ==> #[trigger] hs[h].start < hs[h].end <= ops.len(),
            olds.len() == ops.len() + 1,
            news.len() == ops.len() + 1,
            forall|k: int| 0 <= k <= ops.len() ==> #[trigger] olds[k] == old_count(ops@.take(k)),
            forall|k: int| 0 <= k <= ops.len() ==> #[trigger] news[k] == new_count(ops@.take(k)),
            t <= hs.len(),
            string_views(out@) + inline_hunks(av, bv, ops@, hv, t as int, headers, w as nat) == start + inline_hunks(av, bv, ops@, hv, 0, headers, w as nat),
        decreases hs.len() - t,
    {
        let h = hs[t];
        let ghost before = string_views(out@);
        if headers {
            let header = hunk_header_text(ops, &olds, &news, h);
            out.push(header);
        }
        assert(hv[t as int] == (h.start as int, h.end as int));
        let ghost mid = string_views(out@);
        assert(mid =~= before + (if headers { seq![hunk_header(ops@, hv[t as int])] } else { Seq::empty() }));
        push_inline_body(&mut out, a, b, ops, h.start, h.end, w);
        assert(string_views(out@) + inline_hunks(av, bv, ops@, hv, t + 1, headers, w as nat) =~= before + inline_hunks(av, bv, ops@, hv, t as int, headers, w as nat));
        t += 1;
    }
    assert(string_views(out@) =~= start + inline_hunks(av, bv, ops@, hv, 0, headers, w as nat));
    out
}

/// One half of a side-by-side row: a line number, a sign and the line.
pub open spec fn side_cell(n: nat, w: nat, sign: char, text: Seq<char>) -> Seq<char> {
    number(n, w) + seq![' ', sign, ' '] + text
}

/// The first step at or after `k`, before `e`, that keeps a line; or `e`.
pub open spec fn change_end(ops: Seq<DiffOp>, k: int, e: int) -> int
    decreases e - k,
{
    if k >= e {
        e
    } else if ops[k] is Equal {
        k
    } else {
        change_end(ops, k + 1, e)
    }
}

pub proof fn lemma_change_end(ops: Seq<DiffOp>, k: int, e: int)
    requires
        k <= e,
    ensures
        k <= change_end(ops, k, e) <= e,
        k < e && !(ops[k] is Equal) ==> k < change_end(ops, k, e),
    decreases e - k,
{
    if k < e && !(ops[k] is Equal) {
        lemma_change_end(ops, k + 1, e);
    }
}

/// The cells of the dropped lines among the steps `k..f`, in order.
pub open spec fn deleted_cells(a: Seq<(Seq<char>, bool)>, ops: Seq<DiffOp>, k: int, f: int, w: nat) -> Seq<Seq<char>>
    decreases f - k,
{
    if k >= f {
        Seq::empty()
    } else {
        (match ops[k] {
            DiffOp::Delete { old } => seq![side_cell((old + 1) as nat, w, '-', a[old as int].0)],
            _ => Seq::empty(),
        }) + deleted_cells(a, ops, k + 1, f, w)
    }
}

/// The cells of the added lines among the steps `k..f`, in order.
pub open spec fn inserted_cells(b: Seq<(Seq<char>, bool)>, ops: Seq<DiffOp>, k: int, f: int, w: nat) -> Seq<Seq<char>>
    decreases f - k,
{
    if k >= f {
        Seq::empty()
    } else {
        (match ops[k] {
            DiffOp::Insert { new } => seq![side_cell((new + 1) as nat, w, '+', b[new as int].0)],
            _ => Seq::empty(),
        }) + inserted_cells(b, ops, k + 1, f, w)
    }
}

/// Rows pairing the `t`-th left cell with the `t`-th right cell; the shorter side is left
/// empty in the rows past its end.
pub open spec fn zip_cells(l: Seq<Seq<char>>, r: Seq<Seq<char>>) -> Seq<(Seq<char>, Seq<char>)> {
    let n = if l.len() >= r.len() { l.len() } else { r.len() };
    Seq::new(n, |t: int| (
        if t < l.len() { l[t] } else { Seq::empty() },
        if t < r.len() { r[t] } else { Seq::empty() },
    ))
}

/// The side-by-side rows of the steps `k..e`: a kept line on both sides; a run of changes as
/// its dropped lines beside its added lines.
pub open spec fn sbs_body(a: Seq<(Seq<char>, bool)>, b: Seq<(Seq<char>, bool)>, ops: Seq<DiffOp>, k: int, e: int, w: nat) -> Seq<(Seq<char>, Seq<char>)>
    decreases e - k,
{
    if k >= e {
        Seq::empty()
    } else {
        match ops[k] {
            DiffOp::Equal { old, new } => seq![(
                side_cell((old + 1) as nat, w, ' ', a[old as int].0),
                side_cell((new + 1) as nat, w, ' ', b[new as int].0),
            )] + sbs_body(a, b, ops, k + 1, e, w),
            _ => {
                let f = change_end(ops, k, e);
                proof {
                    lemma_change_end(ops, k, e);
                }
                if f <= k {
                    Seq::empty()
                } else {
                    zip_cells(deleted_cells(a, ops, k, f, w), inserted_cells(b, ops, k, f, w)) + sbs_body(a, b, ops, f, e, w)
                }
            },
        }
    }
}

/// The two halves of a hunk's header row.
pub open spec fn hunk_cells(ops: Seq<DiffOp>, h: (int, int)) -> (Seq<char>, Seq<char>) {
    let r = hunk_ranges(ops, h);
    ("@@ "@ + range_text('-', r.0, r.1) + " @@"@, "@@ "@ + range_text('+', r.2, r.3) + " @@"@)
}

pub open spec fn sbs_hunks(
    a: Seq<(Seq<char>, bool)>,
    b: Seq<(Seq<char>, bool)>,
    ops: Seq<DiffOp>,
    hs: Seq<(int, int)>,
    t: int,
    headers: bool,
    w: nat,
) -> Seq<(Seq<char>, Seq<char>)>
    decreases hs.len() - t,
{
    if t < 0 || t >= hs.len() {
        Seq::empty()
    } else {
        (if headers { seq![hunk_cells(ops, hs[t])] } else { Seq::empty() }) + sbs_body(a, b, ops, hs[t].0, hs[t].1, w)
            + sbs_hunks(a, b, ops, hs, t + 1, headers, w)
    }
}

/// The side-by-side rows: the file header row when headers are shown, then each hunk
/// (behind its header row when headers are shown); when nothing changed, every line.
pub open spec fn sbs_rows(
    a: Seq<(Seq<char>, bool)>,
    b: Seq<(Seq<char>, bool)>,
    ops: Seq<DiffOp>,
    context: nat,
    old_label: Seq<char>,
    new_label: Seq<char>,
    headers: bool,
) -> Seq<(Seq<char>, Seq<char>)> {
    let w = number_width(a.len(), b.len());
    let hs = hunks(ops, context);
    (if headers { seq![("--- "@ + old_label, "+++ "@ + new_label)] } else { Seq::empty() }) + if hs.len() == 0 {
        sbs_body(a, b, ops, 0, ops.len() as int, w)
    } else {
        sbs_hunks(a, b, ops, hs, 0, headers, w)
    }
}

/// The widest left half among the first `k` rows.
pub open spec fn max_left_width(rows: Seq<(Seq<char>, Seq<char>)>, k: int) -> nat
    decreases k,
{
    if k <= 0 {
        0
    } else {
        let rest = max_left_width(rows, k - 1);
        let w = display_width(rows[k - 1].0) as nat;
        if rest >= w { rest } else { w }
    }
}

/// A row with its left half padded to `left_width` cells, the divider, and the right half.
pub open spec fn sbs_line(row: (Seq<char>, Seq<char>), left_width: nat) -> Seq<char> {
    row.0 + spaces((left_width - display_width(row.0)) as nat) + " │ "@ + row.1
}

/// The side-by-side view: every row with the divider in the same column.
pub open spec fn sbs_lines(
    a: Seq<(Seq<char>, bool)>,
    b: Seq<(Seq<char>, bool)>,
    ops: Seq<DiffOp>,
    context: nat,
    old_label: Seq<char>,
    new_label: Seq<char>,
    headers: bool,
) -> Seq<Seq<char>> {
    let rows = sbs_rows(a, b, ops, context, old_label, new_label, headers);
    let lw = max_left_width(rows, rows.len() as int);
    Seq::new(rows.len(), |t: int| sbs_line(rows[t], lw))
}

/// A side-by-side row.
#[derive(Debug, Clone, PartialEq, Eq)]
pub struct SideRow {
    pub left: String,
    pub right: String,
}

pub open spec fn side_row_views(v: Seq<SideRow>) -> Seq<(Seq<char>, Seq<char>)> {
    v.map_values(|r: SideRow| (r.left@, r.right@))
}

fn side_cell_text(n: usize, w: usize, sign: char, text: &String) -> (r: String)
    ensures
        r@ == side_cell(n as nat, w as nat, sign, text@),
{
    let mut out = String::new();
    push_number(&mut out, n, w);
    push_char(&mut out, ' ');
    push_char(&mut out, sign);
    push_char(&mut out, ' ');
    out.append(text.as_str());
    assert(out@ =~= side_cell(n as nat, w as nat, sign, text@));
    out
}

/// Pushes the rows of a run of changes `k..f` and returns `f`.
fn push_change_run(out: &mut Vec<SideRow>, a: &Vec<DiffLine>, b: &Vec<DiffLine>, ops: &Vec<DiffOp>, k: usize, e: usize, w: usize) -> (f: usize)
    requires
        script_ok(a@, b@, ops@),
        k < e <= ops.len(),
        !(ops@[k as int] is Equal),
    ensures
        f == change_end(ops@, k as int, e as int),
        k < f <= e,
        side_row_views(final(out)@) == side_row_views(old(out)@) + zip_cells(
            deleted_cells(line_views(a@), ops@, k as int, f as int, w as nat),
            inserted_cells(line_views(b@), ops@, k as int, f as int, w as nat),
        ),
{
    let ghost av = line_views(a@);
    let ghost bv = line_views(b@);
    let mut dels: Vec<String> = Vec::new();
    let mut ins: Vec<String> = Vec::new();
    let mut x = k;
    while x < e && !keeps_line(&ops[x])
        invariant
            script_ok(a@, b@, ops@),
            av == line_views(a@),
            bv == line_views(b@),
            k <= x <= e <= ops.len(),
            change_end(ops@, k as int, e as int) == change_end(ops@, x as int, e as int),
            forall|y: int| k <= y < x ==> !(#[trigger] ops@[y] is Equal),
            string_views(dels@) == deleted_cells(av, ops@, k as int, x as int, w as nat),
            string_views(ins@) == inserted_cells(bv, ops@, k as int, x as int, w as nat),
        decreases e - x,
    {
        assert(step_ok(av, bv, ops@, x as int));
        proof {
            lemma_cells_extend(av, bv, ops@, k as int, x as int, w as nat);
        }
        match ops[x] {
            DiffOp::Delete { old } => {
                assert(av.len() == a.len());
                assert(old < a.len());
                assert(av[old as int] == line_view(a@[old as int]));
                let cell = side_cell_text(old + 1, w, '-', &a[old].text);
                dels.push(cell);
            },
            DiffOp::Insert { new } => {
                assert(bv.len() == b.len());
                assert(new < b.len());
                assert(bv[new as int] == line_view(b@[new as int]));
                let cell = side_cell_text(new + 1, w, '+', &b[new].text);
                ins.push(cell);
            },
            DiffOp::Equal { .. } => {},
        }
        assert(string_views(dels@) =~= deleted_cells(av, ops@, k as int, x + 1, w as nat));
        assert(string_views(ins@) =~= inserted_cells(bv, ops@, k as int, x + 1, w as nat));
        x += 1;
    }
    proof {
        lemma_change_end(ops@, k as int, e as int);
        lemma_change_end_stops(ops@, x as int, e as int);
    }
    let d = dels.len();
    let q = ins.len();
    let n = if d >= q { d } else { q };
    let ghost start = side_row_views(out@);
    let ghost zipped = zip_cells(string_views(dels@), string_views(ins@));
    let mut t: usize = 0;
    while t < n
        invariant
            d == dels.len(),
            q == ins.len(),
            n == (if d >= q { d } else { q }),
            zipped == zip_cells(string_views(dels@), string_views(ins@)),
            t <= n,
            side_row_views(out@) == start + zipped.take(t as int),
        decreases n - t,
    {
        let left = if t < d { dels[t].clone() } else { String::new() };
        let right = if t < q { ins[t].clone() } else { String::new() };
        assert(string_views(dels@).len() == d && string_views(ins@).len() == q);
        assert(zipped[t as int] == (left@, right@));
        let ghost prev = side_row_views(out@);
        out.push(SideRow { left, right });
        assert(side_row_views(out@) =~= prev.push((left@, right@)));
        assert(zipped.take(t + 1) =~= zipped.take(t as int).push(zipped[t as int]));
        assert(side_row_views(out@) =~= start + zipped.take(t + 1));
        t += 1;
    }
    assert(zipped.take(n as int) =~= zipped);
    x
}

proof fn lemma_change_end_stops(ops: Seq<DiffOp>, x: int, e: int)
    requires
        x <= e,
        x == e || ops[x] is Equal,
    ensures
        change_end(ops, x, e) == x,
{
}

proof fn lemma_cells_extend(a: Seq<(Seq<char>, bool)>, b: Seq<(Seq<char>, bool)>, ops: Seq<DiffOp>, k: int, x: int, w: nat)
    requires
        k <= x < ops.len(),
    ensures
        deleted_cells(a, ops, k, x + 1, w) == deleted_cells(a, ops, k, x, w) + (match ops[x] {
            DiffOp::Delete { old } => seq![side_cell((old + 1) as nat, w, '-', a[old as int].0)],
            _ => Seq::empty(),
        }),
        inserted_cells(b, ops, k, x + 1, w) == inserted_cells(b, ops, k, x, w) + (match ops[x] {
            DiffOp::Insert { new } => seq![side_cell((new + 1) as nat, w, '+', b[new as int].0)],
            _ => Seq::empty(),
        }),
    decreases x - k,
{
    if k < x {
        lemma_cells_extend(a, b, ops, k + 1, x, w);
        assert(deleted_cells(a, ops, k, x + 1, w) =~= deleted_cells(a, ops, k, x, w) + (match ops[x] {
            DiffOp::Delete { old } => seq![side_cell((old + 1) as nat, w, '-', a[old as int].0)],
            _ => Seq::empty(),
        }));
        assert(inserted_cells(b, ops, k, x + 1, w) =~= inserted_cells(b, ops, k, x, w) + (match ops[x] {
            DiffOp::Insert { new } => seq![side_cell((new + 1) as nat, w, '+', b[new as int].0)],
            _ => Seq::empty(),
        }));
    } else {
        assert(deleted_cells(a, ops, x + 1, x + 1, w) =~= Seq::<Seq<char>>::empty());
        assert(inserted_cells(b, ops, x + 1, x + 1, w) =~= Seq::<Seq<char>>::empty());
        assert(deleted_cells(a, ops, x, x + 1, w) =~= Seq::empty() + (match ops[x] {
            DiffOp::Delete { old } => seq![side_cell((old + 1) as nat, w, '-', a[old as int].0)],
            _ => Seq::empty(),
        }));
        assert(inserted_cells(b, ops, x, x + 1, w) =~= Seq::empty() + (match ops[x] {
            DiffOp::Insert { new } => seq![side_cell((new + 1) as nat, w, '+', b[new as int].0)],
            _ => Seq::empty(),
        }));
    }
}

/// Pushes the side-by-side rows of the steps `k..e`.
fn push_sbs_body(out: &mut Vec<SideRow>, a: &Vec<DiffLine>, b: &Vec<DiffLine>, ops: &Vec<DiffOp>, k: usize, e: usize, w: usize)
    requires
        script_ok(a@, b@, ops@),
        k <= e <= ops.len(),
    ensures
        side_row_views(final(out)@) == side_row_views(old(out)@) + sbs_body(line_views(a@), line_views(b@), ops@, k as int, e as int, w as nat),
{
    let ghost av = line_views(a@);
    let ghost bv = line_views(b@);
    let ghost start = side_row_views(out@);
    let mut x = k;
    while x < e
        invariant
            script_ok(a@, b@, ops@),
            av == line_views(a@),
            bv == line_views(b@),
            k <= x <= e <= ops.len(),
            side_row_views(out@) + sbs_body(av, bv, ops@, x as int, e as int, w as nat) == start + sbs_body(av, bv, ops@, k as int, e as int, w as nat),
        decreases e - x,
    {
        let ghost prev = side_row_views(out@);
        assert(step_ok(av, bv, ops@, x as int));
        match ops[x] {
            DiffOp::Equal { old, new } => {
                assert(av.len() == a.len() && bv.len() == b.len());
                assert(old < a.len() && new < b.len());
                assert(av[old as int] == line_view(a@[old as int]));
                assert(bv[new as int] == line_view(b@[new as int]));
                let left = side_cell_text(old + 1, w, ' ', &a[old].text);
                let right = side_cell_text(new + 1, w, ' ', &b[new].text);
                out.push(SideRow { left, right });
                assert(side_row_views(out@) =~= prev.push((left@, right@)));
                assert(side_row_views(out@) + sbs_body(av, bv, ops@, x + 1, e as int, w as nat) =~= prev + sbs_body(av, bv, ops@, x as int, e as int, w as nat));
                x += 1;
            },
            _ => {
                let f = push_change_run(out, a, b, ops, x, e, w);
                assert(side_row_views(out@) + sbs_body(av, bv, ops@, f as int, e as int, w as nat) =~= prev + sbs_body(av, bv, ops@, x as int, e as int, w as nat));
                x = f;
            },
        }
    }
    assert(side_row_views(out@) =~= start + sbs_body(av, bv, ops@, k as int, e as int, w as nat));
}

/// The side-by-side rows of the script `ops` between `a` and `b`.
fn side_rows(
    a: &Vec<DiffLine>,
    b: &Vec<DiffLine>,
    ops: &Vec<DiffOp>,
    context: usize,
    old_label: &String,
    new_label: &String,
    headers: bool,
) -> (r: Vec<SideRow>)
    requires
        script_ok(a@, b@, ops@),
    ensures
        side_row_views(r@) == sbs_rows(line_views(a@), line_views(b@), ops@, context as nat, old_label@, new_label@, headers),
{
    let ghost av = line_views(a@);
    let ghost bv = line_views(b@);
    let w = number_width_of(a.len(), b.len());
    let hs = find_hunks(ops, context);
    let ghost hv = hunk_views(hs@);
    let mut out: Vec<SideRow> = Vec::new();
    if headers {
        let mut left = String::from_str("--- ");
        left.append(old_label.as_str());
        let mut right = String::from_str("+++ ");
        right.append(new_label.as_str());
        out.push(SideRow { left, right });
        proof {
            reveal_strlit("--- ");
            reveal_strlit("+++ ");
        }
    }
    let ghost start = side_row_views(out@);
    assert(start =~= (if headers { seq![("--- "@ + old_label@, "+++ "@ + new_label@)] } else { Seq::empty() }));
    if hs.len() == 0 {
        push_sbs_body(&mut out, a, b, ops, 0, ops.len(), w);
        return out;
    }
    let (olds, news) = prefix_counts(ops);
    let mut t: usize = 0;
    while t < hs.len()
        invariant
            script_ok(a@, b@, ops@),
            av == line_views(a@),
            bv == line_views(b@),
            hv == hunk_views(hs@),
            hv == hunks(ops@, context as nat),
            forall|h: int| 0 <= h < hs.len() ==> #[trigger] hs[h].start < hs[h].end <= ops.len(),
            olds.len() == ops.len() + 1,
            news.len() == ops.len() + 1,
            forall|k: int| 0 <= k <= ops.len() ==> #[trigger] olds[k] == old_count(ops@.take(k)),
            forall|k: int| 0 <= k <= ops.len() ==> #[trigger] news[k] == new_count(ops@.take(k)),
            t <= hs.len(),
            side_row_views(out@) + sbs_hunks(av, bv, ops@, hv, t as int, headers, w as nat) == start + sbs_hunks(av, bv, ops@, hv, 0, headers, w as nat),
        decreases hs.len() - t,
    {
        let h = hs[t];
        let ghost before = side_row_views(out@);
        assert(hv[t as int] == (h.start as int, h.end as int));
        if headers {
            let cells = hunk_cell_texts(ops, &olds, &news, h);
            out.push(cells);
        }
        let ghost mid = side_row_views(out@);
        assert(mid =~= before + (if headers { seq![hunk_cells(ops@, hv[t as int])] } else { Seq::empty() }));
        push_sbs_body(&mut out, a, b, ops, h.start, h.end, w);
        assert(side_row_views(out@) + sbs_hunks(av, bv, ops@, hv, t + 1, headers, w as nat) =~= before + sbs_hunks(av, bv, ops@, hv, t as int, headers, w as nat));
        t += 1;
    }
    assert(side_row_views(out@) =~= start + sbs_hunks(av, bv, ops@, hv, 0, headers, w as nat));
    out
}

/// The header row of the hunk `h`.
#[verifier::spinoff_prover]
#[verifier::rlimit(40)]
fn hunk_cell_texts(ops: &Vec<DiffOp>, olds: &Vec<usize>, news: &Vec<usize>, h: Hunk) -> (r: SideRow)
    requires
        h.start <= h.end <= ops.len(),
        olds.len() == ops.len() + 1,
        news.len() == ops.len() + 1,
        forall|k: int| 0 <= k <= ops.len() ==> #[trigger] olds[k] == old_count(ops@.take(k)),
        forall|k: int| 0 <= k <= ops.len() ==> #[trigger] news[k] == new_count(ops@.take(k)),
    ensures
        (r.left@, r.right@) == hunk_cells(ops@, (h.start as int, h.end as int)),
{
    let s = h.start;
    let e = h.end;
    proof {
        assert(ops@.take(e as int) =~= ops@.take(s as int) + ops@.subrange(s as int, e as int));
        lemma_counts_append(ops@.take(s as int), ops@.subrange(s as int, e as int));
    }
    let old_before = olds[s];
    let old_len = olds[e] - olds[s];
    let new_before = news[s];
    let new_len = news[e] - news[s];
    let old_start = if old_len == 0 { old_before } else { old_before + 1 };
    let new_start = if new_len == 0 { new_before } else { new_before + 1 };
    let mut left = String::new();
    push_text(&mut left, "@@ -");
    push_decimal(&mut left, old_start);
    push_char(&mut left, ',');
    push_decimal(&mut left, old_len);
    push_text(&mut left, " @@");
    let mut right = String::new();
    push_text(&mut right, "@@ +");
    push_decimal(&mut right, new_start);
    push_char(&mut right, ',');
    push_decimal(&mut right, new_len);
    push_text(&mut right, " @@");
    proof {
        reveal_strlit("@@ -");
        reveal_strlit("@@ +");
        reveal_strlit("@@ ");
        reveal_strlit(" @@");
        assert(left@ =~= hunk_cells(ops@, (h.start as int, h.end as int)).0);
        assert(right@ =~= hunk_cells(ops@, (h.start as int, h.end as int)).1);
    }
    SideRow { left, right }
}

/// The side-by-side view of the script `ops` between `a` and `b`.
pub fn side_by_side_lines(
    a: &Vec<DiffLine>,
    b: &Vec<DiffLine>,
    ops: &Vec<DiffOp>,
    context: usize,
    old_label: &String,
    new_label: &String,
    headers: bool,
) -> (r: Vec<String>)
    requires
        script_ok(a@, b@, ops@),
    ensures
        string_views(r@) == sbs_lines(line_views(a@), line_views(b@), ops@, context as nat, old_label@, new_label@, headers),
{
    let rows = side_rows(a, b, ops, context, old_label, new_label, headers);
    let ghost rv = side_row_views(rows@);
    let mut widths: Vec<usize> = Vec::new();
    let mut lw: usize = 0;
    let mut k: usize = 0;
    while k < rows.len()
        invariant
            rv == side_row_views(rows@),
            k <= rows.len(),
            widths.len() == k,
            forall|x: int| 0 <= x < k ==> #[trigger] widths[x] == display_width(rv[x].0),
            lw == max_left_width(rv, k as int),
        decreases rows.len() - k,
    {
        let wd = text_width(rows[k].left.as_str());
        widths.push(wd);
        if wd > lw {
            lw = wd;
        }
        k += 1;
    }
    proof {
        lemma_max_left_width(rv, rv.len() as int);
    }
    let mut out: Vec<String> = Vec::new();
    let mut t: usize = 0;
    while t < rows.len()
        invariant
            rv == side_row_views(rows@),
            widths.len() == rows.len(),
            forall|x: int| 0 <= x < rows.len() ==> #[trigger] widths[x] == display_width(rv[x].0),
            lw == max_left_width(rv, rv.len() as int),
            forall|x: int| 0 <= x < rv.len() ==> display_width(#[trigger] rv[x].0) <= lw,
            t <= rows.len(),
            out.len() == t,
            forall|x: int| 0 <= x < t ==> #[trigger] out@[x]@ == sbs_line(rv[x], lw as nat),
        decreases rows.len() - t,
    {
        let mut line = rows[t].left.clone();
        assert(widths[t as int] <= lw);
        push_spaces(&mut line, lw - widths[t]);
        push_text(&mut line, " │ ");
        line.append(rows[t].right.as_str());
        proof {
            reveal_strlit(" │ ");
        }
        assert(line@ =~= sbs_line(rv[t as int], lw as nat));
        out.push(line);
        t += 1;
    }
    assert(string_views(out@) =~= sbs_lines(line_views(a@), line_views(b@), ops@, context as nat, old_label@, new_label@, headers));
    out
}

proof fn lemma_max_left_width(rows: Seq<(Seq<char>, Seq<char>)>, k: int)
    requires
        0 <= k <= rows.len(),
    ensures
        forall|x: int| 0 <= x < k ==> display_width(#[trigger] rows[x].0) <= max_left_width(rows, k),
    decreases k,
{
    if k > 0 {
        lemma_max_left_width(rows, k - 1);
    }
}

/// How a diff is laid out.
#[derive(Debug, Clone, Copy, PartialEq, Eq, Structural)]
pub enum DiffStyle {
    SideBySide,
    Inline,
    Word,
    RawPatch,
}

/// The lines of context shown around each change unless set otherwise.
pub const DEFAULT_CONTEXT_LINES: usize = 3;
/// The fewest rows a diff viewer asks for unless set otherwise.
pub const DEFAULT_MIN_ROWS: u16 = 1;
/// The most rows a diff viewer asks for unless set otherwise.
pub const DEFAULT_MAX_ROWS: u16 = 20;

/// A diff between two texts and how it is shown.
pub struct DiffViewer {
    pub old_lines: Vec<DiffLine>,
    pub new_lines: Vec<DiffLine>,
    pub ops: Vec<DiffOp>,
    pub diff_style: DiffStyle,
    pub context_lines: usize,
    pub show_headers: bool,
    pub wrap: bool,
    pub old_label: String,
    pub new_label: String,
    pub min_rows: u16,
    pub max_rows: u16,
    pub area: Rect,
}

impl DiffViewer {
    /// The script walks both texts' lines in order, keeps as many lines as any script can and
    /// lists the dropped lines of a run of changes before the added ones; the row bounds are
    /// ordered.
    pub open spec fn wf(&self) -> bool {
        &&& script_ok(self.old_lines@, self.new_lines@, self.ops@)
        &&& equal_count(self.ops@) == lcs(line_views(self.old_lines@), line_views(self.new_lines@), 0, 0)
        &&& forall|k: int| 0 <= k < self.ops@.len() - 1 ==> !(#[trigger] self.ops@[k] is Insert && self.ops@[k + 1] is Delete)
        &&& self.min_rows <= self.max_rows
    }

    /// Everything but the presentation settings is the same.
    pub open spec fn same_diff(&self, other: &DiffViewer) -> bool {
        &&& self.old_lines@ == other.old_lines@
        &&& self.new_lines@ == other.new_lines@
        &&& self.ops@ == other.ops@
    }

    /// The logical lines of the viewer, in its style.
    pub open spec fn spec_plain_lines(&self) -> Seq<Seq<char>> {
        let a = line_views(self.old_lines@);
        let b = line_views(self.new_lines@);
        let c = self.context_lines as nat;
        match self.diff_style {
            DiffStyle::RawPatch => raw_patch(a, b, self.ops@, c, self.old_label@, self.new_label@, self.show_headers),
            DiffStyle::SideBySide => sbs_lines(a, b, self.ops@, c, self.old_label@, self.new_label@, self.show_headers),
            _ => inline_lines(a, b, self.ops@, c, self.old_label@, self.new_label@, self.show_headers),
        }
    }

    /// The diff from `old` to `new`, side by side, with headers, three lines of context, no
    /// wrapping and the labels `old` and `new`.
    pub fn new(old: &str, new: &str) -> (r: DiffViewer)
        ensures
            r.wf(),
            line_views(r.old_lines@) == text_lines(old@),
            line_views(r.new_lines@) == text_lines(new@),
            r.ops@ == lcs_script(text_lines(old@), text_lines(new@), 0, 0),
            r.diff_style == DiffStyle::SideBySide,
            r.context_lines == DEFAULT_CONTEXT_LINES,
            r.show_headers,
            !r.wrap,
            r.old_label@ == "old"@,
            r.new_label@ == "new"@,
            r.min_rows == DEFAULT_MIN_ROWS,
            r.max_rows == DEFAULT_MAX_ROWS,
            r.area == Rect::spec_new(0, 0, 0, 0),
    {
        let old_lines = split_lines(old);
        let new_lines = split_lines(new);
        let ops = diff_lines(&old_lines, &new_lines);
        DiffViewer {
            old_lines,
            new_lines,
            ops,
            diff_style: DiffStyle::SideBySide,
            context_lines: DEFAULT_CONTEXT_LINES,
            show_headers: true,
            wrap: false,
            old_label: String::from_str("old"),
            new_label: String::from_str("new"),
            min_rows: DEFAULT_MIN_ROWS,
            max_rows: DEFAULT_MAX_ROWS,
            area: Rect::new(0, 0, 0, 0),
        }
    }

    /// The same viewer in `style`.
    pub fn style(self, style: DiffStyle) -> (r: DiffViewer)
        requires
            self.wf(),
        ensures
            r.wf(),
            r.same_diff(&self),
            r == (DiffViewer { diff_style: style, ..self }),
    {
        DiffViewer { diff_style: style, ..self }
    }

    /// The same viewer showing `lines` lines of context around each change.
    pub fn context_lines(self, lines: usize) -> (r: DiffViewer)
        requires
            self.wf(),
        ensures
            r.wf(),
            r == (DiffViewer { context_lines: lines, ..self }),
    {
        DiffViewer { context_lines: lines, ..self }
    }

    /// Shows `lines` lines of context around each change.
    pub fn set_context_lines(&mut self, lines: usize)
        requires
            old(self).wf(),
        ensures
            final(self).wf(),
            *final(self) == (DiffViewer { context_lines: lines, ..*old(self) }),
    {
        self.context_lines = lines;
    }

    /// The same viewer with its file and hunk headers shown or hidden.
    pub fn show_headers(self, show: bool) -> (r: DiffViewer)
        requires
            self.wf(),
        ensures
            r.wf(),
            r == (DiffViewer { show_headers: show, ..self }),
    {
        DiffViewer { show_headers: show, ..self }
    }

    /// Shows or hides the file and hunk headers.
    pub fn set_show_headers(&mut self, show: bool)
        requires
            old(self).wf(),
        ensures
            final(self).wf(),
            *final(self) == (DiffViewer { show_headers: show, ..*old(self) }),
    {
        self.show_headers = show;
    }

    /// Whether the file and hunk headers are shown.
    pub fn headers_visible(&self) -> (r: bool)
        ensures
            r == self.show_headers,
    {
        self.show_headers
    }

    /// The same viewer with long lines wrapped or not.
    pub fn wrap(self, wrap: bool) -> (r: DiffViewer)
        requires
            self.wf(),
        ensures
            r.wf(),
            r == (DiffViewer { wrap, ..self }),
    {
        DiffViewer { wrap, ..self }
    }

    /// Wraps long lines or stops wrapping them.
    pub fn set_wrap(&mut self, wrap: bool)
        requires
            old(self).wf(),
        ensures
            final(self).wf(),
            *final(self) == (DiffViewer { wrap, ..*old(self) }),
    {
        self.wrap = wrap;
    }

    /// Whether long lines are wrapped.
    pub fn is_wrapping(&self) -> (r: bool)
        ensures
            r == self.wrap,
    {
        self.wrap
    }

    /// The same viewer with the names shown for the old and new texts.
    pub fn labels(self, old: &str, new: &str) -> (r: DiffViewer)
        requires
            self.wf(),
        ensures
            r.wf(),
            r.old_label@ == old@,
            r.new_label@ == new@,
            r == (DiffViewer { old_label: r.old_label, new_label: r.new_label, ..self }),
    {
        DiffViewer { old_label: String::from_str(old), new_label: String::from_str(new), ..self }
    }

    /// The same viewer asking for at least `rows` rows; the most it asks for is raised to
    /// `rows` when it was fewer.
    pub fn min_rows(self, rows: u16) -> (r: DiffViewer)
        requires
            self.wf(),
        ensures
            r.wf(),
            r == (DiffViewer {
                min_rows: rows,
                max_rows: if self.max_rows < rows { rows } else { self.max_rows },
                ..self
            }),
    {
        let max_rows = if self.max_rows < rows { rows } else { self.max_rows };
        DiffViewer { min_rows: rows, max_rows, ..self }
    }

    /// The same viewer asking for at most `rows` rows; the fewest it asks for is lowered to
    /// `rows` when it was more.
    pub fn max_rows(self, rows: u16) -> (r: DiffViewer)
        requires
            self.wf(),
        ensures
            r.wf(),
            r == (DiffViewer {
                max_rows: rows,
                min_rows: if self.min_rows > rows { rows } else { self.min_rows },
                ..self
            }),
    {
        let min_rows = if self.min_rows > rows { rows } else { self.min_rows };
        DiffViewer { max_rows: rows, min_rows, ..self }
    }

    /// The logical lines of the viewer in its style, before any wrapping.
    pub fn plain_lines(&self) -> (r: Vec<String>)
        requires
            self.wf(),
        ensures
            string_views(r@) == self.spec_plain_lines(),
    {
        match self.diff_style {
            DiffStyle::RawPatch => raw_patch_lines(
                &self.old_lines,
                &self.new_lines,
                &self.ops,
                self.context_lines,
                &self.old_label,
                &self.new_label,
                self.show_headers,
            ),
            DiffStyle::SideBySide => side_by_side_lines(
                &self.old_lines,
                &self.new_lines,
                &self.ops,
                self.context_lines,
                &self.old_label,
                &self.new_label,
                self.show_headers,
            ),
            _ => inline_view_lines(
                &self.old_lines,
                &self.new_lines,
                &self.ops,
                self.context_lines,
                &self.old_label,
                &self.new_label,
                self.show_headers,
            ),
        }
    }
}

/// The widest of the first `k` lines.
pub open spec fn max_line_width(lines: Seq<Seq<char>>, k: int) -> nat
    decreases k,
{
    if k <= 0 {
        0
    } else {
        let rest = max_line_width(lines, k - 1);
        let w = display_width(lines[k - 1]) as nat;
        if rest >= w { rest } else { w }
    }
}

/// `rows` held between `min` and `max`.
pub open spec fn clamp_rows(rows: nat, min: u16, max: u16) -> u16 {
    if rows < min { min } else if rows > max { max } else { rows as u16 }
}

impl DiffViewer {
    /// What the viewer asks for: its widest logical line (up to `u16::MAX`) and its number of
    /// logical lines held between its fewest and most rows; at least its fewest rows.
    pub fn measure(&self, proposal: LayoutProposal) -> (r: LayoutSizeHint)
        requires
            self.wf(),
        ensures
            r == (LayoutSizeHint {
                source: HintSource::Measured,
                min: LayoutSize { width: 0, height: self.min_rows },
                expand: AxisExpand { width: false, height: false },
                preferred: LayoutSize {
                    width: if max_line_width(self.spec_plain_lines(), self.spec_plain_lines().len() as int) > u16::MAX {
                        u16::MAX
                    } else {
                        max_line_width(self.spec_plain_lines(), self.spec_plain_lines().len() as int) as u16
                    },
                    height: clamp_rows(self.spec_plain_lines().len(), self.min_rows, self.max_rows),
                },
            }),
    {
        let lines = self.plain_lines();
        let ghost lv = string_views(lines@);
        let mut widest: usize = 0;
        let mut k: usize = 0;
        while k < lines.len()
            invariant
                lv == string_views(lines@),
                k <= lines.len(),
                widest == max_line_width(lv, k as int),
            decreases lines.len() - k,
        {
            let w = text_width(lines[k].as_str());
            if w > widest {
                widest = w;
            }
            k += 1;
        }
        let width: u16 = if widest > 65535 { 65535 } else { widest as u16 };
        let count = lines.len();
        let height: u16 = if count < self.min_rows as usize {
            self.min_rows
        } else if count > self.max_rows as usize {
            self.max_rows
        } else {
            count as u16
        };
        LayoutSizeHint::measured(LayoutSize::new(0, self.min_rows), LayoutSize::new(width, height))
    }

    /// Takes `area` as the space the viewer is drawn in.
    pub fn layout(&mut self, area: Rect)
        requires
            old(self).wf(),
        ensures
            final(self).wf(),
            *final(self) == (DiffViewer { area, ..*old(self) }),
    {
        self.area = area;
    }
}

/// How many leading characters of a non-empty `s` a wrapped row of `avail` cells takes:
/// those that fit, and at least one.
pub open spec fn row_take(s: Seq<char>, avail: nat) -> int {
    let f = fit_count(s, avail as usize, 0);
    if f >= 1 { f } else { 1 }
}

pub proof fn lemma_row_take(s: Seq<char>, avail: nat)
    requires
        s.len() > 0,
        avail <= usize::MAX,
    ensures
        1 <= row_take(s, avail) <= s.len(),
{
    lemma_fit_count_bounds(s, avail as usize, 0);
}

/// The continuation rows of a wrapped line: each behind `indent` spaces and holding what
/// fits in `avail` cells.
pub open spec fn wrap_rest(s: Seq<char>, avail: nat, indent: nat) -> Seq<Seq<char>>
    decreases s.len(),
{
    if s.len() == 0 || avail > usize::MAX {
        Seq::empty()
    } else {
        let c = row_take(s, avail);
        proof {
            lemma_row_take(s, avail);
        }
        seq![spaces(indent) + s.take(c)] + wrap_rest(s.skip(c), avail, indent)
    }
}

/// A line wrapped to `width` cells: the first row holds what fits, and the rest follow behind
/// `indent` spaces in what is left of the width. Every row takes at least one character, and
/// an empty line is one empty row.
pub open spec fn wrap_line(s: Seq<char>, width: nat, indent: nat) -> Seq<Seq<char>> {
    if s.len() == 0 || width > usize::MAX {
        seq![Seq::empty()]
    } else {
        let c = row_take(s, width);
        seq![s.take(c)] + wrap_rest(s.skip(c), if width > indent { (width - indent) as nat } else { 0 }, indent)
    }
}

/// The lines `lines[k..]`, each wrapped.
pub open spec fn wrap_all(lines: Seq<Seq<char>>, k: int, width: nat, indent: nat) -> Seq<Seq<char>>
    decreases lines.len() - k,
{
    if k < 0 || k >= lines.len() {
        Seq::empty()
    } else {
        wrap_line(lines[k], width, indent) + wrap_all(lines, k + 1, width, indent)
    }
}

/// How many characters of `chars[pos..]` fit in `avail` cells.
fn fit_from(chars: &Vec<char>, pos: usize, avail: usize) -> (r: usize)
    requires
        pos <= chars.len(),
    ensures
        r == fit_count(chars@.skip(pos as int), avail, 0),
        r <= chars.len() - pos,
{
    let ghost value = chars@.skip(pos as int);
    let n = chars.len() - pos;
    let mut width: usize = 0;
    let mut k: usize = 0;
    proof {
        lemma_fit_count_bounds(value, avail, 0);
    }
    while k < n
        invariant
            value == chars@.skip(pos as int),
            n == value.len(),
            pos + n == chars.len(),
            k <= n,
            width == prefix_cells(value, k as int),
            fit_count(value, avail, 0) == fit_count(value, avail, k as int),
        decreases n - k,
    {
        let mut one = String::new();
        push_char(&mut one, chars[pos + k]);
        assert(one@ =~= seq![value[k as int]]);
        let w = text_width(one.as_str());
        if w > 0 && (width > avail || w > avail - width) {
            assert(fit_count(value, avail, k as int) == k);
            return k;
        }
        width = if w > usize::MAX - width { usize::MAX } else { width + w };
        k += 1;
    }
    k
}

/// `line` wrapped to `width` cells with continuation rows behind `indent` spaces.
fn wrap_text(line: &String, width: usize, indent: usize) -> (r: Vec<String>)
    ensures
        string_views(r@) == wrap_line(line@, width as nat, indent as nat),
{
    let chars = chars_of(line.as_str());
    let n = chars.len();
    let mut out: Vec<String> = Vec::new();
    if n == 0 {
        out.push(String::new());
        assert(string_views(out@) =~= wrap_line(line@, width as nat, indent as nat));
        return out;
    }
    let f = fit_from(&chars, 0, width);
    assert(chars@.skip(0) =~= chars@);
    let c = if f >= 1 { f } else { 1 };
    out.push(string_of(&chars, 0, c));
    assert(chars@.subrange(0, c as int) =~= chars@.take(c as int));
    let avail = if width > indent { width - indent } else { 0 };
    let ghost target = wrap_line(line@, width as nat, indent as nat);
    assert(target == seq![chars@.take(c as int)] + wrap_rest(chars@.skip(c as int), avail as nat, indent as nat));
    let mut pos = c;
    while pos < n
        invariant
            n == chars.len(),
            chars@ == line@,
            1 <= pos <= n,
            string_views(out@) + wrap_rest(chars@.skip(pos as int), avail as nat, indent as nat) == target,
        decreases n - pos,
    {
        let ghost rest = chars@.skip(pos as int);
        let f = fit_from(&chars, pos, avail);
        let c = if f >= 1 { f } else { 1 };
        let mut row = String::new();
        push_spaces(&mut row, indent);
        let piece = string_of(&chars, pos, pos + c);
        row.append(piece.as_str());
        assert(chars@.subrange(pos as int, pos + c) =~= rest.take(c as int));
        let ghost prev = string_views(out@);
        out.push(row);
        assert(rest.skip(c as int) =~= chars@.skip(pos + c));
        assert(wrap_rest(rest, avail as nat, indent as nat) == seq![spaces(indent as nat) + rest.take(c as int)] + wrap_rest(rest.skip(c as int), avail as nat, indent as nat));
        assert(string_views(out@) + wrap_rest(chars@.skip(pos + c), avail as nat, indent as nat) =~= prev + wrap_rest(rest, avail as nat, indent as nat));
        pos = pos + c;
    }
    assert(chars@.skip(n as int) =~= Seq::<char>::empty());
    assert(string_views(out@) =~= target);
    out
}

/// Each of `lines` wrapped.
fn wrap_texts(lines: &Vec<String>, width: usize, indent: usize) -> (r: Vec<String>)
    ensures
        string_views(r@) == wrap_all(string_views(lines@), 0, width as nat, indent as nat),
{
    let ghost lv = string_views(lines@);
    let mut out: Vec<String> = Vec::new();
    let mut k: usize = 0;
    while k < lines.len()
        invariant
            lv == string_views(lines@),
            k <= lines.len(),
            string_views(out@) + wrap_all(lv, k as int, width as nat, indent as nat) == wrap_all(lv, 0, width as nat, indent as nat),
        decreases lines.len() - k,
    {
        let rows = wrap_text(&lines[k], width, indent);
        let ghost prev = string_views(out@);
        let mut t: usize = 0;
        while t < rows.len()
            invariant
                t <= rows.len(),
                string_views(out@) == prev + string_views(rows@).take(t as int),
            decreases rows.len() - t,
        {
            let piece = rows[t].clone();
            assert(piece@ == string_views(rows@)[t as int]);
            let ghost before = string_views(out@);
            out.push(piece);
            assert(string_views(out@) =~= before.push(piece@));
            assert(string_views(rows@).take(t + 1) =~= string_views(rows@).take(t as int).push(piece@));
            assert(string_views(out@) =~= prev + string_views(rows@).take(t + 1));
            t += 1;
        }
        assert(string_views(rows@).take(rows.len() as int) =~= string_views(rows@));
        assert(string_views(out@) + wrap_all(lv, k + 1, width as nat, indent as nat) =~= prev + wrap_all(lv, k as int, width as nat, indent as nat));
        k += 1;
    }
    out
}

/// Ten to the power `d`.
pub open spec fn pow10(d: nat) -> nat
    decreases d,
{
    if d == 0 { 1 } else { 10 * pow10((d - 1) as nat) }
}

proof fn lemma_decimal_len_bound(n: nat, d: nat)
    requires
        d >= 1,
        n < pow10(d),
    ensures
        decimal(n).len() <= d,
    decreases n,
{
    if n >= 10 {
        if d < 2 {
            reveal_with_fuel(pow10, 2);
            assert(false);
        }
        assert(pow10(d) == 10 * pow10((d - 1) as nat));
        assert(n / 10 < pow10((d - 1) as nat)) by (nonlinear_arith)
            requires
                n < 10 * pow10((d - 1) as nat),
        ;
        lemma_decimal_len_bound(n / 10, (d - 1) as nat);
    }
}

/// A machine number has at most twenty digits.
proof fn lemma_number_width_small(a_len: nat, b_len: nat)
    requires
        a_len <= usize::MAX,
        b_len <= usize::MAX,
    ensures
        number_width(a_len, b_len) <= 20,
{
    reveal_with_fuel(pow10, 21);
    assert(pow10(20) == 100000000000000000000nat);
    let m = if a_len >= b_len { a_len } else { b_len };
    lemma_decimal_len_bound(m, 20);
}

/// The left side of a side-by-side row padded to `width` cells.
pub open spec fn pad_cell(x: Seq<char>, width: nat) -> Seq<char> {
    if (display_width(x) as nat) < width {
        x + spaces((width - display_width(x)) as nat)
    } else {
        x
    }
}

/// A side-by-side row wrapped: each half wrapped in its own width, the halves' rows side by
/// side with the divider in the same column.
pub open spec fn wrapped_row(row: (Seq<char>, Seq<char>), lw: nat, rw: nat, indent: nat) -> Seq<Seq<char>> {
    let l = wrap_line(row.0, lw, indent);
    let r = wrap_line(row.1, rw, indent);
    let n = if l.len() >= r.len() { l.len() } else { r.len() };
    Seq::new(n, |t: int|
        pad_cell(if t < l.len() { l[t] } else { Seq::empty() }, lw) + " │ "@ + (if t < r.len() { r[t] } else { Seq::empty() }))
}

pub open spec fn wrapped_rows(rows: Seq<(Seq<char>, Seq<char>)>, k: int, lw: nat, rw: nat, indent: nat) -> Seq<Seq<char>>
    decreases rows.len() - k,
{
    if k < 0 || k >= rows.len() {
        Seq::empty()
    } else {
        wrapped_row(rows[k], lw, rw, indent) + wrapped_rows(rows, k + 1, lw, rw, indent)
    }
}

/// The widths of the two halves of a side-by-side view `width` cells wide.
pub open spec fn half_widths(width: nat) -> (nat, nat) {
    let inner: nat = if width > 3 { (width - 3) as nat } else { 0 };
    ((inner / 2) as nat, (inner - inner / 2) as nat)
}

fn pad_cell_text(x: &String, width: usize) -> (r: String)
    ensures
        r@ == pad_cell(x@, width as nat),
{
    let mut out = x.clone();
    let w = text_width(x.as_str());
    if w < width {
        push_spaces(&mut out, width - w);
    }
    out
}

/// One side-by-side row wrapped.
fn wrap_side_row(row: &SideRow, lw: usize, rw: usize, indent: usize) -> (r: Vec<String>)
    ensures
        string_views(r@) == wrapped_row((row.left@, row.right@), lw as nat, rw as nat, indent as nat),
{
    let l = wrap_text(&row.left, lw, indent);
    let r = wrap_text(&row.right, rw, indent);
    let n = if l.len() >= r.len() { l.len() } else { r.len() };
    let ghost target = wrapped_row((row.left@, row.right@), lw as nat, rw as nat, indent as nat);
    let mut out: Vec<String> = Vec::new();
    let mut t: usize = 0;
    while t < n
        invariant
            n == (if l.len() >= r.len() { l.len() } else { r.len() }),
            string_views(l@) == wrap_line(row.left@, lw as nat, indent as nat),
            string_views(r@) == wrap_line(row.right@, rw as nat, indent as nat),
            target == wrapped_row((row.left@, row.right@), lw as nat, rw as nat, indent as nat),
            t <= n,
            string_views(out@) == target.take(t as int),
        decreases n - t,
    {
        let empty = String::new();
        let left = if t < l.len() { &l[t] } else { &empty };
        let mut line = pad_cell_text(left, lw);
        push_text(&mut line, " │ ");
        if t < r.len() {
            line.append(r[t].as_str());
        }
        proof {
            reveal_strlit(" │ ");
        }
        assert(string_views(l@).len() == l.len() && string_views(r@).len() == r.len());
        assert(line@ =~= target[t as int]);
        let ghost prev = string_views(out@);
        out.push(line);
        assert(string_views(out@) =~= prev.push(line@));
        assert(target.take(t + 1) =~= target.take(t as int).push(target[t as int]));
        assert(string_views(out@) =~= target.take(t + 1));
        t += 1;
    }
    assert(target.take(n as int) =~= target);
    out
}

impl DiffViewer {
    /// How far continuation rows are indented: past the line numbers and the sign.
    pub open spec fn gutter(&self) -> nat {
        let w = number_width(self.old_lines@.len(), self.new_lines@.len());
        match self.diff_style {
            DiffStyle::RawPatch => 1,
            DiffStyle::SideBySide => w + 3,
            _ => 2 * w + 4,
        }
    }

    /// The viewer's lines wrapped to `width` cells; side by side, each half is wrapped in its
    /// own width.
    pub open spec fn wrapped_lines(&self, width: nat) -> Seq<Seq<char>> {
        match self.diff_style {
            DiffStyle::SideBySide => {
                let rows = sbs_rows(
                    line_views(self.old_lines@),
                    line_views(self.new_lines@),
                    self.ops@,
                    self.context_lines as nat,
                    self.old_label@,
                    self.new_label@,
                    self.show_headers,
                );
                let halves = half_widths(width);
                wrapped_rows(rows, 0, halves.0, halves.1, self.gutter())
            },
            _ => wrap_all(self.spec_plain_lines(), 0, width, self.gutter()),
        }
    }

    /// The rows shown: the logical lines, or when wrapping, the lines wrapped to the width of
    /// the laid-out area; one column narrower when they are more rows than the area is tall,
    /// which leaves room for a scrollbar.
    pub open spec fn spec_display_lines(&self) -> Seq<Seq<char>> {
        if !self.wrap {
            self.spec_plain_lines()
        } else {
            let w = self.area.width as nat;
            let full = self.wrapped_lines(w);
            if full.len() > self.area.height && w > 0 {
                self.wrapped_lines((w - 1) as nat)
            } else {
                full
            }
        }
    }

    fn gutter_width(&self) -> (g: usize)
        requires
            self.wf(),
        ensures
            g == self.gutter(),
    {
        let w = number_width_of(self.old_lines.len(), self.new_lines.len());
        proof {
            lemma_number_width_small(self.old_lines@.len(), self.new_lines@.len());
        }
        match self.diff_style {
            DiffStyle::RawPatch => 1,
            DiffStyle::SideBySide => w + 3,
            _ => 2 * w + 4,
        }
    }

    fn wrapped_at(&self, width: usize) -> (r: Vec<String>)
        requires
            self.wf(),
        ensures
            string_views(r@) == self.wrapped_lines(width as nat),
    {
        let g = self.gutter_width();
        match self.diff_style {
            DiffStyle::SideBySide => {
                let rows = side_rows(
                    &self.old_lines,
                    &self.new_lines,
                    &self.ops,
                    self.context_lines,
                    &self.old_label,
                    &self.new_label,
                    self.show_headers,
                );
                let ghost rv = side_row_views(rows@);
                let inner = if width > 3 { width - 3 } else { 0 };
                let lw = inner / 2;
                let rw = inner - lw;
                let mut out: Vec<String> = Vec::new();
                let mut k: usize = 0;
                while k < rows.len()
                    invariant
                        rv == side_row_views(rows@),
                        k <= rows.len(),
                        string_views(out@) + wrapped_rows(rv, k as int, lw as nat, rw as nat, g as nat)
                            == wrapped_rows(rv, 0, lw as nat, rw as nat, g as nat),
                    decreases rows.len() - k,
                {
                    let part = wrap_side_row(&rows[k], lw, rw, g);
                    let ghost prev = string_views(out@);
                    let mut t: usize = 0;
                    while t < part.len()
                        invariant
                            t <= part.len(),
                            string_views(out@) == prev + string_views(part@).take(t as int),
                        decreases part.len() - t,
                    {
                        let piece = part[t].clone();
                        assert(piece@ == string_views(part@)[t as int]);
                        let ghost before = string_views(out@);
                        out.push(piece);
                        assert(string_views(out@) =~= before.push(piece@));
                        assert(string_views(part@).take(t + 1) =~= string_views(part@).take(t as int).push(piece@));
                        t += 1;
                    }
                    assert(string_views(part@).take(part.len() as int) =~= string_views(part@));
                    assert(rv[k as int] == (rows@[k as int].left@, rows@[k as int].right@));
                    assert(string_views(out@) + wrapped_rows(rv, k + 1, lw as nat, rw as nat, g as nat)
                        =~= prev + wrapped_rows(rv, k as int, lw as nat, rw as nat, g as nat));
                    k += 1;
                }
                assert(string_views(out@) =~= wrapped_rows(rv, 0, lw as nat, rw as nat, g as nat));
                out
            },
            _ => {
                let lines = self.plain_lines();
                wrap_texts(&lines, width, g)
            },
        }
    }

    /// The rows shown in the laid-out area.
    pub fn display_plain_lines(&self) -> (r: Vec<String>)
        requires
            self.wf(),
        ensures
            string_views(r@) == self.spec_display_lines(),
    {
        if !self.wrap {
            return self.plain_lines();
        }
        let w = self.area.width as usize;
        let full = self.wrapped_at(w);
        if full.len() > self.area.height as usize && w > 0 {
            self.wrapped_at(w - 1)
        } else {
            full
        }
    }
}

proof fn lemma_lcs_self<T>(a: Seq<T>, i: int)
    requires
        0 <= i <= a.len(),
    ensures
        lcs(a, a, i, i) == a.len() - i,
    decreases a.len() - i,
{
    if i < a.len() {
        lemma_lcs_self(a, i + 1);
    }
}

proof fn lemma_counts_bound(ops: Seq<DiffOp>)
    ensures
        equal_count(ops) <= old_count(ops),
        equal_count(ops) <= new_count(ops),
        old_count(ops) <= ops.len(),
        equal_count(ops) == old_count(ops) ==> forall|k: int| 0 <= k < ops.len() ==> !(#[trigger] ops[k] is Delete),
        equal_count(ops) == new_count(ops) ==> forall|k: int| 0 <= k < ops.len() ==> !(#[trigger] ops[k] is Insert),
    decreases ops.len(),
{
    if ops.len() > 0 {
        let init = ops.drop_last();
        lemma_counts_bound(init);
        assert forall|k: int| 0 <= k < ops.len() - 1 implies ops[k] == init[k] by {}
    }
}

proof fn lemma_all_kept_counts(ops: Seq<DiffOp>)
    requires
        forall|k: int| 0 <= k < ops.len() ==> #[trigger] ops[k] is Equal,
    ensures
        old_count(ops) == ops.len(),
        new_count(ops) == ops.len(),
    decreases ops.len(),
{
    if ops.len() > 0 {
        let init = ops.drop_last();
        assert forall|k: int| 0 <= k < init.len() implies #[trigger] init[k] is Equal by {
            assert(init[k] == ops[k]);
        }
        lemma_all_kept_counts(init);
    }
}

proof fn lemma_shown_in_hunks(ops: Seq<DiffOp>, context: nat, k: int, x: int)
    requires
        0 <= k <= x < ops.len(),
        shown(ops, context, x),
    ensures
        hunks_from(ops, context, k).len() > 0,
    decreases ops.len() - k,
{
    if !shown(ops, context, k) {
        lemma_shown_in_hunks(ops, context, k + 1, x);
    } else {
        lemma_run_end(ops, context, k);
    }
}

proof fn lemma_no_shown_no_hunks(ops: Seq<DiffOp>, context: nat, k: int)
    requires
        0 <= k,
        forall|x: int| k <= x < ops.len() ==> !shown(ops, context, x),
    ensures
        hunks_from(ops, context, k).len() == 0,
    decreases ops.len() - k,
{
    if k < ops.len() {
        lemma_no_shown_no_hunks(ops, context, k + 1);
    }
}

/// A script has hunks exactly when it changes something.
pub proof fn lemma_hunks_iff_change(ops: Seq<DiffOp>, context: nat)
    ensures
        (hunks(ops, context).len() > 0) == has_change(ops),
{
    if has_change(ops) {
        let c = choose|c: int| #[trigger] is_change(ops, c);
        assert(shown(ops, context, c));
        lemma_shown_in_hunks(ops, context, 0, c);
    } else {
        assert forall|x: int| 0 <= x < ops.len() implies !shown(ops, context, x) by {
            if shown(ops, context, x) {
                let c = choose|c: int| #[trigger] is_change(ops, c) && x - context <= c <= x + context;
                assert(has_change(ops));
            }
        }
        lemma_no_shown_no_hunks(ops, context, 0);
    }
}

/// The two halves of a hunk's side-by-side header row carry the raw patch's hunk header: the
/// left cell is the header's old range and the right cell its new range, each between `@@ `
/// and ` @@`. Each range starts at the number of lines of its side before the hunk, plus one
/// when the hunk has lines of that side, and counts the hunk's lines of that side.
pub proof fn law_hunk_cells_match_patch_header(ops: Seq<DiffOp>, h: (int, int))
    requires
        0 <= h.0 <= h.1 <= ops.len(),
    ensures
        ({
            let (left, right) = hunk_cells(ops, h);
            let pre = ops.take(h.0);
            let body = ops.subrange(h.0, h.1);
            let old_start = if old_count(body) == 0 { old_count(pre) } else { old_count(pre) + 1 };
            let new_start = if new_count(body) == 0 { new_count(pre) } else { new_count(pre) + 1 };
            &&& hunk_header(ops, h) == left.take(left.len() - 3) + seq![' '] + right.skip(3)
            &&& left == "@@ -"@ + decimal(old_start) + seq![','] + decimal(old_count(body)) + " @@"@
            &&& right == "@@ +"@ + decimal(new_start) + seq![','] + decimal(new_count(body)) + " @@"@
        }),
{
    reveal_strlit("@@ ");
    reveal_strlit(" @@");
    reveal_strlit("@@ -");
    reveal_strlit("@@ +");
    let r = hunk_ranges(ops, h);
    let (left, right) = hunk_cells(ops, h);
    let x = range_text('-', r.0, r.1);
    let y = range_text('+', r.2, r.3);
    assert(left =~= "@@ "@ + x + " @@"@);
    assert(right =~= "@@ "@ + y + " @@"@);
    assert(left.take(left.len() - 3) =~= "@@ "@ + x);
    assert(right.skip(3) =~= y + " @@"@);
    assert(hunk_header(ops, h) =~= left.take(left.len() - 3) + seq![' '] + right.skip(3));
    assert(left =~= "@@ -"@ + decimal(r.0) + seq![','] + decimal(r.1) + " @@"@);
    assert(right =~= "@@ +"@ + decimal(r.2) + seq![','] + decimal(r.3) + " @@"@);
}

/// A unified patch of a script that reads both texts in order and keeps as many lines as
/// possible is empty exactly when the two texts have the same lines, whatever the context,
/// labels and headers.
pub proof fn law_patch_empty_iff_same_lines(
    a: Seq<(Seq<char>, bool)>,
    b: Seq<(Seq<char>, bool)>,
    ops: Seq<DiffOp>,
    context: nat,
    old_label: Seq<char>,
    new_label: Seq<char>,
    headers: bool,
)
    requires
        valid_script(a, b, ops),
        equal_count(ops) == lcs(a, b, 0, 0),
    ensures
        (raw_patch(a, b, ops, context, old_label, new_label, headers).len() == 0) == (a == b),
{
    lemma_hunks_iff_change(ops, context);
    lemma_counts_bound(ops);
    if a == b {
        lemma_lcs_self(a, 0);
        assert forall|c: int| !#[trigger] is_change(ops, c) by {
            if is_change(ops, c) {
                assert(!(ops[c] is Delete) && !(ops[c] is Insert));
            }
        }
    } else {
        if !has_change(ops) {
            assert forall|k: int| 0 <= k < ops.len() implies #[trigger] ops[k] is Equal by {
                assert(!is_change(ops, k));
            }
            lemma_all_kept_counts(ops);
            assert forall|k: int| 0 <= k < ops.len() implies a[k] == b[k] by {
                assert(step_ok(a, b, ops, k));
                assert forall|x: int| 0 <= x < ops.take(k).len() implies #[trigger] ops.take(k)[x] is Equal by {
                    assert(ops.take(k)[x] == ops[x]);
                }
                lemma_all_kept_counts(ops.take(k));
            }
            assert(a =~= b);
        }
        let hs = hunks(ops, context);
        let rest = raw_hunks(a, b, ops, hs, 0, headers);
        let first = raw_body(a, b, ops, hs[0].0, hs[0].1);
        lemma_hunk_bounds(ops, context, 0);
        lemma_raw_body_nonempty(a, b, ops, hs[0].0, hs[0].1);
        assert(rest.len() >= first.len());
    }
}

proof fn lemma_raw_body_nonempty(a: Seq<(Seq<char>, bool)>, b: Seq<(Seq<char>, bool)>, ops: Seq<DiffOp>, k: int, e: int)
    requires
        k < e,
    ensures
        raw_body(a, b, ops, k, e).len() > 0,
{
    assert(raw_op_lines(a, b, ops[k]).len() > 0);
}

/// The first hunk from `k` on is a non-empty range of steps at or after `k`.
proof fn lemma_hunk_bounds(ops: Seq<DiffOp>, context: nat, k: int)
    requires
        0 <= k,
        hunks_from(ops, context, k).len() > 0,
    ensures
        k <= hunks_from(ops, context, k)[0].0 < hunks_from(ops, context, k)[0].1 <= ops.len(),
    decreases ops.len() - k,
{
    if k < ops.len() {
        if !shown(ops, context, k) {
            lemma_hunk_bounds(ops, context, k + 1);
        } else {
            lemma_run_end(ops, context, k);
        }
    }
}

/// The logical lines do not depend on wrapping or on the area the viewer was laid out in.
pub proof fn law_plain_lines_ignore_wrapping(v: DiffViewer, wrap: bool, area: Rect)
    ensures
        (DiffViewer { wrap, area, ..v }).spec_plain_lines() == v.spec_plain_lines(),
{
}

/// A hunk is a run of shown steps that cannot be made longer on either side.
pub open spec fn maximal_run(ops: Seq<DiffOp>, context: nat, h: (int, int)) -> bool {
    &&& 0 <= h.0 < h.1 <= ops.len()
    &&& forall|x: int| h.0 <= x < h.1 ==> shown(ops, context, x)
    &&& (h.0 == 0 || !shown(ops, context, h.0 - 1))
    &&& (h.1 == ops.len() || !shown(ops, context, h.1))
}

proof fn lemma_hunks_from_runs(ops: Seq<DiffOp>, context: nat, k: int)
    requires
        0 <= k <= ops.len(),
        k == 0 || k == ops.len() || !shown(ops, context, k - 1) || !shown(ops, context, k),
    ensures
        ({
            let hs = hunks_from(ops, context, k);
            &&& forall|t: int| 0 <= t < hs.len() ==> maximal_run(ops, context, #[trigger] hs[t]) && hs[t].0 >= k
            &&& forall|t: int| 0 <= t < hs.len() - 1 ==> #[trigger] hs[t].1 < hs[t + 1].0
            &&& forall|x: int| k <= x < ops.len() && shown(ops, context, x) ==> exists|t: int|
                0 <= t < hs.len() && #[trigger] hs[t].0 <= x < hs[t].1
        }),
    decreases ops.len() - k,
{
    let hs = hunks_from(ops, context, k);
    if k == ops.len() {
        return;
    }
    if !shown(ops, context, k) {
        lemma_hunks_from_runs(ops, context, k + 1);
        assert(hs == hunks_from(ops, context, k + 1));
        assert forall|x: int| k <= x < ops.len() && shown(ops, context, x) implies exists|t: int|
            0 <= t < hs.len() && #[trigger] hs[t].0 <= x < hs[t].1 by {
            assert(x != k);
        }
    } else {
        let e = run_end(ops, context, k);
        lemma_run_end(ops, context, k);
        lemma_hunks_from_runs(ops, context, e);
        let rest = hunks_from(ops, context, e);
        assert(hs == seq![(k, e)] + rest);
        assert(maximal_run(ops, context, (k, e)));
        assert forall|t: int| 0 <= t < hs.len() implies maximal_run(ops, context, #[trigger] hs[t]) && hs[t].0 >= k by {
            if t > 0 {
                assert(hs[t] == rest[t - 1]);
            }
        }
        assert forall|t: int| 0 <= t < hs.len() - 1 implies #[trigger] hs[t].1 < hs[t + 1].0 by {
            assert(hs[t + 1] == rest[t]);
            if t == 0 {
                assert(maximal_run(ops, context, rest[0]));
                assert(rest[0].0 >= e);
                assert(rest[0].0 != e || !shown(ops, context, e));
            } else {
                assert(hs[t] == rest[t - 1]);
            }
        }
        assert forall|x: int| k <= x < ops.len() && shown(ops, context, x) implies exists|t: int|
            0 <= t < hs.len() && #[trigger] hs[t].0 <= x < hs[t].1 by {
            if x < e {
                assert(hs[0].0 <= x < hs[0].1);
            } else {
                let t0 = choose|t: int| 0 <= t < rest.len() && #[trigger] rest[t].0 <= x < rest[t].1;
                assert(hs[t0 + 1] == rest[t0]);
                assert(hs[t0 + 1].0 <= x < hs[t0 + 1].1);
            }
        }
    }
}

/// The hunks of a patch are exactly the maximal runs of steps that lie within `context` steps
/// of a change, in order and apart from each other: each is such a run, each comes strictly
/// after the one before, and every step near a change lies in one of them.
pub proof fn law_hunks_are_maximal_runs(ops: Seq<DiffOp>, context: nat)
    ensures
        ({
            let hs = hunks(ops, context);
            &&& forall|t: int| 0 <= t < hs.len() ==> maximal_run(ops, context, #[trigger] hs[t])
            &&& forall|t: int| 0 <= t < hs.len() - 1 ==> #[trigger] hs[t].1 < hs[t + 1].0
            &&& forall|x: int| 0 <= x < ops.len() && shown(ops, context, x) ==> exists|t: int|
                0 <= t < hs.len() && #[trigger] hs[t].0 <= x < hs[t].1
        }),
{
    lemma_hunks_from_runs(ops, context, 0);
    let hs = hunks(ops, context);
    assert(hs == hunks_from(ops, context, 0));
    assert forall|t: int| 0 <= t < hs.len() implies maximal_run(ops, context, #[trigger] hs[t]) by {}
    assert forall|x: int| 0 <= x < ops.len() && shown(ops, context, x) implies exists|t: int|
        0 <= t < hs.len() && #[trigger] hs[t].0 <= x < hs[t].1 by {}
}

// ---------------------------------------------------------------------------------------------
// Words within changed lines
// ---------------------------------------------------------------------------------------------

/// Spaces and tabs separate words.
pub open spec fn is_blank(c: char) -> bool {
    c == ' ' || c == '\t'
}

/// The first position at or after `k` whose character is not of the kind `blank`, or the
/// length of `s`.
pub open spec fn kind_run_end(s: Seq<char>, k: int, blank: bool) -> int
    decreases s.len() - k,
{
    if k < 0 || k >= s.len() || is_blank(s[k]) != blank {
        if k < 0 { 0 } else if k >= s.len() { s.len() as int } else { k }
    } else {
        kind_run_end(s, k + 1, blank)
    }
}

pub proof fn lemma_kind_run_end(s: Seq<char>, k: int, blank: bool)
    requires
        0 <= k <= s.len(),
    ensures
        k <= kind_run_end(s, k, blank) <= s.len(),
        forall|x: int| k <= x < kind_run_end(s, k, blank) ==> is_blank(#[trigger] s[x]) == blank,
    decreases s.len() - k,
{
    if k < s.len() && is_blank(s[k]) == blank {
        lemma_kind_run_end(s, k + 1, blank);
    }
}

/// The words of `s` from `k` on: maximal runs of blanks and of other characters, each as a
/// line without a line break so that lines and words are compared alike.
pub open spec fn tokens_from(s: Seq<char>, k: int) -> Seq<(Seq<char>, bool)>
    decreases s.len() - k,
{
    if k < 0 || k >= s.len() {
        Seq::empty()
    } else {
        let e = kind_run_end(s, k + 1, is_blank(s[k]));
        proof {
            lemma_kind_run_end(s, k + 1, is_blank(s[k]));
        }
        seq![(s.subrange(k, e), false)] + tokens_from(s, e)
    }
}

pub open spec fn tokens(s: Seq<char>) -> Seq<(Seq<char>, bool)> {
    tokens_from(s, 0)
}

fn char_is_blank(c: char) -> (r: bool)
    ensures
        r == is_blank(c),
{
    c == ' ' || c == '\t'
}

/// The words of `text`.
pub fn split_tokens(text: &String) -> (r: Vec<DiffLine>)
    ensures
        line_views(r@) == tokens(text@),
{
    let chars = chars_of(text.as_str());
    let n = chars.len();
    let mut out: Vec<DiffLine> = Vec::new();
    let mut k: usize = 0;
    while k < n
        invariant
            n == chars@.len(),
            chars@ == text@,
            k <= n,
            line_views(out@) + tokens_from(text@, k as int) == tokens(text@),
        decreases n - k,
    {
        let blank = char_is_blank(chars[k]);
        let mut e = k + 1;
        while e < n && char_is_blank(chars[e]) == blank
            invariant
                k < e <= n,
                n == chars@.len(),
                blank == is_blank(chars@[k as int]),
                kind_run_end(chars@, k + 1, blank) == kind_run_end(chars@, e as int, blank),
            decreases n - e,
        {
            e += 1;
        }
        proof {
            lemma_kind_run_end(chars@, k + 1, blank);
        }
        let token = DiffLine { text: string_of(&chars, k, e), newline: false };
        let ghost before = out@;
        out.push(token);
        assert(line_views(out@) =~= line_views(before).push(line_view(token)));
        assert(tokens_from(text@, k as int) == seq![line_view(token)] + tokens_from(text@, e as int));
        assert(line_views(out@) + tokens_from(text@, e as int) =~= line_views(before) + tokens_from(text@, k as int));
        k = e;
    }
    assert(line_views(out@) =~= tokens(text@));
    out
}

/// How a character of a styled line is emphasised: not at all, as a dropped word, or as an
/// added word.
#[derive(Debug, Clone, Copy, PartialEq, Eq, Structural)]
pub enum DiffEmphasis {
    Plain,
    Removed,
    Added,
}

/// Each character of `t` with the emphasis `e`.
pub open spec fn marked(t: Seq<char>, e: DiffEmphasis) -> Seq<(char, DiffEmphasis)> {
    Seq::new(t.len(), |i: int| (t[i], e))
}

/// A run of characters with one emphasis.
#[derive(Debug, Clone, PartialEq, Eq)]
pub struct DiffSpan {
    pub content: String,
    pub emphasis: DiffEmphasis,
}

/// A line of the viewer as spans.
#[derive(Debug, Clone, PartialEq, Eq)]
pub struct StyledLine {
    pub spans: Vec<DiffSpan>,
}

/// The characters of the spans, each with its span's emphasis.
pub open spec fn spans_marks(v: Seq<DiffSpan>) -> Seq<(char, DiffEmphasis)>
    decreases v.len(),
{
    if v.len() == 0 {
        Seq::empty()
    } else {
        spans_marks(v.drop_last()) + marked(v.last().content@, v.last().emphasis)
    }
}

pub open spec fn styled_views(v: Seq<StyledLine>) -> Seq<Seq<(char, DiffEmphasis)>> {
    v.map_values(|l: StyledLine| spans_marks(l.spans@))
}

/// The old side of a word script from step `k` on: kept words plain, dropped words marked.
pub open spec fn old_word_marks(ta: Seq<(Seq<char>, bool)>, tops: Seq<DiffOp>, k: int) -> Seq<(char, DiffEmphasis)>
    decreases tops.len() - k,
{
    if k < 0 || k >= tops.len() {
        Seq::empty()
    } else {
        (match tops[k] {
            DiffOp::Equal { old, .. } => marked(ta[old as int].0, DiffEmphasis::Plain),
            DiffOp::Delete { old } => marked(ta[old as int].0, DiffEmphasis::Removed),
            DiffOp::Insert { .. } => Seq::empty(),
        }) + old_word_marks(ta, tops, k + 1)
    }
}

/// The new side of a word script from step `k` on: kept words plain, added words marked.
pub open spec fn new_word_marks(tb: Seq<(Seq<char>, bool)>, tops: Seq<DiffOp>, k: int) -> Seq<(char, DiffEmphasis)>
    decreases tops.len() - k,
{
    if k < 0 || k >= tops.len() {
        Seq::empty()
    } else {
        (match tops[k] {
            DiffOp::Equal { new, .. } => marked(tb[new as int].0, DiffEmphasis::Plain),
            DiffOp::Insert { new } => marked(tb[new as int].0, DiffEmphasis::Added),
            DiffOp::Delete { .. } => Seq::empty(),
        }) + new_word_marks(tb, tops, k + 1)
    }
}

/// The dropped line `x`, paired with the added line `y`, with the words `y` does not keep marked.
pub open spec fn removed_words(x: Seq<char>, y: Seq<char>) -> Seq<(char, DiffEmphasis)> {
    old_word_marks(tokens(x), lcs_script(tokens(x), tokens(y), 0, 0), 0)
}

/// The added line `y`, paired with the dropped line `x`, with the words `x` did not have marked.
pub open spec fn added_words(x: Seq<char>, y: Seq<char>) -> Seq<(char, DiffEmphasis)> {
    new_word_marks(tokens(y), lcs_script(tokens(x), tokens(y), 0, 0), 0)
}

/// Appends `content` as one span.
fn push_span(out: &mut Vec<DiffSpan>, content: String, emphasis: DiffEmphasis)
    ensures
        spans_marks(final(out)@) == spans_marks(old(out)@) + marked(content@, emphasis),
{
    let ghost before = out@;
    out.push(DiffSpan { content, emphasis });
    assert(final(out)@.drop_last() =~= before);
}

/// The spans of one side of a pair of changed lines: `x` (old side) against `y`, or `y` (new
/// side) against `x`.
fn word_spans(x: &String, y: &String, old_side: bool) -> (r: Vec<DiffSpan>)
    ensures
        spans_marks(r@) == (if old_side { removed_words(x@, y@) } else { added_words(x@, y@) }),
{
    let ta = split_tokens(x);
    let tb = split_tokens(y);
    let tops = diff_lines(&ta, &tb);
    let ghost tav = line_views(ta@);
    let ghost tbv = line_views(tb@);
    let ghost target = if old_side { old_word_marks(tav, tops@, 0) } else { new_word_marks(tbv, tops@, 0) };
    let mut out: Vec<DiffSpan> = Vec::new();
    let mut k: usize = 0;
    while k < tops.len()
        invariant
            tav == line_views(ta@),
            tbv == line_views(tb@),
            valid_script(tav, tbv, tops@),
            target == (if old_side { old_word_marks(tav, tops@, 0) } else { new_word_marks(tbv, tops@, 0) }),
            k <= tops.len(),
            spans_marks(out@) + (if old_side { old_word_marks(tav, tops@, k as int) } else {
                new_word_marks(tbv, tops@, k as int)
            }) == target,
        decreases tops.len() - k,
    {
        assert(step_ok(tav, tbv, tops@, k as int));
        let ghost before = spans_marks(out@);
        match tops[k] {
            DiffOp::Equal { old, new } => {
                assert(tav.len() == ta.len() && tbv.len() == tb.len());
                if old_side {
                    assert(tav[old as int] == line_view(ta@[old as int]));
                    push_span(&mut out, ta[old].text.clone(), DiffEmphasis::Plain);
                } else {
                    assert(tbv[new as int] == line_view(tb@[new as int]));
                    push_span(&mut out, tb[new].text.clone(), DiffEmphasis::Plain);
                }
            },
            DiffOp::Delete { old } => {
                assert(tav.len() == ta.len());
                if old_side {
                    assert(tav[old as int] == line_view(ta@[old as int]));
                    push_span(&mut out, ta[old].text.clone(), DiffEmphasis::Removed);
                }
            },
            DiffOp::Insert { new } => {
                assert(tbv.len() == tb.len());
                if !old_side {
                    assert(tbv[new as int] == line_view(tb@[new as int]));
                    push_span(&mut out, tb[new].text.clone(), DiffEmphasis::Added);
                }
            },
        }
        assert(spans_marks(out@) + (if old_side { old_word_marks(tav, tops@, k + 1) } else {
            new_word_marks(tbv, tops@, k + 1)
        }) =~= before + (if old_side { old_word_marks(tav, tops@, k as int) } else {
            new_word_marks(tbv, tops@, k as int)
        }));
        k += 1;
    }
    assert(spans_marks(out@) =~= target);
    out
}

/// The dropped lines among the steps `k..f`, in order.
pub open spec fn deleted_texts(a: Seq<(Seq<char>, bool)>, ops: Seq<DiffOp>, k: int, f: int) -> Seq<Seq<char>>
    decreases f - k,
{
    if k >= f {
        Seq::empty()
    } else {
        (match ops[k] {
            DiffOp::Delete { old } => seq![a[old as int].0],
            _ => Seq::empty(),
        }) + deleted_texts(a, ops, k + 1, f)
    }
}

/// The added lines among the steps `k..f`, in order.
pub open spec fn inserted_texts(b: Seq<(Seq<char>, bool)>, ops: Seq<DiffOp>, k: int, f: int) -> Seq<Seq<char>>
    decreases f - k,
{
    if k >= f {
        Seq::empty()
    } else {
        (match ops[k] {
            DiffOp::Insert { new } => seq![b[new as int].0],
            _ => Seq::empty(),
        }) + inserted_texts(b, ops, k + 1, f)
    }
}

/// The word rows of the steps `x..f` of a run of changes whose dropped lines are `dels` and
/// added lines `ins`, `rd` dropped and `ri` added lines having been shown: the `t`-th dropped
/// line is paired with the `t`-th added line and each shows the words the other lacks; a line
/// with no partner shows plain.
pub open spec fn word_run_from(
    a: Seq<(Seq<char>, bool)>,
    b: Seq<(Seq<char>, bool)>,
    ops: Seq<DiffOp>,
    x: int,
    f: int,
    w: nat,
    dels: Seq<Seq<char>>,
    ins: Seq<Seq<char>>,
    rd: int,
    ri: int,
) -> Seq<Seq<(char, DiffEmphasis)>>
    decreases f - x,
{
    if x >= f {
        Seq::empty()
    } else {
        match ops[x] {
            DiffOp::Delete { old } => seq![marked(number((old + 1) as nat, w) + seq![' '] + spaces(w) + " - "@, DiffEmphasis::Plain) + (
                if 0 <= rd < ins.len() { removed_words(a[old as int].0, ins[rd]) } else { marked(a[old as int].0, DiffEmphasis::Plain) }
            )] + word_run_from(a, b, ops, x + 1, f, w, dels, ins, rd + 1, ri),
            DiffOp::Insert { new } => seq![marked(spaces(w) + seq![' '] + number((new + 1) as nat, w) + " + "@, DiffEmphasis::Plain) + (
                if 0 <= ri < dels.len() { added_words(dels[ri], b[new as int].0) } else { marked(b[new as int].0, DiffEmphasis::Plain) }
            )] + word_run_from(a, b, ops, x + 1, f, w, dels, ins, rd, ri + 1),
            DiffOp::Equal { .. } => seq![marked(inline_op_line(a, b, ops[x], w), DiffEmphasis::Plain)]
                + word_run_from(a, b, ops, x + 1, f, w, dels, ins, rd, ri),
        }
    }
}

/// The word rows of the steps `k..e`: kept lines plain, runs of changes as `word_run_from`.
pub open spec fn word_body(a: Seq<(Seq<char>, bool)>, b: Seq<(Seq<char>, bool)>, ops: Seq<DiffOp>, k: int, e: int, w: nat) -> Seq<Seq<(char, DiffEmphasis)>>
    decreases e - k,
{
    if k >= e {
        Seq::empty()
    } else if ops[k] is Equal {
        seq![marked(inline_op_line(a, b, ops[k], w), DiffEmphasis::Plain)] + word_body(a, b, ops, k + 1, e, w)
    } else {
        let f = change_end(ops, k, e);
        proof {
            lemma_change_end(ops, k, e);
        }
        if f <= k {
            Seq::empty()
        } else {
            word_run_from(a, b, ops, k, f, w, deleted_texts(a, ops, k, f), inserted_texts(b, ops, k, f), 0, 0)
                + word_body(a, b, ops, f, e, w)
        }
    }
}

pub open spec fn word_hunks(
    a: Seq<(Seq<char>, bool)>,
    b: Seq<(Seq<char>, bool)>,
    ops: Seq<DiffOp>,
    hs: Seq<(int, int)>,
    t: int,
    headers: bool,
    w: nat,
) -> Seq<Seq<(char, DiffEmphasis)>>
    decreases hs.len() - t,
{
    if t < 0 || t >= hs.len() {
        Seq::empty()
    } else {
        (if headers { seq![marked(hunk_header(ops, hs[t]), DiffEmphasis::Plain)] } else { Seq::empty() })
            + word_body(a, b, ops, hs[t].0, hs[t].1, w) + word_hunks(a, b, ops, hs, t + 1, headers, w)
    }
}

/// Each line plain.
pub open spec fn plain_marks_all(lines: Seq<Seq<char>>) -> Seq<Seq<(char, DiffEmphasis)>> {
    lines.map_values(|l: Seq<char>| marked(l, DiffEmphasis::Plain))
}

/// The word view: the inline view with the words a changed line does not share with its
/// partner marked.
pub open spec fn word_lines(
    a: Seq<(Seq<char>, bool)>,
    b: Seq<(Seq<char>, bool)>,
    ops: Seq<DiffOp>,
    context: nat,
    old_label: Seq<char>,
    new_label: Seq<char>,
    headers: bool,
) -> Seq<Seq<(char, DiffEmphasis)>> {
    let w = number_width(a.len(), b.len());
    let hs = hunks(ops, context);
    (if headers { plain_marks_all(file_headers(old_label, new_label)) } else { Seq::empty() }) + if hs.len() == 0 {
        word_body(a, b, ops, 0, ops.len() as int, w)
    } else {
        word_hunks(a, b, ops, hs, 0, headers, w)
    }
}

/// One line as a single plain span.
fn plain_line(text: String) -> (r: StyledLine)
    ensures
        spans_marks(r.spans@) == marked(text@, DiffEmphasis::Plain),
{
    let mut spans: Vec<DiffSpan> = Vec::new();
    push_span(&mut spans, text, DiffEmphasis::Plain);
    assert(spans_marks(spans@) =~= marked(text@, DiffEmphasis::Plain));
    StyledLine { spans }
}

/// The dropped texts and the added texts of the steps `k..f`.
fn run_texts(a: &Vec<DiffLine>, b: &Vec<DiffLine>, ops: &Vec<DiffOp>, k: usize, f: usize) -> (r: (Vec<String>, Vec<String>))
    requires
        script_ok(a@, b@, ops@),
        k <= f <= ops.len(),
    ensures
        string_views(r.0@) == deleted_texts(line_views(a@), ops@, k as int, f as int),
        string_views(r.1@) == inserted_texts(line_views(b@), ops@, k as int, f as int),
{
    let ghost av = line_views(a@);
    let ghost bv = line_views(b@);
    let mut dels: Vec<String> = Vec::new();
    let mut ins: Vec<String> = Vec::new();
    let mut x = k;
    while x < f
        invariant
            script_ok(a@, b@, ops@),
            av == line_views(a@),
            bv == line_views(b@),
            k <= x <= f <= ops.len(),
            string_views(dels@) == deleted_texts(av, ops@, k as int, x as int),
            string_views(ins@) == inserted_texts(bv, ops@, k as int, x as int),
        decreases f - x,
    {
        assert(step_ok(av, bv, ops@, x as int));
        proof {
            lemma_texts_extend(av, bv, ops@, k as int, x as int);
        }
        match ops[x] {
            DiffOp::Delete { old } => {
                assert(av.len() == a.len());
                assert(av[old as int] == line_view(a@[old as int]));
                dels.push(a[old].text.clone());
            },
            DiffOp::Insert { new } => {
                assert(bv.len() == b.len());
                assert(bv[new as int] == line_view(b@[new as int]));
                ins.push(b[new].text.clone());
            },
            _ => {},
        }
        assert(string_views(dels@) =~= deleted_texts(av, ops@, k as int, x + 1));
        assert(string_views(ins@) =~= inserted_texts(bv, ops@, k as int, x + 1));
        x += 1;
    }
    (dels, ins)
}

proof fn lemma_texts_extend(a: Seq<(Seq<char>, bool)>, b: Seq<(Seq<char>, bool)>, ops: Seq<DiffOp>, k: int, x: int)
    requires
        k <= x < ops.len(),
    ensures
        deleted_texts(a, ops, k, x + 1) == deleted_texts(a, ops, k, x) + (match ops[x] {
            DiffOp::Delete { old } => seq![a[old as int].0],
            _ => Seq::empty(),
        }),
        inserted_texts(b, ops, k, x + 1) == inserted_texts(b, ops, k, x) + (match ops[x] {
            DiffOp::Insert { new } => seq![b[new as int].0],
            _ => Seq::empty(),
        }),
    decreases x - k,
{
    if k < x {
        lemma_texts_extend(a, b, ops, k + 1, x);
        assert(deleted_texts(a, ops, k, x + 1) =~= deleted_texts(a, ops, k, x) + (match ops[x] {
            DiffOp::Delete { old } => seq![a[old as int].0],
            _ => Seq::empty(),
        }));
        assert(inserted_texts(b, ops, k, x + 1) =~= inserted_texts(b, ops, k, x) + (match ops[x] {
            DiffOp::Insert { new } => seq![b[new as int].0],
            _ => Seq::empty(),
        }));
    } else {
        assert(deleted_texts(a, ops, x + 1, x + 1) =~= Seq::<Seq<char>>::empty());
        assert(inserted_texts(b, ops, x + 1, x + 1) =~= Seq::<Seq<char>>::empty());
        assert(deleted_texts(a, ops, x, x + 1) =~= Seq::empty() + (match ops[x] {
            DiffOp::Delete { old } => seq![a[old as int].0],
            _ => Seq::empty(),
        }));
        assert(inserted_texts(b, ops, x, x + 1) =~= Seq::empty() + (match ops[x] {
            DiffOp::Insert { new } => seq![b[new as int].0],
            _ => Seq::empty(),
        }));
    }
}

/// Appends the spans of `more`.
fn append_spans(out: &mut Vec<DiffSpan>, more: Vec<DiffSpan>)
    ensures
        spans_marks(final(out)@) == spans_marks(old(out)@) + spans_marks(more@),
{
    let ghost start = spans_marks(out@);
    let mut t: usize = 0;
    while t < more.len()
        invariant
            t <= more.len(),
            spans_marks(out@) == start + spans_marks(more@.take(t as int)),
        decreases more.len() - t,
    {
        let content = more[t].content.clone();
        let emphasis = more[t].emphasis;
        push_span(out, content, emphasis);
        assert(more@.take(t + 1).drop_last() =~= more@.take(t as int));
        assert(spans_marks(out@) =~= start + spans_marks(more@.take(t + 1)));
        t += 1;
    }
    assert(more@.take(more.len() as int) =~= more@);
}

/// The word row of the dropped or added line at step `x`, against its partner when it has one.
fn word_row(
    a: &Vec<DiffLine>,
    b: &Vec<DiffLine>,
    ops: &Vec<DiffOp>,
    x: usize,
    w: usize,
    partner: Option<&String>,
) -> (r: StyledLine)
    requires
        script_ok(a@, b@, ops@),
        x < ops.len(),
        !(ops@[x as int] is Equal),
    ensures
        spans_marks(r.spans@) == (match ops@[x as int] {
            DiffOp::Delete { old } => marked(number((old + 1) as nat, w as nat) + seq![' '] + spaces(w as nat) + " - "@, DiffEmphasis::Plain) + (
                match partner {
                    Some(p) => removed_words(line_views(a@)[old as int].0, p@),
                    None => marked(line_views(a@)[old as int].0, DiffEmphasis::Plain),
                }),
            DiffOp::Insert { new } => marked(spaces(w as nat) + seq![' '] + number((new + 1) as nat, w as nat) + " + "@, DiffEmphasis::Plain) + (
                match partner {
                    Some(p) => added_words(p@, line_views(b@)[new as int].0),
                    None => marked(line_views(b@)[new as int].0, DiffEmphasis::Plain),
                }),
            DiffOp::Equal { .. } => Seq::empty(),
        }),
{
    assert(step_ok(line_views(a@), line_views(b@), ops@, x as int));
    let mut prefix = String::new();
    let mut spans: Vec<DiffSpan> = Vec::new();
    proof {
        reveal_strlit(" - ");
        reveal_strlit(" + ");
    }
    match ops[x] {
        DiffOp::Delete { old } => {
            assert(line_views(a@).len() == a.len());
            assert(old < a.len());
            assert(line_views(a@)[old as int] == line_view(a@[old as int]));
            push_number(&mut prefix, old + 1, w);
            push_char(&mut prefix, ' ');
            push_spaces(&mut prefix, w);
            push_text(&mut prefix, " - ");
            push_span(&mut spans, prefix, DiffEmphasis::Plain);
            match partner {
                Some(p) => {
                    let words = word_spans(&a[old].text, p, true);
                    append_spans(&mut spans, words);
                },
                None => push_span(&mut spans, a[old].text.clone(), DiffEmphasis::Plain),
            }
        },
        DiffOp::Insert { new } => {
            assert(line_views(b@).len() == b.len());
            assert(new < b.len());
            assert(line_views(b@)[new as int] == line_view(b@[new as int]));
            push_spaces(&mut prefix, w);
            push_char(&mut prefix, ' ');
            push_number(&mut prefix, new + 1, w);
            push_text(&mut prefix, " + ");
            push_span(&mut spans, prefix, DiffEmphasis::Plain);
            match partner {
                Some(p) => {
                    let words = word_spans(p, &b[new].text, false);
                    append_spans(&mut spans, words);
                },
                None => push_span(&mut spans, b[new].text.clone(), DiffEmphasis::Plain),
            }
        },
        DiffOp::Equal { .. } => {},
    }
    assert(spans_marks(Seq::<DiffSpan>::empty()) =~= Seq::<(char, DiffEmphasis)>::empty());
    StyledLine { spans }
}

/// Pushes the word rows of the run of changes `k..f`.
fn push_word_run(out: &mut Vec<StyledLine>, a: &Vec<DiffLine>, b: &Vec<DiffLine>, ops: &Vec<DiffOp>, k: usize, f: usize, w: usize)
    requires
        script_ok(a@, b@, ops@),
        k <= f <= ops.len(),
    ensures
        styled_views(final(out)@) == styled_views(old(out)@) + word_run_from(
            line_views(a@),
            line_views(b@),
            ops@,
            k as int,
            f as int,
            w as nat,
            deleted_texts(line_views(a@), ops@, k as int, f as int),
            inserted_texts(line_views(b@), ops@, k as int, f as int),
            0,
            0,
        ),
{
    let ghost av = line_views(a@);
    let ghost bv = line_views(b@);
    let (dels, ins) = run_texts(a, b, ops, k, f);
    let ghost dv = string_views(dels@);
    let ghost iv = string_views(ins@);
    let ghost start = styled_views(out@);
    let mut rd: usize = 0;
    let mut ri: usize = 0;
    let mut x = k;
    while x < f
        invariant
            script_ok(a@, b@, ops@),
            av == line_views(a@),
            bv == line_views(b@),
            dv == string_views(dels@),
            iv == string_views(ins@),
            k <= x <= f <= ops.len(),
            rd <= x - k,
            ri <= x - k,
            styled_views(out@) + word_run_from(av, bv, ops@, x as int, f as int, w as nat, dv, iv, rd as int, ri as int)
                == start + word_run_from(av, bv, ops@, k as int, f as int, w as nat, dv, iv, 0, 0),
        decreases f - x,
    {
        let ghost before = styled_views(out@);
        match ops[x] {
            DiffOp::Delete { .. } => {
                let partner = if rd < ins.len() { Some(&ins[rd]) } else { None };
                let row = word_row(a, b, ops, x, w, partner);
                out.push(row);
                assert(styled_views(out@) =~= before.push(spans_marks(row.spans@)));
                assert(styled_views(out@) + word_run_from(av, bv, ops@, x + 1, f as int, w as nat, dv, iv, rd + 1, ri as int)
                    =~= before + word_run_from(av, bv, ops@, x as int, f as int, w as nat, dv, iv, rd as int, ri as int));
                rd += 1;
            },
            DiffOp::Insert { .. } => {
                let partner = if ri < dels.len() { Some(&dels[ri]) } else { None };
                let row = word_row(a, b, ops, x, w, partner);
                out.push(row);
                assert(styled_views(out@) =~= before.push(spans_marks(row.spans@)));
                assert(styled_views(out@) + word_run_from(av, bv, ops@, x + 1, f as int, w as nat, dv, iv, rd as int, ri + 1)
                    =~= before + word_run_from(av, bv, ops@, x as int, f as int, w as nat, dv, iv, rd as int, ri as int));
                ri += 1;
            },
            DiffOp::Equal { .. } => {
                let row = plain_line(inline_row(a, b, ops, x, w));
                out.push(row);
                assert(styled_views(out@) =~= before.push(spans_marks(row.spans@)));
                assert(styled_views(out@) + word_run_from(av, bv, ops@, x + 1, f as int, w as nat, dv, iv, rd as int, ri as int)
                    =~= before + word_run_from(av, bv, ops@, x as int, f as int, w as nat, dv, iv, rd as int, ri as int));
            },
        }
        x += 1;
    }
    assert(styled_views(out@) =~= start + word_run_from(av, bv, ops@, k as int, f as int, w as nat, dv, iv, 0, 0));
}

/// Pushes the word rows of the steps `k..e`.
fn push_word_body(out: &mut Vec<StyledLine>, a: &Vec<DiffLine>, b: &Vec<DiffLine>, ops: &Vec<DiffOp>, k: usize, e: usize, w: usize)
    requires
        script_ok(a@, b@, ops@),
        k <= e <= ops.len(),
    ensures
        styled_views(final(out)@) == styled_views(old(out)@) + word_body(line_views(a@), line_views(b@), ops@, k as int, e as int, w as nat),
{
    let ghost av = line_views(a@);
    let ghost bv = line_views(b@);
    let ghost start = styled_views(out@);
    let mut x = k;
    while x < e
        invariant
            script_ok(a@, b@, ops@),
            av == line_views(a@),
            bv == line_views(b@),
            k <= x <= e <= ops.len(),
            styled_views(out@) + word_body(av, bv, ops@, x as int, e as int, w as nat) == start + word_body(av, bv, ops@, k as int, e as int, w as nat),
        decreases e - x,
    {
        let ghost before = styled_views(out@);
        if keeps_line(&ops[x]) {
            let row = plain_line(inline_row(a, b, ops, x, w));
            out.push(row);
            assert(styled_views(out@) =~= before.push(spans_marks(row.spans@)));
            assert(styled_views(out@) + word_body(av, bv, ops@, x + 1, e as int, w as nat) =~= before + word_body(av, bv, ops@, x as int, e as int, w as nat));
            x += 1;
        } else {
            let mut f = x;
            while f < e && !keeps_line(&ops[f])
                invariant
                    x <= f <= e <= ops.len(),
                    change_end(ops@, x as int, e as int) == change_end(ops@, f as int, e as int),
                decreases e - f,
            {
                f += 1;
            }
            proof {
                lemma_change_end(ops@, x as int, e as int);
                lemma_change_end_stops(ops@, f as int, e as int);
            }
            push_word_run(out, a, b, ops, x, f, w);
            assert(styled_views(out@) + word_body(av, bv, ops@, f as int, e as int, w as nat) =~= before + word_body(av, bv, ops@, x as int, e as int, w as nat));
            x = f;
        }
    }
    assert(styled_views(out@) =~= start + word_body(av, bv, ops@, k as int, e as int, w as nat));
}

/// The word view of the script `ops` between `a` and `b`.
fn word_view_lines(
    a: &Vec<DiffLine>,
    b: &Vec<DiffLine>,
    ops: &Vec<DiffOp>,
    context: usize,
    old_label: &String,
    new_label: &String,
    headers: bool,
) -> (r: Vec<StyledLine>)
    requires
        script_ok(a@, b@, ops@),
    ensures
        styled_views(r@) == word_lines(line_views(a@), line_views(b@), ops@, context as nat, old_label@, new_label@, headers),
{
    let ghost av = line_views(a@);
    let ghost bv = line_views(b@);
    let w = number_width_of(a.len(), b.len());
    let hs = find_hunks(ops, context);
    let ghost hv = hunk_views(hs@);
    let mut out: Vec<StyledLine> = Vec::new();
    if headers {
        let mut first = String::from_str("--- ");
        first.append(old_label.as_str());
        let mut second = String::from_str("+++ ");
        second.append(new_label.as_str());
        out.push(plain_line(first));
        out.push(plain_line(second));
        proof {
            reveal_strlit("--- ");
            reveal_strlit("+++ ");
        }
    }
    let ghost start = styled_views(out@);
    assert(start =~= (if headers { plain_marks_all(file_headers(old_label@, new_label@)) } else { Seq::empty() }));
    if hs.len() == 0 {
        push_word_body(&mut out, a, b, ops, 0, ops.len(), w);
        return out;
    }
    let (olds, news) = prefix_counts(ops);
    let mut t: usize = 0;
    while t < hs.len()
        invariant
            script_ok(a@, b@, ops@),
            av == line_views(a@),
            bv == line_views(b@),
            hv == hunk_views(hs@),
            hv == hunks(ops@, context as nat),
            forall|h: int| 0 <= h < hs.len() ==> #[trigger] hs[h].start < hs[h].end <= ops.len(),
            olds.len() == ops.len() + 1,
            news.len() == ops.len() + 1,
            forall|k: int| 0 <= k <= ops.len() ==> #[trigger] olds[k] == old_count(ops@.take(k)),
            forall|k: int| 0 <= k <= ops.len() ==> #[trigger] news[k] == new_count(ops@.take(k)),
            t <= hs.len(),
            styled_views(out@) + word_hunks(av, bv, ops@, hv, t as int, headers, w as nat) == start + word_hunks(av, bv, ops@, hv, 0, headers, w as nat),
        decreases hs.len() - t,
    {
        let h = hs[t];
        let ghost before = styled_views(out@);
        assert(hv[t as int] == (h.start as int, h.end as int));
        if headers {
            let header = hunk_header_text(ops, &olds, &news, h);
            out.push(plain_line(header));
        }
        let ghost mid = styled_views(out@);
        assert(mid =~= before + (if headers { seq![marked(hunk_header(ops@, hv[t as int]), DiffEmphasis::Plain)] } else { Seq::empty() }));
        push_word_body(&mut out, a, b, ops, h.start, h.end, w);
        assert(styled_views(out@) + word_hunks(av, bv, ops@, hv, t + 1, headers, w as nat) =~= before + word_hunks(av, bv, ops@, hv, t as int, headers, w as nat));
        t += 1;
    }
    assert(styled_views(out@) =~= start + word_hunks(av, bv, ops@, hv, 0, headers, w as nat));
    out
}

impl DiffViewer {
    /// The logical lines as spans: in the word style, the words a changed line does not share
    /// with its partner are marked; in the other styles every line is one plain span.
    pub open spec fn spec_logical_styled_lines(&self) -> Seq<Seq<(char, DiffEmphasis)>> {
        match self.diff_style {
            DiffStyle::Word => word_lines(
                line_views(self.old_lines@),
                line_views(self.new_lines@),
                self.ops@,
                self.context_lines as nat,
                self.old_label@,
                self.new_label@,
                self.show_headers,
            ),
            _ => plain_marks_all(self.spec_plain_lines()),
        }
    }

    /// The logical lines as spans (see `spec_logical_styled_lines`), before any wrapping.
    pub fn logical_styled_lines(&self) -> (r: Vec<StyledLine>)
        requires
            self.wf(),
        ensures
            styled_views(r@) == self.spec_logical_styled_lines(),
    {
        match self.diff_style {
            DiffStyle::Word => word_view_lines(
                &self.old_lines,
                &self.new_lines,
                &self.ops,
                self.context_lines,
                &self.old_label,
                &self.new_label,
                self.show_headers,
            ),
            _ => {
                let lines = self.plain_lines();
                let ghost lv = string_views(lines@);
                let mut out: Vec<StyledLine> = Vec::new();
                let mut k: usize = 0;
                while k < lines.len()
                    invariant
                        lv == string_views(lines@),
                        k <= lines.len(),
                        styled_views(out@) == plain_marks_all(lv.take(k as int)),
                    decreases lines.len() - k,
                {
                    let text = lines[k].clone();
                    assert(text@ == lv[k as int]);
                    let row = plain_line(text);
                    let ghost before = styled_views(out@);
                    out.push(row);
                    assert(styled_views(out@) =~= before.push(marked(lv[k as int], DiffEmphasis::Plain)));
                    assert(lv.take(k + 1) =~= lv.take(k as int).push(lv[k as int]));
                    assert(styled_views(out@) =~= plain_marks_all(lv.take(k + 1)));
                    k += 1;
                }
                assert(lv.take(lines.len() as int) =~= lv);
                out
            },
        }
    }
}

/// The characters of marked text.
pub open spec fn mark_chars(m: Seq<(char, DiffEmphasis)>) -> Seq<char> {
    Seq::new(m.len(), |i: int| m[i].0)
}

/// The continuation rows of a wrapped marked line (see `wrap_rest`); indents are plain.
pub open spec fn wrap_marks_rest(m: Seq<(char, DiffEmphasis)>, avail: nat, indent: nat) -> Seq<Seq<(char, DiffEmphasis)>>
    decreases m.len(),
{
    if m.len() == 0 || avail > usize::MAX {
        Seq::empty()
    } else {
        let c = row_take(mark_chars(m), avail);
        proof {
            lemma_row_take(mark_chars(m), avail);
        }
        seq![marked(spaces(indent), DiffEmphasis::Plain) + m.take(c)] + wrap_marks_rest(m.skip(c), avail, indent)
    }
}

/// A marked line wrapped as `wrap_line` wraps its characters, each character keeping its mark.
pub open spec fn wrap_marks(m: Seq<(char, DiffEmphasis)>, width: nat, indent: nat) -> Seq<Seq<(char, DiffEmphasis)>> {
    if m.len() == 0 || width > usize::MAX {
        seq![Seq::empty()]
    } else {
        let c = row_take(mark_chars(m), width);
        seq![m.take(c)] + wrap_marks_rest(m.skip(c), if width > indent { (width - indent) as nat } else { 0 }, indent)
    }
}

pub open spec fn wrap_marks_all(lines: Seq<Seq<(char, DiffEmphasis)>>, k: int, width: nat, indent: nat) -> Seq<Seq<(char, DiffEmphasis)>>
    decreases lines.len() - k,
{
    if k < 0 || k >= lines.len() {
        Seq::empty()
    } else {
        wrap_marks(lines[k], width, indent) + wrap_marks_all(lines, k + 1, width, indent)
    }
}

impl DiffViewer {
    /// The width the shown rows are wrapped to: that of the laid-out area, one column less
    /// when the wrapped rows are more than the area is tall.
    pub open spec fn wrap_width(&self) -> nat {
        let w = self.area.width as nat;
        if self.wrapped_lines(w).len() > self.area.height && w > 0 { (w - 1) as nat } else { w }
    }

    /// The rows shown, as spans: the styled lines, wrapped like `spec_display_lines` when
    /// wrapping (side by side, the shown rows plain).
    pub open spec fn spec_styled_lines(&self) -> Seq<Seq<(char, DiffEmphasis)>> {
        if !self.wrap {
            self.spec_logical_styled_lines()
        } else if self.diff_style == DiffStyle::SideBySide {
            plain_marks_all(self.spec_display_lines())
        } else {
            wrap_marks_all(self.spec_logical_styled_lines(), 0, self.wrap_width(), self.gutter())
        }
    }
}

/// The marks of `line`, one per character.
fn line_marks(line: &StyledLine) -> (r: Vec<(char, DiffEmphasis)>)
    ensures
        r@ == spans_marks(line.spans@),
{
    let mut out: Vec<(char, DiffEmphasis)> = Vec::new();
    let mut t: usize = 0;
    while t < line.spans.len()
        invariant
            t <= line.spans.len(),
            out@ == spans_marks(line.spans@.take(t as int)),
        decreases line.spans.len() - t,
    {
        let chars = chars_of(line.spans[t].content.as_str());
        let e = line.spans[t].emphasis;
        let ghost before = out@;
        let mut k: usize = 0;
        while k < chars.len()
            invariant
                k <= chars.len(),
                out@ == before + marked(chars@.take(k as int), e),
            decreases chars.len() - k,
        {
            out.push((chars[k], e));
            assert(out@ =~= before + marked(chars@.take(k + 1), e));
            k += 1;
        }
        assert(chars@.take(chars.len() as int) =~= chars@);
        assert(line.spans@.take(t + 1).drop_last() =~= line.spans@.take(t as int));
        assert(out@ =~= spans_marks(line.spans@.take(t + 1)));
        t += 1;
    }
    assert(line.spans@.take(line.spans.len() as int) =~= line.spans@);
    out
}

/// Spans holding the marks `m[from..to]`, consecutive characters of one mark in one span.
fn spans_of(m: &Vec<(char, DiffEmphasis)>, from: usize, to: usize) -> (r: Vec<DiffSpan>)
    requires
        from <= to <= m.len(),
    ensures
        spans_marks(r@) == m@.subrange(from as int, to as int),
{
    let mut out: Vec<DiffSpan> = Vec::new();
    let mut x = from;
    while x < to
        invariant
            from <= x <= to <= m.len(),
            spans_marks(out@) == m@.subrange(from as int, x as int),
        decreases to - x,
    {
        let e = m[x].1;
        let mut content = String::new();
        let mut y = x;
        while y < to && m[y].1 == e
            invariant
                x <= y <= to <= m.len(),
                marked(content@, e) == m@.subrange(x as int, y as int),
            decreases to - y,
        {
            let ghost before = content@;
            let ch = m[y].0;
            assert(m@[y as int] == (ch, e));
            push_char(&mut content, ch);
            assert(marked(content@, e) =~= marked(before, e).push((ch, e)));
            assert(m@.subrange(x as int, y + 1) =~= m@.subrange(x as int, y as int).push(m@[y as int]));
            assert(marked(content@, e) =~= m@.subrange(x as int, y + 1));
            y += 1;
        }
        push_span(&mut out, content, e);
        assert(spans_marks(out@) =~= m@.subrange(from as int, y as int));
        x = y;
    }
    out
}

/// A styled line wrapped to `width` cells with continuation rows behind `indent` plain spaces.
fn wrap_styled(line: &StyledLine, width: usize, indent: usize) -> (r: Vec<StyledLine>)
    ensures
        styled_views(r@) == wrap_marks(spans_marks(line.spans@), width as nat, indent as nat),
{
    let m = line_marks(line);
    let n = m.len();
    let mut chars: Vec<char> = Vec::new();
    let mut k: usize = 0;
    while k < n
        invariant
            k <= n == m.len(),
            chars@ == mark_chars(m@).take(k as int),
        decreases n - k,
    {
        chars.push(m[k].0);
        assert(chars@ =~= mark_chars(m@).take(k + 1));
        k += 1;
    }
    assert(chars@ =~= mark_chars(m@));
    let mut out: Vec<StyledLine> = Vec::new();
    let ghost target = wrap_marks(m@, width as nat, indent as nat);
    if n == 0 {
        out.push(StyledLine { spans: Vec::new() });
        assert(styled_views(out@) =~= target);
        return out;
    }
    let f = fit_from(&chars, 0, width);
    assert(chars@.skip(0) =~= chars@);
    let c = if f >= 1 { f } else { 1 };
    out.push(StyledLine { spans: spans_of(&m, 0, c) });
    assert(m@.subrange(0, c as int) =~= m@.take(c as int));
    let avail = if width > indent { width - indent } else { 0 };
    assert(target == seq![m@.take(c as int)] + wrap_marks_rest(m@.skip(c as int), avail as nat, indent as nat));
    assert(styled_views(out@) =~= seq![m@.take(c as int)]);
    let mut pos = c;
    while pos < n
        invariant
            n == m.len(),
            chars@ == mark_chars(m@),
            1 <= pos <= n,
            styled_views(out@) + wrap_marks_rest(m@.skip(pos as int), avail as nat, indent as nat) == target,
        decreases n - pos,
    {
        let ghost rest = m@.skip(pos as int);
        assert(mark_chars(rest) =~= chars@.skip(pos as int));
        let f = fit_from(&chars, pos, avail);
        let c = if f >= 1 { f } else { 1 };
        let mut spans: Vec<DiffSpan> = Vec::new();
        let mut pad = String::new();
        push_spaces(&mut pad, indent);
        push_span(&mut spans, pad, DiffEmphasis::Plain);
        let body = spans_of(&m, pos, pos + c);
        append_spans(&mut spans, body);
        assert(spans_marks(Seq::<DiffSpan>::empty()) =~= Seq::<(char, DiffEmphasis)>::empty());
        assert(m@.subrange(pos as int, pos + c) =~= rest.take(c as int));
        let row = StyledLine { spans };
        let ghost prev = styled_views(out@);
        out.push(row);
        assert(styled_views(out@) =~= prev.push(spans_marks(row.spans@)));
        assert(rest.skip(c as int) =~= m@.skip(pos + c));
        assert(wrap_marks_rest(rest, avail as nat, indent as nat) == seq![marked(spaces(indent as nat), DiffEmphasis::Plain) + rest.take(c as int)]
            + wrap_marks_rest(rest.skip(c as int), avail as nat, indent as nat));
        assert(styled_views(out@) + wrap_marks_rest(m@.skip(pos + c), avail as nat, indent as nat)
            =~= prev + wrap_marks_rest(rest, avail as nat, indent as nat));
        pos = pos + c;
    }
    assert(m@.skip(n as int) =~= Seq::<(char, DiffEmphasis)>::empty());
    assert(styled_views(out@) =~= target);
    out
}

/// Every line plain.
fn plain_lines_of(lines: Vec<String>) -> (r: Vec<StyledLine>)
    ensures
        styled_views(r@) == plain_marks_all(string_views(lines@)),
{
    let ghost lv = string_views(lines@);
    let mut out: Vec<StyledLine> = Vec::new();
    let mut k: usize = 0;
    while k < lines.len()
        invariant
            lv == string_views(lines@),
            k <= lines.len(),
            styled_views(out@) == plain_marks_all(lv.take(k as int)),
        decreases lines.len() - k,
    {
        let text = lines[k].clone();
        assert(text@ == lv[k as int]);
        let row = plain_line(text);
        let ghost before = styled_views(out@);
        out.push(row);
        assert(styled_views(out@) =~= before.push(marked(lv[k as int], DiffEmphasis::Plain)));
        assert(lv.take(k + 1) =~= lv.take(k as int).push(lv[k as int]));
        assert(styled_views(out@) =~= plain_marks_all(lv.take(k + 1)));
        k += 1;
    }
    assert(lv.take(lines.len() as int) =~= lv);
    out
}

impl DiffViewer {
    /// The rows shown, as spans (see `spec_styled_lines`): what is drawn.
    pub fn styled_lines(&self) -> (r: Vec<StyledLine>)
        requires
            self.wf(),
        ensures
            styled_views(r@) == self.spec_styled_lines(),
    {
        if !self.wrap {
            return self.logical_styled_lines();
        }
        if self.diff_style == DiffStyle::SideBySide {
            return plain_lines_of(self.display_plain_lines());
        }
        let w = self.area.width as usize;
        let full = self.wrapped_at(w);
        let width = if full.len() > self.area.height as usize && w > 0 { w - 1 } else { w };
        let g = self.gutter_width();
        let styled = self.logical_styled_lines();
        let ghost sv = styled_views(styled@);
        let mut out: Vec<StyledLine> = Vec::new();
        let mut k: usize = 0;
        while k < styled.len()
            invariant
                sv == styled_views(styled@),
                k <= styled.len(),
                styled_views(out@) + wrap_marks_all(sv, k as int, width as nat, g as nat) == wrap_marks_all(sv, 0, width as nat, g as nat),
            decreases styled.len() - k,
        {
            let rows = wrap_styled(&styled[k], width, g);
            let ghost prev = styled_views(out@);
            let mut t: usize = 0;
            while t < rows.len()
                invariant
                    t <= rows.len(),
                    styled_views(out@) == prev + styled_views(rows@).take(t as int),
                decreases rows.len() - t,
            {
                let piece = StyledLine { spans: copy_spans(&rows[t].spans) };
                let ghost before = styled_views(out@);
                out.push(piece);
                assert(styled_views(out@) =~= before.push(spans_marks(rows@[t as int].spans@)));
                assert(styled_views(rows@).take(t + 1) =~= styled_views(rows@).take(t as int).push(spans_marks(rows@[t as int].spans@)));
                t += 1;
            }
            assert(styled_views(rows@).take(rows.len() as int) =~= styled_views(rows@));
            assert(sv[k as int] == spans_marks(styled@[k as int].spans@));
            assert(styled_views(out@) + wrap_marks_all(sv, k + 1, width as nat, g as nat) =~= prev + wrap_marks_all(sv, k as int, width as nat, g as nat));
            k += 1;
        }
        assert(styled_views(out@) =~= wrap_marks_all(sv, 0, width as nat, g as nat));
        out
    }
}

/// A copy of `spans`.
fn copy_spans(spans: &Vec<DiffSpan>) -> (r: Vec<DiffSpan>)
    ensures
        spans_marks(r@) == spans_marks(spans@),
{
    let mut out: Vec<DiffSpan> = Vec::new();
    let mut t: usize = 0;
    while t < spans.len()
        invariant
            t <= spans.len(),
            spans_marks(out@) == spans_marks(spans@.take(t as int)),
        decreases spans.len() - t,
    {
        push_span(&mut out, spans[t].content.clone(), spans[t].emphasis);
        assert(spans@.take(t + 1).drop_last() =~= spans@.take(t as int));
        t += 1;
    }
    assert(spans@.take(spans.len() as int) =~= spans@);
    out
}

/// Continuation rows with their indents taken off, joined.
pub open spec fn joined_rows(rows: Seq<Seq<char>>, indent: nat) -> Seq<char>
    decreases rows.len(),
{
    if rows.len() == 0 {
        Seq::empty()
    } else {
        rows[0].skip(indent as int) + joined_rows(rows.drop_first(), indent)
    }
}

proof fn lemma_wrap_rest_keeps_text(m: Seq<char>, avail: nat, indent: nat)
    requires
        avail <= usize::MAX,
    ensures
        joined_rows(wrap_rest(m, avail, indent), indent) == m,
        forall|t: int| 0 <= t < wrap_rest(m, avail, indent).len() ==>
            (#[trigger] wrap_rest(m, avail, indent)[t]).take(indent as int) == spaces(indent),
    decreases m.len(),
{
    if m.len() > 0 {
        let c = row_take(m, avail);
        lemma_row_take(m, avail);
        lemma_wrap_rest_keeps_text(m.skip(c), avail, indent);
        let rows = wrap_rest(m, avail, indent);
        let first = spaces(indent) + m.take(c);
        assert(rows == seq![first] + wrap_rest(m.skip(c), avail, indent));
        assert(rows.drop_first() =~= wrap_rest(m.skip(c), avail, indent));
        assert(first.skip(indent as int) =~= m.take(c));
        assert(first.take(indent as int) =~= spaces(indent));
        assert(m.take(c) + m.skip(c) =~= m);
        assert forall|t: int| 0 <= t < rows.len() implies (#[trigger] rows[t]).take(indent as int) == spaces(indent) by {
            if t > 0 {
                assert(rows[t] == wrap_rest(m.skip(c), avail, indent)[t - 1]);
            }
        }
    } else {
        assert(wrap_rest(m, avail, indent) =~= Seq::<Seq<char>>::empty());
    }
}

/// Wrapping loses and adds no character: the first row followed by the other rows without
/// their indents is the line, and every other row begins with the indent.
pub proof fn law_wrap_keeps_text(s: Seq<char>, width: nat, indent: nat)
    requires
        width <= usize::MAX,
    ensures
        wrap_line(s, width, indent)[0] + joined_rows(wrap_line(s, width, indent).drop_first(), indent) == s,
        forall|t: int| 1 <= t < wrap_line(s, width, indent).len() ==>
            (#[trigger] wrap_line(s, width, indent)[t]).take(indent as int) == spaces(indent),
{
    let rows = wrap_line(s, width, indent);
    if s.len() == 0 {
        assert(rows.drop_first() =~= Seq::<Seq<char>>::empty());
        assert(rows[0] + Seq::<char>::empty() =~= s);
    } else {
        let c = row_take(s, width);
        lemma_row_take(s, width);
        let avail: nat = if width > indent { (width - indent) as nat } else { 0 };
        lemma_wrap_rest_keeps_text(s.skip(c), avail, indent);
        assert(rows.drop_first() =~= wrap_rest(s.skip(c), avail, indent));
        assert(s.take(c) + s.skip(c) =~= s);
        assert forall|t: int| 1 <= t < rows.len() implies (#[trigger] rows[t]).take(indent as int) == spaces(indent) by {
            assert(rows[t] == wrap_rest(s.skip(c), avail, indent)[t - 1]);
        }
    }
}

/// The texts of `ts`, joined.
pub open spec fn concat_texts(ts: Seq<(Seq<char>, bool)>) -> Seq<char>
    decreases ts.len(),
{
    if ts.len() == 0 {
        Seq::empty()
    } else {
        ts[0].0 + concat_texts(ts.drop_first())
    }
}

proof fn lemma_tokens_join(s: Seq<char>, k: int)
    requires
        0 <= k <= s.len(),
    ensures
        concat_texts(tokens_from(s, k)) == s.skip(k),
        tokens_from(s, k).len() <= s.len() - k,
    decreases s.len() - k,
{
    if k < s.len() {
        let e = kind_run_end(s, k + 1, is_blank(s[k]));
        lemma_kind_run_end(s, k + 1, is_blank(s[k]));
        lemma_tokens_join(s, e);
        let ts = tokens_from(s, k);
        assert(ts.drop_first() =~= tokens_from(s, e));
        assert(s.subrange(k, e) + s.skip(e) =~= s.skip(k));
    } else {
        assert(s.skip(k) =~= Seq::<char>::empty());
    }
}

proof fn lemma_mark_chars(m1: Seq<(char, DiffEmphasis)>, m2: Seq<(char, DiffEmphasis)>, t: Seq<char>, e: DiffEmphasis)
    ensures
        mark_chars(m1 + m2) == mark_chars(m1) + mark_chars(m2),
        mark_chars(marked(t, e)) == t,
{
    assert(mark_chars(m1 + m2) =~= mark_chars(m1) + mark_chars(m2));
    assert(mark_chars(marked(t, e)) =~= t);
}

proof fn lemma_word_marks_shift(ta: Seq<(Seq<char>, bool)>, tb: Seq<(Seq<char>, bool)>, op: DiffOp, rest: Seq<DiffOp>, k: int)
    requires
        0 <= k <= rest.len(),
    ensures
        old_word_marks(ta, seq![op] + rest, k + 1) == old_word_marks(ta, rest, k),
        new_word_marks(tb, seq![op] + rest, k + 1) == new_word_marks(tb, rest, k),
    decreases rest.len() - k,
{
    if k < rest.len() {
        lemma_word_marks_shift(ta, tb, op, rest, k + 1);
        assert((seq![op] + rest)[k + 1] == rest[k]);
    }
}

proof fn lemma_script_sides(ta: Seq<(Seq<char>, bool)>, tb: Seq<(Seq<char>, bool)>, i: int, j: int)
    requires
        0 <= i <= ta.len(),
        0 <= j <= tb.len(),
        ta.len() <= usize::MAX,
        tb.len() <= usize::MAX,
    ensures
        mark_chars(old_word_marks(ta, lcs_script(ta, tb, i, j), 0)) == concat_texts(ta.skip(i)),
        mark_chars(new_word_marks(tb, lcs_script(ta, tb, i, j), 0)) == concat_texts(tb.skip(j)),
    decreases ta.len() - i + tb.len() - j,
{
    let script = lcs_script(ta, tb, i, j);
    if i == ta.len() && j == tb.len() {
        assert(ta.skip(i) =~= Seq::<(Seq<char>, bool)>::empty());
        assert(tb.skip(j) =~= Seq::<(Seq<char>, bool)>::empty());
        assert(mark_chars(Seq::<(char, DiffEmphasis)>::empty()) =~= Seq::<char>::empty());
    } else {
        let ni: int = if i < ta.len() && j < tb.len() && ta[i] == tb[j] { i + 1 } else if i < ta.len()
            && (j == tb.len() || lcs(ta, tb, i + 1, j) >= lcs(ta, tb, i, j + 1)) { i + 1 } else { i };
        let nj: int = if i < ta.len() && j < tb.len() && ta[i] == tb[j] { j + 1 } else if i < ta.len()
            && (j == tb.len() || lcs(ta, tb, i + 1, j) >= lcs(ta, tb, i, j + 1)) { j } else { j + 1 };
        let rest = lcs_script(ta, tb, ni, nj);
        let op = script[0];
        assert(script == seq![op] + rest);
        lemma_script_sides(ta, tb, ni, nj);
        lemma_word_marks_shift(ta, tb, op, rest, 0);
        let om = old_word_marks(ta, rest, 0);
        let nm = new_word_marks(tb, rest, 0);
        assert(old_word_marks(ta, script, 0) == (match op {
            DiffOp::Equal { old, .. } => marked(ta[old as int].0, DiffEmphasis::Plain),
            DiffOp::Delete { old } => marked(ta[old as int].0, DiffEmphasis::Removed),
            DiffOp::Insert { .. } => Seq::empty(),
        }) + om);
        assert(new_word_marks(tb, script, 0) == (match op {
            DiffOp::Equal { new, .. } => marked(tb[new as int].0, DiffEmphasis::Plain),
            DiffOp::Insert { new } => marked(tb[new as int].0, DiffEmphasis::Added),
            DiffOp::Delete { .. } => Seq::empty(),
        }) + nm);
        if ni == i + 1 {
            assert(ta.skip(i).drop_first() =~= ta.skip(i + 1));
            assert(ta.skip(i)[0] == ta[i]);
            assert(concat_texts(ta.skip(i)) == ta[i].0 + concat_texts(ta.skip(i + 1)));
        } else {
            assert(ta.skip(i) == ta.skip(ni));
        }
        if nj == j + 1 {
            assert(tb.skip(j).drop_first() =~= tb.skip(j + 1));
            assert(tb.skip(j)[0] == tb[j]);
            assert(concat_texts(tb.skip(j)) == tb[j].0 + concat_texts(tb.skip(j + 1)));
        } else {
            assert(tb.skip(j) == tb.skip(nj));
        }
        match op {
            DiffOp::Equal { old, new } => {
                assert(old == i && new == j);
                assert(ta[i] == tb[j]);
                lemma_mark_chars(marked(ta[old as int].0, DiffEmphasis::Plain), om, ta[old as int].0, DiffEmphasis::Plain);
                lemma_mark_chars(marked(tb[new as int].0, DiffEmphasis::Plain), nm, tb[new as int].0, DiffEmphasis::Plain);
            },
            DiffOp::Delete { old } => {
                assert(old == i);
                lemma_mark_chars(marked(ta[old as int].0, DiffEmphasis::Removed), om, ta[old as int].0, DiffEmphasis::Removed);
                assert(Seq::<(char, DiffEmphasis)>::empty() + nm =~= nm);
            },
            DiffOp::Insert { new } => {
                assert(new == j);
                lemma_mark_chars(marked(tb[new as int].0, DiffEmphasis::Added), nm, tb[new as int].0, DiffEmphasis::Added);
                assert(Seq::<(char, DiffEmphasis)>::empty() + om =~= om);
            },
        }
    }
}

/// Marking words changes no character: the dropped line's marks read back as the line, and so
/// do the added line's.
pub proof fn law_word_marks_keep_text(x: Seq<char>, y: Seq<char>)
    requires
        x.len() <= usize::MAX,
        y.len() <= usize::MAX,
    ensures
        mark_chars(removed_words(x, y)) == x,
        mark_chars(added_words(x, y)) == y,
{
    lemma_tokens_join(x, 0);
    lemma_tokens_join(y, 0);
    lemma_script_sides(tokens(x), tokens(y), 0, 0);
    assert(tokens(x).skip(0) =~= tokens(x));
    assert(tokens(y).skip(0) =~= tokens(y));
    assert(x.skip(0) =~= x);
    assert(y.skip(0) =~= y);
}

/// Every line is at most `usize::MAX` characters long.
pub open spec fn texts_bounded(a: Seq<(Seq<char>, bool)>) -> bool {
    forall|i: int| 0 <= i < a.len() ==> (#[trigger] a[i]).0.len() <= usize::MAX
}

pub open spec fn strings_bounded(v: Seq<Seq<char>>) -> bool {
    forall|t: int| 0 <= t < v.len() ==> (#[trigger] v[t]).len() <= usize::MAX
}

pub open spec fn chars_of_lines(lines: Seq<Seq<(char, DiffEmphasis)>>) -> Seq<Seq<char>> {
    lines.map_values(|m: Seq<(char, DiffEmphasis)>| mark_chars(m))
}

proof fn lemma_chars_of_lines_concat(x: Seq<Seq<(char, DiffEmphasis)>>, y: Seq<Seq<(char, DiffEmphasis)>>)
    ensures
        chars_of_lines(x + y) == chars_of_lines(x) + chars_of_lines(y),
{
    assert(chars_of_lines(x + y) =~= chars_of_lines(x) + chars_of_lines(y));
}

proof fn lemma_run_texts_bounded(a: Seq<(Seq<char>, bool)>, b: Seq<(Seq<char>, bool)>, ops: Seq<DiffOp>, k: int, f: int)
    requires
        valid_script(a, b, ops),
        texts_bounded(a),
        texts_bounded(b),
        0 <= k <= f <= ops.len(),
    ensures
        strings_bounded(deleted_texts(a, ops, k, f)),
        strings_bounded(inserted_texts(b, ops, k, f)),
    decreases f - k,
{
    if k < f {
        lemma_run_texts_bounded(a, b, ops, k + 1, f);
        assert(step_ok(a, b, ops, k));
        let d = deleted_texts(a, ops, k, f);
        let i = inserted_texts(b, ops, k, f);
        match ops[k] {
            DiffOp::Delete { old } => {
                assert(d == seq![a[old as int].0] + deleted_texts(a, ops, k + 1, f));
                assert forall|t: int| 0 <= t < d.len() implies (#[trigger] d[t]).len() <= usize::MAX by {
                    if t > 0 {
                        assert(d[t] == deleted_texts(a, ops, k + 1, f)[t - 1]);
                    }
                }
                assert(i == Seq::<Seq<char>>::empty() + inserted_texts(b, ops, k + 1, f));
                assert(i =~= inserted_texts(b, ops, k + 1, f));
            },
            DiffOp::Insert { new } => {
                assert(i == seq![b[new as int].0] + inserted_texts(b, ops, k + 1, f));
                assert forall|t: int| 0 <= t < i.len() implies (#[trigger] i[t]).len() <= usize::MAX by {
                    if t > 0 {
                        assert(i[t] == inserted_texts(b, ops, k + 1, f)[t - 1]);
                    }
                }
                assert(d =~= deleted_texts(a, ops, k + 1, f));
            },
            DiffOp::Equal { .. } => {
                assert(d =~= deleted_texts(a, ops, k + 1, f));
                assert(i =~= inserted_texts(b, ops, k + 1, f));
            },
        }
    }
}

proof fn lemma_word_run_text(
    a: Seq<(Seq<char>, bool)>,
    b: Seq<(Seq<char>, bool)>,
    ops: Seq<DiffOp>,
    x: int,
    f: int,
    w: nat,
    dels: Seq<Seq<char>>,
    ins: Seq<Seq<char>>,
    rd: int,
    ri: int,
)
    requires
        valid_script(a, b, ops),
        texts_bounded(a),
        texts_bounded(b),
        strings_bounded(dels),
        strings_bounded(ins),
        0 <= x <= f <= ops.len(),
    ensures
        chars_of_lines(word_run_from(a, b, ops, x, f, w, dels, ins, rd, ri)) == inline_body(a, b, ops, x, f, w),
    decreases f - x,
{
    if x < f {
        assert(step_ok(a, b, ops, x));
        let rows = word_run_from(a, b, ops, x, f, w, dels, ins, rd, ri);
        match ops[x] {
            DiffOp::Delete { old } => {
                lemma_word_run_text(a, b, ops, x + 1, f, w, dels, ins, rd + 1, ri);
                let prefix = number((old + 1) as nat, w) + seq![' '] + spaces(w) + " - "@;
                let words = if 0 <= rd < ins.len() { removed_words(a[old as int].0, ins[rd]) } else { marked(a[old as int].0, DiffEmphasis::Plain) };
                if 0 <= rd < ins.len() {
                    law_word_marks_keep_text(a[old as int].0, ins[rd]);
                }
                lemma_mark_chars(marked(prefix, DiffEmphasis::Plain), words, prefix, DiffEmphasis::Plain);
                lemma_mark_chars(words, words, a[old as int].0, DiffEmphasis::Plain);
                assert(rows == seq![marked(prefix, DiffEmphasis::Plain) + words] + word_run_from(a, b, ops, x + 1, f, w, dels, ins, rd + 1, ri));
                lemma_chars_of_lines_concat(seq![marked(prefix, DiffEmphasis::Plain) + words], word_run_from(a, b, ops, x + 1, f, w, dels, ins, rd + 1, ri));
                assert(chars_of_lines(seq![marked(prefix, DiffEmphasis::Plain) + words]) =~= seq![inline_op_line(a, b, ops[x], w)]);
            },
            DiffOp::Insert { new } => {
                lemma_word_run_text(a, b, ops, x + 1, f, w, dels, ins, rd, ri + 1);
                let prefix = spaces(w) + seq![' '] + number((new + 1) as nat, w) + " + "@;
                let words = if 0 <= ri < dels.len() { added_words(dels[ri], b[new as int].0) } else { marked(b[new as int].0, DiffEmphasis::Plain) };
                if 0 <= ri < dels.len() {
                    law_word_marks_keep_text(dels[ri], b[new as int].0);
                }
                lemma_mark_chars(marked(prefix, DiffEmphasis::Plain), words, prefix, DiffEmphasis::Plain);
                lemma_mark_chars(words, words, b[new as int].0, DiffEmphasis::Plain);
                assert(rows == seq![marked(prefix, DiffEmphasis::Plain) + words] + word_run_from(a, b, ops, x + 1, f, w, dels, ins, rd, ri + 1));
                lemma_chars_of_lines_concat(seq![marked(prefix, DiffEmphasis::Plain) + words], word_run_from(a, b, ops, x + 1, f, w, dels, ins, rd, ri + 1));
                assert(chars_of_lines(seq![marked(prefix, DiffEmphasis::Plain) + words]) =~= seq![inline_op_line(a, b, ops[x], w)]);
            },
            DiffOp::Equal { .. } => {
                lemma_word_run_text(a, b, ops, x + 1, f, w, dels, ins, rd, ri);
                let line = inline_op_line(a, b, ops[x], w);
                lemma_mark_chars(marked(line, DiffEmphasis::Plain), marked(line, DiffEmphasis::Plain), line, DiffEmphasis::Plain);
                lemma_chars_of_lines_concat(seq![marked(line, DiffEmphasis::Plain)], word_run_from(a, b, ops, x + 1, f, w, dels, ins, rd, ri));
                assert(chars_of_lines(seq![marked(line, DiffEmphasis::Plain)]) =~= seq![line]);
            },
        }
    } else {
        assert(chars_of_lines(Seq::<Seq<(char, DiffEmphasis)>>::empty()) =~= Seq::<Seq<char>>::empty());
    }
}

proof fn lemma_inline_body_split(a: Seq<(Seq<char>, bool)>, b: Seq<(Seq<char>, bool)>, ops: Seq<DiffOp>, k: int, f: int, e: int, w: nat)
    requires
        k <= f <= e,
    ensures
        inline_body(a, b, ops, k, e, w) == inline_body(a, b, ops, k, f, w) + inline_body(a, b, ops, f, e, w),
    decreases f - k,
{
    if k < f {
        lemma_inline_body_split(a, b, ops, k + 1, f, e, w);
        assert(inline_body(a, b, ops, k, e, w) =~= inline_body(a, b, ops, k, f, w) + inline_body(a, b, ops, f, e, w));
    } else {
        assert(inline_body(a, b, ops, k, f, w) =~= Seq::<Seq<char>>::empty());
        assert(inline_body(a, b, ops, k, e, w) =~= inline_body(a, b, ops, k, f, w) + inline_body(a, b, ops, f, e, w));
    }
}

proof fn lemma_word_body_text(a: Seq<(Seq<char>, bool)>, b: Seq<(Seq<char>, bool)>, ops: Seq<DiffOp>, k: int, e: int, w: nat)
    requires
        valid_script(a, b, ops),
        texts_bounded(a),
        texts_bounded(b),
        0 <= k <= e <= ops.len(),
    ensures
        chars_of_lines(word_body(a, b, ops, k, e, w)) == inline_body(a, b, ops, k, e, w),
    decreases e - k,
{
    if k < e {
        if ops[k] is Equal {
            lemma_word_body_text(a, b, ops, k + 1, e, w);
            let line = inline_op_line(a, b, ops[k], w);
            lemma_mark_chars(marked(line, DiffEmphasis::Plain), marked(line, DiffEmphasis::Plain), line, DiffEmphasis::Plain);
            lemma_chars_of_lines_concat(seq![marked(line, DiffEmphasis::Plain)], word_body(a, b, ops, k + 1, e, w));
            assert(chars_of_lines(seq![marked(line, DiffEmphasis::Plain)]) =~= seq![line]);
        } else {
            let f = change_end(ops, k, e);
            lemma_change_end(ops, k, e);
            lemma_word_body_text(a, b, ops, f, e, w);
            lemma_run_texts_bounded(a, b, ops, k, f);
            let dels = deleted_texts(a, ops, k, f);
            let ins = inserted_texts(b, ops, k, f);
            lemma_word_run_text(a, b, ops, k, f, w, dels, ins, 0, 0);
            lemma_chars_of_lines_concat(word_run_from(a, b, ops, k, f, w, dels, ins, 0, 0), word_body(a, b, ops, f, e, w));
            lemma_inline_body_split(a, b, ops, k, f, e, w);
        }
    } else {
        assert(chars_of_lines(Seq::<Seq<(char, DiffEmphasis)>>::empty()) =~= Seq::<Seq<char>>::empty());
    }
}

proof fn lemma_word_hunks_text(
    a: Seq<(Seq<char>, bool)>,
    b: Seq<(Seq<char>, bool)>,
    ops: Seq<DiffOp>,
    hs: Seq<(int, int)>,
    t: int,
    headers: bool,
    w: nat,
)
    requires
        valid_script(a, b, ops),
        texts_bounded(a),
        texts_bounded(b),
        0 <= t <= hs.len(),
        forall|u: int| 0 <= u < hs.len() ==> 0 <= (#[trigger] hs[u]).0 <= hs[u].1 <= ops.len(),
    ensures
        chars_of_lines(word_hunks(a, b, ops, hs, t, headers, w)) == inline_hunks(a, b, ops, hs, t, headers, w),
    decreases hs.len() - t,
{
    if t < hs.len() {
        lemma_word_hunks_text(a, b, ops, hs, t + 1, headers, w);
        lemma_word_body_text(a, b, ops, hs[t].0, hs[t].1, w);
        let head = if headers { seq![marked(hunk_header(ops, hs[t]), DiffEmphasis::Plain)] } else { Seq::empty() };
        lemma_mark_chars(Seq::empty(), Seq::empty(), hunk_header(ops, hs[t]), DiffEmphasis::Plain);
        assert(chars_of_lines(head) =~= (if headers { seq![hunk_header(ops, hs[t])] } else { Seq::empty() }));
        lemma_chars_of_lines_concat(head, word_body(a, b, ops, hs[t].0, hs[t].1, w));
        lemma_chars_of_lines_concat(head + word_body(a, b, ops, hs[t].0, hs[t].1, w), word_hunks(a, b, ops, hs, t + 1, headers, w));
    } else {
        assert(chars_of_lines(Seq::<Seq<(char, DiffEmphasis)>>::empty()) =~= Seq::<Seq<char>>::empty());
    }
}

proof fn lemma_plain_marks_text(lines: Seq<Seq<char>>)
    ensures
        chars_of_lines(plain_marks_all(lines)) == lines,
{
    assert forall|t: int| 0 <= t < lines.len() implies #[trigger] chars_of_lines(plain_marks_all(lines))[t] == lines[t] by {
        lemma_mark_chars(Seq::empty(), Seq::empty(), lines[t], DiffEmphasis::Plain);
    }
    assert(chars_of_lines(plain_marks_all(lines)) =~= lines);
}

/// Styling changes no character: the styled lines read back as the logical lines, in every
/// style, for lines no longer than a machine length.
pub proof fn law_styled_lines_keep_text(v: DiffViewer)
    requires
        v.wf(),
        texts_bounded(line_views(v.old_lines@)),
        texts_bounded(line_views(v.new_lines@)),
    ensures
        chars_of_lines(v.spec_logical_styled_lines()) == v.spec_plain_lines(),
{
    let a = line_views(v.old_lines@);
    let b = line_views(v.new_lines@);
    let ops = v.ops@;
    let c = v.context_lines as nat;
    if v.diff_style == DiffStyle::Word {
        let w = number_width(a.len(), b.len());
        let hs = hunks(ops, c);
        let head = if v.show_headers { plain_marks_all(file_headers(v.old_label@, v.new_label@)) } else { Seq::empty() };
        lemma_plain_marks_text(file_headers(v.old_label@, v.new_label@));
        assert(chars_of_lines(head) =~= (if v.show_headers { file_headers(v.old_label@, v.new_label@) } else { Seq::empty() }));
        law_hunks_are_maximal_runs(ops, c);
        if hs.len() == 0 {
            lemma_word_body_text(a, b, ops, 0, ops.len() as int, w);
            lemma_chars_of_lines_concat(head, word_body(a, b, ops, 0, ops.len() as int, w));
        } else {
            assert forall|u: int| 0 <= u < hs.len() implies 0 <= (#[trigger] hs[u]).0 <= hs[u].1 <= ops.len() by {
                assert(maximal_run(ops, c, hs[u]));
            }
            lemma_word_hunks_text(a, b, ops, hs, 0, v.show_headers, w);
            lemma_chars_of_lines_concat(head, word_hunks(a, b, ops, hs, 0, v.show_headers, w));
        }
    } else {
        lemma_plain_marks_text(v.spec_plain_lines());
    }
}

} // verus!
