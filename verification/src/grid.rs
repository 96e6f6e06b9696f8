//! A two-dimensional grid layout: column and row tracks (fixed, percentage, fill-weighted or
//! sized to their content), items placed on cells with spans and alignment, gaps, padding and
//! separator lines between tracks.
use vstd::prelude::*;
use crate::geometry::{
    clamp_u32_to_u16, inner_area, inner_axis_bound, max_int, min_int, mul_sat_u16, mul_sat_u32, sat_add16, sat_mul16,
    sat_mul32, sat_sub, spec_inner_area, spec_inner_axis_bound, AxisExpand, AxisProposal, HintSource, LayoutProposal,
    Gap, LayoutSize, LayoutSizeHint, Padding, Rect, Separator,
};
use crate::space::{distribute_fill, spec_distribute_fill};
use crate::flex::{clamp_all, spec_separator_slots, separator_slots};

verus! {

/// How a column or row is sized.
#[derive(Debug, Clone, Copy, PartialEq, Eq, Structural)]
pub enum GridTrack {
    Fixed(u16),
    Percent(u16),
    Fill(u16),
    FitContent,
}

impl GridTrack {
    pub fn fixed(size: u16) -> (r: GridTrack)
        ensures
            r == GridTrack::Fixed(size),
    {
        GridTrack::Fixed(size)
    }

    /// A percentage of the space left after gaps, capped at 100.
    pub fn percent(percent: u16) -> (r: GridTrack)
        ensures
            r == GridTrack::Percent(if percent > 100 { 100 } else { percent }),
    {
        GridTrack::Percent(if percent > 100 { 100 } else { percent })
    }

    /// A share of the free space; a zero weight counts as one.
    pub fn fill(weight: u16) -> (r: GridTrack)
        ensures
            r == GridTrack::Fill(if weight == 0 { 1 } else { weight }),
    {
        GridTrack::Fill(if weight == 0 { 1 } else { weight })
    }

    pub fn fit_content() -> (r: GridTrack)
        ensures
            r == GridTrack::FitContent,
    {
        GridTrack::FitContent
    }
}

/// Placement of an item inside its cell along one axis.
#[derive(Debug, Clone, Copy, PartialEq, Eq, Structural)]
pub enum StackAlign {
    Stretch,
    Start,
    Center,
    End,
}

/// Where a grid child sits: its first row and column, how many it spans and how it is aligned.
#[derive(Debug, Clone, Copy, PartialEq, Eq, Structural)]
pub struct GridItem {
    pub row: usize,
    pub column: usize,
    pub row_span: usize,
    pub column_span: usize,
    pub horizontal: StackAlign,
    pub vertical: StackAlign,
}

impl GridItem {
    /// One cell at (`row`, `column`), stretched.
    pub fn new(row: usize, column: usize) -> (r: GridItem)
        ensures
            r == (GridItem {
                row,
                column,
                row_span: 1,
                column_span: 1,
                horizontal: StackAlign::Stretch,
                vertical: StackAlign::Stretch,
            }),
    {
        GridItem {
            row,
            column,
            row_span: 1,
            column_span: 1,
            horizontal: StackAlign::Stretch,
            vertical: StackAlign::Stretch,
        }
    }

    /// Spans `rows` rows and `columns` columns; zero counts as one.
    pub fn span(self, rows: usize, columns: usize) -> (r: GridItem)
        ensures
            r == (GridItem {
                row_span: if rows == 0 { 1 } else { rows },
                column_span: if columns == 0 { 1 } else { columns },
                ..self
            }),
    {
        GridItem {
            row_span: if rows == 0 { 1 } else { rows },
            column_span: if columns == 0 { 1 } else { columns },
            ..self
        }
    }

    pub fn align(self, horizontal: StackAlign, vertical: StackAlign) -> (r: GridItem)
        ensures
            r == (GridItem { horizontal, vertical, ..self }),
    {
        GridItem { horizontal, vertical, ..self }
    }
}

/// Which track boundaries get separator lines.
#[derive(Debug, Clone, Copy, PartialEq, Eq, Structural)]
pub struct GridSeparators {
    pub separator: Separator,
    pub columns: bool,
    pub rows: bool,
}

impl GridSeparators {
    pub fn both(separator: Separator) -> (r: GridSeparators)
        ensures
            r == (GridSeparators { separator, columns: true, rows: true }),
    {
        GridSeparators { separator, columns: true, rows: true }
    }

    pub fn columns(separator: Separator) -> (r: GridSeparators)
        ensures
            r == (GridSeparators { separator, columns: true, rows: false }),
    {
        GridSeparators { separator, columns: true, rows: false }
    }

    pub fn rows(separator: Separator) -> (r: GridSeparators)
        ensures
            r == (GridSeparators { separator, columns: false, rows: true }),
    {
        GridSeparators { separator, columns: false, rows: true }
    }
}

/// A child of a grid: its key and placement.
#[derive(Debug, Clone, PartialEq, Eq)]
pub struct GridChild {
    pub key: String,
    pub item: GridItem,
}

/// Tracks with at least one entry: an empty list becomes a single fill track.
pub open spec fn spec_non_empty(tracks: Seq<GridTrack>) -> Seq<GridTrack> {
    if tracks.len() == 0 {
        seq![GridTrack::Fill(1)]
    } else {
        tracks
    }
}

pub fn non_empty(tracks: Vec<GridTrack>) -> (r: Vec<GridTrack>)
    ensures
        r@ == spec_non_empty(tracks@),
{
    let mut tracks = tracks;
    if tracks.len() == 0 {
        tracks.push(GridTrack::Fill(1));
        assert(tracks@ =~= seq![GridTrack::Fill(1)]);
    }
    tracks
}

// ---------------------------------------------------------------------------------------------
// Track arithmetic
// ---------------------------------------------------------------------------------------------

/// Left-to-right `u16` saturating sum.
pub open spec fn sat_sum_u16(s: Seq<u16>) -> int
    decreases s.len(),
{
    if s.len() == 0 {
        0
    } else {
        sat_add16(sat_sum_u16(s.drop_last()), s.last() as int)
    }
}

pub proof fn lemma_sat_sum_u16_bounds(s: Seq<u16>)
    ensures
        0 <= sat_sum_u16(s) <= u16::MAX,
    decreases s.len(),
{
    if s.len() > 0 {
        lemma_sat_sum_u16_bounds(s.drop_last());
    }
}

/// The cells taken by gaps between `count` tracks.
pub open spec fn spec_total_gap(count: int, gap: u16) -> int {
    sat_mul16(gap as int, min_int(sat_sub(count, 1), u16::MAX as int))
}

pub fn total_gap(count: usize, gap: u16) -> (r: u16)
    ensures
        r == spec_total_gap(count as int, gap),
{
    let gaps = if count > 0 { count - 1 } else { 0 };
    let gaps16: u16 = if gaps > u16::MAX as usize { u16::MAX } else { gaps as u16 };
    mul_sat_u16(gap, gaps16)
}

/// The length of consecutive tracks with the gaps between them.
pub open spec fn spec_sum_span(lengths: Seq<u16>, gap: u16) -> int {
    sat_add16(sat_sum_u16(lengths), spec_total_gap(lengths.len() as int, gap))
}

pub fn sum_span(lengths: &[u16], gap: u16) -> (r: u16)
    ensures
        r == spec_sum_span(lengths@, gap),
{
    let mut acc: u16 = 0;
    let mut i: usize = 0;
    while i < lengths.len()
        invariant
            i <= lengths@.len(),
            acc == sat_sum_u16(lengths@.take(i as int)),
        decreases lengths@.len() - i,
    {
        assert(lengths@.take(i + 1).drop_last() =~= lengths@.take(i as int));
        acc = acc.saturating_add(lengths[i]);
        i += 1;
    }
    assert(lengths@.take(lengths@.len() as int) =~= lengths@);
    acc.saturating_add(total_gap(lengths.len(), gap))
}

/// The same as `sum_span`.
pub fn sum_with_gaps(lengths: &[u16], gap: u16) -> (r: u16)
    ensures
        r == spec_sum_span(lengths@, gap),
{
    sum_span(lengths, gap)
}

/// Where track `index` starts: the tracks before it, their gaps, and the gap before it.
pub open spec fn spec_offset_before(lengths: Seq<u16>, index: int, gap: u16) -> int {
    sat_add16(spec_sum_span(lengths.take(index), gap), if index == 0 { 0 } else { gap as int })
}

pub fn offset_before(lengths: &[u16], index: usize, gap: u16) -> (r: u16)
    requires
        index <= lengths@.len(),
    ensures
        r == spec_offset_before(lengths@, index as int, gap),
{
    let mut acc: u16 = 0;
    let mut i: usize = 0;
    while i < index
        invariant
            index <= lengths@.len(),
            i <= index,
            acc == sat_sum_u16(lengths@.take(index as int).take(i as int)),
        decreases index - i,
    {
        assert(lengths@.take(index as int).take(i + 1).drop_last() =~= lengths@.take(
            index as int,
        ).take(i as int));
        acc = acc.saturating_add(lengths[i]);
        i += 1;
    }
    assert(lengths@.take(index as int).take(index as int) =~= lengths@.take(index as int));
    let span = acc.saturating_add(total_gap(index, gap));
    span.saturating_add(if index == 0 { 0 } else { gap })
}

// ---------------------------------------------------------------------------------------------
// Cells and alignment
// ---------------------------------------------------------------------------------------------

/// The first track an item starts on, clamped into the track list.
pub open spec fn clamp_start(start: usize, len: int) -> int {
    min_int(start as int, sat_sub(len, 1))
}

/// The track after the last one an item covers.
pub open spec fn span_end(start: int, span: usize, len: int) -> int {
    min_int(min_int(start + span, usize::MAX as int), len)
}

/// The area an item covers: the tracks it spans and the gaps between them.
pub open spec fn spec_cell_rect(
    area: Rect,
    columns: Seq<u16>,
    rows: Seq<u16>,
    column_gap: u16,
    row_gap: u16,
    item: GridItem,
) -> Rect {
    let column = clamp_start(item.column, columns.len() as int);
    let row = clamp_start(item.row, rows.len() as int);
    let column_end = span_end(column, item.column_span, columns.len() as int);
    let row_end = span_end(row, item.row_span, rows.len() as int);
    Rect::spec_new(
        sat_add16(area.x as int, spec_offset_before(columns, column, column_gap)) as u16,
        sat_add16(area.y as int, spec_offset_before(rows, row, row_gap)) as u16,
        spec_sum_span(columns.subrange(column, column_end), column_gap) as u16,
        spec_sum_span(rows.subrange(row, row_end), row_gap) as u16,
    )
}

pub fn cell_rect(
    area: Rect,
    columns: &Vec<u16>,
    rows: &Vec<u16>,
    column_gap: u16,
    row_gap: u16,
    item: GridItem,
) -> (r: Rect)
    ensures
        r == spec_cell_rect(area, columns@, rows@, column_gap, row_gap, item),
{
    let clen = columns.len();
    let rlen = rows.len();
    let clast = if clen > 0 { clen - 1 } else { 0 };
    let rlast = if rlen > 0 { rlen - 1 } else { 0 };
    let column = if item.column < clast { item.column } else { clast };
    let row = if item.row < rlast { item.row } else { rlast };
    let ce = column.saturating_add(item.column_span);
    let column_end = if ce < clen { ce } else { clen };
    let re = row.saturating_add(item.row_span);
    let row_end = if re < rlen { re } else { rlen };
    let x = area.x.saturating_add(offset_before(columns.as_slice(), column, column_gap));
    let y = area.y.saturating_add(offset_before(rows.as_slice(), row, row_gap));
    let width = sum_span(slice_range(columns.as_slice(), column, column_end), column_gap);
    let height = sum_span(slice_range(rows.as_slice(), row, row_end), row_gap);
    Rect::new(x, y, width, height)
}

/// The sub-slice `[start, end)`.
pub fn slice_range(values: &[u16], start: usize, end: usize) -> (r: &[u16])
    requires
        start <= end <= values@.len(),
    ensures
        r@ == values@.subrange(start as int, end as int),
{
    let (_, tail) = values.split_at(start);
    let (mid, _) = tail.split_at(end - start);
    assert(mid@ =~= values@.subrange(start as int, end as int));
    mid
}

/// The size an item takes in `available` cells along one axis: all of it when stretched,
/// otherwise its measured preferred size (or one visible cell for an unmeasured child).
pub open spec fn spec_align_size(
    available: u16,
    align: StackAlign,
    hint: Option<LayoutSizeHint>,
    width: bool,
) -> u16 {
    if align == StackAlign::Stretch {
        available
    } else {
        match hint {
            Some(h) => if h.source == HintSource::Measured {
                min_int(
                    (if width { h.preferred.width } else { h.preferred.height }) as int,
                    available as int,
                ) as u16
            } else {
                min_int(if available > 0 { 1 } else { 0 }, available as int) as u16
            },
            None => min_int(if available > 0 { 1 } else { 0 }, available as int) as u16,
        }
    }
}

pub fn align_size(available: u16, align: StackAlign, hint: Option<LayoutSizeHint>, width: bool) -> (r:
    u16)
    ensures
        r == spec_align_size(available, align, hint, width),
{
    if align == StackAlign::Stretch {
        return available;
    }
    let visible: u16 = if available > 0 { 1 } else { 0 };
    match hint {
        Some(h) => {
            if h.source == HintSource::Measured {
                let v = if width { h.preferred.width } else { h.preferred.height };
                if v < available { v } else { available }
            } else {
                visible
            }
        },
        None => visible,
    }
}

/// Where an item of `size` cells starts inside `available` cells from `origin`.
pub open spec fn spec_align_offset(origin: u16, available: u16, size: u16, align: StackAlign) -> u16 {
    let slack = sat_sub(available as int, size as int);
    sat_add16(
        origin as int,
        match align {
            StackAlign::Stretch => 0,
            StackAlign::Start => 0,
            StackAlign::Center => slack / 2,
            StackAlign::End => slack,
        },
    ) as u16
}

/// Placing an item of `size` cells in `available` cells from `origin` (within `u16`): it never
/// starts before the origin; an item that fits starts at the origin when aligned to the start
/// or stretched, ends exactly at the far edge when aligned to the end, and leaves equal space on
/// both sides when centred, the far side taking the odd cell; an item too large starts at the
/// origin.
pub proof fn law_align_offset(origin: u16, available: u16, size: u16, align: StackAlign)
    requires
        origin + available <= u16::MAX,
    ensures
        ({
            let off = spec_align_offset(origin, available, size, align) as int;
            let before = off - origin;
            let after = origin + available - (off + size);
            &&& origin <= off
            &&& (size <= available ==> 0 <= after)
            &&& (size <= available && (align == StackAlign::Start || align == StackAlign::Stretch) ==> off == origin)
            &&& (size <= available && align == StackAlign::End ==> off + size == origin + available)
            &&& (size <= available && align == StackAlign::Center ==> before <= after <= before + 1)
            &&& (size >= available ==> off == origin)
        }),
{
}

/// A child in a cell that fits in `u16` fills the cell on a stretched axis and otherwise takes
/// its measured preferred size up to the cell's (one cell when unmeasured), and sits where its
/// alignment puts it on each axis (`law_align_offset`): a child aligned to the end on both axes
/// ends at the cell's right and bottom edges.
pub proof fn law_aligned_rect_edges(cell: Rect, item: GridItem, hint: Option<LayoutSizeHint>)
    requires
        cell.spec_fits(),
    ensures
        ({
            let r = spec_aligned_rect(cell, item, hint);
            &&& r.width <= cell.width && r.height <= cell.height
            &&& (item.horizontal == StackAlign::Start || item.horizontal == StackAlign::Stretch ==> r.x == cell.x)
            &&& (item.horizontal == StackAlign::End ==> r.x + r.width == cell.x + cell.width)
            &&& (item.horizontal == StackAlign::Center ==> r.x - cell.x <= (cell.x + cell.width) - (r.x + r.width) <= r.x - cell.x + 1)
            &&& (item.vertical == StackAlign::Start || item.vertical == StackAlign::Stretch ==> r.y == cell.y)
            &&& (item.vertical == StackAlign::End ==> r.y + r.height == cell.y + cell.height)
            &&& (item.vertical == StackAlign::Center ==> r.y - cell.y <= (cell.y + cell.height) - (r.y + r.height) <= r.y - cell.y + 1)
            &&& r.width == (if item.horizontal == StackAlign::Stretch {
                cell.width as int
            } else {
                match hint {
                    Some(h) => if h.source == HintSource::Measured {
                        min_int(h.preferred.width as int, cell.width as int)
                    } else {
                        min_int(1, cell.width as int)
                    },
                    None => min_int(1, cell.width as int),
                }
            })
            &&& r.height == (if item.vertical == StackAlign::Stretch {
                cell.height as int
            } else {
                match hint {
                    Some(h) => if h.source == HintSource::Measured {
                        min_int(h.preferred.height as int, cell.height as int)
                    } else {
                        min_int(1, cell.height as int)
                    },
                    None => min_int(1, cell.height as int),
                }
            })
        }),
{
    let width = spec_align_size(cell.width, item.horizontal, hint, true);
    let height = spec_align_size(cell.height, item.vertical, hint, false);
    law_align_offset(cell.x, cell.width, width, item.horizontal);
    law_align_offset(cell.y, cell.height, height, item.vertical);
}

pub fn align_offset(origin: u16, available: u16, size: u16, align: StackAlign) -> (r: u16)
    ensures
        r == spec_align_offset(origin, available, size, align),
{
    let slack = available.saturating_sub(size);
    origin.saturating_add(
        match align {
            StackAlign::Stretch => 0,
            StackAlign::Start => 0,
            StackAlign::Center => slack / 2,
            StackAlign::End => slack,
        },
    )
}

/// An item's rectangle inside its cell.
pub open spec fn spec_aligned_rect(cell: Rect, item: GridItem, hint: Option<LayoutSizeHint>) -> Rect {
    let width = spec_align_size(cell.width, item.horizontal, hint, true);
    let height = spec_align_size(cell.height, item.vertical, hint, false);
    Rect::spec_new(
        spec_align_offset(cell.x, cell.width, width, item.horizontal),
        spec_align_offset(cell.y, cell.height, height, item.vertical),
        width,
        height,
    )
}

/// A child stays inside its cell: its rectangle starts no earlier and ends no later than the
/// cell, whatever its alignment and measured size.
pub proof fn law_item_inside_its_cell(cell: Rect, item: GridItem, hint: Option<LayoutSizeHint>)
    requires
        cell.spec_fits(),
    ensures
        ({
            let r = spec_aligned_rect(cell, item, hint);
            &&& cell.x <= r.x && r.x + r.width <= cell.x + cell.width
            &&& cell.y <= r.y && r.y + r.height <= cell.y + cell.height
        }),
{
}

pub fn aligned_rect(cell: Rect, item: GridItem, hint: Option<LayoutSizeHint>) -> (r: Rect)
    ensures
        r == spec_aligned_rect(cell, item, hint),
{
    let width = align_size(cell.width, item.horizontal, hint, true);
    let height = align_size(cell.height, item.vertical, hint, false);
    let x = align_offset(cell.x, cell.width, width, item.horizontal);
    let y = align_offset(cell.y, cell.height, height, item.vertical);
    Rect::new(x, y, width, height)
}

/// Whether an item lies on track `index` alone (it does not span several tracks of that axis).
pub open spec fn spec_single_span_on_track(child: GridChild, index: int, columns: bool) -> bool {
    if columns {
        child.item.column == index && child.item.column_span == 1
    } else {
        child.item.row == index && child.item.row_span == 1
    }
}

pub fn single_span_on_track(child: &GridChild, index: usize, columns: bool) -> (r: bool)
    ensures
        r == spec_single_span_on_track(*child, index as int, columns),
{
    if columns {
        child.item.column == index && child.item.column_span == 1
    } else {
        child.item.row == index && child.item.row_span == 1
    }
}

/// What a measured item asks of a fit-content track: its preferred size (or its minimum for
/// `min`), one cell (none for `min`) when it does not measure itself, nothing when absent.
pub open spec fn fit_value(hint: Option<LayoutSizeHint>, columns: bool, available: u16, min: bool) -> int {
    match hint {
        None => 0,
        Some(h) => if h.source == HintSource::LegacyUnmeasured {
            if min || available == 0 { 0 } else { 1 }
        } else {
            let s = if min { h.min } else { h.preferred };
            (if columns { s.width } else { s.height }) as int
        },
    }
}

/// The largest request on track `index` among the first `k` items.
pub open spec fn fit_max_upto(
    items: Seq<GridChild>,
    hints: Seq<Option<LayoutSizeHint>>,
    index: int,
    columns: bool,
    available: u16,
    min: bool,
    k: int,
) -> int
    decreases k,
{
    if k <= 0 {
        0
    } else {
        let prev = fit_max_upto(items, hints, index, columns, available, min, k - 1);
        if spec_single_span_on_track(items[k - 1], index, columns) {
            max_int(prev, fit_value(hints[k - 1], columns, available, min))
        } else {
            prev
        }
    }
}

pub proof fn lemma_fit_max_bounds(
    items: Seq<GridChild>,
    hints: Seq<Option<LayoutSizeHint>>,
    index: int,
    columns: bool,
    available: u16,
    min: bool,
    k: int,
)
    ensures
        0 <= fit_max_upto(items, hints, index, columns, available, min, k) <= u16::MAX,
    decreases k,
{
    if k > 0 {
        lemma_fit_max_bounds(items, hints, index, columns, available, min, k - 1);
    }
}

/// The size of fit-content track `index`: the largest request of the items on it alone, at most
/// `available`.
pub open spec fn spec_fit_content_track(
    items: Seq<GridChild>,
    hints: Seq<Option<LayoutSizeHint>>,
    index: int,
    columns: bool,
    available: u16,
    min: bool,
) -> u16 {
    min_int(
        fit_max_upto(items, hints, index, columns, available, min, items.len() as int),
        available as int,
    ) as u16
}

pub fn fit_content_track(
    items: &Vec<GridChild>,
    hints: &Vec<Option<LayoutSizeHint>>,
    index: usize,
    columns: bool,
    available: u16,
    min: bool,
) -> (r: u16)
    requires
        hints@.len() == items@.len(),
    ensures
        r == spec_fit_content_track(items@, hints@, index as int, columns, available, min),
{
    let mut best: u16 = 0;
    let mut k: usize = 0;
    while k < items.len()
        invariant
            k <= items@.len(),
            hints@.len() == items@.len(),
            best == fit_max_upto(items@, hints@, index as int, columns, available, min, k as int),
        decreases items@.len() - k,
    {
        if single_span_on_track(&items[k], index, columns) {
            let v: u16 = match hints[k] {
                None => 0,
                Some(h) => {
                    if h.source == HintSource::LegacyUnmeasured {
                        if min || available == 0 { 0 } else { 1 }
                    } else {
                        let s = if min { h.min } else { h.preferred };
                        if columns { s.width } else { s.height }
                    }
                },
            };
            if v > best {
                best = v;
            }
        }
        k += 1;
    }
    if best < available { best } else { available }
}

/// The fill weight of each track, `None` for tracks that do not fill.
pub open spec fn track_kinds(tracks: Seq<GridTrack>) -> Seq<Option<u16>> {
    Seq::new(
        tracks.len(),
        |i: int|
            match tracks[i] {
                GridTrack::Fill(w) => Some(w),
                _ => None,
            },
    )
}

/// Track lengths before fill distribution: fixed sizes, percentages of the space left after
/// gaps, fit-content sizes, and nothing yet for fill tracks.
pub open spec fn base_track_lengths(
    tracks: Seq<GridTrack>,
    items: Seq<GridChild>,
    hints: Seq<Option<LayoutSizeHint>>,
    columns: bool,
    available: u16,
    without_gap: u32,
) -> Seq<u32> {
    Seq::new(
        tracks.len(),
        |i: int|
            match tracks[i] {
                GridTrack::Fixed(size) => size as u32,
                GridTrack::Percent(p) => (sat_mul32(without_gap as int, p as int) / 100) as u32,
                GridTrack::Fill(_) => 0u32,
                GridTrack::FitContent => spec_fit_content_track(
                    items,
                    hints,
                    i,
                    columns,
                    available,
                    false,
                ) as u32,
            },
    )
}

// ---------------------------------------------------------------------------------------------
// The container
// ---------------------------------------------------------------------------------------------

/// A grid of children.
#[derive(Debug, Clone)]
pub struct Grid {
    pub columns: Vec<GridTrack>,
    pub rows: Vec<GridTrack>,
    pub items: Vec<GridChild>,
    pub rects: Vec<(String, Rect)>,
    pub cell_rects: Vec<Rect>,
    pub resolved_columns: Vec<u16>,
    pub resolved_rows: Vec<u16>,
    pub column_gap: u16,
    pub row_gap: u16,
    pub padding: Padding,
    pub separators: Option<GridSeparators>,
    pub column_separator_rects: Vec<Rect>,
    pub row_separator_rects: Vec<Rect>,
    pub intersections: Vec<(u16, u16)>,
}

impl Grid {
    /// One fill column and one fill row, no children.
    pub fn new() -> (r: Grid)
        ensures
            r.columns@ == seq![GridTrack::Fill(1)],
            r.rows@ == seq![GridTrack::Fill(1)],
            r.items@.len() == 0,
            r.rects@.len() == 0,
            r.cell_rects@.len() == 0,
            r.resolved_columns@.len() == 0,
            r.resolved_rows@.len() == 0,
            r.column_gap == 0,
            r.row_gap == 0,
            r.padding == (Padding { left: 0, right: 0, top: 0, bottom: 0 }),
            r.separators.is_none(),
            r.column_separator_rects@.len() == 0,
            r.row_separator_rects@.len() == 0,
            r.intersections@.len() == 0,
    {
        let mut columns = Vec::new();
        columns.push(GridTrack::Fill(1));
        let mut rows = Vec::new();
        rows.push(GridTrack::Fill(1));
        assert(columns@ =~= seq![GridTrack::Fill(1)]);
        assert(rows@ =~= seq![GridTrack::Fill(1)]);
        Grid {
            columns,
            rows,
            items: Vec::new(),
            rects: Vec::new(),
            cell_rects: Vec::new(),
            resolved_columns: Vec::new(),
            resolved_rows: Vec::new(),
            column_gap: 0,
            row_gap: 0,
            padding: Padding::zero(),
            separators: None,
            column_separator_rects: Vec::new(),
            row_separator_rects: Vec::new(),
            intersections: Vec::new(),
        }
    }

    pub fn columns(self, columns: Vec<GridTrack>) -> (r: Grid)
        ensures
            r == (Grid { columns: r.columns, ..self }),
            r.columns@ == spec_non_empty(columns@),
    {
        Grid { columns: non_empty(columns), ..self }
    }

    pub fn rows(self, rows: Vec<GridTrack>) -> (r: Grid)
        ensures
            r == (Grid { rows: r.rows, ..self }),
            r.rows@ == spec_non_empty(rows@),
    {
        Grid { rows: non_empty(rows), ..self }
    }

    /// Gaps between columns and between rows.
    pub fn gap(self, columns: u16, rows: u16) -> (r: Grid)
        ensures
            r == (Grid { column_gap: columns, row_gap: rows, ..self }),
    {
        Grid { column_gap: columns, row_gap: rows, ..self }
    }

    /// The gaps of `gaps` between columns and between rows.
    pub fn gaps(self, gaps: Gap) -> (r: Grid)
        ensures
            r == (Grid { column_gap: gaps.column, row_gap: gaps.row, ..self }),
    {
        Grid { column_gap: gaps.column, row_gap: gaps.row, ..self }
    }

    /// Adds a child under a key that no other child has.
    pub fn child(self, key: String, item: GridItem) -> (r: Grid)
        requires
            !self.has_key(key@),
        ensures
            r == (Grid { items: r.items, ..self }),
            r.items@ == self.items@.push(GridChild { key, item }),
    {
        let mut grid = self;
        grid.items.push(GridChild { key, item });
        grid
    }

    pub fn padding(self, padding: Padding) -> (r: Grid)
        ensures
            r == (Grid { padding, ..self }),
    {
        Grid { padding, ..self }
    }

    pub fn separators(self, separators: GridSeparators) -> (r: Grid)
        ensures
            r == (Grid { separators: Some(separators), ..self }),
    {
        Grid { separators: Some(separators), ..self }
    }

    /// Separator lines between both columns and rows.
    pub fn separator(self, separator: Separator) -> (r: Grid)
        ensures
            r == (Grid {
                separators: Some(GridSeparators { separator, columns: true, rows: true }),
                ..self
            }),
    {
        Grid { separators: Some(GridSeparators::both(separator)), ..self }
    }

    pub open spec fn has_key(self, key: Seq<char>) -> bool {
        exists|i: int| 0 <= i < self.items@.len() && self.items@[i].key@ == key
    }

    /// Adds a child under a key no other child has; a repeated key is refused with `Err` and
    /// the grid is handed back unchanged.
    pub fn try_child(self, key: String, item: GridItem) -> (r: Result<Grid, Grid>)
        ensures
            self.has_key(key@) ==> r == Err::<Grid, Grid>(self),
            !self.has_key(key@) ==> (r matches Ok(g) && g == (Grid { items: g.items, ..self })
                && g.items@ == self.items@.push(GridChild { key, item })),
    {
        let mut i: usize = 0;
        while i < self.items.len()
            invariant
                i <= self.items@.len(),
                forall|j: int| 0 <= j < i ==> self.items@[j].key@ != key@,
            decreases self.items@.len() - i,
        {
            if self.items[i].key == key {
                return Err(self);
            }
            i += 1;
        }
        let mut grid = self;
        grid.items.push(GridChild { key, item });
        Ok(grid)
    }

    /// The rectangle the last layout gave the child under `key`.
    pub fn child_rect(&self, key: &String) -> (r: Option<Rect>)
        ensures
            r.is_none() <==> forall|j: int|
                0 <= j < self.rects@.len() ==> self.rects@[j].0@ != key@,
            r matches Some(rect) ==> exists|j: int|
                0 <= j < self.rects@.len() && self.rects@[j].0@ == key@ && self.rects@[j].1 == rect
                    && forall|k: int| 0 <= k < j ==> self.rects@[k].0@ != key@,
    {
        let mut i: usize = 0;
        while i < self.rects.len()
            invariant
                i <= self.rects@.len(),
                forall|j: int| 0 <= j < i ==> self.rects@[j].0@ != key@,
            decreases self.rects@.len() - i,
        {
            if self.rects[i].0 == *key {
                return Some(self.rects[i].1);
            }
            i += 1;
        }
        None
    }

    pub open spec fn spec_axis_has_separator(self, columns: bool) -> bool {
        match self.separators {
            Some(s) => if columns { s.columns } else { s.rows },
            None => false,
        }
    }

    pub fn axis_has_separator(&self, columns: bool) -> (r: bool)
        ensures
            r == self.spec_axis_has_separator(columns),
    {
        match self.separators {
            Some(s) => if columns { s.columns } else { s.rows },
            None => false,
        }
    }

    /// The distance between neighbouring tracks: the gap plus a separator cell.
    pub open spec fn spec_track_spacing(self, columns: bool) -> u16 {
        sat_add16(
            (if columns { self.column_gap } else { self.row_gap }) as int,
            if self.spec_axis_has_separator(columns) { 1 } else { 0 },
        ) as u16
    }

    pub fn track_spacing(&self, columns: bool) -> (r: u16)
        ensures
            r == self.spec_track_spacing(columns),
    {
        let gap = if columns { self.column_gap } else { self.row_gap };
        gap.saturating_add(if self.axis_has_separator(columns) { 1 } else { 0 })
    }

    /// The space left for tracks in `available` cells once gaps and separators are taken.
    pub open spec fn spec_without_gap(self, count: int, available: u16, columns: bool) -> u32 {
        let gap = if columns { self.column_gap } else { self.row_gap };
        sat_sub(
            available as int,
            sat_add16(
                spec_total_gap(count, gap),
                spec_separator_slots(self.spec_axis_has_separator(columns), count) as int,
            ),
        ) as u32
    }

    /// Track lengths in `available` cells. `hints[i]` is what item `i` reports for
    /// `LayoutProposal::at_most(available, available)`.
    pub open spec fn spec_resolve_tracks(
        self,
        tracks: Seq<GridTrack>,
        available: u16,
        columns: bool,
        hints: Seq<Option<LayoutSizeHint>>,
    ) -> Seq<u16> {
        let without_gap = self.spec_without_gap(tracks.len() as int, available, columns);
        clamp_all(
            spec_distribute_fill(
                track_kinds(tracks),
                base_track_lengths(tracks, self.items@, hints, columns, available, without_gap),
                without_gap,
            ),
        )
    }

    pub fn resolve_tracks(
        &self,
        tracks: &Vec<GridTrack>,
        available: u16,
        columns: bool,
        hints: &Vec<Option<LayoutSizeHint>>,
    ) -> (r: Vec<u16>)
        requires
            hints@.len() == self.items@.len(),
        ensures
            r@ == self.spec_resolve_tracks(tracks@, available, columns, hints@),
            r@.len() == tracks@.len(),
    {
        let gap = if columns { self.column_gap } else { self.row_gap };
        let gap_total = total_gap(tracks.len(), gap).saturating_add(
            separator_slots(self.axis_has_separator(columns), tracks.len()),
        );
        let without_gap = (available as u32).saturating_sub(gap_total as u32);
        let mut lengths: Vec<u32> = Vec::new();
        let mut kinds: Vec<Option<u16>> = Vec::new();
        let mut i: usize = 0;
        while i < tracks.len()
            invariant
                i <= tracks@.len(),
                hints@.len() == self.items@.len(),
                without_gap == self.spec_without_gap(tracks@.len() as int, available, columns),
                lengths@.len() == i,
                kinds@.len() == i,
                forall|j: int|
                    0 <= j < i ==> lengths@[j] == base_track_lengths(
                        tracks@,
                        self.items@,
                        hints@,
                        columns,
                        available,
                        without_gap,
                    )[j],
                forall|j: int| 0 <= j < i ==> kinds@[j] == track_kinds(tracks@)[j],
            decreases tracks@.len() - i,
        {
            let (length, kind): (u32, Option<u16>) = match tracks[i] {
                GridTrack::Fixed(size) => (size as u32, None),
                GridTrack::Percent(p) => (mul_sat_u32(without_gap, p as u32) / 100, None),
                GridTrack::Fill(w) => (0, Some(w)),
                GridTrack::FitContent => (
                    fit_content_track(&self.items, hints, i, columns, available, false) as u32,
                    None,
                ),
            };
            lengths.push(length);
            kinds.push(kind);
            i += 1;
        }
        assert(lengths@ =~= base_track_lengths(
            tracks@,
            self.items@,
            hints@,
            columns,
            available,
            without_gap,
        ));
        assert(kinds@ =~= track_kinds(tracks@));
        distribute_fill(&kinds, &mut lengths, without_gap);
        clamp_vec32(lengths)
    }
}

fn clamp_vec32(values: Vec<u32>) -> (r: Vec<u16>)
    ensures
        r@ == clamp_all(values@),
{
    let mut out: Vec<u16> = Vec::new();
    let mut i: usize = 0;
    while i < values.len()
        invariant
            i <= values@.len(),
            out@.len() == i,
            forall|j: int| 0 <= j < i ==> out@[j] == clamp_all(values@)[j],
        decreases values@.len() - i,
    {
        out.push(clamp_u32_to_u16(values[i]));
        i += 1;
    }
    assert(out@ =~= clamp_all(values@));
    out
}


// ---------------------------------------------------------------------------------------------
// Measurement
// ---------------------------------------------------------------------------------------------

/// The space a measurement offers the tracks of one axis once padding is taken off, `u16::MAX`
/// when unbounded. Children on fit-content tracks are measured with `at_most(a, a)` for this `a`.
pub open spec fn spec_measure_bound(proposal: AxisProposal, padding: u16) -> u16 {
    match spec_inner_axis_bound(proposal, padding) {
        Some(v) => v,
        None => u16::MAX,
    }
}

pub fn measure_bound(proposal: AxisProposal, padding: u16) -> (r: u16)
    ensures
        r == spec_measure_bound(proposal, padding),
{
    match inner_axis_bound(proposal, padding) {
        Some(v) => v,
        None => u16::MAX,
    }
}

/// Whether any track fills the space left over.
pub open spec fn spec_any_fill_track(tracks: Seq<GridTrack>) -> bool {
    exists|i: int| 0 <= i < tracks.len() && (#[trigger] tracks[i]) is Fill
}

pub fn any_fill_track(tracks: &Vec<GridTrack>) -> (r: bool)
    ensures
        r == spec_any_fill_track(tracks@),
{
    let mut i: usize = 0;
    while i < tracks.len()
        invariant
            i <= tracks@.len(),
            forall|j: int| 0 <= j < i ==> !(#[trigger] tracks@[j] is Fill),
        decreases tracks@.len() - i,
    {
        if let GridTrack::Fill(_) = tracks[i] {
            assert(tracks@[i as int] is Fill);
            return true;
        }
        i += 1;
    }
    false
}

/// The padding of one axis.
pub open spec fn axis_padding(padding: Padding, columns: bool) -> u16 {
    if columns {
        sat_add16(padding.left as int, padding.right as int) as u16
    } else {
        sat_add16(padding.top as int, padding.bottom as int) as u16
    }
}

impl Grid {
    /// Preferred track sizes for a measurement: resolved in the bound when the proposal has one;
    /// when unbounded, fixed tracks keep their size, fit-content tracks take their largest child
    /// and percent and fill tracks take nothing.
    pub open spec fn spec_measure_tracks(
        self,
        tracks: Seq<GridTrack>,
        proposal: AxisProposal,
        padding: u16,
        columns: bool,
        hints: Seq<Option<LayoutSizeHint>>,
    ) -> Seq<u16> {
        match proposal {
            AxisProposal::Unbounded => Seq::new(
                tracks.len(),
                |i: int|
                    match tracks[i] {
                        GridTrack::Fixed(size) => size,
                        GridTrack::FitContent => spec_fit_content_track(
                            self.items@,
                            hints,
                            i,
                            columns,
                            u16::MAX,
                            false,
                        ),
                        _ => 0u16,
                    },
            ),
            _ => self.spec_resolve_tracks(
                tracks,
                spec_measure_bound(proposal, padding),
                columns,
                hints,
            ),
        }
    }

    /// Minimum track sizes for a measurement: fixed tracks keep their size, fit-content tracks
    /// take the largest minimum of their children, percent and fill tracks take nothing.
    pub open spec fn spec_measure_min_tracks(
        self,
        tracks: Seq<GridTrack>,
        proposal: AxisProposal,
        padding: u16,
        columns: bool,
        hints: Seq<Option<LayoutSizeHint>>,
    ) -> Seq<u16> {
        Seq::new(
            tracks.len(),
            |i: int|
                match tracks[i] {
                    GridTrack::Fixed(size) => size,
                    GridTrack::FitContent => spec_fit_content_track(
                        self.items@,
                        hints,
                        i,
                        columns,
                        spec_measure_bound(proposal, padding),
                        true,
                    ),
                    _ => 0u16,
                },
        )
    }

    pub fn measure_tracks(
        &self,
        tracks: &Vec<GridTrack>,
        proposal: AxisProposal,
        padding: u16,
        columns: bool,
        hints: &Vec<Option<LayoutSizeHint>>,
    ) -> (r: Vec<u16>)
        requires
            hints@.len() == self.items@.len(),
        ensures
            r@ == self.spec_measure_tracks(tracks@, proposal, padding, columns, hints@),
    {
        match proposal {
            AxisProposal::Unbounded => {
                let mut out: Vec<u16> = Vec::new();
                let mut i: usize = 0;
                while i < tracks.len()
                    invariant
                        i <= tracks@.len(),
                        hints@.len() == self.items@.len(),
                        proposal == AxisProposal::Unbounded,
                        out@.len() == i,
                        forall|j: int|
                            0 <= j < i ==> out@[j] == self.spec_measure_tracks(
                                tracks@,
                                proposal,
                                padding,
                                columns,
                                hints@,
                            )[j],
                    decreases tracks@.len() - i,
                {
                    let v: u16 = match tracks[i] {
                        GridTrack::Fixed(size) => size,
                        GridTrack::FitContent => fit_content_track(
                            &self.items,
                            hints,
                            i,
                            columns,
                            u16::MAX,
                            false,
                        ),
                        _ => 0,
                    };
                    out.push(v);
                    i += 1;
                }
                assert(out@ =~= self.spec_measure_tracks(tracks@, proposal, padding, columns, hints@));
                out
            },
            _ => self.resolve_tracks(tracks, measure_bound(proposal, padding), columns, hints),
        }
    }

    pub fn measure_min_tracks(
        &self,
        tracks: &Vec<GridTrack>,
        proposal: AxisProposal,
        padding: u16,
        columns: bool,
        hints: &Vec<Option<LayoutSizeHint>>,
    ) -> (r: Vec<u16>)
        requires
            hints@.len() == self.items@.len(),
        ensures
            r@ == self.spec_measure_min_tracks(tracks@, proposal, padding, columns, hints@),
    {
        let available = measure_bound(proposal, padding);
        let mut out: Vec<u16> = Vec::new();
        let mut i: usize = 0;
        while i < tracks.len()
            invariant
                i <= tracks@.len(),
                hints@.len() == self.items@.len(),
                available == spec_measure_bound(proposal, padding),
                out@.len() == i,
                forall|j: int|
                    0 <= j < i ==> out@[j] == self.spec_measure_min_tracks(
                        tracks@,
                        proposal,
                        padding,
                        columns,
                        hints@,
                    )[j],
            decreases tracks@.len() - i,
        {
            let v: u16 = match tracks[i] {
                GridTrack::Fixed(size) => size,
                GridTrack::FitContent => fit_content_track(
                    &self.items,
                    hints,
                    i,
                    columns,
                    available,
                    true,
                ),
                _ => 0,
            };
            out.push(v);
            i += 1;
        }
        assert(out@ =~= self.spec_measure_min_tracks(tracks@, proposal, padding, columns, hints@));
        out
    }

    /// The proposals the children are measured with when the grid is measured with `proposal`:
    /// the first for the columns, the second for the rows.
    pub fn measure_proposals(&self, proposal: LayoutProposal) -> (r: (LayoutProposal, LayoutProposal))
        ensures
            ({
                let a = spec_measure_bound(proposal.width, axis_padding(self.padding, true));
                let b = spec_measure_bound(proposal.height, axis_padding(self.padding, false));
                r == (LayoutProposal { width: AxisProposal::AtMost(a), height: AxisProposal::AtMost(a) },
                    LayoutProposal { width: AxisProposal::AtMost(b), height: AxisProposal::AtMost(b) })
            }),
    {
        let a = measure_bound(proposal.width, self.padding.left.saturating_add(self.padding.right));
        let b = measure_bound(proposal.height, self.padding.top.saturating_add(self.padding.bottom));
        (LayoutProposal::at_most(a, a), LayoutProposal::at_most(b, b))
    }

    /// What the grid reports when measured with `proposal`. `column_hints[i]` and
    /// `row_hints[i]` are what child `i` reports for the two proposals of `measure_proposals`.
    pub open spec fn spec_measure(
        self,
        proposal: LayoutProposal,
        column_hints: Seq<Option<LayoutSizeHint>>,
        row_hints: Seq<Option<LayoutSizeHint>>,
    ) -> LayoutSizeHint {
        let pw = axis_padding(self.padding, true);
        let ph = axis_padding(self.padding, false);
        let columns = self.spec_measure_tracks(self.columns@, proposal.width, pw, true, column_hints);
        let rows = self.spec_measure_tracks(self.rows@, proposal.height, ph, false, row_hints);
        let min_columns = self.spec_measure_min_tracks(
            self.columns@,
            proposal.width,
            pw,
            true,
            column_hints,
        );
        let min_rows = self.spec_measure_min_tracks(self.rows@, proposal.height, ph, false, row_hints);
        LayoutSizeHint {
            source: HintSource::Measured,
            min: LayoutSize {
                width: sat_add16(spec_sum_span(min_columns, self.spec_track_spacing(true)), pw as int)
                    as u16,
                height: sat_add16(spec_sum_span(min_rows, self.spec_track_spacing(false)), ph as int)
                    as u16,
            },
            preferred: LayoutSize {
                width: sat_add16(spec_sum_span(columns, self.spec_track_spacing(true)), pw as int)
                    as u16,
                height: sat_add16(spec_sum_span(rows, self.spec_track_spacing(false)), ph as int)
                    as u16,
            },
            expand: AxisExpand {
                width: spec_any_fill_track(self.columns@),
                height: spec_any_fill_track(self.rows@),
            },
        }
    }

    pub fn measure(
        &self,
        proposal: LayoutProposal,
        column_hints: &Vec<Option<LayoutSizeHint>>,
        row_hints: &Vec<Option<LayoutSizeHint>>,
    ) -> (r: LayoutSizeHint)
        requires
            column_hints@.len() == self.items@.len(),
            row_hints@.len() == self.items@.len(),
        ensures
            r == self.spec_measure(proposal, column_hints@, row_hints@),
    {
        let pw = self.padding.left.saturating_add(self.padding.right);
        let ph = self.padding.top.saturating_add(self.padding.bottom);
        let columns = self.measure_tracks(&self.columns, proposal.width, pw, true, column_hints);
        let rows = self.measure_tracks(&self.rows, proposal.height, ph, false, row_hints);
        let width = sum_with_gaps(columns.as_slice(), self.track_spacing(true)).saturating_add(pw);
        let height = sum_with_gaps(rows.as_slice(), self.track_spacing(false)).saturating_add(ph);
        let min_columns = self.measure_min_tracks(&self.columns, proposal.width, pw, true, column_hints);
        let min_rows = self.measure_min_tracks(&self.rows, proposal.height, ph, false, row_hints);
        let min_width = sum_with_gaps(min_columns.as_slice(), self.track_spacing(true)).saturating_add(
            pw,
        );
        let min_height = sum_with_gaps(min_rows.as_slice(), self.track_spacing(false)).saturating_add(
            ph,
        );
        LayoutSizeHint {
            source: HintSource::Measured,
            min: LayoutSize::new(min_width, min_height),
            preferred: LayoutSize::new(width, height),
            expand: AxisExpand {
                width: any_fill_track(&self.columns),
                height: any_fill_track(&self.rows),
            },
        }
    }
}


// ---------------------------------------------------------------------------------------------
// Layout
// ---------------------------------------------------------------------------------------------

/// `(needed, available)` when tracks of `lengths`, `gap` apart, need more than `available` cells.
pub open spec fn spec_record_track_overflow(lengths: Seq<u16>, gap: u16, available: u16) -> Option<
    (u16, u16),
> {
    if spec_sum_span(lengths, gap) > available as int {
        Some((spec_sum_span(lengths, gap) as u16, available))
    } else {
        None
    }
}

pub fn record_track_overflow(lengths: &[u16], gap: u16, available: u16) -> (r: Option<(u16, u16)>)
    ensures
        r == spec_record_track_overflow(lengths@, gap, available),
{
    let needed = sum_with_gaps(lengths, gap);
    if needed > available {
        Some((needed, available))
    } else {
        None
    }
}

/// Where the separator line after each track but the last lies, from the start of the tracks:
/// tracks are `gap + 1` apart and the line sits in the middle of the gap.
pub open spec fn spec_separator_offsets(tracks: Seq<u16>, gap: u16) -> Seq<u16> {
    Seq::new(
        sat_sub(tracks.len() as int, 1) as nat,
        |i: int|
            sat_add16(
                sat_add16(
                    spec_offset_before(tracks, i, sat_add16(gap as int, 1) as u16),
                    tracks[i] as int,
                ),
                gap as int / 2,
            ) as u16,
    )
}

pub fn separator_offsets(tracks: &Vec<u16>, gap: u16) -> (r: Vec<u16>)
    ensures
        r@ == spec_separator_offsets(tracks@, gap),
{
    let spacing = gap.saturating_add(1);
    let count = if tracks.len() > 0 { tracks.len() - 1 } else { 0 };
    let mut out: Vec<u16> = Vec::new();
    let mut i: usize = 0;
    while i < count
        invariant
            count == sat_sub(tracks@.len() as int, 1),
            spacing == sat_add16(gap as int, 1),
            i <= count,
            out@.len() == i,
            forall|j: int| 0 <= j < i ==> out@[j] == spec_separator_offsets(tracks@, gap)[j],
        decreases count - i,
    {
        let v = offset_before(tracks.as_slice(), i, spacing).saturating_add(tracks[i]).saturating_add(
            gap / 2,
        );
        out.push(v);
        i += 1;
    }
    assert(out@ =~= spec_separator_offsets(tracks@, gap));
    out
}

/// The one-cell-wide vertical lines at `offsets` from the left of `area` that fall inside it.
pub open spec fn spec_vertical_lines(area: Rect, offsets: Seq<u16>) -> Seq<Rect>
    decreases offsets.len(),
{
    if offsets.len() == 0 {
        Seq::empty()
    } else {
        let prev = spec_vertical_lines(area, offsets.drop_last());
        let o = offsets.last();
        if o < area.width {
            prev.push(Rect::spec_new(sat_add16(area.x as int, o as int) as u16, area.y, 1, area.height))
        } else {
            prev
        }
    }
}

/// The one-cell-high horizontal lines at `offsets` from the top of `area` that fall inside it.
pub open spec fn spec_horizontal_lines(area: Rect, offsets: Seq<u16>) -> Seq<Rect>
    decreases offsets.len(),
{
    if offsets.len() == 0 {
        Seq::empty()
    } else {
        let prev = spec_horizontal_lines(area, offsets.drop_last());
        let o = offsets.last();
        if o < area.height {
            prev.push(Rect::spec_new(area.x, sat_add16(area.y as int, o as int) as u16, area.width, 1))
        } else {
            prev
        }
    }
}

pub fn separator_lines(area: Rect, offsets: &Vec<u16>, vertical: bool) -> (r: Vec<Rect>)
    ensures
        vertical ==> r@ == spec_vertical_lines(area, offsets@),
        !vertical ==> r@ == spec_horizontal_lines(area, offsets@),
{
    let mut out: Vec<Rect> = Vec::new();
    let mut i: usize = 0;
    while i < offsets.len()
        invariant
            i <= offsets@.len(),
            vertical ==> out@ == spec_vertical_lines(area, offsets@.take(i as int)),
            !vertical ==> out@ == spec_horizontal_lines(area, offsets@.take(i as int)),
        decreases offsets@.len() - i,
    {
        assert(offsets@.take(i + 1).drop_last() =~= offsets@.take(i as int));
        assert(offsets@.take(i + 1).last() == offsets@[i as int]);
        let o = offsets[i];
        if vertical {
            if o < area.width {
                out.push(Rect::new(area.x.saturating_add(o), area.y, 1, area.height));
            }
        } else {
            if o < area.height {
                out.push(Rect::new(area.x, area.y.saturating_add(o), area.width, 1));
            }
        }
        i += 1;
    }
    assert(offsets@.take(offsets@.len() as int) =~= offsets@);
    out
}

/// The points where each column line (in order) crosses each row line.
pub open spec fn spec_intersections(columns: Seq<Rect>, rows: Seq<Rect>) -> Seq<(u16, u16)>
    decreases columns.len(),
{
    if columns.len() == 0 {
        Seq::empty()
    } else {
        spec_intersections(columns.drop_last(), rows) + spec_crossings(columns.last().x, rows)
    }
}

/// The points where the column line at `x` crosses each row line.
pub open spec fn spec_crossings(x: u16, rows: Seq<Rect>) -> Seq<(u16, u16)> {
    Seq::new(rows.len(), |j: int| (x, rows[j].y))
}

pub fn intersections(columns: &Vec<Rect>, rows: &Vec<Rect>) -> (r: Vec<(u16, u16)>)
    ensures
        r@ == spec_intersections(columns@, rows@),
{
    let mut out: Vec<(u16, u16)> = Vec::new();
    let mut i: usize = 0;
    while i < columns.len()
        invariant
            i <= columns@.len(),
            out@ == spec_intersections(columns@.take(i as int), rows@),
        decreases columns@.len() - i,
    {
        assert(columns@.take(i + 1).drop_last() =~= columns@.take(i as int));
        let x = columns[i].x;
        let ghost base = out@;
        let mut j: usize = 0;
        while j < rows.len()
            invariant
                j <= rows@.len(),
                out@ == base + spec_crossings(x, rows@.take(j as int)),
            decreases rows@.len() - j,
        {
            out.push((x, rows[j].y));
            assert(spec_crossings(x, rows@.take(j + 1)) =~= spec_crossings(x, rows@.take(j as int)).push(
                (x, rows@[j as int].y),
            ));
            assert(out@ =~= base + spec_crossings(x, rows@.take(j + 1)));
            j += 1;
        }
        assert(rows@.take(rows@.len() as int) =~= rows@);
        i += 1;
    }
    assert(columns@.take(columns@.len() as int) =~= columns@);
    out
}

impl Grid {
    /// The column lengths of a layout in `area`. `column_hints[i]` is what child `i` reports for
    /// the first proposal of `layout_proposals(area)`.
    pub open spec fn spec_layout_columns(self, area: Rect, column_hints: Seq<Option<LayoutSizeHint>>) -> Seq<u16> {
        self.spec_resolve_tracks(self.columns@, spec_inner_area(area, self.padding).width, true, column_hints)
    }

    /// The row lengths of a layout in `area`. `row_hints[i]` is what child `i` reports for the
    /// second proposal of `layout_proposals(area)`.
    pub open spec fn spec_layout_rows(self, area: Rect, row_hints: Seq<Option<LayoutSizeHint>>) -> Seq<u16> {
        self.spec_resolve_tracks(self.rows@, spec_inner_area(area, self.padding).height, false, row_hints)
    }

    /// The cell item `i` covers in a layout of `area` with the given track lengths.
    pub open spec fn spec_layout_cell(self, area: Rect, columns: Seq<u16>, rows: Seq<u16>, i: int) -> Rect {
        spec_cell_rect(
            spec_inner_area(area, self.padding),
            columns,
            rows,
            self.spec_track_spacing(true),
            self.spec_track_spacing(false),
            self.items@[i].item,
        )
    }

    /// The proposals children are measured with to size fit-content tracks in a layout of `area`:
    /// the first for the columns, the second for the rows.
    pub fn layout_proposals(&self, area: Rect) -> (r: (LayoutProposal, LayoutProposal))
        ensures
            ({
                let inner = spec_inner_area(area, self.padding);
                r == (LayoutProposal {
                    width: AxisProposal::AtMost(inner.width),
                    height: AxisProposal::AtMost(inner.width),
                }, LayoutProposal {
                    width: AxisProposal::AtMost(inner.height),
                    height: AxisProposal::AtMost(inner.height),
                })
            }),
    {
        let inner = inner_area(area, self.padding);
        (LayoutProposal::at_most(inner.width, inner.width), LayoutProposal::at_most(inner.height, inner.height))
    }

    /// The cell of each item in a layout of `area`; child `i` is then measured with
    /// `at_most(width, height)` of its cell to be aligned in it.
    pub fn cell_areas(
        &self,
        area: Rect,
        column_hints: &Vec<Option<LayoutSizeHint>>,
        row_hints: &Vec<Option<LayoutSizeHint>>,
    ) -> (r: Vec<Rect>)
        requires
            column_hints@.len() == self.items@.len(),
            row_hints@.len() == self.items@.len(),
        ensures
            r@.len() == self.items@.len(),
            forall|i: int|
                #![trigger r@[i]]
                0 <= i < r@.len() ==> r@[i] == self.spec_layout_cell(
                    area,
                    self.spec_layout_columns(area, column_hints@),
                    self.spec_layout_rows(area, row_hints@),
                    i,
                ),
    {
        let inner = inner_area(area, self.padding);
        let columns = self.resolve_tracks(&self.columns, inner.width, true, column_hints);
        let rows = self.resolve_tracks(&self.rows, inner.height, false, row_hints);
        self.cells_in(inner, &columns, &rows)
    }

    fn cells_in(&self, inner: Rect, columns: &Vec<u16>, rows: &Vec<u16>) -> (r: Vec<Rect>)
        ensures
            r@.len() == self.items@.len(),
            forall|i: int|
                #![trigger r@[i]]
                0 <= i < r@.len() ==> r@[i] == spec_cell_rect(
                    inner,
                    columns@,
                    rows@,
                    self.spec_track_spacing(true),
                    self.spec_track_spacing(false),
                    self.items@[i].item,
                ),
    {
        let cg = self.track_spacing(true);
        let rg = self.track_spacing(false);
        let mut out: Vec<Rect> = Vec::new();
        let mut i: usize = 0;
        while i < self.items.len()
            invariant
                i <= self.items@.len(),
                cg == self.spec_track_spacing(true),
                rg == self.spec_track_spacing(false),
                out@.len() == i,
                forall|j: int|
                    #![trigger out@[j]]
                    0 <= j < i ==> out@[j] == spec_cell_rect(
                        inner,
                        columns@,
                        rows@,
                        cg,
                        rg,
                        self.items@[j].item,
                    ),
            decreases self.items@.len() - i,
        {
            out.push(cell_rect(inner, columns, rows, cg, rg, self.items[i].item));
            i += 1;
        }
        out
    }

    /// The lines drawn between columns of `area` (padding already taken off).
    pub open spec fn spec_column_lines(self, inner: Rect, columns: Seq<u16>) -> Seq<Rect> {
        if self.spec_axis_has_separator(true) {
            spec_vertical_lines(inner, spec_separator_offsets(columns, self.column_gap))
        } else {
            Seq::empty()
        }
    }

    /// The lines drawn between rows of `area` (padding already taken off).
    pub open spec fn spec_row_lines(self, inner: Rect, rows: Seq<u16>) -> Seq<Rect> {
        if self.spec_axis_has_separator(false) {
            spec_horizontal_lines(inner, spec_separator_offsets(rows, self.row_gap))
        } else {
            Seq::empty()
        }
    }

    pub fn column_separator_rects(&self, inner: Rect, columns: &Vec<u16>) -> (r: Vec<Rect>)
        ensures
            r@ == self.spec_column_lines(inner, columns@),
    {
        if !self.axis_has_separator(true) {
            return Vec::new();
        }
        let offsets = separator_offsets(columns, self.column_gap);
        separator_lines(inner, &offsets, true)
    }

    pub fn row_separator_rects(&self, inner: Rect, rows: &Vec<u16>) -> (r: Vec<Rect>)
        ensures
            r@ == self.spec_row_lines(inner, rows@),
    {
        if !self.axis_has_separator(false) {
            return Vec::new();
        }
        let offsets = separator_offsets(rows, self.row_gap);
        separator_lines(inner, &offsets, false)
    }

    /// Lays the children out in `area` and keeps the result; returns the overflow of the columns
    /// and of the rows as `(needed, available)`. `column_hints` and `row_hints` are as for
    /// `spec_layout_columns` and `spec_layout_rows`; `cell_hints[i]` is what child `i` reports
    /// for `at_most(width, height)` of its cell in `cell_areas`.
    pub fn layout(
        &mut self,
        area: Rect,
        column_hints: &Vec<Option<LayoutSizeHint>>,
        row_hints: &Vec<Option<LayoutSizeHint>>,
        cell_hints: &Vec<Option<LayoutSizeHint>>,
    ) -> (r: (Option<(u16, u16)>, Option<(u16, u16)>))
        requires
            column_hints@.len() == old(self).items@.len(),
            row_hints@.len() == old(self).items@.len(),
            cell_hints@.len() == old(self).items@.len(),
        ensures
            ({
                let g = *old(self);
                let inner = spec_inner_area(area, g.padding);
                let columns = g.spec_layout_columns(area, column_hints@);
                let rows = g.spec_layout_rows(area, row_hints@);
                &&& final(self).columns == g.columns
                &&& final(self).rows == g.rows
                &&& final(self).items == g.items
                &&& final(self).column_gap == g.column_gap
                &&& final(self).row_gap == g.row_gap
                &&& final(self).padding == g.padding
                &&& final(self).separators == g.separators
                &&& final(self).resolved_columns@ == columns
                &&& final(self).resolved_rows@ == rows
                &&& final(self).cell_rects@.len() == g.items@.len()
                &&& final(self).rects@.len() == g.items@.len()
                &&& forall|i: int|
                    #![trigger final(self).cell_rects@[i]]
                    0 <= i < g.items@.len() ==> final(self).cell_rects@[i] == g.spec_layout_cell(
                        area,
                        columns,
                        rows,
                        i,
                    )
                &&& forall|i: int|
                    #![trigger final(self).rects@[i]]
                    0 <= i < g.items@.len() ==> final(self).rects@[i].0@ == g.items@[i].key@
                        && final(self).rects@[i].1 == spec_aligned_rect(
                        g.spec_layout_cell(area, columns, rows, i),
                        g.items@[i].item,
                        cell_hints@[i],
                    )
                &&& final(self).column_separator_rects@ == g.spec_column_lines(inner, columns)
                &&& final(self).row_separator_rects@ == g.spec_row_lines(inner, rows)
                &&& final(self).intersections@ == spec_intersections(
                    g.spec_column_lines(inner, columns),
                    g.spec_row_lines(inner, rows),
                )
                &&& r.0 == spec_record_track_overflow(columns, g.spec_track_spacing(true), inner.width)
                &&& r.1 == spec_record_track_overflow(rows, g.spec_track_spacing(false), inner.height)
            }),
    {
        let inner = inner_area(area, self.padding);
        let columns = self.resolve_tracks(&self.columns, inner.width, true, column_hints);
        let rows = self.resolve_tracks(&self.rows, inner.height, false, row_hints);
        let width_overflow = record_track_overflow(columns.as_slice(), self.track_spacing(true), inner.width);
        let height_overflow = record_track_overflow(rows.as_slice(), self.track_spacing(false), inner.height);
        let cells = self.cells_in(inner, &columns, &rows);
        let mut rects: Vec<(String, Rect)> = Vec::new();
        let mut i: usize = 0;
        while i < self.items.len()
            invariant
                i <= self.items@.len(),
                cells@.len() == self.items@.len(),
                cell_hints@.len() == self.items@.len(),
                rects@.len() == i,
                forall|j: int|
                    #![trigger rects@[j]]
                    0 <= j < i ==> rects@[j].0@ == self.items@[j].key@ && rects@[j].1
                        == spec_aligned_rect(cells@[j], self.items@[j].item, cell_hints@[j]),
            decreases self.items@.len() - i,
        {
            let rect = aligned_rect(cells[i], self.items[i].item, cell_hints[i]);
            let key = self.items[i].key.clone();
            rects.push((key, rect));
            i += 1;
        }
        let column_lines = self.column_separator_rects(inner, &columns);
        let row_lines = self.row_separator_rects(inner, &rows);
        let crossings = intersections(&column_lines, &row_lines);
        self.rects = rects;
        self.cell_rects = cells;
        self.resolved_columns = columns;
        self.resolved_rows = rows;
        self.column_separator_rects = column_lines;
        self.row_separator_rects = row_lines;
        self.intersections = crossings;
        (width_overflow, height_overflow)
    }
}


// ---------------------------------------------------------------------------------------------
// Separator lines as drawn
// ---------------------------------------------------------------------------------------------

/// What a separator cell shows: a straight line, a corner, a join of three lines, a crossing of
/// four, or a blank where no line meets.
#[derive(Debug, Clone, Copy, PartialEq, Eq, Structural)]
pub enum SeparatorGlyph {
    Vertical,
    Horizontal,
    Cross,
    TopLeft,
    TopRight,
    BottomLeft,
    BottomRight,
    TopJoin,
    BottomJoin,
    LeftJoin,
    RightJoin,
    Blank,
}

/// The glyph where lines may leave a crossing point upwards, downwards, left and right.
pub open spec fn spec_junction_glyph(top: bool, bottom: bool, left: bool, right: bool) -> SeparatorGlyph {
    if top && bottom {
        if left && right {
            SeparatorGlyph::Cross
        } else if left {
            SeparatorGlyph::RightJoin
        } else if right {
            SeparatorGlyph::LeftJoin
        } else {
            SeparatorGlyph::Vertical
        }
    } else if top {
        if left && right {
            SeparatorGlyph::BottomJoin
        } else if left {
            SeparatorGlyph::BottomRight
        } else if right {
            SeparatorGlyph::BottomLeft
        } else {
            SeparatorGlyph::Vertical
        }
    } else if bottom {
        if left && right {
            SeparatorGlyph::TopJoin
        } else if left {
            SeparatorGlyph::TopRight
        } else if right {
            SeparatorGlyph::TopLeft
        } else {
            SeparatorGlyph::Vertical
        }
    } else if left || right {
        SeparatorGlyph::Horizontal
    } else {
        SeparatorGlyph::Blank
    }
}

pub fn junction_char(top: bool, bottom: bool, left: bool, right: bool) -> (r: SeparatorGlyph)
    ensures
        r == spec_junction_glyph(top, bottom, left, right),
{
    match (top, bottom, left, right) {
        (true, true, true, true) => SeparatorGlyph::Cross,
        (true, true, true, false) => SeparatorGlyph::RightJoin,
        (true, true, false, true) => SeparatorGlyph::LeftJoin,
        (true, true, false, false) => SeparatorGlyph::Vertical,
        (true, false, true, true) => SeparatorGlyph::BottomJoin,
        (true, false, true, false) => SeparatorGlyph::BottomRight,
        (true, false, false, true) => SeparatorGlyph::BottomLeft,
        (true, false, false, false) => SeparatorGlyph::Vertical,
        (false, true, true, true) => SeparatorGlyph::TopJoin,
        (false, true, true, false) => SeparatorGlyph::TopRight,
        (false, true, false, true) => SeparatorGlyph::TopLeft,
        (false, true, false, false) => SeparatorGlyph::Vertical,
        (false, false, true, true) => SeparatorGlyph::Horizontal,
        (false, false, true, false) => SeparatorGlyph::Horizontal,
        (false, false, false, true) => SeparatorGlyph::Horizontal,
        (false, false, false, false) => SeparatorGlyph::Blank,
    }
}

/// Where a coordinate falls among tracks: inside track `i`, in the gap after track `i`, or
/// outside all of them.
#[derive(Debug, Clone, Copy, PartialEq, Eq, Structural)]
pub enum TrackLocation {
    Inside(usize),
    Gap(usize),
    Outside,
}

/// The first track, from `i` on, that holds `coord` or whose following gap holds it.
pub open spec fn location_from(coord: u16, starts: Seq<u16>, ends: Seq<u16>, i: int) -> TrackLocation
    decreases starts.len() - i,
{
    if i < 0 || i >= starts.len() {
        TrackLocation::Outside
    } else if starts[i] <= coord < ends[i] {
        TrackLocation::Inside(i as usize)
    } else if i + 1 < starts.len() && ends[i] <= coord < starts[i + 1] {
        TrackLocation::Gap(i as usize)
    } else {
        location_from(coord, starts, ends, i + 1)
    }
}

/// Where `coord` falls among tracks that start at `starts` and end before `ends`.
pub open spec fn spec_find_track_location(coord: u16, starts: Seq<u16>, ends: Seq<u16>) -> TrackLocation {
    if starts.len() == 0 || coord < starts[0] {
        TrackLocation::Outside
    } else {
        location_from(coord, starts, ends, 0)
    }
}

/// Tracks in order: each ends no earlier than it starts, and no later than any later one starts.
pub open spec fn tracks_in_order(starts: Seq<u16>, ends: Seq<u16>) -> bool {
    &&& starts.len() == ends.len()
    &&& forall|k: int| 0 <= k < starts.len() ==> #[trigger] starts[k] <= ends[k]
    &&& forall|a: int, b: int| 0 <= a < b < starts.len() ==> #[trigger] ends[a] <= #[trigger] starts[b]
}

proof fn lemma_location_from(coord: u16, starts: Seq<u16>, ends: Seq<u16>, i: int)
    requires
        tracks_in_order(starts, ends),
        0 <= i,
        i < starts.len() ==> starts[i] <= coord,
    ensures
        forall|j: int| #![trigger ends[j]] i <= j < starts.len() && starts[j] <= coord < ends[j]
            ==> location_from(coord, starts, ends, i) == TrackLocation::Inside(j as usize),
        forall|j: int| #![trigger ends[j]] i <= j < starts.len() - 1 && ends[j] <= coord < starts[j + 1]
            ==> location_from(coord, starts, ends, i) == TrackLocation::Gap(j as usize),
        location_from(coord, starts, ends, i) == TrackLocation::Outside
            <==> (i >= starts.len() || coord >= ends[starts.len() - 1]),
    decreases starts.len() - i,
{
    let n = starts.len();
    if i < n {
        if i < n - 1 {
            assert(ends[i] <= starts[n - 1]);
            assert(starts[n - 1] <= ends[n - 1]);
        }
        if starts[i] <= coord < ends[i] {
            assert forall|j: int| i < j < n implies !(#[trigger] starts[j] <= coord) by {
                assert(ends[i] <= starts[j]);
            }
            assert forall|j: int| #![trigger ends[j]] i <= j < n - 1 && ends[j] <= coord < starts[j + 1] implies false by {
                if j > i {
                    assert(ends[i] <= starts[j]);
                    assert(starts[j] <= ends[j]);
                }
            }
        } else if i + 1 < n && ends[i] <= coord < starts[i + 1] {
            assert forall|j: int| i + 1 <= j < n implies !(#[trigger] starts[j] <= coord) && ends[j] > coord by {
                if j > i + 1 {
                    assert(ends[i + 1] <= starts[j]);
                }
                assert(starts[i + 1] <= ends[i + 1]);
                assert(starts[j] <= ends[j]);
            }
            assert forall|j: int| #![trigger ends[j]] i < j < n - 1 && ends[j] <= coord < starts[j + 1] implies false by {
                assert(starts[j] <= ends[j]);
                if j > i + 1 {
                    assert(ends[i + 1] <= starts[j]);
                }
                assert(starts[i + 1] <= ends[i + 1]);
            }
        } else {
            lemma_location_from(coord, starts, ends, i + 1);
        }
    }
}

/// Where a coordinate falls among tracks in order: inside track `i` exactly when the track holds
/// it, in the gap after track `i` exactly when that gap holds it, and outside exactly when there
/// are no tracks or it lies before the first or at or after the end of the last.
pub proof fn law_track_location(coord: u16, starts: Seq<u16>, ends: Seq<u16>)
    requires
        tracks_in_order(starts, ends),
    ensures
        forall|i: int| #![trigger ends[i]] 0 <= i < starts.len() && starts[i] <= coord < ends[i]
            ==> spec_find_track_location(coord, starts, ends) == TrackLocation::Inside(i as usize),
        forall|i: int| #![trigger ends[i]] 0 <= i < starts.len() - 1 && ends[i] <= coord < starts[i + 1]
            ==> spec_find_track_location(coord, starts, ends) == TrackLocation::Gap(i as usize),
        spec_find_track_location(coord, starts, ends) == TrackLocation::Outside
            <==> (starts.len() == 0 || coord < starts[0] || coord >= ends[starts.len() - 1]),
{
    let n = starts.len();
    if n > 0 {
        assert forall|i: int| 0 < i < n implies starts[0] <= #[trigger] starts[i] by {
            assert(starts[0] <= ends[0]);
            assert(ends[0] <= starts[i]);
        }
        assert(starts[n - 1] <= ends[n - 1]);
        if coord >= starts[0] {
            lemma_location_from(coord, starts, ends, 0);
        } else {
            assert forall|i: int| #![trigger ends[i]] 0 <= i < n - 1 && ends[i] <= coord < starts[i + 1] implies false by {
                assert(starts[0] <= ends[0]);
                if i > 0 {
                    assert(ends[0] <= starts[i]);
                }
                assert(starts[i] <= ends[i]);
            }
            assert(starts[0] <= ends[n - 1]) by {
                if n > 1 {
                    assert(ends[0] <= starts[n - 1]);
                }
                assert(starts[0] <= ends[0]);
            }
        }
    }
}

pub fn find_track_location(coord: u16, starts: &Vec<u16>, ends: &Vec<u16>) -> (r: TrackLocation)
    requires
        starts@.len() == ends@.len(),
    ensures
        r == spec_find_track_location(coord, starts@, ends@),
        r matches TrackLocation::Inside(i) ==> i < starts@.len(),
        r matches TrackLocation::Gap(i) ==> i + 1 < starts@.len(),
{
    if starts.len() == 0 {
        return TrackLocation::Outside;
    }
    if coord < starts[0] {
        return TrackLocation::Outside;
    }
    assert(spec_find_track_location(coord, starts@, ends@) == location_from(coord, starts@, ends@, 0));
    let mut i: usize = 0;
    while i < starts.len()
        invariant
            starts@.len() == ends@.len(),
            i <= starts@.len(),
            spec_find_track_location(coord, starts@, ends@) == location_from(coord, starts@, ends@, 0),
            location_from(coord, starts@, ends@, 0) == location_from(coord, starts@, ends@, i as int),
        decreases starts@.len() - i,
    {
        if coord >= starts[i] && coord < ends[i] {
            assert(location_from(coord, starts@, ends@, i as int) == TrackLocation::Inside(i));
            return TrackLocation::Inside(i);
        }
        if i + 1 < starts.len() && coord >= ends[i] && coord < starts[i + 1] {
            assert(location_from(coord, starts@, ends@, i as int) == TrackLocation::Gap(i));
            return TrackLocation::Gap(i);
        }
        i += 1;
    }
    TrackLocation::Outside
}

/// Where track `i` starts when tracks of `lengths` are laid from `origin`, `spacing` apart.
pub open spec fn track_cursor(origin: u16, lengths: Seq<u16>, spacing: u16, i: int) -> u16
    decreases i,
{
    if i <= 0 {
        origin
    } else {
        sat_add16(
            sat_add16(track_cursor(origin, lengths, spacing, i - 1) as int, lengths[i - 1] as int),
            spacing as int,
        ) as u16
    }
}

pub open spec fn spec_track_starts(origin: u16, lengths: Seq<u16>, spacing: u16) -> Seq<u16> {
    Seq::new(lengths.len(), |i: int| track_cursor(origin, lengths, spacing, i))
}

pub open spec fn spec_track_ends(origin: u16, lengths: Seq<u16>, spacing: u16) -> Seq<u16> {
    Seq::new(
        lengths.len(),
        |i: int| sat_add16(track_cursor(origin, lengths, spacing, i) as int, lengths[i] as int) as u16,
    )
}

/// The first cell and the cell after the last of each track.
pub fn track_bounds(origin: u16, lengths: &Vec<u16>, spacing: u16) -> (r: (Vec<u16>, Vec<u16>))
    ensures
        r.0@ == spec_track_starts(origin, lengths@, spacing),
        r.1@ == spec_track_ends(origin, lengths@, spacing),
{
    let mut starts: Vec<u16> = Vec::new();
    let mut ends: Vec<u16> = Vec::new();
    let mut current = origin;
    let mut i: usize = 0;
    while i < lengths.len()
        invariant
            i <= lengths@.len(),
            current == track_cursor(origin, lengths@, spacing, i as int),
            starts@.len() == i,
            ends@.len() == i,
            forall|j: int| 0 <= j < i ==> starts@[j] == spec_track_starts(origin, lengths@, spacing)[j],
            forall|j: int| 0 <= j < i ==> ends@[j] == spec_track_ends(origin, lengths@, spacing)[j],
        decreases lengths@.len() - i,
    {
        starts.push(current);
        ends.push(current.saturating_add(lengths[i]));
        current = current.saturating_add(lengths[i]).saturating_add(spacing);
        i += 1;
    }
    assert(starts@ =~= spec_track_starts(origin, lengths@, spacing));
    assert(ends@ =~= spec_track_ends(origin, lengths@, spacing));
    (starts, ends)
}

/// Whether `item`, clamped into a grid of `columns` by `rows` tracks, covers cell `(r, c)`.
pub open spec fn spec_covers(item: GridItem, r: int, c: int, columns: int, rows: int) -> bool {
    let col = clamp_start(item.column, columns);
    let row = clamp_start(item.row, rows);
    row <= r < span_end(row, item.row_span, rows) && col <= c < span_end(col, item.column_span, columns)
}

/// The last of the first `k` items that covers cell `(r, c)`.
pub open spec fn occupant_upto(items: Seq<GridChild>, r: int, c: int, columns: int, rows: int, k: int) -> Option<
    usize,
>
    decreases k,
{
    if k <= 0 {
        None
    } else if spec_covers(items[k - 1].item, r, c, columns, rows) {
        Some((k - 1) as usize)
    } else {
        occupant_upto(items, r, c, columns, rows, k - 1)
    }
}

impl Grid {
    /// The item shown in cell `(r, c)` of the last layout: the last one that covers it.
    pub open spec fn spec_occupant(self, r: int, c: int) -> Option<usize> {
        occupant_upto(
            self.items@,
            r,
            c,
            self.resolved_columns@.len() as int,
            self.resolved_rows@.len() as int,
            self.items@.len() as int,
        )
    }

    /// Whether a line is due between cells `(r, c)` and `(r, c + 1)`: at the edge of the grid,
    /// or where the two cells do not show the same item.
    pub open spec fn spec_has_column_boundary(self, r: int, c: int) -> bool {
        if r >= self.resolved_rows@.len() || c + 1 >= self.resolved_columns@.len() {
            true
        } else {
            match (self.spec_occupant(r, c), self.spec_occupant(r, c + 1)) {
                (Some(i), Some(j)) => i != j,
                _ => true,
            }
        }
    }

    /// Whether a line is due between cells `(r, c)` and `(r + 1, c)`.
    pub open spec fn spec_has_row_boundary(self, r: int, c: int) -> bool {
        if r + 1 >= self.resolved_rows@.len() || c >= self.resolved_columns@.len() {
            true
        } else {
            match (self.spec_occupant(r, c), self.spec_occupant(r + 1, c)) {
                (Some(i), Some(j)) => i != j,
                _ => true,
            }
        }
    }

    pub fn occupant(&self, r: usize, c: usize) -> (o: Option<usize>)
        ensures
            o == self.spec_occupant(r as int, c as int),
    {
        let columns = self.resolved_columns.len();
        let rows = self.resolved_rows.len();
        let mut found: Option<usize> = None;
        let mut k: usize = 0;
        while k < self.items.len()
            invariant
                k <= self.items@.len(),
                columns == self.resolved_columns@.len(),
                rows == self.resolved_rows@.len(),
                found == occupant_upto(self.items@, r as int, c as int, columns as int, rows as int, k as int),
            decreases self.items@.len() - k,
        {
            let item = self.items[k].item;
            let clast = if columns > 0 { columns - 1 } else { 0 };
            let rlast = if rows > 0 { rows - 1 } else { 0 };
            let col = if item.column < clast { item.column } else { clast };
            let row = if item.row < rlast { item.row } else { rlast };
            let ce = col.saturating_add(item.column_span);
            let col_end = if ce < columns { ce } else { columns };
            let re = row.saturating_add(item.row_span);
            let row_end = if re < rows { re } else { rows };
            if row <= r && r < row_end && col <= c && c < col_end {
                found = Some(k);
            }
            k += 1;
        }
        found
    }

    pub fn has_column_boundary(&self, r: usize, c: usize) -> (b: bool)
        ensures
            b == self.spec_has_column_boundary(r as int, c as int),
    {
        if r >= self.resolved_rows.len() || c >= self.resolved_columns.len() || c + 1 >= self.resolved_columns.len() {
            return true;
        }
        match (self.occupant(r, c), self.occupant(r, c + 1)) {
            (Some(i), Some(j)) => i != j,
            _ => true,
        }
    }

    pub fn has_row_boundary(&self, r: usize, c: usize) -> (b: bool)
        ensures
            b == self.spec_has_row_boundary(r as int, c as int),
    {
        if r >= self.resolved_rows.len() || r + 1 >= self.resolved_rows.len() || c >= self.resolved_columns.len() {
            return true;
        }
        match (self.occupant(r, c), self.occupant(r + 1, c)) {
            (Some(i), Some(j)) => i != j,
            _ => true,
        }
    }

    /// Whether cell `(x, y)` lies inside the cell of an item, where no separator is drawn.
    pub open spec fn spec_is_spanned(self, x: u16, y: u16) -> bool {
        exists|i: int|
            0 <= i < self.cell_rects@.len() && spec_in_lines_rect(#[trigger] self.cell_rects@[i], x, y)
    }

    pub fn is_spanned(&self, x: u16, y: u16) -> (b: bool)
        ensures
            b == self.spec_is_spanned(x, y),
    {
        in_any_rect(&self.cell_rects, x, y)
    }
}

/// Whether `(x, y)` lies in `rect`, its far edges clamped to `u16::MAX`.
pub open spec fn spec_in_lines_rect(rect: Rect, x: u16, y: u16) -> bool {
    rect.x <= x < rect.spec_right() && rect.y <= y < rect.spec_bottom()
}

/// Whether `(x, y)` lies in any of `rects`.
pub open spec fn spec_in_any_rect(rects: Seq<Rect>, x: u16, y: u16) -> bool {
    exists|i: int| 0 <= i < rects.len() && spec_in_lines_rect(#[trigger] rects[i], x, y)
}

pub fn in_any_rect(rects: &Vec<Rect>, x: u16, y: u16) -> (b: bool)
    ensures
        b == spec_in_any_rect(rects@, x, y),
{
    let mut i: usize = 0;
    while i < rects.len()
        invariant
            i <= rects@.len(),
            forall|j: int| 0 <= j < i ==> !spec_in_lines_rect(#[trigger] rects@[j], x, y),
        decreases rects@.len() - i,
    {
        let r = rects[i];
        if x >= r.x && x < r.right() && y >= r.y && y < r.bottom() {
            assert(spec_in_lines_rect(rects@[i as int], x, y));
            return true;
        }
        i += 1;
    }
    false
}

pub fn contains_point(points: &Vec<(u16, u16)>, x: u16, y: u16) -> (b: bool)
    ensures
        b == points@.contains((x, y)),
{
    let mut i: usize = 0;
    while i < points.len()
        invariant
            i <= points@.len(),
            forall|j: int| 0 <= j < i ==> points@[j] != (x, y),
        decreases points@.len() - i,
    {
        if points[i].0 == x && points[i].1 == y {
            assert(points@[i as int] == (x, y));
            return true;
        }
        i += 1;
    }
    false
}

impl Grid {
    /// Whether the vertical line at column gap `c` is drawn at row `y`, which lies at `row_loc`
    /// among the rows (`first_row` is where the first row starts): inside a row, where the two
    /// cells beside it differ; in a row gap, by the cells on the side of the row line the cell
    /// lies on (either side on the line itself, both sides where the row gap has no line); above
    /// or below all rows, by the first or the last row.
    pub open spec fn spec_vertical_draw(self, y: u16, c: int, row_loc: TrackLocation, first_row: int) -> bool {
        match row_loc {
            TrackLocation::Inside(r) => self.spec_has_column_boundary(r as int, c),
            TrackLocation::Gap(r) => if r < self.row_separator_rects@.len() {
                let line = self.row_separator_rects@[r as int].y;
                if y < line {
                    self.spec_has_column_boundary(r as int, c)
                } else if y > line {
                    self.spec_has_column_boundary(r + 1, c)
                } else {
                    self.spec_has_column_boundary(r as int, c) || self.spec_has_column_boundary(r + 1, c)
                }
            } else {
                self.spec_has_column_boundary(r as int, c) && self.spec_has_column_boundary(r + 1, c)
            },
            TrackLocation::Outside => if (y as int) < first_row {
                self.spec_has_column_boundary(0, c)
            } else {
                self.spec_has_column_boundary(sat_sub(self.resolved_rows@.len() as int, 1), c)
            },
        }
    }

    /// Whether the horizontal line at row gap `r` is drawn at column `x`; the same rules as
    /// `spec_vertical_draw` with rows and columns exchanged.
    pub open spec fn spec_horizontal_draw(self, x: u16, r: int, col_loc: TrackLocation, first_col: int) -> bool {
        match col_loc {
            TrackLocation::Inside(c) => self.spec_has_row_boundary(r, c as int),
            TrackLocation::Gap(c) => if c < self.column_separator_rects@.len() {
                let line = self.column_separator_rects@[c as int].x;
                if x < line {
                    self.spec_has_row_boundary(r, c as int)
                } else if x > line {
                    self.spec_has_row_boundary(r, c + 1)
                } else {
                    self.spec_has_row_boundary(r, c as int) || self.spec_has_row_boundary(r, c + 1)
                }
            } else {
                self.spec_has_row_boundary(r, c as int) && self.spec_has_row_boundary(r, c + 1)
            },
            TrackLocation::Outside => if (x as int) < first_col {
                self.spec_has_row_boundary(r, 0)
            } else {
                self.spec_has_row_boundary(r, sat_sub(self.resolved_columns@.len() as int, 1))
            },
        }
    }

    /// The glyph where a column gap crosses a row gap: lines leave it wherever the cells on
    /// either side of that direction differ.
    pub open spec fn spec_junction_at(self, col_loc: TrackLocation, row_loc: TrackLocation) -> Option<SeparatorGlyph> {
        match (col_loc, row_loc) {
            (TrackLocation::Gap(c), TrackLocation::Gap(r)) => Some(
                spec_junction_glyph(
                    self.spec_has_column_boundary(r as int, c as int),
                    self.spec_has_column_boundary(r + 1, c as int),
                    self.spec_has_row_boundary(r as int, c as int),
                    self.spec_has_row_boundary(r as int, c + 1),
                ),
            ),
            _ => None,
        }
    }

    pub open spec fn spec_vertical_at(self, y: u16, col_loc: TrackLocation, row_loc: TrackLocation, first_row: int) -> bool {
        match col_loc {
            TrackLocation::Gap(c) => self.spec_vertical_draw(y, c as int, row_loc, first_row),
            _ => false,
        }
    }

    pub open spec fn spec_horizontal_at(self, x: u16, col_loc: TrackLocation, row_loc: TrackLocation, first_col: int) -> bool {
        match row_loc {
            TrackLocation::Gap(r) => self.spec_horizontal_draw(x, r as int, col_loc, first_col),
            _ => false,
        }
    }

    /// What the separators of the last layout leave at cell `(x, y)` when the grid is drawn in
    /// `area`: nothing inside an item's cell; at a crossing of column and row lines (both drawn),
    /// the junction glyph; on a row line, a horizontal line where it is due; on a column line, a
    /// vertical line where it is due; elsewhere nothing.
    pub open spec fn spec_separator_glyph(self, area: Rect, x: u16, y: u16) -> Option<SeparatorGlyph> {
        match self.separators {
            None => None,
            Some(seps) => {
                let inner = spec_inner_area(area, self.padding);
                let cs = spec_track_starts(inner.x, self.resolved_columns@, self.spec_track_spacing(true));
                let ce = spec_track_ends(inner.x, self.resolved_columns@, self.spec_track_spacing(true));
                let rs = spec_track_starts(inner.y, self.resolved_rows@, self.spec_track_spacing(false));
                let re = spec_track_ends(inner.y, self.resolved_rows@, self.spec_track_spacing(false));
                let col_loc = spec_find_track_location(x, cs, ce);
                let row_loc = spec_find_track_location(y, rs, re);
                let first_col = if cs.len() > 0 { cs[0] as int } else { 0 };
                let first_row = if rs.len() > 0 { rs[0] as int } else { 0 };
                if self.spec_is_spanned(x, y) {
                    None
                } else if seps.columns && seps.rows && self.intersections@.contains((x, y))
                    && self.spec_junction_at(col_loc, row_loc).is_some() {
                    self.spec_junction_at(col_loc, row_loc)
                } else if spec_in_any_rect(self.row_separator_rects@, x, y) && self.spec_horizontal_at(
                    x,
                    col_loc,
                    row_loc,
                    first_col,
                ) {
                    Some(SeparatorGlyph::Horizontal)
                } else if spec_in_any_rect(self.column_separator_rects@, x, y) && self.spec_vertical_at(
                    y,
                    col_loc,
                    row_loc,
                    first_row,
                ) {
                    Some(SeparatorGlyph::Vertical)
                } else {
                    None
                }
            },
        }
    }

    fn vertical_draw(&self, y: u16, c: usize, row_loc: TrackLocation, first_row: u16, rows: usize) -> (b: bool)
        requires
            rows == self.resolved_rows@.len(),
            c < usize::MAX,
            row_loc matches TrackLocation::Gap(r) ==> r + 1 < rows,
        ensures
            b == self.spec_vertical_draw(y, c as int, row_loc, first_row as int),
    {
        match row_loc {
            TrackLocation::Inside(r) => self.has_column_boundary(r, c),
            TrackLocation::Gap(r) => {
                if r < self.row_separator_rects.len() {
                    let line = self.row_separator_rects[r].y;
                    if y < line {
                        self.has_column_boundary(r, c)
                    } else if y > line {
                        self.has_column_boundary(r + 1, c)
                    } else {
                        self.has_column_boundary(r, c) || self.has_column_boundary(r + 1, c)
                    }
                } else {
                    self.has_column_boundary(r, c) && self.has_column_boundary(r + 1, c)
                }
            },
            TrackLocation::Outside => {
                if y < first_row {
                    self.has_column_boundary(0, c)
                } else {
                    self.has_column_boundary(if rows > 0 { rows - 1 } else { 0 }, c)
                }
            },
        }
    }

    fn horizontal_draw(&self, x: u16, r: usize, col_loc: TrackLocation, first_col: u16, columns: usize) -> (b: bool)
        requires
            columns == self.resolved_columns@.len(),
            r < usize::MAX,
            col_loc matches TrackLocation::Gap(c) ==> c + 1 < columns,
        ensures
            b == self.spec_horizontal_draw(x, r as int, col_loc, first_col as int),
    {
        match col_loc {
            TrackLocation::Inside(c) => self.has_row_boundary(r, c),
            TrackLocation::Gap(c) => {
                if c < self.column_separator_rects.len() {
                    let line = self.column_separator_rects[c].x;
                    if x < line {
                        self.has_row_boundary(r, c)
                    } else if x > line {
                        self.has_row_boundary(r, c + 1)
                    } else {
                        self.has_row_boundary(r, c) || self.has_row_boundary(r, c + 1)
                    }
                } else {
                    self.has_row_boundary(r, c) && self.has_row_boundary(r, c + 1)
                }
            },
            TrackLocation::Outside => {
                if x < first_col {
                    self.has_row_boundary(r, 0)
                } else {
                    self.has_row_boundary(r, if columns > 0 { columns - 1 } else { 0 })
                }
            },
        }
    }

    /// What is drawn at cell `(x, y)` by the separators when the grid is drawn in `area`; `None`
    /// leaves the cell as the children drew it.
    pub fn separator_glyph_at(&self, area: Rect, x: u16, y: u16) -> (g: Option<SeparatorGlyph>)
        ensures
            g == self.spec_separator_glyph(area, x, y),
    {
        let seps = match self.separators {
            None => {
                return None;
            },
            Some(s) => s,
        };
        if self.is_spanned(x, y) {
            return None;
        }
        let inner = inner_area(area, self.padding);
        let (cs, ce) = track_bounds(inner.x, &self.resolved_columns, self.track_spacing(true));
        let (rs, re) = track_bounds(inner.y, &self.resolved_rows, self.track_spacing(false));
        let col_loc = find_track_location(x, &cs, &ce);
        let row_loc = find_track_location(y, &rs, &re);
        let first_col: u16 = if cs.len() > 0 { cs[0] } else { 0 };
        let first_row: u16 = if rs.len() > 0 { rs[0] } else { 0 };
        let columns = self.resolved_columns.len();
        let rows = self.resolved_rows.len();
        if seps.columns && seps.rows && contains_point(&self.intersections, x, y) {
            match (col_loc, row_loc) {
                (TrackLocation::Gap(c), TrackLocation::Gap(r)) => {
                    let top = self.has_column_boundary(r, c);
                    let bottom = self.has_column_boundary(r + 1, c);
                    let left = self.has_row_boundary(r, c);
                    let right = self.has_row_boundary(r, c + 1);
                    return Some(junction_char(top, bottom, left, right));
                },
                _ => {},
            }
        }
        let horizontal = match row_loc {
            TrackLocation::Gap(r) => in_any_rect(&self.row_separator_rects, x, y) && self.horizontal_draw(
                x,
                r,
                col_loc,
                first_col,
                columns,
            ),
            _ => false,
        };
        if horizontal {
            return Some(SeparatorGlyph::Horizontal);
        }
        let vertical = match col_loc {
            TrackLocation::Gap(c) => in_any_rect(&self.column_separator_rects, x, y) && self.vertical_draw(
                y,
                c,
                row_loc,
                first_row,
                rows,
            ),
            _ => false,
        };
        if vertical {
            Some(SeparatorGlyph::Vertical)
        } else {
            None
        }
    }
}

fn copy_grid_child(child: &GridChild) -> (r: GridChild)
    ensures
        r == *child,
{
    GridChild { key: child.key.clone(), item: child.item }
}

impl Grid {
    /// Removes the child under `key`, returning whether it was there.
    pub fn remove(&mut self, key: &String) -> (r: bool)
        ensures
            r == old(self).has_key(key@),
            final(self).items@ == old(self).items@.filter(|c: GridChild| c.key@ != key@),
            *final(self) == (Grid { items: final(self).items, ..*old(self) }),
    {
        let ghost prior = self.items@;
        let mut kept: Vec<GridChild> = Vec::new();
        let mut found = false;
        let mut i: usize = 0;
        while i < self.items.len()
            invariant
                i <= self.items@.len(),
                self.items@ == prior,
                kept@ == prior.take(i as int).filter(|c: GridChild| c.key@ != key@),
                found == exists|j: int| 0 <= j < i && prior[j].key@ == key@,
            decreases self.items@.len() - i,
        {
            assert(prior.take(i + 1) =~= prior.take(i as int).push(prior[i as int]));
            proof {
                prior.take(i as int).lemma_filter_push(
                    prior[i as int],
                    |c: GridChild| c.key@ != key@,
                );
            }
            if self.items[i].key == *key {
                found = true;
            } else {
                kept.push(copy_grid_child(&self.items[i]));
            }
            i += 1;
        }
        assert(prior.take(prior.len() as int) =~= prior);
        self.items = kept;
        found
    }
}

/// No separator is drawn over the cell area of a child: a child that spans several tracks hides
/// the separators between them.
pub proof fn law_separators_avoid_children(grid: Grid, area: Rect, x: u16, y: u16, i: int)
    requires
        0 <= i < grid.cell_rects@.len(),
        spec_in_lines_rect(grid.cell_rects@[i], x, y),
    ensures
        grid.spec_separator_glyph(area, x, y).is_none(),
{
    assert(grid.spec_is_spanned(x, y));
}

} // verus!
