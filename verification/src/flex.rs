//! A one-dimensional flex layout: fixed, percentage, fill-weighted and fit-content items along a
//! main axis, with gaps, separators, main-axis justification and cross-axis alignment.
use vstd::prelude::*;
use crate::geometry::{
    clamp_u32_to_u16, inner_area, inner_axis_bound, max_int, min_int, mul_sat_u16, mul_sat_u32,
    sat_add16, sat_add32, sat_mul16, sat_mul32, sat_sub, spec_inner_area, spec_inner_axis_bound,
    AxisExpand, AxisProposal, Direction, HintSource, LayoutProposal, LayoutSize, LayoutSizeHint,
    Padding, Rect, Separator,
};
use crate::space::{distribute_fill, sat_sum16, sat_sum32, spec_distribute_fill, sum_u16, sum_u32};

verus! {

/// Distribution of free main-axis space around the items.
#[derive(Debug, Clone, Copy, PartialEq, Eq, Structural)]
pub enum MainAlign {
    Start,
    Center,
    End,
    SpaceBetween,
    SpaceAround,
    SpaceEvenly,
}

/// Placement of an item across the main axis.
#[derive(Debug, Clone, Copy, PartialEq, Eq, Structural)]
pub enum CrossAlign {
    Stretch,
    Start,
    Center,
    End,
}

/// The size of an item across the main axis.
#[derive(Debug, Clone, Copy, PartialEq, Eq, Structural)]
pub enum CrossSize {
    Auto,
    Fixed(u16),
}

/// How an item is sized along the main axis.
#[derive(Debug, Clone, Copy, PartialEq, Eq, Structural)]
pub enum FlexMain {
    Fixed(u16),
    Fill(u16),
    Percent(u16),
    FitContent,
}

/// The sizing rules of one flex child.
#[derive(Debug, Clone, Copy, PartialEq, Eq, Structural)]
pub struct FlexItem {
    pub main: FlexMain,
    pub cross: CrossSize,
    pub align_self: Option<CrossAlign>,
}

/// The default item sizes to its content.
impl Default for FlexItem {
    fn default() -> (r: FlexItem)
        ensures
            r == (FlexItem { main: FlexMain::FitContent, cross: CrossSize::Auto, align_self: None }),
    {
        FlexItem::fit_content()
    }
}

impl FlexItem {
    pub fn fixed(size: u16) -> (r: FlexItem)
        ensures
            r == (FlexItem { main: FlexMain::Fixed(size), cross: CrossSize::Auto, align_self: None }),
    {
        FlexItem { main: FlexMain::Fixed(size), cross: CrossSize::Auto, align_self: None }
    }

    /// A fill item; a zero weight counts as one.
    pub fn fill(weight: u16) -> (r: FlexItem)
        ensures
            r == (FlexItem {
                main: FlexMain::Fill(if weight == 0 { 1 } else { weight }),
                cross: CrossSize::Auto,
                align_self: None,
            }),
    {
        FlexItem {
            main: FlexMain::Fill(if weight == 0 { 1 } else { weight }),
            cross: CrossSize::Auto,
            align_self: None,
        }
    }

    /// A percentage of the available main-axis space, capped at 100.
    pub fn percent(percent: u16) -> (r: FlexItem)
        ensures
            r == (FlexItem {
                main: FlexMain::Percent(if percent > 100 { 100 } else { percent }),
                cross: CrossSize::Auto,
                align_self: None,
            }),
    {
        FlexItem {
            main: FlexMain::Percent(if percent > 100 { 100 } else { percent }),
            cross: CrossSize::Auto,
            align_self: None,
        }
    }

    pub fn fit_content() -> (r: FlexItem)
        ensures
            r == (FlexItem { main: FlexMain::FitContent, cross: CrossSize::Auto, align_self: None }),
    {
        FlexItem { main: FlexMain::FitContent, cross: CrossSize::Auto, align_self: None }
    }

    /// The same as `fit_content`.
    pub fn content() -> (r: FlexItem)
        ensures
            r == (FlexItem { main: FlexMain::FitContent, cross: CrossSize::Auto, align_self: None }),
    {
        Self::fit_content()
    }

    pub fn cross_size(self, cross: CrossSize) -> (r: FlexItem)
        ensures
            r == (FlexItem { cross, ..self }),
    {
        FlexItem { cross, ..self }
    }

    pub fn align_self(self, align: CrossAlign) -> (r: FlexItem)
        ensures
            r == (FlexItem { align_self: Some(align), ..self }),
    {
        FlexItem { align_self: Some(align), ..self }
    }
}

// ---------------------------------------------------------------------------------------------
// Spreading free space
// ---------------------------------------------------------------------------------------------

/// The number of buckets that `distribute_spare` divides by.
pub open spec fn bucket_divisor(buckets: int) -> int {
    min_int(buckets, u32::MAX as int)
}

/// The share of bucket `index` when `spare` cells are spread over `buckets` buckets: the
/// quotient, plus one for each of the first `spare % buckets` buckets.
pub open spec fn spare_share(spare: int, buckets: int, index: int) -> int {
    let d = bucket_divisor(buckets);
    spare / d + if index < spare % d { 1int } else { 0int }
}

pub proof fn lemma_spare_share_bound(spare: int, buckets: int, index: int)
    requires
        0 <= index,
        0 <= spare,
        0 < buckets,
    ensures
        0 <= spare_share(spare, buckets, index) <= spare,
{
    let d = bucket_divisor(buckets);
    assert(0 < d);
    assert(spare / d * d + spare % d == spare) by (nonlinear_arith)
        requires
            0 < d,
    ;
    assert(0 <= spare % d < d) by (nonlinear_arith)
        requires
            0 < d,
    ;
    assert(0 <= spare / d) by (nonlinear_arith)
        requires
            0 < d,
            0 <= spare,
    ;
    if index < spare % d {
        assert(d >= 2);
        assert(spare / d + 1 <= spare) by (nonlinear_arith)
            requires
                d >= 2,
                spare / d >= 0,
                spare % d >= 1,
                spare / d * d + spare % d == spare,
        ;
    } else {
        assert(spare / d <= spare) by (nonlinear_arith)
            requires
                d >= 1,
                spare / d >= 0,
                spare % d >= 0,
                spare / d * d + spare % d == spare,
        ;
    }
}

pub open spec fn spec_distribute_spare(spare: u32, buckets: nat) -> Seq<u32> {
    if buckets == 0 {
        Seq::empty()
    } else {
        Seq::new(buckets, |i: int| spare_share(spare as int, buckets as int, i) as u32)
    }
}

/// Spreads `spare` cells over `buckets` buckets as evenly as possible, the earlier buckets
/// taking the remainder.
pub fn distribute_spare(spare: u32, buckets: usize) -> (r: Vec<u32>)
    ensures
        r@ == spec_distribute_spare(spare, buckets as nat),
{
    if buckets == 0 {
        return Vec::new();
    }
    let bucket_count: u32 = if buckets > u32::MAX as usize { u32::MAX } else { buckets as u32 };
    let base = spare / bucket_count;
    let remainder = spare % bucket_count;
    let mut out: Vec<u32> = Vec::new();
    let mut i: usize = 0;
    while i < buckets
        invariant
            0 < buckets,
            bucket_count as int == bucket_divisor(buckets as int),
            base as int == spare as int / bucket_count as int,
            remainder as int == spare as int % bucket_count as int,
            i <= buckets,
            out@.len() == i,
            forall|j: int|
                0 <= j < i ==> out@[j] as int == spare_share(spare as int, buckets as int, j),
        decreases buckets - i,
    {
        let extra: u32 = if (i as u64) < (remainder as u64) { 1 } else { 0 };
        assert(base as int * bucket_count as int <= spare as int) by (nonlinear_arith)
            requires
                base as int == spare as int / bucket_count as int,
                bucket_count > 0,
        ;
        assert(base < u32::MAX || bucket_count == 1) by (nonlinear_arith)
            requires
                base as int == spare as int / bucket_count as int,
                bucket_count > 0,
                spare <= u32::MAX,
        ;
        assert(remainder as int == 0 || bucket_count > 1);
        out.push(base + extra);
        i += 1;
    }
    assert(out@ =~= spec_distribute_spare(spare, buckets as nat));
    out
}

/// The plain sum of a sequence.
pub open spec fn seq_sum(s: Seq<u32>) -> int
    decreases s.len(),
{
    if s.len() == 0 { 0 } else { seq_sum(s.drop_last()) + s.last() as int }
}

#[verifier::spinoff_prover]
proof fn lemma_spare_prefix_sum(spare: u32, buckets: nat, k: int)
    requires
        0 < buckets <= u32::MAX,
        0 <= k <= buckets,
    ensures
        seq_sum(spec_distribute_spare(spare, buckets).take(k))
            == k * (spare as int / buckets as int) + min_int(k, spare as int % buckets as int),
    decreases k,
{
    let shares = spec_distribute_spare(spare, buckets);
    let q = spare as int / buckets as int;
    let r = spare as int % buckets as int;
    if k > 0 {
        lemma_spare_prefix_sum(spare, buckets, k - 1);
        assert(shares.take(k).drop_last() =~= shares.take(k - 1));
        lemma_spare_share_bound(spare as int, buckets as int, k - 1);
        assert(shares[k - 1] as int == q + if k - 1 < r { 1int } else { 0int });
        assert(k * q == (k - 1) * q + q) by (nonlinear_arith);
    } else {
        assert(shares.take(0) =~= Seq::<u32>::empty());
    }
}

/// Spreading spare cells over at most `u32::MAX` buckets hands out every cell, and no two
/// buckets differ by more than one cell, the earlier ones holding the extra cells.
pub proof fn law_spare_spread_evenly(spare: u32, buckets: nat)
    requires
        0 < buckets <= u32::MAX,
    ensures
        seq_sum(spec_distribute_spare(spare, buckets)) == spare as int,
        forall|i: int, j: int|
            0 <= i <= j < buckets ==> #[trigger] spec_distribute_spare(spare, buckets)[i]
                >= #[trigger] spec_distribute_spare(spare, buckets)[j]
                && spec_distribute_spare(spare, buckets)[i] <= spec_distribute_spare(spare, buckets)[j] + 1,
{
    let shares = spec_distribute_spare(spare, buckets);
    lemma_spare_prefix_sum(spare, buckets, buckets as int);
    assert(shares.take(buckets as int) =~= shares);
    let q = spare as int / buckets as int;
    let r = spare as int % buckets as int;
    assert(buckets * q + r == spare as int) by (nonlinear_arith)
        requires
            buckets > 0,
            q == spare as int / buckets as int,
            r == spare as int % buckets as int,
    ;
    assert(0 <= r < buckets) by (nonlinear_arith)
        requires
            buckets > 0,
            r == spare as int % buckets as int,
    ;
    assert forall|i: int, j: int| 0 <= i <= j < buckets implies #[trigger] shares[i] >= #[trigger] shares[j]
        && shares[i] <= shares[j] + 1 by {
        lemma_spare_share_bound(spare as int, buckets as int, i);
        lemma_spare_share_bound(spare as int, buckets as int, j);
    }
}

/// Adds the spare shares to each gap.
pub open spec fn spec_add_distributed_spare(spaces: Seq<u32>, spare: u32) -> Seq<u32> {
    let additions = spec_distribute_spare(spare, spaces.len());
    Seq::new(spaces.len(), |i: int| sat_add32(spaces[i] as int, additions[i] as int) as u32)
}

pub fn add_distributed_spare(spaces: &mut Vec<u32>, spare: u32)
    ensures
        final(spaces)@ == spec_add_distributed_spare(old(spaces)@, spare),
{
    let additions = distribute_spare(spare, spaces.len());
    let ghost prior = spaces@;
    let mut i: usize = 0;
    while i < spaces.len()
        invariant
            spaces@.len() == prior.len(),
            additions@ == spec_distribute_spare(spare, prior.len()),
            i <= spaces@.len(),
            forall|j: int|
                0 <= j < i ==> spaces@[j] as int == sat_add32(
                    prior[j] as int,
                    additions@[j] as int,
                ),
            forall|j: int| i <= j < spaces@.len() ==> spaces@[j] == prior[j],
        decreases spaces@.len() - i,
    {
        let v = spaces[i].saturating_add(additions[i]);
        spaces.set(i, v);
        i += 1;
    }
    assert(spaces@ =~= spec_add_distributed_spare(prior, spare));
}

/// The leading offset of the first item and the spacing after each item but the last.
#[derive(Debug, Clone, PartialEq, Eq)]
pub struct JustifySpaces {
    pub leading: u32,
    pub between: Vec<u32>,
}

pub open spec fn base_between(count: nat, gap: u16) -> Seq<u32> {
    Seq::new(sat_sub(count as int, 1) as nat, |i: int| gap as u32)
}

pub open spec fn spec_justify_between(justify: MainAlign, count: nat, gap: u16, spare: u32) -> Seq<
    u32,
> {
    let base = base_between(count, gap);
    match justify {
        MainAlign::SpaceBetween => if count > 1 {
            spec_add_distributed_spare(base, spare)
        } else {
            base
        },
        MainAlign::SpaceAround => {
            let halves = spec_distribute_spare(spare, count * 2);
            Seq::new(
                base.len(),
                |i: int|
                    sat_add32(
                        sat_add32(gap as int, halves[2 * i + 1] as int),
                        halves[2 * i + 2] as int,
                    ) as u32,
            )
        },
        MainAlign::SpaceEvenly => {
            let spaces = spec_distribute_spare(spare, count + 1);
            Seq::new(base.len(), |i: int| sat_add32(gap as int, spaces[i + 1] as int) as u32)
        },
        _ => base,
    }
}

pub open spec fn spec_justify_leading(justify: MainAlign, count: nat, spare: u32) -> int {
    match justify {
        MainAlign::Start => 0,
        MainAlign::Center => spare as int / 2,
        MainAlign::End => spare as int,
        MainAlign::SpaceBetween => 0,
        MainAlign::SpaceAround => if count == 0 {
            0
        } else {
            spare_share(spare as int, (count * 2) as int, 0)
        },
        MainAlign::SpaceEvenly => spare_share(spare as int, (count + 1) as int, 0),
    }
}

/// Spacing before, between and after `count` items that share `spare` free cells, under the
/// given justification, on top of a base gap of `gap` cells between items.
pub fn justify_spaces(justify: MainAlign, count: usize, gap: u16, spare: u32) -> (r: JustifySpaces)
    requires
        count < usize::MAX / 2,
    ensures
        r.leading == spec_justify_leading(justify, count as nat, spare),
        r.between@ == spec_justify_between(justify, count as nat, gap, spare),
{
    let base_gap = gap as u32;
    let n_between: usize = if count > 0 { count - 1 } else { 0 };
    let mut between: Vec<u32> = Vec::new();
    let mut i: usize = 0;
    while i < n_between
        invariant
            i <= n_between,
            base_gap == gap as u32,
            between@.len() == i,
            forall|j: int| 0 <= j < i ==> between@[j] == gap as u32,
        decreases n_between - i,
    {
        between.push(base_gap);
        assert(between@[i as int] == gap as u32);
        i += 1;
    }
    assert(between@ =~= base_between(count as nat, gap));
    let leading: u32 = match justify {
        MainAlign::Start => 0,
        MainAlign::Center => spare / 2,
        MainAlign::End => spare,
        MainAlign::SpaceBetween => {
            if count > 1 {
                add_distributed_spare(&mut between, spare);
            }
            0
        },
        MainAlign::SpaceAround => {
            let halves = distribute_spare(spare, count * 2);
            let ghost base = between@;
            let mut k: usize = 0;
            while k < between.len()
                invariant
                    between@.len() == base.len(),
                    base.len() == n_between,
                    n_between == sat_sub(count as int, 1),
                    count < usize::MAX / 2,
                    halves@ == spec_distribute_spare(spare, (count * 2) as nat),
                    base == base_between(count as nat, gap),
                    k <= between@.len(),
                    forall|j: int|
                        0 <= j < k ==> between@[j] as int == sat_add32(
                            sat_add32(gap as int, halves@[2 * j + 1] as int),
                            halves@[2 * j + 2] as int,
                        ),
                    forall|j: int| k <= j < between@.len() ==> between@[j] == base[j],
                decreases between@.len() - k,
            {
                proof {
                    lemma_spare_share_bound(spare as int, (count * 2) as int, 2 * k + 1);
                    lemma_spare_share_bound(spare as int, (count * 2) as int, 2 * k + 2);
                }
                assert(base[k as int] == gap as u32);
                assert(between@[k as int] == gap as u32);
                let v1 = between[k].saturating_add(halves[2 * k + 1]);
                assert(v1 as int == sat_add32(gap as int, halves@[2 * k + 1] as int));
                let v = v1.saturating_add(halves[2 * k + 2]);
                between.set(k, v);
                assert(between@[k as int] as int == sat_add32(
                    sat_add32(gap as int, halves@[2 * k + 1] as int),
                    halves@[2 * k + 2] as int,
                ));
                k += 1;
            }
            if halves.len() > 0 {
                proof {
                    lemma_spare_share_bound(spare as int, (count * 2) as int, 0);
                }
                halves[0]
            } else {
                0
            }
        },
        MainAlign::SpaceEvenly => {
            let spaces = distribute_spare(spare, count + 1);
            let ghost base = between@;
            let mut k: usize = 0;
            while k < between.len()
                invariant
                    between@.len() == base.len(),
                    base.len() == n_between,
                    n_between == sat_sub(count as int, 1),
                    spaces@ == spec_distribute_spare(spare, (count + 1) as nat),
                    base == base_between(count as nat, gap),
                    k <= between@.len(),
                    forall|j: int|
                        0 <= j < k ==> between@[j] as int == sat_add32(
                            gap as int,
                            spaces@[j + 1] as int,
                        ),
                    forall|j: int| k <= j < between@.len() ==> between@[j] == base[j],
                decreases between@.len() - k,
            {
                assert(base[k as int] == gap as u32);
                assert(between@[k as int] == gap as u32);
                let v = between[k].saturating_add(spaces[k + 1]);
                assert(v as int == sat_add32(gap as int, spaces@[k + 1] as int));
                between.set(k, v);
                assert(between@[k as int] as int == sat_add32(gap as int, spaces@[k + 1] as int));
                k += 1;
            }
            proof {
                lemma_spare_share_bound(spare as int, (count + 1) as int, 0);
            }
            spaces[0]
        },
    };
    assert(between@ =~= spec_justify_between(justify, count as nat, gap, spare));
    JustifySpaces { leading, between }
}


// ---------------------------------------------------------------------------------------------
// Item bases, shrinking and fill distribution
// ---------------------------------------------------------------------------------------------

/// A child of a flex container: its key and its sizing rules.
#[derive(Debug, Clone, PartialEq, Eq)]
pub struct FlexChild {
    pub key: String,
    pub item: FlexItem,
}

pub open spec fn is_fit(child: FlexChild) -> bool {
    child.item.main is FitContent
}

pub open spec fn is_fill(child: FlexChild) -> bool {
    child.item.main is Fill
}

/// The fill weight of each child, `None` for children that do not fill.
pub open spec fn fill_kinds(items: Seq<FlexChild>) -> Seq<Option<u16>> {
    Seq::new(
        items.len(),
        |i: int|
            match items[i].item.main {
                FlexMain::Fill(w) => Some(w),
                _ => None,
            },
    )
}

fn fill_kinds_of(items: &Vec<FlexChild>) -> (r: Vec<Option<u16>>)
    ensures
        r@ == fill_kinds(items@),
{
    let mut out: Vec<Option<u16>> = Vec::new();
    let mut i: usize = 0;
    while i < items.len()
        invariant
            i <= items@.len(),
            out@.len() == i,
            forall|j: int| 0 <= j < i ==> out@[j] == fill_kinds(items@)[j],
        decreases items@.len() - i,
    {
        let k = match items[i].item.main {
            FlexMain::Fill(w) => Some(w),
            _ => None,
        };
        out.push(k);
        i += 1;
    }
    assert(out@ =~= fill_kinds(items@));
    out
}

/// The length along the main axis of a size.
pub open spec fn main_of(direction: Direction, size: LayoutSize) -> u16 {
    match direction {
        Direction::Horizontal => size.width,
        Direction::Vertical => size.height,
    }
}

/// The length across the main axis of a size.
pub open spec fn cross_of(direction: Direction, size: LayoutSize) -> u16 {
    match direction {
        Direction::Horizontal => size.height,
        Direction::Vertical => size.width,
    }
}

pub fn main_hint(direction: Direction, size: LayoutSize) -> (r: u16)
    ensures
        r == main_of(direction, size),
{
    match direction {
        Direction::Horizontal => size.width,
        Direction::Vertical => size.height,
    }
}

pub fn cross_hint(direction: Direction, size: LayoutSize) -> (r: u16)
    ensures
        r == cross_of(direction, size),
{
    match direction {
        Direction::Horizontal => size.height,
        Direction::Vertical => size.width,
    }
}

/// The (preferred, minimum) main length of a fit-content child: nothing for a missing child,
/// one visible cell (when there is room) for a child that does not measure itself.
pub open spec fn spec_fit_content_basis(
    direction: Direction,
    hint: Option<LayoutSizeHint>,
    available: u32,
) -> (u32, u32) {
    match hint {
        None => (0, 0),
        Some(h) => if h.source == HintSource::LegacyUnmeasured {
            (if available > 0 { 1u32 } else { 0u32 }, 0)
        } else {
            (main_of(direction, h.preferred) as u32, main_of(direction, h.min) as u32)
        },
    }
}

pub fn fit_content_basis(direction: Direction, hint: Option<LayoutSizeHint>, available: u32) -> (r: (
    u32,
    u32,
))
    ensures
        r == spec_fit_content_basis(direction, hint, available),
{
    match hint {
        None => (0, 0),
        Some(h) => {
            if h.source == HintSource::LegacyUnmeasured {
                (if available > 0 { 1 } else { 0 }, 0)
            } else {
                (main_hint(direction, h.preferred) as u32, main_hint(direction, h.min) as u32)
            }
        },
    }
}

/// The (basis, minimum) main length of an item before shrinking and fill distribution.
pub open spec fn spec_item_basis(
    direction: Direction,
    item: FlexItem,
    available: u32,
    hint: Option<LayoutSizeHint>,
) -> (u32, u32) {
    match item.main {
        FlexMain::Fixed(v) => (v as u32, v as u32),
        FlexMain::Percent(p) => {
            let b = (sat_mul32(available as int, p as int) / 100) as u32;
            (b, b)
        },
        FlexMain::Fill(_) => (0, 0),
        FlexMain::FitContent => spec_fit_content_basis(direction, hint, available),
    }
}

/// One pass of fit-content shrinking from index `i`: every fit-content item above its minimum
/// gives up one cell, in order, while debt remains.
pub open spec fn shrink_pass(
    items: Seq<FlexChild>,
    bases: Seq<u32>,
    mins: Seq<u32>,
    debt: int,
    i: int,
    shrunk: bool,
) -> (Seq<u32>, int, bool)
    decreases items.len() - i,
{
    if i >= items.len() || i >= bases.len() || i >= mins.len() || i < 0 || debt <= 0 {
        (bases, debt, shrunk)
    } else if is_fit(items[i]) && bases[i] > mins[i] {
        shrink_pass(items, bases.update(i, (bases[i] - 1) as u32), mins, debt - 1, i + 1, true)
    } else {
        shrink_pass(items, bases, mins, debt, i + 1, shrunk)
    }
}

pub proof fn lemma_shrink_pass(
    items: Seq<FlexChild>,
    bases: Seq<u32>,
    mins: Seq<u32>,
    debt: int,
    i: int,
    shrunk: bool,
)
    requires
        debt >= 0,
    ensures
        0 <= shrink_pass(items, bases, mins, debt, i, shrunk).1 <= debt,
        shrink_pass(items, bases, mins, debt, i, shrunk).2 && !shrunk ==> shrink_pass(
            items,
            bases,
            mins,
            debt,
            i,
            shrunk,
        ).1 < debt,
        shrink_pass(items, bases, mins, debt, i, shrunk).0.len() == bases.len(),
    decreases items.len() - i,
{
    if i >= items.len() || i >= bases.len() || i >= mins.len() || i < 0 || debt <= 0 {
    } else if is_fit(items[i]) && bases[i] > mins[i] {
        lemma_shrink_pass(items, bases.update(i, (bases[i] - 1) as u32), mins, debt - 1, i + 1, true);
    } else {
        lemma_shrink_pass(items, bases, mins, debt, i + 1, shrunk);
    }
}

/// Repeated shrinking passes until the debt is paid or no item can shrink further.
pub open spec fn shrink_rounds(items: Seq<FlexChild>, bases: Seq<u32>, mins: Seq<u32>, debt: int) -> Seq<
    u32,
>
    decreases debt,
{
    if debt <= 0 {
        bases
    } else {
        let r = shrink_pass(items, bases, mins, debt, 0, false);
        proof {
            lemma_shrink_pass(items, bases, mins, debt, 0, false);
        }
        if r.1 <= 0 || !r.2 {
            r.0
        } else {
            shrink_rounds(items, r.0, mins, r.1)
        }
    }
}

/// How many cells item `k` can still give up: a fit-content item's basis above its minimum.
pub open spec fn room(items: Seq<FlexChild>, bases: Seq<u32>, mins: Seq<u32>, k: int) -> int {
    if is_fit(items[k]) && bases[k] > mins[k] { bases[k] - mins[k] } else { 0 }
}

pub open spec fn rooms(items: Seq<FlexChild>, bases: Seq<u32>, mins: Seq<u32>) -> Seq<u32> {
    Seq::new(bases.len(), |k: int| room(items, bases, mins, k) as u32)
}

/// How many cells the fit-content items can give up in all.
pub open spec fn total_room(items: Seq<FlexChild>, bases: Seq<u32>, mins: Seq<u32>) -> int {
    seq_sum(rooms(items, bases, mins))
}

proof fn lemma_seq_sum_update(s: Seq<u32>, i: int, v: u32)
    requires
        0 <= i < s.len(),
    ensures
        seq_sum(s.update(i, v)) == seq_sum(s) - s[i] + v,
    decreases s.len(),
{
    let t = s.update(i, v);
    if i == s.len() - 1 {
        assert(t.drop_last() =~= s.drop_last());
    } else {
        assert(t.drop_last() =~= s.drop_last().update(i, v));
        lemma_seq_sum_update(s.drop_last(), i, v);
    }
}

proof fn lemma_seq_sum_zero(s: Seq<u32>)
    requires
        forall|k: int| 0 <= k < s.len() ==> #[trigger] s[k] == 0,
    ensures
        seq_sum(s) == 0,
    decreases s.len(),
{
    if s.len() > 0 {
        assert forall|k: int| 0 <= k < s.len() - 1 implies #[trigger] s.drop_last()[k] == 0 by {
            assert(s.drop_last()[k] == s[k]);
        }
        lemma_seq_sum_zero(s.drop_last());
    }
}

proof fn lemma_seq_sum_nonneg(s: Seq<u32>)
    ensures
        seq_sum(s) >= 0,
    decreases s.len(),
{
    if s.len() > 0 {
        lemma_seq_sum_nonneg(s.drop_last());
    }
}

/// A sequence no greater anywhere than another of the same length sums to no more, and to less
/// when it is smaller somewhere.
proof fn lemma_seq_sum_mono(a: Seq<u32>, b: Seq<u32>, k: int)
    requires
        a.len() == b.len(),
        forall|j: int| 0 <= j < a.len() ==> a[j] <= b[j],
    ensures
        seq_sum(a) <= seq_sum(b),
        0 <= k < a.len() && a[k] < b[k] ==> seq_sum(a) < seq_sum(b),
    decreases a.len(),
{
    if a.len() > 0 {
        let n = a.len() - 1;
        assert forall|j: int| 0 <= j < n implies a.drop_last()[j] <= b.drop_last()[j] by {
            assert(a.drop_last()[j] == a[j] && b.drop_last()[j] == b[j]);
        }
        lemma_seq_sum_mono(a.drop_last(), b.drop_last(), k);
    }
}

/// One shrinking pass from `i`: every item changes by at most the one cell it gives up (only an
/// item from `i` on with room does), the debt falls by the cells given up, and when debt is
/// left every item from `i` on with room gave up a cell.
proof fn lemma_shrink_pass_effect(
    items: Seq<FlexChild>,
    bases: Seq<u32>,
    mins: Seq<u32>,
    debt: int,
    i: int,
    shrunk: bool,
)
    requires
        items.len() == bases.len(),
        mins.len() == bases.len(),
        debt >= 0,
        0 <= i,
    ensures
        ({
            let (b2, d2, s2) = shrink_pass(items, bases, mins, debt, i, shrunk);
            &&& b2.len() == bases.len()
            &&& 0 <= d2 <= debt
            &&& s2 == (shrunk || d2 < debt)
            &&& forall|k: int| 0 <= k < bases.len() ==> #[trigger] b2[k] == bases[k]
                || (b2[k] == bases[k] - 1 && i <= k && room(items, bases, mins, k) > 0)
            &&& seq_sum(bases) - seq_sum(b2) == debt - d2
            &&& total_room(items, b2, mins) == total_room(items, bases, mins) - (debt - d2)
            &&& d2 > 0 ==> forall|k: int| i <= k < bases.len() && room(items, bases, mins, k) > 0
                ==> #[trigger] b2[k] == bases[k] - 1
        }),
    decreases items.len() - i,
{
    if i >= items.len() || i >= bases.len() || i >= mins.len() || i < 0 || debt <= 0 {
    } else if is_fit(items[i]) && bases[i] > mins[i] {
        let b1 = bases.update(i, (bases[i] - 1) as u32);
        lemma_shrink_pass_effect(items, b1, mins, debt - 1, i + 1, true);
        lemma_seq_sum_update(bases, i, (bases[i] - 1) as u32);
        let r0 = rooms(items, bases, mins);
        assert(rooms(items, b1, mins) =~= r0.update(i, (r0[i] - 1) as u32));
        lemma_seq_sum_update(r0, i, (r0[i] - 1) as u32);
        let b2 = shrink_pass(items, bases, mins, debt, i, shrunk).0;
        assert forall|k: int| 0 <= k < bases.len() implies #[trigger] b2[k] == bases[k]
            || (b2[k] == bases[k] - 1 && i <= k && room(items, bases, mins, k) > 0) by {
            if k != i {
                assert(b1[k] == bases[k]);
                assert(room(items, b1, mins, k) == room(items, bases, mins, k));
            }
        }
        let d2 = shrink_pass(items, bases, mins, debt, i, shrunk).1;
        if d2 > 0 {
            assert forall|k: int| i <= k < bases.len() && room(items, bases, mins, k) > 0
                implies #[trigger] b2[k] == bases[k] - 1 by {
                if k != i {
                    assert(b1[k] == bases[k]);
                    assert(room(items, b1, mins, k) == room(items, bases, mins, k));
                }
            }
        }
    } else {
        lemma_shrink_pass_effect(items, bases, mins, debt, i + 1, shrunk);
        let b2 = shrink_pass(items, bases, mins, debt, i, shrunk).0;
        let d2 = shrink_pass(items, bases, mins, debt, i, shrunk).1;
        if d2 > 0 {
            assert forall|k: int| i <= k < bases.len() && room(items, bases, mins, k) > 0
                implies #[trigger] b2[k] == bases[k] - 1 by {
                if k == i {
                    assert(room(items, bases, mins, k) == 0);
                }
            }
        }
    }
}

/// Shrinking fit-content items to pay `debt` cells: only fit-content items with room shrink,
/// never below their minimums; the cells given up in all are the debt or, when the items cannot
/// give that much, all the room they have; and the shrinking is fair: an item that could still
/// shrink gave up at most one cell less than any other item.
pub proof fn law_shrink_rounds(items: Seq<FlexChild>, bases: Seq<u32>, mins: Seq<u32>, debt: int)
    requires
        items.len() == bases.len(),
        mins.len() == bases.len(),
    ensures
        ({
            let res = shrink_rounds(items, bases, mins, debt);
            &&& res.len() == bases.len()
            &&& forall|k: int| 0 <= k < bases.len() ==> #[trigger] res[k] <= bases[k]
                && (room(items, bases, mins, k) == 0 ==> res[k] == bases[k])
                && (room(items, bases, mins, k) > 0 ==> res[k] >= mins[k])
            &&& seq_sum(bases) - seq_sum(res) == min_int(max_int(debt, 0), total_room(items, bases, mins))
            &&& forall|i: int, j: int| 0 <= i < bases.len() && 0 <= j < bases.len() && is_fit(items[i])
                && #[trigger] res[i] > mins[i] ==> bases[j] - #[trigger] res[j] <= bases[i] - res[i] + 1
        }),
    decreases debt,
{
    lemma_seq_sum_nonneg(rooms(items, bases, mins));
    if debt > 0 {
        lemma_shrink_pass_effect(items, bases, mins, debt, 0, false);
        let (b2, d2, s2) = shrink_pass(items, bases, mins, debt, 0, false);
        lemma_seq_sum_nonneg(rooms(items, b2, mins));
        if d2 <= 0 || !s2 {
            if !s2 && d2 > 0 {
                let r0 = rooms(items, bases, mins);
                assert forall|k: int| 0 <= k < r0.len() implies #[trigger] r0[k] == 0 by {
                    if room(items, bases, mins, k) > 0 {
                        assert(b2[k] == bases[k] - 1);
                        assert forall|j: int| 0 <= j < b2.len() implies b2[j] <= bases[j] by {
                            assert(b2[j] == bases[j] || b2[j] == bases[j] - 1);
                        }
                        lemma_seq_sum_mono(b2, bases, k);
                    }
                }
                lemma_seq_sum_zero(r0);
            }
        } else {
            law_shrink_rounds(items, b2, mins, d2);
            let res = shrink_rounds(items, b2, mins, d2);
            assert(res == shrink_rounds(items, bases, mins, debt));
            assert forall|k: int| 0 <= k < bases.len() implies #[trigger] res[k] <= bases[k]
                && (room(items, bases, mins, k) == 0 ==> res[k] == bases[k])
                && (room(items, bases, mins, k) > 0 ==> res[k] >= mins[k]) by {
                assert(b2[k] == bases[k] || b2[k] == bases[k] - 1);
                assert(res[k] <= b2[k]);
                if room(items, bases, mins, k) == 0 {
                    assert(b2[k] == bases[k]);
                    assert(room(items, b2, mins, k) == 0);
                }
            }
            assert forall|i: int, j: int| 0 <= i < bases.len() && 0 <= j < bases.len() && is_fit(items[i])
                && #[trigger] res[i] > mins[i] implies bases[j] - #[trigger] res[j] <= bases[i] - res[i] + 1 by {
                assert(res[i] <= b2[i]);
                assert(room(items, bases, mins, i) > 0);
                assert(b2[i] == bases[i] - 1);
                assert(b2[j] == bases[j] || b2[j] == bases[j] - 1);
            }
        }
    }
}

/// Fit-content items shrink toward their minimums, one cell per item per round, until the bases
/// fit in `available`.
pub open spec fn spec_shrink_fit_content(
    items: Seq<FlexChild>,
    bases: Seq<u32>,
    mins: Seq<u32>,
    available: u32,
) -> Seq<u32> {
    shrink_rounds(items, bases, mins, sat_sub(sat_sum32(bases), available as int))
}

pub fn shrink_fit_content(
    items: &Vec<FlexChild>,
    bases: &mut Vec<u32>,
    minimums: &Vec<u32>,
    available: u32,
)
    requires
        old(bases)@.len() == items@.len(),
        minimums@.len() == items@.len(),
    ensures
        final(bases)@ == spec_shrink_fit_content(items@, old(bases)@, minimums@, available),
        final(bases)@.len() == items@.len(),
{
    let total = sum_u32(bases);
    let mut debt = total.saturating_sub(available);
    if debt == 0 {
        return;
    }
    let ghost target = shrink_rounds(items@, bases@, minimums@, debt as int);
    loop
        invariant
            bases@.len() == items@.len(),
            minimums@.len() == items@.len(),
            shrink_rounds(items@, bases@, minimums@, debt as int) == target,
            target == spec_shrink_fit_content(items@, old(bases)@, minimums@, available),
        decreases debt,
    {
        let ghost round_start = bases@;
        let ghost debt_start = debt;
        let mut shrunk_any = false;
        let mut i: usize = 0;
        while i < items.len()
            invariant
                bases@.len() == items@.len(),
                minimums@.len() == items@.len(),
                i <= items@.len(),
                debt <= debt_start,
                shrunk_any ==> debt < debt_start,
                shrink_rounds(items@, round_start, minimums@, debt_start as int) == target,
                target == spec_shrink_fit_content(items@, old(bases)@, minimums@, available),
                shrink_pass(items@, round_start, minimums@, debt_start as int, 0, false)
                    == shrink_pass(items@, bases@, minimums@, debt as int, i as int, shrunk_any),
            decreases items@.len() - i,
        {
            if debt == 0 {
                proof {
                    let p = shrink_pass(items@, bases@, minimums@, debt as int, i as int, shrunk_any);
                    assert(p == (bases@, 0int, shrunk_any));
                    if debt_start > 0 {
                        let r = shrink_pass(items@, round_start, minimums@, debt_start as int, 0, false);
                        assert(r == p);
                        assert(shrink_rounds(items@, round_start, minimums@, debt_start as int) == r.0);
                    }
                }
                return;
            }
            let fit = match items[i].item.main {
                FlexMain::FitContent => true,
                _ => false,
            };
            if fit && bases[i] > minimums[i] {
                let v = bases[i] - 1;
                bases.set(i, v);
                debt -= 1;
                shrunk_any = true;
            }
            i += 1;
        }
        proof {
            let p = shrink_pass(items@, bases@, minimums@, debt as int, i as int, shrunk_any);
            assert(p == (bases@, debt as int, shrunk_any));
            if debt_start > 0 {
                let r = shrink_pass(items@, round_start, minimums@, debt_start as int, 0, false);
                assert(r == p);
                if !shrunk_any || debt == 0 {
                    assert(shrink_rounds(items@, round_start, minimums@, debt_start as int) == r.0);
                } else {
                    assert(shrink_rounds(items@, round_start, minimums@, debt_start as int)
                        == shrink_rounds(items@, bases@, minimums@, debt as int));
                }
            }
        }
        if !shrunk_any {
            return;
        }
    }
}

// ---------------------------------------------------------------------------------------------
// Separators
// ---------------------------------------------------------------------------------------------

/// The cell a separator takes between two neighbours: one when separators are on and there is
/// at least one gap.
pub open spec fn spec_separator_cell(enabled: bool, gaps: int) -> u16 {
    if enabled && gaps > 0 { 1 } else { 0 }
}

pub fn separator_cell(enabled: bool, gaps: usize) -> (r: u16)
    ensures
        r == spec_separator_cell(enabled, gaps as int),
{
    if enabled && gaps > 0 { 1 } else { 0 }
}

/// The cells all separators take among `count` children.
pub open spec fn spec_separator_slots(enabled: bool, count: int) -> u16 {
    if enabled {
        min_int(sat_sub(count, 1), u16::MAX as int) as u16
    } else {
        0
    }
}

pub fn separator_slots(enabled: bool, count: usize) -> (r: u16)
    ensures
        r == spec_separator_slots(enabled, count as int),
{
    if enabled {
        let gaps = if count > 0 { count - 1 } else { 0 };
        if gaps > u16::MAX as usize { u16::MAX } else { gaps as u16 }
    } else {
        0
    }
}

// ---------------------------------------------------------------------------------------------
// The container
// ---------------------------------------------------------------------------------------------

/// A row or column of children sized by flex rules.
#[derive(Debug, Clone)]
pub struct Flex {
    pub direction: Direction,
    pub items: Vec<FlexChild>,
    pub rects: Vec<(String, Rect)>,
    pub separator_rects: Vec<Rect>,
    pub gap: u16,
    pub padding: Padding,
    pub justify: MainAlign,
    pub align: CrossAlign,
    pub separator: Option<Separator>,
}

pub open spec fn main_len_of(direction: Direction, area: Rect) -> u16 {
    match direction {
        Direction::Horizontal => area.width,
        Direction::Vertical => area.height,
    }
}

pub open spec fn cross_len_of(direction: Direction, area: Rect) -> u16 {
    match direction {
        Direction::Horizontal => area.height,
        Direction::Vertical => area.width,
    }
}

/// The proposal a child is measured with when it may take up to `main` cells along the main
/// axis and all of `area` across it.
pub open spec fn spec_child_measure_proposal(direction: Direction, area: Rect, main: u16) -> LayoutProposal {
    match direction {
        Direction::Horizontal => LayoutProposal {
            width: AxisProposal::AtMost(main),
            height: AxisProposal::AtMost(area.height),
        },
        Direction::Vertical => LayoutProposal {
            width: AxisProposal::AtMost(area.width),
            height: AxisProposal::AtMost(main),
        },
    }
}

fn copy_child(child: &FlexChild) -> (r: FlexChild)
    ensures
        r == *child,
{
    FlexChild { key: child.key.clone(), item: child.item }
}

impl Flex {
    fn new(direction: Direction) -> (r: Flex)
        ensures
            r.direction == direction,
            r.items@.len() == 0,
            r.rects@.len() == 0,
            r.separator_rects@.len() == 0,
            r.gap == 0,
            r.padding == (Padding { left: 0, right: 0, top: 0, bottom: 0 }),
            r.justify == MainAlign::Start,
            r.align == CrossAlign::Stretch,
            r.separator.is_none(),
    {
        Flex {
            direction,
            items: Vec::new(),
            rects: Vec::new(),
            separator_rects: Vec::new(),
            gap: 0,
            padding: Padding::zero(),
            justify: MainAlign::Start,
            align: CrossAlign::Stretch,
            separator: None,
        }
    }

    /// An empty horizontal container.
    pub fn row() -> (r: Flex)
        ensures
            r.direction == Direction::Horizontal,
            r.items@.len() == 0,
            r.rects@.len() == 0,
            r.separator_rects@.len() == 0,
            r.gap == 0,
            r.padding == (Padding { left: 0, right: 0, top: 0, bottom: 0 }),
            r.justify == MainAlign::Start,
            r.align == CrossAlign::Stretch,
            r.separator.is_none(),
    {
        Self::new(Direction::Horizontal)
    }

    /// An empty vertical container.
    pub fn column() -> (r: Flex)
        ensures
            r.direction == Direction::Vertical,
            r.items@.len() == 0,
            r.rects@.len() == 0,
            r.separator_rects@.len() == 0,
            r.gap == 0,
            r.padding == (Padding { left: 0, right: 0, top: 0, bottom: 0 }),
            r.justify == MainAlign::Start,
            r.align == CrossAlign::Stretch,
            r.separator.is_none(),
    {
        Self::new(Direction::Vertical)
    }

    pub fn gap(self, gap: u16) -> (r: Flex)
        ensures
            r == (Flex { gap, ..self }),
    {
        Flex { gap, ..self }
    }

    pub fn separator(self, separator: Separator) -> (r: Flex)
        ensures
            r == (Flex { separator: Some(separator), ..self }),
    {
        Flex { separator: Some(separator), ..self }
    }

    pub fn padding(self, padding: Padding) -> (r: Flex)
        ensures
            r == (Flex { padding, ..self }),
    {
        Flex { padding, ..self }
    }

    pub fn justify(self, justify: MainAlign) -> (r: Flex)
        ensures
            r == (Flex { justify, ..self }),
    {
        Flex { justify, ..self }
    }

    pub fn align(self, align: CrossAlign) -> (r: Flex)
        ensures
            r == (Flex { align, ..self }),
    {
        Flex { align, ..self }
    }

    pub open spec fn has_key(self, key: Seq<char>) -> bool {
        exists|i: int| 0 <= i < self.items@.len() && self.items@[i].key@ == key
    }

    /// Appends a child under a key that no other child has; a repeated key is refused with
    /// `Err` and the container is handed back unchanged.
    pub fn try_child(self, key: String, item: FlexItem) -> (r: Result<Flex, Flex>)
        ensures
            self.has_key(key@) ==> r == Err::<Flex, Flex>(self),
            !self.has_key(key@) ==> (r matches Ok(f) && f.items@ == self.items@.push(
                FlexChild { key, item },
            ) && f.direction == self.direction && f.gap == self.gap && f.padding == self.padding
                && f.justify == self.justify && f.align == self.align && f.separator
                == self.separator && f.rects@ == self.rects@ && f.separator_rects@
                == self.separator_rects@),
    {
        let mut i: usize = 0;
        while i < self.items.len()
            invariant
                i <= self.items@.len(),
                forall|j: int| 0 <= j < i ==> self.items@[j].key@ != key@,
            decreases self.items@.len() - i,
        {
            if self.items[i].key == key {
                return Err(self);
            }
            i += 1;
        }
        let mut flex = self;
        flex.items.push(FlexChild { key, item });
        Ok(flex)
    }

    /// Appends a child under a key that no other child has.
    pub fn child(self, key: String, item: FlexItem) -> (r: Flex)
        requires
            !self.has_key(key@),
        ensures
            r == (Flex { items: r.items, ..self }),
            r.items@ == self.items@.push(FlexChild { key, item }),
    {
        let mut flex = self;
        flex.items.push(FlexChild { key, item });
        flex
    }

    /// Appends a child in place under a key that no other child has; returns `false`, changing
    /// nothing, for a repeated key.
    pub fn insert(&mut self, key: String, item: FlexItem) -> (r: bool)
        ensures
            r == !old(self).has_key(key@),
            r ==> final(self).items@ == old(self).items@.push(FlexChild { key, item }),
            !r ==> final(self).items@ == old(self).items@,
            *final(self) == (Flex { items: final(self).items, ..*old(self) }),
    {
        let mut i: usize = 0;
        while i < self.items.len()
            invariant
                i <= self.items@.len(),
                forall|j: int| 0 <= j < i ==> self.items@[j].key@ != key@,
            decreases self.items@.len() - i,
        {
            if self.items[i].key == key {
                return false;
            }
            i += 1;
        }
        self.items.push(FlexChild { key, item });
        true
    }

    /// Gives the first child under `key` a new layout item; returns `false`, changing nothing,
    /// when no child has that key.
    pub fn replace(&mut self, key: &String, item: FlexItem) -> (r: bool)
        ensures
            r == old(self).has_key(key@),
            *final(self) == (Flex { items: final(self).items, ..*old(self) }),
            final(self).items@.len() == old(self).items@.len(),
            forall|j: int|
                0 <= j < old(self).items@.len() ==> (#[trigger] final(self).items@[j]).key == old(self).items@[j].key,
            forall|j: int|
                0 <= j < old(self).items@.len() ==> (#[trigger] final(self).items@[j]).item == (if old(self).items@[j].key@
                    == key@ && forall|k: int| 0 <= k < j ==> old(self).items@[k].key@ != key@ {
                    item
                } else {
                    old(self).items@[j].item
                }),
    {
        let mut i: usize = 0;
        while i < self.items.len()
            invariant
                i <= self.items@.len(),
                *self == *old(self),
                forall|j: int| 0 <= j < i ==> self.items@[j].key@ != key@,
            decreases self.items@.len() - i,
        {
            if self.items[i].key == *key {
                let child = FlexChild { key: self.items[i].key.clone(), item };
                self.items.set(i, child);
                return true;
            }
            i += 1;
        }
        false
    }

    /// Removes the child under `key`, returning whether it was there.
    pub fn remove(&mut self, key: &String) -> (r: bool)
        ensures
            r == old(self).has_key(key@),
            final(self).items@ == old(self).items@.filter(|c: FlexChild| c.key@ != key@),
            final(self).direction == old(self).direction,
            final(self).gap == old(self).gap,
            final(self).padding == old(self).padding,
            final(self).justify == old(self).justify,
            final(self).align == old(self).align,
            final(self).separator == old(self).separator,
    {
        let ghost prior = self.items@;
        let mut kept: Vec<FlexChild> = Vec::new();
        let mut found = false;
        let mut i: usize = 0;
        while i < self.items.len()
            invariant
                i <= self.items@.len(),
                self.items@ == prior,
                kept@ == prior.take(i as int).filter(|c: FlexChild| c.key@ != key@),
                found == exists|j: int| 0 <= j < i && prior[j].key@ == key@,
            decreases self.items@.len() - i,
        {
            assert(prior.take(i + 1) =~= prior.take(i as int).push(prior[i as int]));
            proof {
                prior.take(i as int).lemma_filter_push(
                    prior[i as int],
                    |c: FlexChild| c.key@ != key@,
                );
            }
            if self.items[i].key == *key {
                found = true;
            } else {
                kept.push(copy_child(&self.items[i]));
            }
            i += 1;
        }
        assert(prior.take(prior.len() as int) =~= prior);
        self.items = kept;
        found
    }

    /// The rectangle the last layout gave the child under `key`.
    pub fn child_rect(&self, key: &String) -> (r: Option<Rect>)
        ensures
            r.is_none() <==> forall|j: int|
                0 <= j < self.rects@.len() ==> self.rects@[j].0@ != key@,
            r matches Some(rect) ==> exists|j: int|
                0 <= j < self.rects@.len() && self.rects@[j].0@ == key@ && self.rects@[j].1 == rect
                    && forall|k: int| 0 <= k < j ==> self.rects@[k].0@ != key@,
    {
        let mut i: usize = 0;
        while i < self.rects.len()
            invariant
                i <= self.rects@.len(),
                forall|j: int| 0 <= j < i ==> self.rects@[j].0@ != key@,
            decreases self.rects@.len() - i,
        {
            if self.rects[i].0 == *key {
                return Some(self.rects[i].1);
            }
            i += 1;
        }
        None
    }

    pub fn main_len(&self, area: Rect) -> (r: u16)
        ensures
            r == main_len_of(self.direction, area),
    {
        match self.direction {
            Direction::Horizontal => area.width,
            Direction::Vertical => area.height,
        }
    }

    pub fn cross_len(&self, area: Rect) -> (r: u16)
        ensures
            r == cross_len_of(self.direction, area),
    {
        match self.direction {
            Direction::Horizontal => area.height,
            Direction::Vertical => area.width,
        }
    }

    pub fn child_measure_proposal(&self, area: Rect, main: u16) -> (r: LayoutProposal)
        ensures
            r == spec_child_measure_proposal(self.direction, area, main),
    {
        match self.direction {
            Direction::Horizontal => LayoutProposal {
                width: AxisProposal::AtMost(main),
                height: AxisProposal::AtMost(area.height),
            },
            Direction::Vertical => LayoutProposal {
                width: AxisProposal::AtMost(area.width),
                height: AxisProposal::AtMost(main),
            },
        }
    }

    /// The cells taken by gaps and separators between `count` children.
    pub open spec fn spec_total_spacing(self, count: int) -> u16 {
        sat_add16(
            sat_mul16(self.gap as int, min_int(sat_sub(count, 1), u16::MAX as int)),
            spec_separator_slots(self.separator.is_some(), count) as int,
        ) as u16
    }

    pub fn total_spacing(&self, count: usize) -> (r: u16)
        ensures
            r == self.spec_total_spacing(count as int),
    {
        let gaps_usize = if count > 0 { count - 1 } else { 0 };
        let gaps: u16 = if gaps_usize > u16::MAX as usize { u16::MAX } else { gaps_usize as u16 };
        mul_sat_u16(self.gap, gaps).saturating_add(separator_slots(self.separator.is_some(), count))
    }

    pub open spec fn spec_inner(self, area: Rect) -> Rect {
        spec_inner_area(area, self.padding)
    }

    pub fn inner_area(&self, area: Rect) -> (r: Rect)
        ensures
            r == self.spec_inner(area),
    {
        inner_area(area, self.padding)
    }
}

pub open spec fn item_bases(
    direction: Direction,
    items: Seq<FlexChild>,
    available: u32,
    hints: Seq<Option<LayoutSizeHint>>,
) -> Seq<u32> {
    Seq::new(items.len(), |i: int| spec_item_basis(direction, items[i].item, available, hints[i]).0)
}

pub open spec fn item_minimums(
    direction: Direction,
    items: Seq<FlexChild>,
    available: u32,
    hints: Seq<Option<LayoutSizeHint>>,
) -> Seq<u32> {
    Seq::new(items.len(), |i: int| spec_item_basis(direction, items[i].item, available, hints[i]).1)
}

pub open spec fn clamp_all(values: Seq<u32>) -> Seq<u16> {
    Seq::new(values.len(), |i: int| min_int(values[i] as int, u16::MAX as int) as u16)
}

/// Main-axis lengths of the children sharing `available` cells, given the hints the children
/// reported for the proposal of `Flex::main_measure_proposal`.
pub open spec fn spec_main_lengths(
    direction: Direction,
    items: Seq<FlexChild>,
    available: u32,
    hints: Seq<Option<LayoutSizeHint>>,
) -> Seq<u16> {
    let bases = item_bases(direction, items, available, hints);
    let mins = item_minimums(direction, items, available, hints);
    let shrunk = spec_shrink_fit_content(items, bases, mins, available);
    clamp_all(spec_distribute_fill(fill_kinds(items), shrunk, available))
}

fn clamp_vec(values: Vec<u32>) -> (r: Vec<u16>)
    ensures
        r@ == clamp_all(values@),
{
    let mut out: Vec<u16> = Vec::new();
    let mut i: usize = 0;
    while i < values.len()
        invariant
            i <= values@.len(),
            out@.len() == i,
            forall|j: int| 0 <= j < i ==> out@[j] == clamp_all(values@)[j],
        decreases values@.len() - i,
    {
        out.push(clamp_u32_to_u16(values[i]));
        i += 1;
    }
    assert(out@ =~= clamp_all(values@));
    out
}

impl Flex {
    /// Main-axis lengths of the children sharing `available` cells. `hints[i]` is what child
    /// `i` reports for `self.child_measure_proposal(area, available)`.
    pub fn main_lengths(&self, area: Rect, available: u32, hints: &Vec<Option<LayoutSizeHint>>) -> (r:
        Vec<u16>)
        requires
            hints@.len() == self.items@.len(),
        ensures
            r@ == spec_main_lengths(self.direction, self.items@, available, hints@),
            r@.len() == self.items@.len(),
    {
        let mut bases: Vec<u32> = Vec::new();
        let mut minimums: Vec<u32> = Vec::new();
        let mut i: usize = 0;
        while i < self.items.len()
            invariant
                i <= self.items@.len(),
                hints@.len() == self.items@.len(),
                bases@.len() == i,
                minimums@.len() == i,
                forall|j: int|
                    0 <= j < i ==> bases@[j] == item_bases(
                        self.direction,
                        self.items@,
                        available,
                        hints@,
                    )[j],
                forall|j: int|
                    0 <= j < i ==> minimums@[j] == item_minimums(
                        self.direction,
                        self.items@,
                        available,
                        hints@,
                    )[j],
            decreases self.items@.len() - i,
        {
            let (basis, minimum) = match self.items[i].item.main {
                FlexMain::Fixed(value) => (value as u32, value as u32),
                FlexMain::Percent(percent) => {
                    let b = mul_sat_u32(available, percent as u32) / 100;
                    (b, b)
                },
                FlexMain::Fill(_) => (0, 0),
                FlexMain::FitContent => fit_content_basis(self.direction, hints[i], available),
            };
            bases.push(basis);
            minimums.push(minimum);
            i += 1;
        }
        assert(bases@ =~= item_bases(self.direction, self.items@, available, hints@));
        assert(minimums@ =~= item_minimums(self.direction, self.items@, available, hints@));
        shrink_fit_content(&self.items, &mut bases, &minimums, available);
        let kinds = fill_kinds_of(&self.items);
        distribute_fill(&kinds, &mut bases, available);
        clamp_vec(bases)
    }
}

/// Where a child lands: `main` cells from `main_offset` along the main axis (cut at the end of
/// `area`), and across it either stretched, fixed, or sized by its measured preferred size and
/// aligned.
pub open spec fn spec_rect_for(
    flex: Flex,
    area: Rect,
    main_offset: u32,
    main: u16,
    child: FlexChild,
    hint: Option<LayoutSizeHint>,
) -> Rect {
    let cross_available = cross_len_of(flex.direction, area);
    let align = match child.item.align_self {
        Some(a) => a,
        None => flex.align,
    };
    let cross_len: u16 = match child.item.cross {
        CrossSize::Fixed(size) => min_int(size as int, cross_available as int) as u16,
        CrossSize::Auto => if align == CrossAlign::Stretch {
            cross_available
        } else {
            match hint {
                Some(h) => if h.source == HintSource::Measured {
                    min_int(cross_of(flex.direction, h.preferred) as int, cross_available as int) as u16
                } else {
                    cross_available
                },
                None => cross_available,
            }
        },
    };
    let cross_offset: int = match align {
        CrossAlign::Start => 0,
        CrossAlign::Stretch => 0,
        CrossAlign::Center => sat_sub(cross_available as int, cross_len as int) / 2,
        CrossAlign::End => sat_sub(cross_available as int, cross_len as int),
    };
    let offset = min_int(main_offset as int, u16::MAX as int);
    let main_remaining = sat_sub(main_len_of(flex.direction, area) as int, offset);
    let main_len = min_int(main as int, main_remaining) as u16;
    match flex.direction {
        Direction::Horizontal => Rect::spec_new(
            sat_add16(area.x as int, offset) as u16,
            sat_add16(area.y as int, cross_offset) as u16,
            main_len,
            cross_len,
        ),
        Direction::Vertical => Rect::spec_new(
            sat_add16(area.x as int, cross_offset) as u16,
            sat_add16(area.y as int, offset) as u16,
            cross_len,
            main_len,
        ),
    }
}

/// The alignment a child takes across the main axis: its own, or the container's.
pub open spec fn child_align(flex: Flex, child: FlexChild) -> CrossAlign {
    match child.item.align_self {
        Some(a) => a,
        None => flex.align,
    }
}

/// Where a child lands inside an area that fits in `u16`, `main_offset` cells along the main
/// axis: across the main axis it is never longer than the area, a fixed cross size is kept up
/// to the area's length, a stretched child fills it, and any other child takes its measured
/// preferred cross size up to the area's length (the whole length when unmeasured); a child aligned to the start sits at the
/// area's cross start, one aligned to the end ends at the area's cross end, and a centred one
/// leaves equal space on both sides, the far side taking the odd cell. Along the main axis it
/// starts `main_offset` cells in and takes its length, cut at the area's end.
pub proof fn law_rect_for_placement(
    flex: Flex,
    area: Rect,
    main_offset: u32,
    main: u16,
    child: FlexChild,
    hint: Option<LayoutSizeHint>,
)
    requires
        area.spec_fits(),
        main_offset <= main_len_of(flex.direction, area),
    ensures
        ({
            let d = flex.direction;
            let r = spec_rect_for(flex, area, main_offset, main, child, hint);
            let a = cross_len_of(d, area) as int;
            let c = cross_extent(d, r);
            let before = cross_start(d, r) - cross_start(d, area);
            let after = a - before - c;
            let align = child_align(flex, child);
            &&& 0 <= c <= a
            &&& 0 <= before && 0 <= after
            &&& (child.item.cross matches CrossSize::Fixed(size) ==> c == min_int(size as int, a))
            &&& (child.item.cross is Auto && align == CrossAlign::Stretch ==> c == a)
            &&& (child.item.cross is Auto && align != CrossAlign::Stretch ==> c == match hint {
                Some(h) => if h.source == HintSource::Measured {
                    min_int(
                        (match d {
                            Direction::Horizontal => h.preferred.height,
                            Direction::Vertical => h.preferred.width,
                        }) as int,
                        a,
                    )
                } else {
                    a
                },
                None => a,
            })
            &&& (align == CrossAlign::Start || align == CrossAlign::Stretch ==> before == 0)
            &&& (align == CrossAlign::End ==> after == 0)
            &&& (align == CrossAlign::Center ==> before <= after <= before + 1)
            &&& main_start(d, r) == main_start(d, area) + main_offset
            &&& main_extent(d, r) == min_int(main as int, main_len_of(d, area) - main_offset)
        }),
{
}

/// The one-cell line of a separator in the middle of a `between`-cell slot starting at
/// `slot_start`, if the slot is not empty and the line falls inside `area`.
pub open spec fn spec_separator_rect(flex: Flex, area: Rect, slot_start: u32, between: u32) -> Option<
    Rect,
> {
    if between == 0 {
        None
    } else {
        let main_offset = sat_add32(slot_start as int, between as int / 2);
        if main_offset >= main_len_of(flex.direction, area) {
            None
        } else {
            Some(
                match flex.direction {
                    Direction::Horizontal => Rect::spec_new(
                        sat_add16(area.x as int, main_offset) as u16,
                        area.y,
                        1,
                        area.height,
                    ),
                    Direction::Vertical => Rect::spec_new(
                        area.x,
                        sat_add16(area.y as int, main_offset) as u16,
                        area.width,
                        1,
                    ),
                },
            )
        }
    }
}

/// Where child `i` starts along the main axis.
pub open spec fn cursor_at(leading: u32, lengths: Seq<u16>, between: Seq<u32>, i: int) -> int
    decreases i,
{
    if i <= 0 {
        leading as int
    } else {
        sat_add32(
            sat_add32(cursor_at(leading, lengths, between, i - 1), lengths[i - 1] as int),
            if i - 1 < between.len() { between[i - 1] as int } else { 0 },
        )
    }
}

pub proof fn lemma_cursor_bounds(leading: u32, lengths: Seq<u16>, between: Seq<u32>, i: int)
    ensures
        0 <= cursor_at(leading, lengths, between, i) <= u32::MAX,
    decreases i,
{
    if i > 0 {
        lemma_cursor_bounds(leading, lengths, between, i - 1);
    }
}

pub open spec fn layout_gap_count(count: int) -> int {
    min_int(sat_sub(count, 1), u32::MAX as int)
}

pub open spec fn layout_separator_cell(flex: Flex) -> int {
    spec_separator_cell(flex.separator.is_some(), sat_sub(flex.items@.len() as int, 1)) as int
}

pub open spec fn layout_between(flex: Flex) -> int {
    sat_add32(flex.gap as int, layout_separator_cell(flex))
}

pub open spec fn layout_spacing(flex: Flex) -> int {
    sat_mul32(layout_between(flex), layout_gap_count(flex.items@.len() as int))
}

pub open spec fn layout_main_available(flex: Flex, area: Rect) -> int {
    main_len_of(flex.direction, flex.spec_inner(area)) as int
}

pub open spec fn layout_main_without_spacing(flex: Flex, area: Rect) -> int {
    sat_sub(layout_main_available(flex, area), layout_spacing(flex))
}

/// Main-axis lengths that a layout of `area` gives the children.
pub open spec fn layout_lengths(flex: Flex, area: Rect, main_hints: Seq<Option<LayoutSizeHint>>) -> Seq<
    u16,
> {
    spec_main_lengths(
        flex.direction,
        flex.items@,
        layout_main_without_spacing(flex, area) as u32,
        main_hints,
    )
}

pub open spec fn layout_spare(flex: Flex, area: Rect, main_hints: Seq<Option<LayoutSizeHint>>) -> int {
    sat_sub(layout_main_without_spacing(flex, area), sat_sum16(layout_lengths(flex, area, main_hints)))
}

pub open spec fn layout_leading(flex: Flex, area: Rect, main_hints: Seq<Option<LayoutSizeHint>>) -> u32 {
    spec_justify_leading(
        flex.justify,
        flex.items@.len(),
        layout_spare(flex, area, main_hints) as u32,
    ) as u32
}

pub open spec fn layout_between_seq(flex: Flex, area: Rect, main_hints: Seq<Option<LayoutSizeHint>>) -> Seq<
    u32,
> {
    spec_justify_between(
        flex.justify,
        flex.items@.len(),
        min_int(layout_between(flex), u16::MAX as int) as u16,
        layout_spare(flex, area, main_hints) as u32,
    )
}

/// Overflow as (needed, available) when the children and spacing need more than the space.
pub open spec fn layout_overflow(flex: Flex, area: Rect, main_hints: Seq<Option<LayoutSizeHint>>) -> Option<
    (u16, u16),
> {
    let needed = sat_add32(sat_sum16(layout_lengths(flex, area, main_hints)), layout_spacing(flex));
    if flex.items@.len() == 0 || needed <= layout_main_available(flex, area) {
        None
    } else {
        Some(
            (
                min_int(needed, u16::MAX as int) as u16,
                layout_main_available(flex, area) as u16,
            ),
        )
    }
}

/// The rectangle of child `i`.
pub open spec fn layout_rect(
    flex: Flex,
    area: Rect,
    main_hints: Seq<Option<LayoutSizeHint>>,
    cross_hints: Seq<Option<LayoutSizeHint>>,
    i: int,
) -> Rect {
    let lengths = layout_lengths(flex, area, main_hints);
    spec_rect_for(
        flex,
        flex.spec_inner(area),
        cursor_at(
            layout_leading(flex, area, main_hints),
            lengths,
            layout_between_seq(flex, area, main_hints),
            i,
        ) as u32,
        lengths[i],
        flex.items@[i],
        cross_hints[i],
    )
}

/// Where a rectangle starts along the main axis of `direction`.
pub open spec fn main_start(direction: Direction, r: Rect) -> int {
    match direction {
        Direction::Horizontal => r.x as int,
        Direction::Vertical => r.y as int,
    }
}

/// How far a rectangle reaches along the main axis of `direction`.
pub open spec fn main_extent(direction: Direction, r: Rect) -> int {
    match direction {
        Direction::Horizontal => r.width as int,
        Direction::Vertical => r.height as int,
    }
}

/// Where a rectangle starts across the main axis of `direction`.
pub open spec fn cross_start(direction: Direction, r: Rect) -> int {
    match direction {
        Direction::Horizontal => r.y as int,
        Direction::Vertical => r.x as int,
    }
}

/// How far a rectangle reaches across the main axis of `direction`.
pub open spec fn cross_extent(direction: Direction, r: Rect) -> int {
    match direction {
        Direction::Horizontal => r.height as int,
        Direction::Vertical => r.width as int,
    }
}

/// The cursor never falls back: past child `i` it has moved on by at least that child's length.
pub proof fn lemma_cursor_passes(leading: u32, lengths: Seq<u16>, between: Seq<u32>, i: int, j: int)
    requires
        0 <= i < j,
    ensures
        cursor_at(leading, lengths, between, j) >= min_int(
            cursor_at(leading, lengths, between, i) + lengths[i] as int,
            u32::MAX as int,
        ),
    decreases j - i,
{
    lemma_cursor_bounds(leading, lengths, between, j - 1);
    if j > i + 1 {
        lemma_cursor_passes(leading, lengths, between, i, j - 1);
    }
}

/// The children of a laid-out flex keep their order along the main axis and never overlap:
/// each ends where or before any later one begins. Across the main axis each lies within the
/// padded area, and along it each child that has room lies within the padded area too.
pub proof fn law_children_in_order_inside(
    flex: Flex,
    area: Rect,
    main_hints: Seq<Option<LayoutSizeHint>>,
    cross_hints: Seq<Option<LayoutSizeHint>>,
    i: int,
    j: int,
)
    requires
        0 <= i < j,
    ensures
        ({
            let d = flex.direction;
            let inner = flex.spec_inner(area);
            let ri = layout_rect(flex, area, main_hints, cross_hints, i);
            let rj = layout_rect(flex, area, main_hints, cross_hints, j);
            &&& main_start(d, ri) + main_extent(d, ri) <= main_start(d, rj)
            &&& cross_start(d, inner) <= cross_start(d, ri)
            &&& cross_start(d, ri) + cross_extent(d, ri) <= cross_start(d, inner) + cross_extent(d, inner)
            &&& main_extent(d, ri) > 0 ==> main_start(d, inner) <= main_start(d, ri) && main_start(d, ri) + main_extent(d, ri)
                <= main_start(d, inner) + main_extent(d, inner)
        }),
{
    let lengths = layout_lengths(flex, area, main_hints);
    let leading = layout_leading(flex, area, main_hints);
    let between = layout_between_seq(flex, area, main_hints);
    lemma_cursor_passes(leading, lengths, between, i, j);
    lemma_cursor_bounds(leading, lengths, between, i);
    lemma_cursor_bounds(leading, lengths, between, j);
}

/// Separator lines after the first `k` children.
pub open spec fn layout_separators_upto(
    flex: Flex,
    area: Rect,
    main_hints: Seq<Option<LayoutSizeHint>>,
    k: int,
) -> Seq<Rect>
    decreases k,
{
    if k <= 0 {
        Seq::empty()
    } else {
        let prev = layout_separators_upto(flex, area, main_hints, k - 1);
        let i = k - 1;
        let lengths = layout_lengths(flex, area, main_hints);
        let between = layout_between_seq(flex, area, main_hints);
        if layout_separator_cell(flex) > 0 && i < between.len() {
            let slot_start = sat_add32(
                cursor_at(layout_leading(flex, area, main_hints), lengths, between, i),
                lengths[i] as int,
            );
            match spec_separator_rect(flex, flex.spec_inner(area), slot_start as u32, between[i]) {
                Some(r) => prev.push(r),
                None => prev,
            }
        } else {
            prev
        }
    }
}

impl Flex {
    pub fn rect_for(
        &self,
        area: Rect,
        main_offset: u32,
        main: u16,
        child: &FlexChild,
        hint: Option<LayoutSizeHint>,
    ) -> (r: Rect)
        ensures
            r == spec_rect_for(*self, area, main_offset, main, *child, hint),
    {
        let cross_available = self.cross_len(area);
        let align = match child.item.align_self {
            Some(a) => a,
            None => self.align,
        };
        let cross_len: u16 = match child.item.cross {
            CrossSize::Fixed(size) => if size < cross_available { size } else { cross_available },
            CrossSize::Auto => {
                if align == CrossAlign::Stretch {
                    cross_available
                } else {
                    match hint {
                        Some(h) => {
                            if h.source == HintSource::Measured {
                                let c = cross_hint(self.direction, h.preferred);
                                if c < cross_available { c } else { cross_available }
                            } else {
                                cross_available
                            }
                        },
                        None => cross_available,
                    }
                }
            },
        };
        let cross_offset: u16 = match align {
            CrossAlign::Start => 0,
            CrossAlign::Stretch => 0,
            CrossAlign::Center => cross_available.saturating_sub(cross_len) / 2,
            CrossAlign::End => cross_available.saturating_sub(cross_len),
        };
        let offset = clamp_u32_to_u16(main_offset);
        let main_remaining = self.main_len(area).saturating_sub(offset);
        let main_len = if main < main_remaining { main } else { main_remaining };
        match self.direction {
            Direction::Horizontal => Rect::new(
                area.x.saturating_add(offset),
                area.y.saturating_add(cross_offset),
                main_len,
                cross_len,
            ),
            Direction::Vertical => Rect::new(
                area.x.saturating_add(cross_offset),
                area.y.saturating_add(offset),
                cross_len,
                main_len,
            ),
        }
    }

    pub fn separator_rect(&self, area: Rect, slot_start: u32, between: u32) -> (r: Option<Rect>)
        ensures
            r == spec_separator_rect(*self, area, slot_start, between),
    {
        if between == 0 {
            return None;
        }
        let main_offset = slot_start.saturating_add(between / 2);
        if main_offset >= self.main_len(area) as u32 {
            return None;
        }
        let offset = clamp_u32_to_u16(main_offset);
        Some(
            match self.direction {
                Direction::Horizontal => Rect::new(
                    area.x.saturating_add(offset),
                    area.y,
                    1,
                    area.height,
                ),
                Direction::Vertical => Rect::new(area.x, area.y.saturating_add(offset), area.width, 1),
            },
        )
    }

    /// The proposal each child is measured with to find its main-axis basis in a layout of
    /// `area`.
    pub fn main_measure_proposal(&self, area: Rect) -> (r: LayoutProposal)
        ensures
            r == spec_child_measure_proposal(
                self.direction,
                self.spec_inner(area),
                min_int(layout_main_without_spacing(*self, area), u16::MAX as int) as u16,
            ),
    {
        let inner = self.inner_area(area);
        let main_available = self.main_len(inner);
        let count = self.items.len();
        let gap_count: u32 = if count == 0 {
            0
        } else if count - 1 > u32::MAX as usize {
            u32::MAX
        } else {
            (count - 1) as u32
        };
        let cell = separator_cell(self.separator.is_some(), if count > 0 { count - 1 } else { 0 }) as u32;
        let between = (self.gap as u32).saturating_add(cell);
        let spacing = mul_sat_u32(between, gap_count);
        let without = (main_available as u32).saturating_sub(spacing);
        self.child_measure_proposal(inner, clamp_u32_to_u16(without))
    }

    /// The proposal child `i` is measured with, across the main axis, once its main length
    /// `main` is known.
    pub fn cross_measure_proposal(&self, area: Rect, main: u16) -> (r: LayoutProposal)
        ensures
            r == spec_child_measure_proposal(self.direction, self.spec_inner(area), main),
    {
        let inner = self.inner_area(area);
        self.child_measure_proposal(inner, main)
    }

    /// Lays the children out in `area`. `main_hints[i]` is what child `i` reports for
    /// `main_measure_proposal(area)`; `cross_hints[i]` what it reports for
    /// `cross_measure_proposal(area, lengths[i])` with the lengths of `layout_main_lengths`.
    /// Returns (children rectangles, separator lines, overflow as (needed, available)).
    pub fn calculate_layout(
        &self,
        area: Rect,
        main_hints: &Vec<Option<LayoutSizeHint>>,
        cross_hints: &Vec<Option<LayoutSizeHint>>,
    ) -> (r: (Vec<(String, Rect)>, Vec<Rect>, Option<(u16, u16)>))
        requires
            main_hints@.len() == self.items@.len(),
            cross_hints@.len() == self.items@.len(),
            self.items@.len() < usize::MAX / 2,
        ensures
            r.0@.len() == self.items@.len(),
            forall|i: int|
                #![trigger r.0@[i]]
                0 <= i < self.items@.len() ==> r.0@[i].0@ == self.items@[i].key@ && r.0@[i].1
                    == layout_rect(*self, area, main_hints@, cross_hints@, i),
            r.1@ == layout_separators_upto(*self, area, main_hints@, self.items@.len() as int),
            r.2 == layout_overflow(*self, area, main_hints@),
    {
        let inner = self.inner_area(area);
        let main_available = self.main_len(inner);
        let count = self.items.len();
        if count == 0 {
            return (Vec::new(), Vec::new(), None);
        }
        let gap_count: u32 = if count - 1 > u32::MAX as usize {
            u32::MAX
        } else {
            (count - 1) as u32
        };
        let sep_cell = separator_cell(self.separator.is_some(), count - 1) as u32;
        let base_between = (self.gap as u32).saturating_add(sep_cell);
        let base_spacing = mul_sat_u32(base_between, gap_count);
        let main_without_spacing = (main_available as u32).saturating_sub(base_spacing);
        let lengths = self.main_lengths(inner, main_without_spacing, main_hints);
        let used = sum_u16(&lengths);
        let needed = used.saturating_add(base_spacing);
        let overflow = if needed > main_available as u32 {
            Some((clamp_u32_to_u16(needed), main_available))
        } else {
            None
        };
        let spare = main_without_spacing.saturating_sub(used);
        let spaces = justify_spaces(self.justify, count, clamp_u32_to_u16(base_between), spare);
        let leading = spaces.leading;
        let between = spaces.between;
        let ghost lengths_s = lengths@;
        let ghost between_s = between@;
        assert(lengths_s == layout_lengths(*self, area, main_hints@));
        assert(between_s == layout_between_seq(*self, area, main_hints@));
        assert(leading == layout_leading(*self, area, main_hints@));
        let mut cursor: u32 = leading;
        let mut separator_rects: Vec<Rect> = Vec::new();
        let mut rects: Vec<(String, Rect)> = Vec::new();
        let mut i: usize = 0;
        while i < count
            invariant
                count == self.items@.len(),
                count < usize::MAX / 2,
                main_hints@.len() == count,
                cross_hints@.len() == count,
                lengths@ == lengths_s,
                between@ == between_s,
                lengths_s.len() == count,
                lengths_s == layout_lengths(*self, area, main_hints@),
                between_s == layout_between_seq(*self, area, main_hints@),
                leading == layout_leading(*self, area, main_hints@),
                inner == self.spec_inner(area),
                sep_cell == layout_separator_cell(*self),
                i <= count,
                cursor as int == cursor_at(leading, lengths_s, between_s, i as int),
                rects@.len() == i,
                forall|j: int|
                    #![trigger rects@[j]]
                    0 <= j < i ==> rects@[j].0@ == self.items@[j].key@ && rects@[j].1 == layout_rect(
                        *self,
                        area,
                        main_hints@,
                        cross_hints@,
                        j,
                    ),
                separator_rects@ == layout_separators_upto(*self, area, main_hints@, i as int),
            decreases count - i,
        {
            let main = lengths[i];
            proof {
                lemma_cursor_bounds(leading, lengths_s, between_s, i as int);
            }
            let rect = self.rect_for(inner, cursor, main, &self.items[i], cross_hints[i]);
            assert(rect == layout_rect(*self, area, main_hints@, cross_hints@, i as int));
            let slot_start = cursor.saturating_add(main as u32);
            if sep_cell > 0 && i < between.len() {
                match self.separator_rect(inner, slot_start, between[i]) {
                    Some(r) => separator_rects.push(r),
                    None => {},
                }
            }
            let step: u32 = if i < between.len() { between[i] } else { 0 };
            cursor = slot_start.saturating_add(step);
            let key = self.items[i].key.clone();
            let ghost before = rects@;
            rects.push((key, rect));
            assert(rects@ == before.push((key, rect)));
            assert(key == self.items@[i as int].key);
            assert(rects@[i as int].0@ == self.items@[i as int].key@);
            assert(rects@[i as int].1 == layout_rect(*self, area, main_hints@, cross_hints@, i as int));
            assert forall|j: int| #![trigger rects@[j]] 0 <= j < i + 1 implies rects@[j].0@ == self.items@[j].key@
                && rects@[j].1 == layout_rect(*self, area, main_hints@, cross_hints@, j) by {
                if j < i {
                    assert(rects@[j] == before[j]);
                    assert(before[j].1 == layout_rect(*self, area, main_hints@, cross_hints@, j));
                }
            }
            i += 1;
        }
        (rects, separator_rects, overflow)
    }

    /// Lays the children out in `area` and keeps the rectangles; returns the overflow.
    pub fn layout(
        &mut self,
        area: Rect,
        main_hints: &Vec<Option<LayoutSizeHint>>,
        cross_hints: &Vec<Option<LayoutSizeHint>>,
    ) -> (r: Option<(u16, u16)>)
        requires
            main_hints@.len() == old(self).items@.len(),
            cross_hints@.len() == old(self).items@.len(),
            old(self).items@.len() < usize::MAX / 2,
        ensures
            final(self).items@ == old(self).items@,
            final(self).direction == old(self).direction,
            final(self).gap == old(self).gap,
            final(self).padding == old(self).padding,
            final(self).justify == old(self).justify,
            final(self).align == old(self).align,
            final(self).separator == old(self).separator,
            final(self).rects@.len() == old(self).items@.len(),
            forall|i: int|
                #![trigger final(self).rects@[i]]
                0 <= i < old(self).items@.len() ==> final(self).rects@[i].0@ == old(self).items@[i].key@
                    && final(self).rects@[i].1 == layout_rect(
                    *old(self),
                    area,
                    main_hints@,
                    cross_hints@,
                    i,
                ),
            final(self).separator_rects@ == layout_separators_upto(
                *old(self),
                area,
                main_hints@,
                old(self).items@.len() as int,
            ),
            r == layout_overflow(*old(self), area, main_hints@),
    {
        let (rects, separator_rects, overflow) = self.calculate_layout(area, main_hints, cross_hints);
        self.rects = rects;
        self.separator_rects = separator_rects;
        overflow
    }
}

// ---------------------------------------------------------------------------------------------
// Measurement
// ---------------------------------------------------------------------------------------------

/// The proposal children are measured with when the container is measured.
pub open spec fn spec_measure_child_proposal(
    direction: Direction,
    main: Option<u32>,
    cross: Option<u16>,
) -> LayoutProposal {
    let m = match main {
        Some(v) => AxisProposal::AtMost(min_int(v as int, u16::MAX as int) as u16),
        None => AxisProposal::Unbounded,
    };
    let c = match cross {
        Some(v) => AxisProposal::AtMost(v),
        None => AxisProposal::Unbounded,
    };
    match direction {
        Direction::Horizontal => LayoutProposal { width: m, height: c },
        Direction::Vertical => LayoutProposal { width: c, height: m },
    }
}

/// The (minimum, preferred) main length of an item when the container is measured.
pub open spec fn spec_measure_item(
    direction: Direction,
    item: FlexItem,
    available: Option<u32>,
    hint: Option<LayoutSizeHint>,
) -> (u32, u32) {
    match item.main {
        FlexMain::Fixed(v) => (v as u32, v as u32),
        FlexMain::Percent(p) => {
            let b: u32 = match available {
                Some(a) => (sat_mul32(a as int, p as int) / 100) as u32,
                None => match hint {
                    Some(h) => if h.source == HintSource::Measured {
                        main_of(direction, h.preferred) as u32
                    } else {
                        0
                    },
                    None => 0,
                },
            };
            (b, b)
        },
        FlexMain::Fill(_) => (0, 0),
        FlexMain::FitContent => {
            let a = match available {
                Some(a) => a,
                None => 1u32,
            };
            let fit = spec_fit_content_basis(direction, hint, a);
            (fit.1, fit.0)
        },
    }
}

pub open spec fn measure_mins(
    direction: Direction,
    items: Seq<FlexChild>,
    available: Option<u32>,
    hints: Seq<Option<LayoutSizeHint>>,
) -> Seq<u32> {
    Seq::new(items.len(), |i: int| spec_measure_item(direction, items[i].item, available, hints[i]).0)
}

pub open spec fn measure_prefs(
    direction: Direction,
    items: Seq<FlexChild>,
    available: Option<u32>,
    hints: Seq<Option<LayoutSizeHint>>,
) -> Seq<u32> {
    Seq::new(items.len(), |i: int| spec_measure_item(direction, items[i].item, available, hints[i]).1)
}

/// (minimum, preferred) total main length of the children.
pub open spec fn spec_measure_main_lengths(
    direction: Direction,
    items: Seq<FlexChild>,
    available: Option<u32>,
    hints: Seq<Option<LayoutSizeHint>>,
) -> (u16, u16) {
    let mins = measure_mins(direction, items, available, hints);
    let prefs = measure_prefs(direction, items, available, hints);
    let bases = match available {
        Some(a) => spec_distribute_fill(fill_kinds(items), spec_shrink_fit_content(items, prefs, mins, a), a),
        None => prefs,
    };
    (
        min_int(sat_sum32(mins), u16::MAX as int) as u16,
        min_int(sat_sum32(bases), u16::MAX as int) as u16,
    )
}

/// What an item contributes across the main axis: its fixed size or its hint.
pub open spec fn cross_min_of(direction: Direction, child: FlexChild, hint: Option<LayoutSizeHint>) -> int {
    match child.item.cross {
        CrossSize::Fixed(size) => size as int,
        CrossSize::Auto => match hint {
            Some(h) => cross_of(direction, h.min) as int,
            None => 0,
        },
    }
}

pub open spec fn cross_pref_of(direction: Direction, child: FlexChild, hint: Option<LayoutSizeHint>) -> int {
    match child.item.cross {
        CrossSize::Fixed(size) => size as int,
        CrossSize::Auto => match hint {
            Some(h) => cross_of(direction, h.preferred) as int,
            None => 0,
        },
    }
}

/// The largest minimum cross size among the first `k` children.
pub open spec fn cross_min_upto(
    direction: Direction,
    items: Seq<FlexChild>,
    hints: Seq<Option<LayoutSizeHint>>,
    k: int,
) -> int
    decreases k,
{
    if k <= 0 {
        0
    } else {
        max_int(cross_min_upto(direction, items, hints, k - 1), cross_min_of(direction, items[k - 1], hints[k - 1]))
    }
}

/// The largest preferred cross size among the first `k` children.
pub open spec fn cross_pref_upto(
    direction: Direction,
    items: Seq<FlexChild>,
    hints: Seq<Option<LayoutSizeHint>>,
    k: int,
) -> int
    decreases k,
{
    if k <= 0 {
        0
    } else {
        max_int(cross_pref_upto(direction, items, hints, k - 1), cross_pref_of(direction, items[k - 1], hints[k - 1]))
    }
}

pub proof fn lemma_cross_upto_bounds(
    direction: Direction,
    items: Seq<FlexChild>,
    hints: Seq<Option<LayoutSizeHint>>,
    k: int,
)
    ensures
        0 <= cross_min_upto(direction, items, hints, k) <= u16::MAX,
        0 <= cross_pref_upto(direction, items, hints, k) <= u16::MAX,
    decreases k,
{
    if k > 0 {
        lemma_cross_upto_bounds(direction, items, hints, k - 1);
    }
}

pub open spec fn any_fill(items: Seq<FlexChild>) -> bool {
    exists|i: int| 0 <= i < items.len() && is_fill(items[i])
}

pub open spec fn measure_available(flex: Flex, proposal: LayoutProposal) -> Option<u32> {
    let pw = sat_add16(flex.padding.left as int, flex.padding.right as int) as u16;
    let ph = sat_add16(flex.padding.top as int, flex.padding.bottom as int) as u16;
    let gap = flex.spec_total_spacing(flex.items@.len() as int);
    let bound = match flex.direction {
        Direction::Horizontal => spec_inner_axis_bound(proposal.width, pw),
        Direction::Vertical => spec_inner_axis_bound(proposal.height, ph),
    };
    match bound {
        Some(a) => Some(sat_sub(a as int, gap as int) as u32),
        None => None,
    }
}

pub open spec fn measure_cross_available(flex: Flex, proposal: LayoutProposal) -> Option<u16> {
    let pw = sat_add16(flex.padding.left as int, flex.padding.right as int) as u16;
    let ph = sat_add16(flex.padding.top as int, flex.padding.bottom as int) as u16;
    match flex.direction {
        Direction::Horizontal => spec_inner_axis_bound(proposal.height, ph),
        Direction::Vertical => spec_inner_axis_bound(proposal.width, pw),
    }
}

/// The size hint of the container: the children's lengths plus spacing and padding; it wants to
/// grow along its main axis when it holds a fill item. `hints[i]` is what child `i` reports for
/// `measure_child_proposal(proposal)`.
pub open spec fn spec_flex_measure(flex: Flex, proposal: LayoutProposal, hints: Seq<Option<LayoutSizeHint>>) -> LayoutSizeHint {
    let pw = sat_add16(flex.padding.left as int, flex.padding.right as int);
    let ph = sat_add16(flex.padding.top as int, flex.padding.bottom as int);
    let gap = flex.spec_total_spacing(flex.items@.len() as int) as int;
    let mains = spec_measure_main_lengths(flex.direction, flex.items@, measure_available(flex, proposal), hints);
    let min_main = sat_add16(mains.0 as int, gap);
    let pref_main = sat_add16(mains.1 as int, gap);
    let min_cross = cross_min_upto(flex.direction, flex.items@, hints, flex.items@.len() as int);
    let pref_cross = cross_pref_upto(flex.direction, flex.items@, hints, flex.items@.len() as int);
    let (min_w, min_h, pref_w, pref_h) = match flex.direction {
        Direction::Horizontal => (min_main, min_cross, pref_main, pref_cross),
        Direction::Vertical => (min_cross, min_main, pref_cross, pref_main),
    };
    LayoutSizeHint {
        source: HintSource::Measured,
        min: LayoutSize {
            width: sat_add16(min_w, pw) as u16,
            height: sat_add16(min_h, ph) as u16,
        },
        preferred: LayoutSize {
            width: sat_add16(pref_w, pw) as u16,
            height: sat_add16(pref_h, ph) as u16,
        },
        expand: AxisExpand {
            width: flex.direction == Direction::Horizontal && any_fill(flex.items@),
            height: flex.direction == Direction::Vertical && any_fill(flex.items@),
        },
    }
}

impl Flex {
    /// The proposal each child is measured with when the container is measured under
    /// `proposal`.
    pub fn measure_child_proposal(&self, proposal: LayoutProposal) -> (r: LayoutProposal)
        ensures
            r == spec_measure_child_proposal(
                self.direction,
                measure_available(*self, proposal),
                measure_cross_available(*self, proposal),
            ),
    {
        let (main, cross) = self.measure_axes(proposal);
        let m = match main {
            Some(v) => AxisProposal::AtMost(clamp_u32_to_u16(v)),
            None => AxisProposal::Unbounded,
        };
        let c = match cross {
            Some(v) => AxisProposal::AtMost(v),
            None => AxisProposal::Unbounded,
        };
        match self.direction {
            Direction::Horizontal => LayoutProposal { width: m, height: c },
            Direction::Vertical => LayoutProposal { width: c, height: m },
        }
    }

    fn measure_axes(&self, proposal: LayoutProposal) -> (r: (Option<u32>, Option<u16>))
        ensures
            r.0 == measure_available(*self, proposal),
            r.1 == measure_cross_available(*self, proposal),
    {
        let gap = self.total_spacing(self.items.len());
        let pw = self.padding.left.saturating_add(self.padding.right);
        let ph = self.padding.top.saturating_add(self.padding.bottom);
        let (main_bound, cross_bound) = match self.direction {
            Direction::Horizontal => (inner_axis_bound(proposal.width, pw), inner_axis_bound(proposal.height, ph)),
            Direction::Vertical => (inner_axis_bound(proposal.height, ph), inner_axis_bound(proposal.width, pw)),
        };
        let main = match main_bound {
            Some(a) => Some((a as u32).saturating_sub(gap as u32)),
            None => None,
        };
        (main, cross_bound)
    }

    fn measure_main_lengths(&self, available: Option<u32>, hints: &Vec<Option<LayoutSizeHint>>) -> (r: (u16, u16))
        requires
            hints@.len() == self.items@.len(),
        ensures
            r == spec_measure_main_lengths(self.direction, self.items@, available, hints@),
    {
        let mut mins: Vec<u32> = Vec::new();
        let mut bases: Vec<u32> = Vec::new();
        let mut i: usize = 0;
        while i < self.items.len()
            invariant
                i <= self.items@.len(),
                hints@.len() == self.items@.len(),
                mins@.len() == i,
                bases@.len() == i,
                forall|j: int| 0 <= j < i ==> mins@[j] == measure_mins(self.direction, self.items@, available, hints@)[j],
                forall|j: int| 0 <= j < i ==> bases@[j] == measure_prefs(self.direction, self.items@, available, hints@)[j],
            decreases self.items@.len() - i,
        {
            let (min, preferred): (u32, u32) = match self.items[i].item.main {
                FlexMain::Fixed(value) => (value as u32, value as u32),
                FlexMain::Percent(percent) => {
                    let basis: u32 = match available {
                        Some(a) => mul_sat_u32(a, percent as u32) / 100,
                        None => match hints[i] {
                            Some(h) => if h.source == HintSource::Measured {
                                main_hint(self.direction, h.preferred) as u32
                            } else {
                                0
                            },
                            None => 0,
                        },
                    };
                    (basis, basis)
                },
                FlexMain::Fill(_) => (0, 0),
                FlexMain::FitContent => {
                    let a = match available {
                        Some(a) => a,
                        None => 1,
                    };
                    let (preferred, min) = fit_content_basis(self.direction, hints[i], a);
                    (min, preferred)
                },
            };
            mins.push(min);
            bases.push(preferred);
            i += 1;
        }
        assert(mins@ =~= measure_mins(self.direction, self.items@, available, hints@));
        assert(bases@ =~= measure_prefs(self.direction, self.items@, available, hints@));
        let min_total = sum_u32(&mins);
        match available {
            Some(a) => {
                shrink_fit_content(&self.items, &mut bases, &mins, a);
                let kinds = fill_kinds_of(&self.items);
                distribute_fill(&kinds, &mut bases, a);
            },
            None => {},
        }
        let preferred_total = sum_u32(&bases);
        (clamp_u32_to_u16(min_total), clamp_u32_to_u16(preferred_total))
    }

    fn measure_cross_lengths(&self, hints: &Vec<Option<LayoutSizeHint>>) -> (r: (u16, u16))
        requires
            hints@.len() == self.items@.len(),
        ensures
            r.0 == cross_min_upto(self.direction, self.items@, hints@, self.items@.len() as int),
            r.1 == cross_pref_upto(self.direction, self.items@, hints@, self.items@.len() as int),
    {
        let mut min: u16 = 0;
        let mut preferred: u16 = 0;
        let mut i: usize = 0;
        while i < self.items.len()
            invariant
                i <= self.items@.len(),
                hints@.len() == self.items@.len(),
                min == cross_min_upto(self.direction, self.items@, hints@, i as int),
                preferred == cross_pref_upto(self.direction, self.items@, hints@, i as int),
            decreases self.items@.len() - i,
        {
            match self.items[i].item.cross {
                CrossSize::Fixed(size) => {
                    if size > min {
                        min = size;
                    }
                    if size > preferred {
                        preferred = size;
                    }
                },
                CrossSize::Auto => {
                    match hints[i] {
                        Some(h) => {
                            let hm = cross_hint(self.direction, h.min);
                            let hp = cross_hint(self.direction, h.preferred);
                            if hm > min {
                                min = hm;
                            }
                            if hp > preferred {
                                preferred = hp;
                            }
                        },
                        None => {},
                    }
                },
            }
            i += 1;
        }
        (min, preferred)
    }

    /// Measures the container; see `spec_flex_measure`.
    pub fn measure(&self, proposal: LayoutProposal, hints: &Vec<Option<LayoutSizeHint>>) -> (r: LayoutSizeHint)
        requires
            hints@.len() == self.items@.len(),
        ensures
            r == spec_flex_measure(*self, proposal, hints@),
    {
        let gap = self.total_spacing(self.items.len());
        let pw = self.padding.left.saturating_add(self.padding.right);
        let ph = self.padding.top.saturating_add(self.padding.bottom);
        let (available, _) = self.measure_axes(proposal);
        let (min_main, preferred_main) = self.measure_main_lengths(available, hints);
        let (min_cross, preferred_cross) = self.measure_cross_lengths(hints);
        let min_main = min_main.saturating_add(gap);
        let preferred_main = preferred_main.saturating_add(gap);
        let (min_w, min_h, pref_w, pref_h) = match self.direction {
            Direction::Horizontal => (min_main, min_cross, preferred_main, preferred_cross),
            Direction::Vertical => (min_cross, min_main, preferred_cross, preferred_main),
        };
        let mut has_fill = false;
        let mut i: usize = 0;
        while i < self.items.len()
            invariant
                i <= self.items@.len(),
                has_fill == exists|j: int| 0 <= j < i && is_fill(self.items@[j]),
            decreases self.items@.len() - i,
        {
            match self.items[i].item.main {
                FlexMain::Fill(_) => {
                    has_fill = true;
                },
                _ => {},
            }
            i += 1;
        }
        LayoutSizeHint {
            source: HintSource::Measured,
            min: LayoutSize { width: min_w.saturating_add(pw), height: min_h.saturating_add(ph) },
            preferred: LayoutSize {
                width: pref_w.saturating_add(pw),
                height: pref_h.saturating_add(ph),
            },
            expand: AxisExpand {
                width: self.direction == Direction::Horizontal && has_fill,
                height: self.direction == Direction::Vertical && has_fill,
            },
        }
    }
}

} // verus!
