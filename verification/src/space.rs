//! Saturating sums and the sharing of free space among weighted fill entries, common to the
//! flex and grid layouts.
use vstd::prelude::*;
use crate::geometry::{mul_sat_u32, sat_add32, sat_mul32, sat_sub};

verus! {

// ---------------------------------------------------------------------------------------------
// Saturating sums
// ---------------------------------------------------------------------------------------------

/// Left-to-right saturating `u32` sum.
pub open spec fn sat_sum32(s: Seq<u32>) -> int
    decreases s.len(),
{
    if s.len() == 0 {
        0
    } else {
        sat_add32(sat_sum32(s.drop_last()), s.last() as int)
    }
}

/// Left-to-right saturating `u32` sum of `u16` values.
pub open spec fn sat_sum16(s: Seq<u16>) -> int
    decreases s.len(),
{
    if s.len() == 0 {
        0
    } else {
        sat_add32(sat_sum16(s.drop_last()), s.last() as int)
    }
}

pub proof fn lemma_sat_sum32_bounds(s: Seq<u32>)
    ensures
        0 <= sat_sum32(s) <= u32::MAX,
    decreases s.len(),
{
    if s.len() > 0 {
        lemma_sat_sum32_bounds(s.drop_last());
    }
}

pub proof fn lemma_sat_sum16_bounds(s: Seq<u16>)
    ensures
        0 <= sat_sum16(s) <= u32::MAX,
    decreases s.len(),
{
    if s.len() > 0 {
        lemma_sat_sum16_bounds(s.drop_last());
    }
}

pub fn sum_u32(values: &Vec<u32>) -> (r: u32)
    ensures
        r == sat_sum32(values@),
{
    let mut acc: u32 = 0;
    let mut i: usize = 0;
    while i < values.len()
        invariant
            i <= values.len(),
            acc == sat_sum32(values@.take(i as int)),
        decreases values.len() - i,
    {
        assert(values@.take(i + 1).drop_last() =~= values@.take(i as int));
        acc = acc.saturating_add(values[i]);
        i += 1;
    }
    assert(values@.take(values.len() as int) =~= values@);
    acc
}

pub fn sum_u16(values: &Vec<u16>) -> (r: u32)
    ensures
        r == sat_sum16(values@),
{
    let mut acc: u32 = 0;
    let mut i: usize = 0;
    while i < values.len()
        invariant
            i <= values.len(),
            acc == sat_sum16(values@.take(i as int)),
        decreases values.len() - i,
    {
        assert(values@.take(i + 1).drop_last() =~= values@.take(i as int));
        acc = acc.saturating_add(values[i] as u32);
        i += 1;
    }
    assert(values@.take(values.len() as int) =~= values@);
    acc
}

/// The weight of a fill entry, zero for other entries.
pub open spec fn weight_of(kind: Option<u16>) -> u32 {
    match kind {
        Some(w) => w as u32,
        None => 0,
    }
}

/// The number of fill entries before index `i`.
pub open spec fn fill_rank(kinds: Seq<Option<u16>>, i: int) -> int
    decreases i,
{
    if i <= 0 {
        0
    } else {
        fill_rank(kinds, i - 1) + if kinds[i - 1] is Some { 1int } else { 0int }
    }
}

pub open spec fn weights(kinds: Seq<Option<u16>>) -> Seq<u32> {
    Seq::new(kinds.len(), |i: int| weight_of(kinds[i]))
}

/// The share of fill item `i` in `fill_space` free cells: its weight over the total weight.
pub open spec fn fill_share(kinds: Seq<Option<u16>>, fill_space: int, i: int) -> int {
    sat_mul32(fill_space, weight_of(kinds[i]) as int) / sat_sum32(weights(kinds))
}

/// Lengths after the fill shares are assigned (before the remainder is handed out).
pub open spec fn assigned_lengths(kinds: Seq<Option<u16>>, lengths: Seq<u32>, fill_space: int) -> Seq<
    u32,
> {
    Seq::new(
        kinds.len(),
        |i: int|
            if kinds[i] is Some && sat_sum32(weights(kinds)) > 0 {
                fill_share(kinds, fill_space, i) as u32
            } else {
                lengths[i]
            },
    )
}

pub open spec fn distributed_shares(kinds: Seq<Option<u16>>, fill_space: int) -> Seq<u32> {
    Seq::new(
        kinds.len(),
        |i: int|
            if kinds[i] is Some && sat_sum32(weights(kinds)) > 0 {
                fill_share(kinds, fill_space, i) as u32
            } else {
                0u32
            },
    )
}

pub open spec fn fill_space_of(lengths: Seq<u32>, available: u32) -> int {
    sat_sub(available as int, sat_sum32(lengths))
}

/// Free space goes to the fill items in proportion to their weights; the cells that integer
/// division leaves over go one each to the first fill items.
pub open spec fn spec_distribute_fill(kinds: Seq<Option<u16>>, lengths: Seq<u32>, available: u32) -> Seq<
    u32,
> {
    let fill_space = fill_space_of(lengths, available);
    let assigned = assigned_lengths(kinds, lengths, fill_space);
    let remainder = sat_sub(fill_space, sat_sum32(distributed_shares(kinds, fill_space)));
    Seq::new(
        kinds.len(),
        |i: int|
            if kinds[i] is Some && fill_rank(kinds, i) < remainder {
                sat_add32(assigned[i] as int, 1) as u32
            } else {
                assigned[i]
            },
    )
}

pub proof fn lemma_fill_share_bound(kinds: Seq<Option<u16>>, fill_space: int, i: int)
    requires
        0 <= fill_space,
        sat_sum32(weights(kinds)) > 0,
    ensures
        0 <= fill_share(kinds, fill_space, i) <= u32::MAX,
{
    let a = sat_mul32(fill_space, weight_of(kinds[i]) as int);
    let w = sat_sum32(weights(kinds));
    assert(0 <= a <= u32::MAX) by (nonlinear_arith)
        requires
            a == sat_mul32(fill_space, weight_of(kinds[i]) as int),
            0 <= fill_space,
            0 <= weight_of(kinds[i]),
    ;
    assert(0 <= a / w <= a) by (nonlinear_arith)
        requires
            0 <= a,
            w >= 1,
    ;
}

fn sum_weights(kinds: &Vec<Option<u16>>) -> (r: u32)
    ensures
        r == sat_sum32(weights(kinds@)),
{
    let mut acc: u32 = 0;
    let mut i: usize = 0;
    while i < kinds.len()
        invariant
            i <= kinds@.len(),
            acc == sat_sum32(weights(kinds@).take(i as int)),
        decreases kinds@.len() - i,
    {
        assert(weights(kinds@).take(i + 1).drop_last() =~= weights(kinds@).take(i as int));
        let w: u32 = match kinds[i] {
            Some(w) => w as u32,
            None => 0,
        };
        acc = acc.saturating_add(w);
        i += 1;
    }
    assert(weights(kinds@).take(kinds@.len() as int) =~= weights(kinds@));
    acc
}

/// Gives the free space that `lengths` leave in `available` to the fill entries of `kinds`
/// (`Some(weight)`), in proportion to their weights; the cells left by integer division go one
/// each to the first fill entries.
pub fn distribute_fill(kinds: &Vec<Option<u16>>, lengths: &mut Vec<u32>, available: u32)
    requires
        old(lengths)@.len() == kinds@.len(),
    ensures
        final(lengths)@ == spec_distribute_fill(kinds@, old(lengths)@, available),
{
    let ghost prior = lengths@;
    let reserved = sum_u32(lengths);
    let fill_space = available.saturating_sub(reserved);
    let fill_weight = sum_weights(kinds);
    let ghost fs = fill_space as int;
    assert(fs == fill_space_of(prior, available));
    let mut distributed: u32 = 0;
    let mut i: usize = 0;
    while i < kinds.len()
        invariant
            i <= kinds@.len(),
            lengths@.len() == kinds@.len(),
            fill_weight == sat_sum32(weights(kinds@)),
            fs == fill_space as int,
            prior == old(lengths)@,
            prior.len() == kinds@.len(),
            forall|j: int|
                0 <= j < i ==> lengths@[j] == assigned_lengths(kinds@, prior, fs)[j],
            forall|j: int| i <= j < lengths@.len() ==> lengths@[j] == prior[j],
            distributed == sat_sum32(distributed_shares(kinds@, fs).take(i as int)),
        decreases kinds@.len() - i,
    {
        assert(distributed_shares(kinds@, fs).take(i + 1).drop_last() =~= distributed_shares(
            kinds@,
            fs,
        ).take(i as int));
        match kinds[i] {
            Some(weight) => {
                if fill_weight > 0 {
                    proof {
                        lemma_fill_share_bound(kinds@, fs, i as int);
                    }
                    let share = mul_sat_u32(fill_space, weight as u32) / fill_weight;
                    lengths.set(i, share);
                    distributed = distributed.saturating_add(share);
                } else {
                    distributed = distributed.saturating_add(0);
                }
            },
            _ => {
                distributed = distributed.saturating_add(0);
            },
        }
        i += 1;
    }
    assert(distributed_shares(kinds@, fs).take(kinds@.len() as int) =~= distributed_shares(
        kinds@,
        fs,
    ));
    let ghost assigned = lengths@;
    assert(assigned =~= assigned_lengths(kinds@, prior, fs));
    let mut remainder = fill_space.saturating_sub(distributed);
    let ghost r0 = remainder as int;
    let mut k: usize = 0;
    while k < kinds.len()
        invariant
            k <= kinds@.len(),
            lengths@.len() == kinds@.len(),
            remainder as int == sat_sub(r0, fill_rank(kinds@, k as int)),
            r0 == sat_sub(fs, sat_sum32(distributed_shares(kinds@, fs))),
            fs == fill_space_of(prior, available),
            prior == old(lengths)@,
            prior.len() == kinds@.len(),
            assigned == assigned_lengths(kinds@, prior, fs),
            forall|j: int|
                0 <= j < k ==> lengths@[j] == spec_distribute_fill(kinds@, prior, available)[j],
            forall|j: int| k <= j < lengths@.len() ==> lengths@[j] == assigned[j],
        decreases kinds@.len() - k,
    {
        if remainder == 0 {
            proof {
                assert forall|j: int| k <= j < kinds@.len() implies fill_rank(kinds@, j) >= r0 by {
                    lemma_fill_rank_monotone(kinds@, k as int, j);
                }
            }
            assert(lengths@ =~= spec_distribute_fill(kinds@, prior, available));
            return;
        }
        let fill = kinds[k].is_some();
        if fill {
            let v = lengths[k].saturating_add(1);
            lengths.set(k, v);
            remainder -= 1;
        }
        k += 1;
    }
    assert(lengths@ =~= spec_distribute_fill(kinds@, prior, available));
}

/// The weight of the fill entries among the first `n` entries of `kinds`, each entry
/// `Some(weight)` counting its weight.
pub open spec fn weight_upto(kinds: Seq<Option<u16>>, n: int) -> int
    decreases n,
{
    if n <= 0 {
        0
    } else {
        weight_upto(kinds, n - 1) + match kinds[n - 1] {
            Some(w) => w as int,
            None => 0int,
        }
    }
}

/// The total weight of the fill entries of `kinds`.
pub open spec fn total_fill_weight(kinds: Seq<Option<u16>>) -> int {
    weight_upto(kinds, kinds.len() as int)
}

/// The lengths of the fill entries among the first `n`, added up.
pub open spec fn fill_length_upto(kinds: Seq<Option<u16>>, lengths: Seq<u32>, n: int) -> int
    decreases n,
{
    if n <= 0 {
        0
    } else {
        fill_length_upto(kinds, lengths, n - 1) + if kinds[n - 1] is Some { lengths[n - 1] as int } else { 0int }
    }
}

proof fn lemma_weight_upto_nonneg(kinds: Seq<Option<u16>>, n: int)
    ensures
        0 <= weight_upto(kinds, n) <= u16::MAX * fill_rank(kinds, n),
        0 <= fill_rank(kinds, n),
    decreases n,
{
    if n > 0 {
        lemma_weight_upto_nonneg(kinds, n - 1);
    }
}

proof fn lemma_weight_upto_monotone(kinds: Seq<Option<u16>>, a: int, b: int)
    requires
        0 <= a <= b,
    ensures
        0 <= weight_upto(kinds, a) <= weight_upto(kinds, b),
    decreases b - a,
{
    if a < b {
        lemma_weight_upto_monotone(kinds, a, b - 1);
    } else {
        lemma_weight_upto_nonneg(kinds, a);
    }
}

proof fn lemma_total_fill_weight(kinds: Seq<Option<u16>>, k: int)
    requires
        0 <= k <= kinds.len(),
        total_fill_weight(kinds) <= u32::MAX,
    ensures
        sat_sum32(weights(kinds).take(k)) == weight_upto(kinds, k),
    decreases k,
{
    if k > 0 {
        assert(weights(kinds).take(k).drop_last() =~= weights(kinds).take(k - 1));
        lemma_total_fill_weight(kinds, k - 1);
        lemma_weight_upto_monotone(kinds, k, kinds.len() as int);
        lemma_weight_upto_monotone(kinds, k - 1, k);
    }
}

/// The rounded-down shares of the first `n` entries, added up.
pub open spec fn share_upto(kinds: Seq<Option<u16>>, free: int, n: int) -> int
    decreases n,
{
    if n <= 0 {
        0
    } else {
        share_upto(kinds, free, n - 1) + distributed_shares(kinds, free)[n - 1] as int
    }
}

/// Each rounded-down share is at most the exact one and less than a cell below it, so `n`
/// entries' shares add up to at most the exact total and to less than a cell per fill entry
/// below it.
proof fn lemma_share_upto_bounds(kinds: Seq<Option<u16>>, free: int, n: int)
    requires
        0 <= n <= kinds.len(),
        0 <= free <= u16::MAX,
        0 < total_fill_weight(kinds) <= u32::MAX,
    ensures
        ({
            let total = total_fill_weight(kinds);
            &&& 0 <= share_upto(kinds, free, n)
            &&& total * share_upto(kinds, free, n) <= free * weight_upto(kinds, n)
            &&& total * share_upto(kinds, free, n) + (total - 1) * fill_rank(kinds, n) >= free * weight_upto(kinds, n)
        }),
    decreases n,
{
    if n > 0 {
        lemma_share_upto_bounds(kinds, free, n - 1);
        lemma_total_fill_weight(kinds, kinds.len() as int);
        assert(weights(kinds).take(kinds.len() as int) =~= weights(kinds));
        let total = total_fill_weight(kinds);
        let p = share_upto(kinds, free, n - 1);
        let wp = weight_upto(kinds, n - 1);
        let c = fill_rank(kinds, n - 1);
        match kinds[n - 1] {
            Some(w) => {
                assert(weight_of(kinds[n - 1]) == w as u32);
                assert(0 <= free * w <= u16::MAX * u16::MAX) by (nonlinear_arith)
                    requires
                        0 <= free <= u16::MAX,
                        0 <= w <= u16::MAX,
                ;
                assert(sat_mul32(free, w as int) == free * w);
                let d = free * w / total;
                assert(0 <= d <= free * w) by (nonlinear_arith)
                    requires
                        0 <= free * w,
                        total >= 1,
                        d == free * w / total,
                ;
                assert(distributed_shares(kinds, free)[n - 1] as int == d);
                assert(total * d <= free * w && total * d + (total - 1) >= free * w) by (nonlinear_arith)
                    requires
                        total >= 1,
                        free * w >= 0,
                        d == free * w / total,
                ;
                assert(total * (p + d) == total * p + total * d) by (nonlinear_arith);
                assert(free * (wp + w) == free * wp + free * w) by (nonlinear_arith);
                assert((total - 1) * (c + 1) == (total - 1) * c + (total - 1)) by (nonlinear_arith);
            },
            None => {
                assert(distributed_shares(kinds, free)[n - 1] == 0);
            },
        }
    }
}

proof fn lemma_share_sum(kinds: Seq<Option<u16>>, free: int, k: int)
    requires
        0 <= k <= kinds.len(),
        forall|j: int| 0 <= j <= kinds.len() ==> #[trigger] share_upto(kinds, free, j) <= free,
        0 <= free <= u16::MAX,
        0 < total_fill_weight(kinds) <= u32::MAX,
    ensures
        sat_sum32(distributed_shares(kinds, free).take(k)) == share_upto(kinds, free, k),
    decreases k,
{
    if k > 0 {
        assert(distributed_shares(kinds, free).take(k).drop_last() =~= distributed_shares(kinds, free).take(k - 1));
        lemma_share_sum(kinds, free, k - 1);
        lemma_share_upto_bounds(kinds, free, k);
        lemma_share_upto_bounds(kinds, free, k - 1);
    }
}

/// Sharing free space among fill entries by weight (free space at most `u16::MAX` cells, total
/// weight positive and within `u32`): every other entry keeps its length; each fill entry of
/// weight `w` gets `free * w / total` cells, rounded down, plus at most one of the cells the
/// rounding leaves over, where `free` is what the lengths leave of `available` and `total` is
/// the weight of all fill entries; and together the fill entries take exactly the free space.
/// So two fill entries' lengths keep the ratio of their weights up to a cell.
pub proof fn law_distribute_fill_by_weight(kinds: Seq<Option<u16>>, lengths: Seq<u32>, available: u32)
    requires
        lengths.len() == kinds.len(),
        0 < total_fill_weight(kinds) <= u32::MAX,
        sat_sub(available as int, sat_sum32(lengths)) <= u16::MAX,
    ensures
        ({
            let r = spec_distribute_fill(kinds, lengths, available);
            let free = sat_sub(available as int, sat_sum32(lengths));
            let total = total_fill_weight(kinds);
            &&& r.len() == kinds.len()
            &&& forall|i: int| 0 <= i < kinds.len() && kinds[i] is None ==> #[trigger] r[i] == lengths[i]
            &&& forall|i: int| 0 <= i < kinds.len() && kinds[i] is Some
                ==> free * (kinds[i]->0) / total <= #[trigger] r[i] <= free * (kinds[i]->0) / total + 1
            &&& fill_length_upto(kinds, r, kinds.len() as int) == free
        }),
{
    lemma_total_fill_weight(kinds, kinds.len() as int);
    assert(weights(kinds).take(kinds.len() as int) =~= weights(kinds));
    let free = sat_sub(available as int, sat_sum32(lengths));
    let total = total_fill_weight(kinds);
    let n = kinds.len() as int;
    assert(free == fill_space_of(lengths, available));
    let r = spec_distribute_fill(kinds, lengths, available);
    assert forall|i: int| 0 <= i < kinds.len() && kinds[i] is Some
        implies free * (kinds[i]->0) / total <= #[trigger] r[i] <= free * (kinds[i]->0) / total + 1 by {
        let w = kinds[i]->0;
        assert(weight_of(kinds[i]) == w as u32);
        assert(0 <= free * w <= u16::MAX * u16::MAX) by (nonlinear_arith)
            requires
                0 <= free <= u16::MAX,
                0 <= w <= u16::MAX,
        ;
        assert(sat_mul32(free, w as int) == free * w);
        assert(0 <= free * w / total <= free * w) by (nonlinear_arith)
            requires
                0 <= free * w,
                total >= 1,
        ;
        assert(fill_share(kinds, free, i) == free * w / total);
    }
    // The rounded-down shares add up to at most the free space, and fall short of it by fewer
    // cells than there are fill entries.
    assert forall|j: int| 0 <= j <= kinds.len() implies #[trigger] share_upto(kinds, free, j) <= free by {
        lemma_share_upto_bounds(kinds, free, j);
        lemma_weight_upto_monotone(kinds, j, n);
        assert(share_upto(kinds, free, j) <= free) by (nonlinear_arith)
            requires
                total * share_upto(kinds, free, j) <= free * weight_upto(kinds, j),
                weight_upto(kinds, j) <= total,
                total >= 1,
                free >= 0,
        ;
    }
    lemma_share_upto_bounds(kinds, free, n);
    lemma_share_sum(kinds, free, n);
    assert(distributed_shares(kinds, free).take(n) =~= distributed_shares(kinds, free));
    let shares = share_upto(kinds, free, n);
    let fills = fill_rank(kinds, n);
    let rem = free - shares;
    lemma_weight_upto_nonneg(kinds, n);
    assert(fills >= 1);
    assert(total * (shares - free + fills) >= fills) by (nonlinear_arith)
        requires
            total * shares + (total - 1) * fills >= free * total,
    ;
    if shares - free + fills <= 0 {
        assert(total * (shares - free + fills) <= 0) by (nonlinear_arith)
            requires
                total >= 1,
                shares - free + fills <= 0,
        ;
    }
    assert(rem < fills);
    lemma_fill_lengths(kinds, lengths, available, n);
}

/// The fill entries among the first `k` take their rounded-down shares plus one cell each for
/// the first of them, as many as the cells the rounding left over.
proof fn lemma_fill_lengths(kinds: Seq<Option<u16>>, lengths: Seq<u32>, available: u32, k: int)
    requires
        lengths.len() == kinds.len(),
        0 <= k <= kinds.len(),
        0 < total_fill_weight(kinds) <= u32::MAX,
        sat_sub(available as int, sat_sum32(lengths)) <= u16::MAX,
        sat_sum32(weights(kinds)) == total_fill_weight(kinds),
        sat_sum32(distributed_shares(kinds, fill_space_of(lengths, available)))
            == share_upto(kinds, fill_space_of(lengths, available), kinds.len() as int),
        forall|j: int| 0 <= j <= kinds.len() ==> #[trigger] share_upto(kinds, fill_space_of(lengths, available), j)
            <= fill_space_of(lengths, available),
    ensures
        ({
            let free = fill_space_of(lengths, available);
            let rem = free - share_upto(kinds, free, kinds.len() as int);
            fill_length_upto(kinds, spec_distribute_fill(kinds, lengths, available), k)
                == share_upto(kinds, free, k) + min_of(rem, fill_rank(kinds, k))
        }),
    decreases k,
{
    if k > 0 {
        lemma_fill_lengths(kinds, lengths, available, k - 1);
        let free = fill_space_of(lengths, available);
        if kinds[k - 1] is Some {
            lemma_fill_share_bound(kinds, free, k - 1);
            lemma_share_upto_bounds(kinds, free, k);
            lemma_share_upto_bounds(kinds, free, k - 1);
        }
    }
}

pub open spec fn min_of(a: int, b: int) -> int {
    if a <= b { a } else { b }
}

pub proof fn lemma_fill_rank_monotone(kinds: Seq<Option<u16>>, a: int, b: int)
    requires
        a <= b,
    ensures
        fill_rank(kinds, a) <= fill_rank(kinds, b),
    decreases b - a,
{
    if a < b {
        lemma_fill_rank_monotone(kinds, a, b - 1);
    }
}


} // verus!
