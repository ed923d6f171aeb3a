//! Splitting an ordered batch into contiguous, balanced groups, one per
//! worker.
//!
//! The groups are contiguous slices of the input in order; concatenating
//! them reproduces the input exactly, and no two group sizes differ by more
//! than one.

use vstd::prelude::*;
use vstd::arithmetic::div_mod::lemma_fundamental_div_mod;
use vstd::arithmetic::mul::lemma_mul_inequality;
use vstd::arithmetic::mul::lemma_mul_is_distributive_add_other_way;

verus! {

/// Number of items in group `g` when `len` items are split into `n` groups:
/// the first `len % n` groups take one extra item.
pub open spec fn group_size(len: int, n: int, g: int) -> int {
    if g < len % n {
        len / n + 1
    } else {
        len / n
    }
}

/// Index of the first item of group `g`: every earlier group contributes
/// `len / n` items, and the first `min(g, len % n)` of them one more.
pub open spec fn group_start(len: int, n: int, g: int) -> int {
    g * (len / n) + (if g <= len % n {
        g
    } else {
        len % n
    })
}

/// The boundaries of consecutive groups meet, and every group lies within
/// the batch.
proof fn lemma_group_bounds(len: int, n: int, g: int)
    requires
        0 < n,
        0 <= len,
        0 <= g < n,
    ensures
        group_start(len, n, g) + group_size(len, n, g) == group_start(len, n, g + 1),
        0 <= group_start(len, n, g),
        group_start(len, n, g + 1) <= len,
        0 <= group_size(len, n, g),
        group_start(len, n, n) == len,
{
    let q = len / n;
    let m = len % n;
    lemma_fundamental_div_mod(len, n);
    assert(len == n * q + m);
    lemma_mul_is_distributive_add_other_way(q, g, 1);
    assert((g + 1) * q == g * q + q);
    lemma_mul_inequality(g + 1, n, q);
    assert((g + 1) * q <= n * q);
    lemma_mul_inequality(0, g, q);
    lemma_mul_is_distributive_add_other_way(q, n, 0);
    assert(n * q == q * n) by (nonlinear_arith);
    assert(group_start(len, n, n) == n * q + m);
}

/// Splits `items` into `n` contiguous groups in order. Group `g` is exactly
/// the slice of the input from `group_start(.., g)` to `group_start(.., g + 1)`,
/// so the groups are disjoint, keep the input order, and together cover the
/// whole batch; sizes differ by at most one.
pub fn partition<T>(items: Vec<T>, n: usize) -> (r: Vec<Vec<T>>)
    requires
        n >= 1,
    ensures
        r@.len() == n as int,
        forall|g: int|
            0 <= g < n ==> (#[trigger] r@[g])@ == items@.subrange(
                group_start(items@.len() as int, n as int, g),
                group_start(items@.len() as int, n as int, g + 1),
            ),
        forall|g: int|
            0 <= g < n ==> (#[trigger] r@[g])@.len() == group_size(
                items@.len() as int,
                n as int,
                g,
            ),
{
    let ghost orig = items@;
    let ghost len_i = items@.len() as int;
    let ghost n_i = n as int;
    let len = items.len();
    let q = len / n;
    let m = len % n;
    let mut rest = items;
    let mut groups: Vec<Vec<T>> = Vec::new();
    let mut g: usize = 0;
    while g < n
        invariant
            1 <= n,
            g <= n,
            len_i == orig.len(),
            len_i <= usize::MAX as int,
            n_i == n as int,
            q == len_i / n_i,
            m == len_i % n_i,
            groups@.len() == g as int,
            rest@ == orig.subrange(group_start(len_i, n_i, g as int), len_i),
            forall|i: int|
                0 <= i < g ==> (#[trigger] groups@[i])@ == orig.subrange(
                    group_start(len_i, n_i, i),
                    group_start(len_i, n_i, i + 1),
                ),
        decreases n - g,
    {
        proof {
            lemma_group_bounds(len_i, n_i, g as int);
        }
        let take = if g < m {
            proof {
                // m >= 1 forces n >= 2, so q <= len / 2 < usize::MAX.
                assert(n_i >= 2);
                assert(q <= len_i / 2) by {
                    vstd::arithmetic::div_mod::lemma_div_is_ordered_by_denominator(len_i, 2, n_i);
                };
            }
            q + 1
        } else {
            q
        };
        assert(take as int == group_size(len_i, n_i, g as int));
        assert(take <= rest.len());
        let tail = rest.split_off(take);
        proof {
            let s = group_start(len_i, n_i, g as int);
            let e = group_start(len_i, n_i, g as int + 1);
            assert(rest@ =~= orig.subrange(s, e));
            assert(tail@ =~= orig.subrange(e, len_i));
        }
        groups.push(rest);
        rest = tail;
        g = g + 1;
    }
    proof {
        assert forall|gi: int| 0 <= gi < n implies (#[trigger] groups@[gi])@.len() == group_size(
            len_i,
            n_i,
            gi,
        ) by {
            lemma_group_bounds(len_i, n_i, gi);
        }
    }
    groups
}

/// Partition completeness: when each group is the contiguous slice between
/// consecutive group boundaries, concatenating the groups in index order
/// reproduces the original sequence exactly, and any two group sizes differ
/// by at most one.
pub proof fn lemma_partition_complete<T>(groups: Seq<Seq<T>>, orig: Seq<T>, n: int)
    requires
        n >= 1,
        groups.len() == n,
        forall|g: int|
            0 <= g < n ==> #[trigger] groups[g] == orig.subrange(
                group_start(orig.len() as int, n, g),
                group_start(orig.len() as int, n, g + 1),
            ),
    ensures
        groups.flatten() == orig,
        forall|g1: int, g2: int|
            0 <= g1 < n && 0 <= g2 < n ==> #[trigger] groups[g1].len() - #[trigger] groups[
                g2
            ].len() <= 1,
{
    let len = orig.len() as int;
    lemma_flatten_suffix(groups, orig, n, 0);
    assert(groups.skip(0) =~= groups);
    assert(orig.subrange(group_start(len, n, 0), len) =~= orig);
    assert forall|g1: int, g2: int| 0 <= g1 < n && 0 <= g2 < n implies #[trigger] groups[
        g1
    ].len() - #[trigger] groups[g2].len() <= 1 by {
        lemma_group_bounds(len, n, g1);
        lemma_group_bounds(len, n, g2);
        assert(groups[g1].len() == group_size(len, n, g1));
        assert(groups[g2].len() == group_size(len, n, g2));
    }
}

/// The groups from index `k` on flatten to the tail of the original sequence
/// that starts at group `k`'s boundary.
proof fn lemma_flatten_suffix<T>(groups: Seq<Seq<T>>, orig: Seq<T>, n: int, k: int)
    requires
        n >= 1,
        0 <= k <= n,
        groups.len() == n,
        forall|g: int|
            0 <= g < n ==> #[trigger] groups[g] == orig.subrange(
                group_start(orig.len() as int, n, g),
                group_start(orig.len() as int, n, g + 1),
            ),
    ensures
        groups.skip(k).flatten() == orig.subrange(group_start(orig.len() as int, n, k), orig.len() as int),
    decreases n - k,
{
    let len = orig.len() as int;
    if k == n {
        assert(groups.skip(k) =~= Seq::<Seq<T>>::empty());
        lemma_group_bounds(len, n, n - 1);
        assert(orig.subrange(group_start(len, n, n), len) =~= Seq::<T>::empty());
    } else {
        lemma_group_bounds(len, n, k);
        lemma_flatten_suffix(groups, orig, n, k + 1);
        let tail = groups.skip(k);
        assert(tail.len() > 0);
        assert(tail.drop_first() =~= groups.skip(k + 1));
        assert(tail.first() == groups[k]);
        assert(tail.flatten() == tail.first() + tail.drop_first().flatten());
        assert(orig.subrange(group_start(len, n, k), len) =~= orig.subrange(
            group_start(len, n, k),
            group_start(len, n, k + 1),
        ) + orig.subrange(group_start(len, n, k + 1), len));
    }
}

} // verus!
