//! Dense 2-D voting grid over (angle, offset) bins.
//!
//! The grid holds one non-negative vote total per cell, indexed
//! `theta_bin * rho_bins + rho_bin`.  Voting adds a weight to one cell;
//! the dominant cell is found by a scan in strictly increasing flat
//! index order with a strict "greater than" test, so among equally
//! maximal cells the one with the lowest flat index wins.  Totals are
//! exact integers, so merging partial grids cell by cell commutes with
//! voting — the property that makes split accumulation sound.

use vstd::prelude::*;
use vstd::arithmetic::div_mod::lemma_fundamental_div_mod;
use vstd::arithmetic::mul::lemma_mul_strictly_positive;
use vstd::arithmetic::div_mod::lemma_multiply_divide_lt;
use vstd::arithmetic::mul::lemma_mul_is_commutative;
use crate::quantize::{quantize_sym, quantize_unit, spec_sym_bin, spec_unit_bin, MAX_BINS};

verus! {

/// A flat cell index `d` is the deterministic dominant cell of `s`:
/// no cell beats it, and every earlier cell is strictly below it.
pub open spec fn spec_is_first_max(s: Seq<u128>, d: int) -> bool {
    &&& 0 <= d < s.len()
    &&& forall|j: int| 0 <= j < s.len() ==> s[j] <= s[d]
    &&& forall|j: int| 0 <= j < d ==> s[j] < s[d]
}

/// The flat index of the first maximal cell, as a function: the scan
/// order is increasing flat index, and only a strictly greater total
/// moves the choice.
pub open spec fn spec_first_max_idx(s: Seq<u128>) -> int
    decreases s.len(),
{
    if s.len() <= 1 {
        0
    } else {
        let p = spec_first_max_idx(s.drop_last());
        if s.last() > s[p] {
            s.len() - 1
        } else {
            p
        }
    }
}

/// `spec_first_max_idx` indeed names the first maximum.
pub proof fn lemma_first_max_idx_ok(s: Seq<u128>)
    requires
        s.len() > 0,
    ensures
        spec_is_first_max(s, spec_first_max_idx(s)),
    decreases s.len(),
{
    if s.len() > 1 {
        lemma_first_max_idx_ok(s.drop_last());
        let p = spec_first_max_idx(s.drop_last());
        assert(forall|j: int| 0 <= j < s.len() - 1 ==> s[j] == s.drop_last()[j]);
    }
}

/// At most one index is the first maximum.
pub proof fn lemma_first_max_unique(s: Seq<u128>, d1: int, d2: int)
    requires
        spec_is_first_max(s, d1),
        spec_is_first_max(s, d2),
    ensures
        d1 == d2,
{
    if d1 < d2 {
        assert(s[d1] < s[d2]);
        assert(s[d2] <= s[d1]);
    }
    if d2 < d1 {
        assert(s[d2] < s[d1]);
        assert(s[d1] <= s[d2]);
    }
}

/// Tie-break rule: whenever two distinct cells both carry the maximal
/// total, the selected dominant cell is no later than the earlier of
/// them — the lower flat scan index wins the tie.
pub proof fn lemma_dominant_tie_break(s: Seq<u128>, d: int, i: int, j: int)
    requires
        spec_is_first_max(s, d),
        0 <= i < j < s.len(),
        s[i] == s[j],
        forall|k: int| 0 <= k < s.len() ==> s[k] <= s[i],
    ensures
        d <= i,
        s[d] == s[i],
{
    if i < d {
        assert(s[i] < s[d]);
        assert(s[d] <= s[i]);
    }
    assert(s[i] <= s[d]);
    assert(s[d] <= s[i]);
}

/// Sum of the weights, among `votes` (cell index, weight), that target
/// `cell`.  This is the reference semantics of the accumulator: after
/// applying a vote sequence to a zero grid, each cell holds exactly
/// this total.
pub open spec fn spec_votes_total(votes: Seq<(int, u64)>, cell: int) -> nat
    decreases votes.len(),
{
    if votes.len() == 0 {
        0
    } else {
        spec_votes_total(votes.drop_last(), cell) + if votes.last().0 == cell {
            votes.last().1 as nat
        } else {
            0nat
        }
    }
}

/// Accumulator additivity: splitting a vote sequence anywhere, totaling
/// the two parts independently, and adding the partial totals cell by
/// cell gives the same grid as totaling the whole sequence at once.
/// This is what lets disjoint pixel ranges accumulate in private grids
/// that are then merged by elementwise addition.
pub proof fn lemma_votes_total_additive(v1: Seq<(int, u64)>, v2: Seq<(int, u64)>, cell: int)
    ensures
        spec_votes_total(v1 + v2, cell) == spec_votes_total(v1, cell) + spec_votes_total(
            v2,
            cell,
        ),
    decreases v2.len(),
{
    if v2.len() == 0 {
        assert(v1 + v2 =~= v1);
    } else {
        lemma_votes_total_additive(v1, v2.drop_last(), cell);
        assert((v1 + v2).drop_last() =~= v1 + v2.drop_last());
        assert((v1 + v2).last() == v2.last());
    }
}

/// A vote sequence of length `n` can contribute at most `n * (2^64-1)`
/// to any cell.
pub proof fn lemma_votes_total_bound(votes: Seq<(int, u64)>, cell: int)
    ensures
        spec_votes_total(votes, cell) <= votes.len() * 0xffff_ffff_ffff_ffff,
    decreases votes.len(),
{
    if votes.len() > 0 {
        lemma_votes_total_bound(votes.drop_last(), cell);
    }
}

/// Dense grid of `theta_bins * rho_bins` exact vote totals.
pub struct HoughAccumulator {
    theta_bins: usize,
    rho_bins: usize,
    data: Vec<u128>,
}

impl HoughAccumulator {
    /// Number of angle bins.
    pub closed spec fn spec_theta_bins(&self) -> nat {
        self.theta_bins as nat
    }

    /// Number of offset bins.
    pub closed spec fn spec_rho_bins(&self) -> nat {
        self.rho_bins as nat
    }

    /// The flat grid contents, theta-major.
    pub closed spec fn grid(&self) -> Seq<u128> {
        self.data@
    }

    /// Grid shape is consistent and within the accepted bin limits.
    pub open spec fn wf(&self) -> bool {
        &&& 1 <= self.spec_theta_bins() <= MAX_BINS
        &&& 1 <= self.spec_rho_bins() <= MAX_BINS
        &&& self.grid().len() == self.spec_theta_bins() * self.spec_rho_bins()
    }

    /// Total in cell `(t, r)`.
    pub open spec fn spec_get(&self, t: int, r: int) -> u128 {
        self.grid()[t * self.spec_rho_bins() + r]
    }

    /// Allocates a zero-initialized grid of `theta_bins * rho_bins`
    /// cells.
    pub fn new(theta_bins: usize, rho_bins: usize) -> (r: Self)
        requires
            1 <= theta_bins <= MAX_BINS,
            1 <= rho_bins <= MAX_BINS,
            theta_bins * rho_bins <= usize::MAX,
        ensures
            r.wf(),
            r.spec_theta_bins() == theta_bins,
            r.spec_rho_bins() == rho_bins,
            r.grid() == Seq::new((theta_bins * rho_bins) as nat, |i: int| 0u128),
    {
        let n = theta_bins * rho_bins;
        let mut data: Vec<u128> = Vec::new();
        let mut i: usize = 0;
        while i < n
            invariant
                i <= n,
                data@ =~= Seq::new(i as nat, |j: int| 0u128),
            decreases n - i,
        {
            data.push(0);
            i = i + 1;
        }
        proof {
            assert(data@ =~= Seq::new(n as nat, |i: int| 0u128));
        }
        Self { theta_bins, rho_bins, data }
    }

    /// Number of angle bins.
    pub fn theta_bins(&self) -> (r: usize)
        ensures
            r == self.spec_theta_bins(),
    {
        self.theta_bins
    }

    /// Number of offset bins.
    pub fn rho_bins(&self) -> (r: usize)
        ensures
            r == self.spec_rho_bins(),
    {
        self.rho_bins
    }

    /// Adds `weight` to the already quantized cell `(t, r)`.
    pub fn vote_at(&mut self, t: usize, r: usize, weight: u64)
        requires
            old(self).wf(),
            t < old(self).spec_theta_bins(),
            r < old(self).spec_rho_bins(),
            old(self).spec_get(t as int, r as int) + weight <= u128::MAX,
        ensures
            final(self).wf(),
            final(self).spec_theta_bins() == old(self).spec_theta_bins(),
            final(self).spec_rho_bins() == old(self).spec_rho_bins(),
            final(self).grid() == old(self).grid().update(
                t * old(self).spec_rho_bins() + r,
                (old(self).spec_get(t as int, r as int) + weight) as u128,
            ),
    {
        let n = self.data.len();
        proof {
            lemma_flat_index_in_range(
                t as int,
                r as int,
                self.spec_theta_bins() as int,
                self.spec_rho_bins() as int,
            );
            assert(t * self.spec_rho_bins() + r < n);
        }
        let idx = t * self.rho_bins + r;
        let cur = self.data[idx];
        self.data.set(idx, cur + weight as u128);
    }

    /// One weighted vote, as in the voting pass: quantizes a
    /// normalized angle in `[0, 1)` by `floor(theta * theta_bins)` and
    /// an offset in `[-1, 1]` by `floor(((rho + 1) / 2) * rho_bins)`,
    /// clamps each into its bin range, and adds `weight` to that cell.
    /// The arguments are single-precision bit patterns.
    pub fn vote(&mut self, theta_norm_bits: u32, rho_norm_bits: u32, weight: u64)
        requires
            old(self).wf(),
            old(self).spec_get(
                spec_unit_bin(theta_norm_bits, old(self).spec_theta_bins()) as int,
                spec_sym_bin(
                    rho_norm_bits,
                    old(self).spec_rho_bins(),
                    (old(self).spec_rho_bins() - 1) as nat,
                ) as int,
            ) + weight <= u128::MAX,
        ensures
            final(self).wf(),
            final(self).spec_theta_bins() == old(self).spec_theta_bins(),
            final(self).spec_rho_bins() == old(self).spec_rho_bins(),
            final(self).grid() == old(self).grid().update(
                (spec_unit_bin(theta_norm_bits, old(self).spec_theta_bins()) * old(
                    self,
                ).spec_rho_bins() + spec_sym_bin(
                    rho_norm_bits,
                    old(self).spec_rho_bins(),
                    (old(self).spec_rho_bins() - 1) as nat,
                )) as int,
                (old(self).spec_get(
                    spec_unit_bin(theta_norm_bits, old(self).spec_theta_bins()) as int,
                    spec_sym_bin(
                        rho_norm_bits,
                        old(self).spec_rho_bins(),
                        (old(self).spec_rho_bins() - 1) as nat,
                    ) as int,
                ) + weight) as u128,
            ),
    {
        let t = quantize_unit(theta_norm_bits, self.theta_bins);
        let r = quantize_sym(rho_norm_bits, self.rho_bins, self.rho_bins - 1);
        self.vote_at(t, r, weight);
    }

    /// Total in cell `(t, r)`.
    pub fn get(&self, t: usize, r: usize) -> (v: u128)
        requires
            self.wf(),
            t < self.spec_theta_bins(),
            r < self.spec_rho_bins(),
        ensures
            v == self.spec_get(t as int, r as int),
    {
        let n = self.data.len();
        proof {
            lemma_flat_index_in_range(
                t as int,
                r as int,
                self.spec_theta_bins() as int,
                self.spec_rho_bins() as int,
            );
            assert(t * self.spec_rho_bins() + r < n);
        }
        self.data[t * self.rho_bins + r]
    }

    /// Deterministic dominant cell: scans all cells in increasing flat
    /// index order and keeps the first cell that carries the maximal
    /// total, so equal totals are broken toward the lower flat index.
    /// An all-zero grid yields `(0, 0)`.
    pub fn dominant_bin(&self) -> (r: (usize, usize))
        requires
            self.wf(),
        ensures
            r.0 < self.spec_theta_bins(),
            r.1 < self.spec_rho_bins(),
            spec_is_first_max(self.grid(), r.0 * self.spec_rho_bins() + r.1),
    {
        proof {
            lemma_mul_strictly_positive(self.spec_theta_bins() as int, self.spec_rho_bins() as int);
        }
        let n = self.data.len();
        let mut best: usize = 0;
        let mut best_val: u128 = self.data[0];
        let mut i: usize = 1;
        while i < n
            invariant
                1 <= i <= n,
                n == self.grid().len(),
                best < i,
                best_val == self.grid()[best as int],
                forall|j: int| 0 <= j < i ==> self.grid()[j] <= best_val,
                forall|j: int| 0 <= j < best ==> self.grid()[j] < best_val,
            decreases n - i,
        {
            let v = self.data[i];
            if v > best_val {
                best = i;
                best_val = v;
            }
            i = i + 1;
        }
        let t = best / self.rho_bins;
        let r = best % self.rho_bins;
        proof {
            lemma_fundamental_div_mod(best as int, self.rho_bins as int);
            assert((self.rho_bins as int) * ((best as int) / (self.rho_bins as int))
                == ((best as int) / (self.rho_bins as int)) * (self.rho_bins as int))
                by (nonlinear_arith);
            assert(best < self.spec_rho_bins() * self.spec_theta_bins()) by {
                lemma_mul_is_commutative(
                    self.spec_theta_bins() as int,
                    self.spec_rho_bins() as int,
                );
            }
            lemma_multiply_divide_lt(
                best as int,
                self.spec_rho_bins() as int,
                self.spec_theta_bins() as int,
            );
            assert((t as int) * (self.spec_rho_bins() as int) + r == best);
        }
        (t, r)
    }
}

/// With `t < tb` and `r < rb`, the flat index `t * rb + r` stays below
/// `tb * rb`.
pub proof fn lemma_flat_index_in_range(t: int, r: int, tb: int, rb: int)
    requires
        0 <= t < tb,
        0 <= r < rb,
    ensures
        0 <= t * rb + r < tb * rb,
{
    assert(t * rb + r < tb * rb) by (nonlinear_arith)
        requires
            0 <= t < tb,
            0 <= r < rb;
}

} // verus!
