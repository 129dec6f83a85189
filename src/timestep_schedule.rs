//! How a macro-step of duration `dt` is divided into substeps.
//!
//! A scheduler hands out, for each substep, the share of `dt` that the substep
//! receives as an exact fraction `weight / total`. The caller multiplies its
//! own duration by that fraction; the shares of all substeps sum to one.
use vstd::arithmetic::power2::{lemma2_to64, lemma_pow2_unfold, lemma_pow2_strictly_increases, pow2};
use vstd::bits::{lemma_u64_pow2_no_overflow, lemma_u64_shl_is_mul};
use vstd::prelude::*;

verus! {

/// Sum of the first `n` weights of a schedule described by `w`.
pub open spec fn weight_sum(w: spec_fn(nat) -> nat, n: nat) -> nat
    decreases n,
{
    if n == 0 {
        0
    } else {
        weight_sum(w, (n - 1) as nat) + w((n - 1) as nat)
    }
}

/// A division of a macro-step into substeps, each with a share `weight / total`.
pub trait TimestepScheduler {
    /// Number of substeps.
    spec fn substep_count(&self) -> nat;

    /// Weight of substep `i`.
    spec fn weight_spec(&self, i: nat) -> nat;

    /// Denominator shared by all substeps.
    spec fn total_spec(&self) -> nat;

    /// The share of substep `i` as `(weight, total)`.
    fn get(&self, i: usize) -> (r: (u64, u64))
        requires
            i < self.substep_count(),
        ensures
            r.0 == self.weight_spec(i as nat),
            r.1 == self.total_spec(),
    ;
}

/// Every substep receives the same share `1 / substeps`.
pub struct UniformSchedule {
    substeps: usize,
}

impl UniformSchedule {
    pub closed spec fn substeps_spec(&self) -> nat {
        self.substeps as nat
    }

    pub fn new(substeps: usize) -> (r: Self)
        ensures
            r.substeps_spec() == substeps,
    {
        Self { substeps }
    }
}

impl TimestepScheduler for UniformSchedule {
    open spec fn substep_count(&self) -> nat {
        self.substeps_spec()
    }

    open spec fn weight_spec(&self, i: nat) -> nat {
        1
    }

    open spec fn total_spec(&self) -> nat {
        self.substeps_spec()
    }

    fn get(&self, i: usize) -> (r: (u64, u64)) {
        (1, self.substeps as u64)
    }
}

/// Substep `i` receives the share `2^i / (2^substeps - 1)`: each substep lasts
/// twice as long as the one before it, so early corrections are small.
pub struct ExpSchedule {
    substeps: usize,
}

impl ExpSchedule {
    pub closed spec fn substeps_spec(&self) -> nat {
        self.substeps as nat
    }

    /// The total `2^substeps - 1` must fit in a `u64`.
    #[verifier::type_invariant]
    spec fn well_formed(&self) -> bool {
        self.substeps < 64
    }

    pub fn new(substeps: usize) -> (r: Self)
        requires
            substeps < 64,
        ensures
            r.substeps_spec() == substeps,
    {
        Self { substeps }
    }
}

impl TimestepScheduler for ExpSchedule {
    open spec fn substep_count(&self) -> nat {
        self.substeps_spec()
    }

    open spec fn weight_spec(&self, i: nat) -> nat {
        pow2(i)
    }

    open spec fn total_spec(&self) -> nat {
        (pow2(self.substeps_spec()) - 1) as nat
    }

    fn get(&self, i: usize) -> (r: (u64, u64)) {
        proof {
            use_type_invariant(self);
            lemma_u64_pow2_no_overflow(i as nat);
            lemma_u64_pow2_no_overflow(self.substeps as nat);
            lemma_u64_shl_is_mul(1, i as u64);
            lemma_u64_shl_is_mul(1, self.substeps as u64);
            lemma_pow2_strictly_increases(0, self.substeps as nat);
        }
        let w = 1u64 << (i as u64);
        let t = 1u64 << (self.substeps as u64);
        (w, t - 1)
    }
}

/// Adding up `n` weights of one gives `n`.
proof fn lemma_weight_sum_ones(w: spec_fn(nat) -> nat, n: nat)
    requires
        forall|i: nat| #[trigger] w(i) == 1,
    ensures
        weight_sum(w, n) == n,
    decreases n,
{
    if n > 0 {
        lemma_weight_sum_ones(w, (n - 1) as nat);
    }
}

/// Adding up the powers of two below `2^n` gives `2^n - 1`.
proof fn lemma_weight_sum_pow2(w: spec_fn(nat) -> nat, n: nat)
    requires
        forall|i: nat| #[trigger] w(i) == pow2(i),
    ensures
        weight_sum(w, n) + 1 == pow2(n),
    decreases n,
{
    if n == 0 {
        lemma2_to64();
    } else {
        lemma_weight_sum_pow2(w, (n - 1) as nat);
        lemma_pow2_unfold(n);
    }
}

/// The substeps of a uniform schedule together last exactly one macro-step.
pub proof fn lemma_uniform_shares_sum_to_one(s: UniformSchedule)
    ensures
        weight_sum(|i: nat| s.weight_spec(i), s.substep_count()) == s.total_spec(),
{
    lemma_weight_sum_ones(|i: nat| s.weight_spec(i), s.substep_count());
}

/// The substeps of an exponential schedule together last exactly one
/// macro-step, and each substep lasts twice as long as the one before it.
pub proof fn lemma_exp_shares_sum_to_one(s: ExpSchedule)
    ensures
        weight_sum(|i: nat| s.weight_spec(i), s.substep_count()) == s.total_spec(),
        forall|i: nat| #[trigger] s.weight_spec(i + 1) == 2 * s.weight_spec(i),
{
    lemma_weight_sum_pow2(|i: nat| s.weight_spec(i), s.substep_count());
    assert forall|i: nat| #[trigger] s.weight_spec(i + 1) == 2 * s.weight_spec(i) by {
        lemma_pow2_unfold(i + 1);
    }
}

} // verus!
