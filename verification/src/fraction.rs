//! The tolerated fraction of substitution mismatches, kept as an exact ratio,
//! and the mismatch budget it grants to a pattern of a given length.

use vstd::arithmetic::div_mod::{
    lemma_div_is_ordered,
    lemma_div_multiples_vanish,
    lemma_fundamental_div_mod,
    lemma_fundamental_div_mod_converse,
    lemma_mod_bound,
};
use vstd::prelude::*;

verus! {

/// Largest number of mismatching positions tolerated for a pattern of `len`
/// characters when the tolerated fraction is `numerator / denominator`:
/// `len * numerator / denominator` rounded to the nearest integer, an exact
/// half being rounded up.
pub open spec fn mismatch_budget(len: nat, numerator: nat, denominator: nat) -> nat
    recommends
        denominator > 0,
{
    ((2 * len * numerator + denominator) / (2 * denominator)) as nat
}

/// The mathematical value of a [`MismatchFraction`].
pub struct Ratio {
    pub numerator: nat,
    pub denominator: nat,
}

impl Ratio {
    /// The ratio denotes a number in `[0, 1]`.
    pub open spec fn in_unit_interval(self) -> bool {
        0 < self.denominator && self.numerator <= self.denominator
    }

    /// `self <= other` as rational numbers (both denominators positive).
    pub open spec fn at_most(self, other: Ratio) -> bool {
        self.numerator * other.denominator <= other.numerator * self.denominator
    }

    /// The budget this ratio grants to a pattern of `len` characters.
    pub open spec fn budget(self, len: nat) -> nat {
        mismatch_budget(len, self.numerator, self.denominator)
    }
}

/// A fraction in `[0, 1]`, held as `numerator / denominator`.
#[derive(Clone, Copy, Debug)]
pub struct MismatchFraction {
    numerator: u64,
    denominator: u64,
}

impl View for MismatchFraction {
    type V = Ratio;

    closed spec fn view(&self) -> Ratio {
        Ratio { numerator: self.numerator as nat, denominator: self.denominator as nat }
    }
}

impl Default for MismatchFraction {
    /// The fraction zero: unless told otherwise, only exact occurrences
    /// match.
    fn default() -> (fraction: MismatchFraction)
        ensures
            fraction@ == (Ratio { numerator: 0, denominator: 1 }),
    {
        MismatchFraction::zero()
    }
}

impl MismatchFraction {
    #[verifier::type_invariant]
    spec fn well_formed(self) -> bool {
        0 < self.denominator && self.numerator <= self.denominator
    }

    /// The fraction `numerator / denominator`, provided it lies in `[0, 1]`;
    /// `None` for a zero denominator or a ratio above one.
    pub fn new(numerator: u64, denominator: u64) -> (fraction: Option<MismatchFraction>)
        ensures
            fraction is Some <==> 0 < denominator && numerator <= denominator,
            fraction matches Some(f) ==> f@ == (Ratio {
                numerator: numerator as nat,
                denominator: denominator as nat,
            }),
    {
        if denominator == 0 || numerator > denominator {
            None
        } else {
            Some(MismatchFraction { numerator, denominator })
        }
    }

    /// The fraction zero, under which only exact occurrences match.
    pub fn zero() -> (fraction: MismatchFraction)
        ensures
            fraction@ == (Ratio { numerator: 0, denominator: 1 }),
    {
        MismatchFraction { numerator: 0, denominator: 1 }
    }

    /// The numerator of the ratio.
    pub fn numerator(&self) -> (n: u64)
        ensures
            n == self@.numerator,
    {
        self.numerator
    }

    /// The denominator of the ratio; never zero.
    pub fn denominator(&self) -> (d: u64)
        ensures
            d == self@.denominator,
            d > 0,
            self@.in_unit_interval(),
    {
        proof {
            use_type_invariant(self);
        }
        self.denominator
    }

    /// The mismatch budget for a pattern of `len` characters.
    pub fn budget(&self, len: usize) -> (allowed: usize)
        ensures
            allowed == self@.budget(len as nat),
            allowed <= len,
    {
        proof {
            use_type_invariant(self);
        }
        let den: u128 = self.denominator as u128;
        assert((len as u128) * (self.numerator as u128) < u128::MAX) by (nonlinear_arith)
            requires
                len <= u64::MAX,
                self.numerator <= u64::MAX,
        ;
        let scaled: u128 = (len as u128) * (self.numerator as u128);
        let whole: u128 = scaled / den;
        let rest: u128 = scaled % den;
        assert(whole <= scaled) by (nonlinear_arith)
            requires
                whole == scaled / den,
                den > 0,
        ;
        let rounded: u128 = if 2 * rest >= den {
            whole + 1
        } else {
            whole
        };
        proof {
            lemma_budget_by_remainder(
                len as nat,
                self.numerator as nat,
                self.denominator as nat,
            );
            lemma_budget_within_length(
                len as nat,
                self.numerator as nat,
                self.denominator as nat,
            );
        }
        rounded as usize
    }
}

/// Rounding half up can be read off the quotient and remainder of
/// `len * numerator` by `denominator`.
proof fn lemma_budget_by_remainder(len: nat, numerator: nat, denominator: nat)
    requires
        denominator > 0,
    ensures
        mismatch_budget(len, numerator, denominator) == (len * numerator) / denominator + (if 2
            * ((len * numerator) % denominator) >= denominator {
            1nat
        } else {
            0nat
        }),
{
    let x = (len * numerator) as int;
    let d = denominator as int;
    let q = x / d;
    let r = x % d;
    lemma_fundamental_div_mod(x, d);
    lemma_mod_bound(x, d);
    assert(2 * len * numerator == 2 * x) by (nonlinear_arith)
        requires
            x == len * numerator,
    ;
    if 2 * r >= d {
        assert(2 * x + d == (q + 1) * (2 * d) + (2 * r - d)) by (nonlinear_arith)
            requires
                x == d * q + r,
        ;
        lemma_fundamental_div_mod_converse(2 * x + d, 2 * d, q + 1, 2 * r - d);
    } else {
        assert(2 * x + d == q * (2 * d) + (2 * r + d)) by (nonlinear_arith)
            requires
                x == d * q + r,
        ;
        lemma_fundamental_div_mod_converse(2 * x + d, 2 * d, q, 2 * r + d);
    }
}

/// A fraction of at most one never grants more mismatches than the pattern
/// has characters.
pub proof fn lemma_budget_within_length(len: nat, numerator: nat, denominator: nat)
    requires
        denominator > 0,
        numerator <= denominator,
    ensures
        mismatch_budget(len, numerator, denominator) <= len,
{
    let top = (2 * len * numerator + denominator) as int;
    let d2 = (2 * denominator) as int;
    assert(top < (len + 1) * d2) by (nonlinear_arith)
        requires
            top == 2 * len * numerator + denominator,
            d2 == 2 * denominator,
            numerator <= denominator,
            denominator > 0,
    ;
    lemma_fundamental_div_mod(top, d2);
    lemma_mod_bound(top, d2);
    assert(top / d2 < len + 1) by (nonlinear_arith)
        requires
            top == d2 * (top / d2) + top % d2,
            0 <= top % d2,
            top < (len + 1) * d2,
            d2 > 0,
    ;
}

/// A fraction of zero grants no mismatch at all, whatever the length.
pub proof fn lemma_zero_fraction_grants_nothing(len: nat, denominator: nat)
    requires
        denominator > 0,
    ensures
        mismatch_budget(len, 0, denominator) == 0,
{
    assert(2 * len * 0 == 0) by (nonlinear_arith);
    lemma_fundamental_div_mod_converse(
        denominator as int,
        2 * denominator as int,
        0,
        denominator as int,
    );
}

/// The budget never shrinks when the fraction grows: a ratio that is at most
/// another grants no more mismatches than the other, at every length.
pub proof fn lemma_budget_monotonic(len: nat, smaller: Ratio, larger: Ratio)
    requires
        smaller.denominator > 0,
        larger.denominator > 0,
        smaller.at_most(larger),
    ensures
        smaller.budget(len) <= larger.budget(len),
{
    let d1 = smaller.denominator as int;
    let d2 = larger.denominator as int;
    let k = smaller.budget(len) as int;
    let top1 = (2 * len * smaller.numerator + d1) as int;
    let top2 = (2 * len * larger.numerator + d2) as int;
    lemma_fundamental_div_mod(top1, 2 * d1);
    lemma_mod_bound(top1, 2 * d1);
    assert((2 * d2) * k <= top2) by (nonlinear_arith)
        requires
            (2 * d1) * k <= top1,
            top1 == 2 * len * smaller.numerator + d1,
            top2 == 2 * len * larger.numerator + d2,
            smaller.numerator * d2 <= larger.numerator * d1,
            d1 > 0,
            d2 > 0,
            k >= 0,
    ;
    lemma_div_is_ordered((2 * d2) * k, top2, 2 * d2);
    lemma_div_multiples_vanish(k, 2 * d2);
    assert((2 * d2) * k == k * (2 * d2)) by (nonlinear_arith);
}

} // verus!
