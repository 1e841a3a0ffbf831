//! Propensities under the law of mass action.
//!
//! A reaction with rate constant `k` and reactant multiplicities `s` fires, in
//! state `x`, with propensity `k · Π_i x_i·(x_i − 1)·…·(x_i − s_i + 1)`.  The
//! product is an integer and is evaluated exactly here; scaling it by `k`
//! is left to the caller, who owns the real-valued arithmetic.

use vstd::prelude::*;

verus! {

/// The falling factorial `n·(n − 1)·…·(n − r + 1)`, with `r` factors.
pub open spec fn falling_factorial(n: int, r: nat) -> int
    decreases r,
{
    if r == 0 {
        1
    } else {
        falling_factorial(n, (r - 1) as nat) * (n - (r - 1))
    }
}

/// Number of species that both a state `x` and a multiplicity vector `s` speak of.
pub open spec fn shared_len(x: Seq<i64>, s: Seq<u64>) -> nat {
    if x.len() <= s.len() {
        x.len()
    } else {
        s.len()
    }
}

/// Some species holds fewer molecules than the reaction consumes.
pub open spec fn exhausted(x: Seq<i64>, s: Seq<u64>) -> bool {
    exists|i: int| 0 <= i < shared_len(x, s) && x[i] < s[i]
}

/// Product of the falling factorials of the first `n` species.
pub open spec fn factor_product(x: Seq<i64>, s: Seq<u64>, n: nat) -> int
    decreases n,
{
    if n == 0 {
        1
    } else {
        factor_product(x, s, (n - 1) as nat) * falling_factorial(
            x[n - 1] as int,
            s[n - 1] as nat,
        )
    }
}

/// The integer part of a mass-action propensity: the number of ordered ways
/// to pick the reactants out of state `x`, and `0` once a reactant is exhausted.
pub open spec fn combinations(x: Seq<i64>, s: Seq<u64>) -> int {
    if exhausted(x, s) {
        0
    } else {
        factor_product(x, s, shared_len(x, s))
    }
}

/// With at least `r` molecules at hand every factor is positive.
pub proof fn lemma_falling_factorial_positive(n: int, r: nat)
    requires
        n >= r,
    ensures
        falling_factorial(n, r) >= 1,
    decreases r,
{
    if r > 0 {
        lemma_falling_factorial_positive(n, (r - 1) as nat);
        let p = falling_factorial(n, (r - 1) as nat);
        let f = n - (r - 1);
        assert(p * f >= 1) by (nonlinear_arith)
            requires
                p >= 1,
                f >= 1,
        ;
    }
}

/// With fewer than `r` molecules, and none owed, one factor is zero.
pub proof fn lemma_falling_factorial_vanishes(n: int, r: nat)
    requires
        0 <= n < r,
    ensures
        falling_factorial(n, r) == 0,
    decreases r,
{
    let p = falling_factorial(n, (r - 1) as nat);
    if n == r - 1 {
        assert(p * 0 == 0) by (nonlinear_arith);
    } else {
        lemma_falling_factorial_vanishes(n, (r - 1) as nat);
        assert(0 * (n - (r - 1)) == 0) by (nonlinear_arith);
    }
}

/// Taking one more factor never lowers a falling factorial whose factors are positive.
pub proof fn lemma_falling_factorial_grows(n: int, q: nat, r: nat)
    requires
        q <= r <= n,
    ensures
        1 <= falling_factorial(n, q) <= falling_factorial(n, r),
    decreases r - q,
{
    lemma_falling_factorial_positive(n, q);
    if q < r {
        lemma_falling_factorial_grows(n, q, (r - 1) as nat);
        let p = falling_factorial(n, (r - 1) as nat);
        let f = n - (r - 1);
        assert(p * f >= p) by (nonlinear_arith)
            requires
                p >= 1,
                f >= 1,
        ;
    }
}

/// Where no species among the first `m` is exhausted, the partial products
/// are positive and never decrease.
pub proof fn lemma_factor_product_grows(x: Seq<i64>, s: Seq<u64>, n: nat, m: nat)
    requires
        n <= m <= shared_len(x, s),
        forall|i: int| 0 <= i < m ==> x[i] >= s[i],
    ensures
        1 <= factor_product(x, s, n) <= factor_product(x, s, m),
    decreases m,
{
    if m == 0 {
    } else if n == m {
        lemma_factor_product_grows(x, s, (m - 1) as nat, (m - 1) as nat);
        lemma_falling_factorial_positive(x[m - 1] as int, s[m - 1] as nat);
        let p = factor_product(x, s, (m - 1) as nat);
        let f = falling_factorial(x[m - 1] as int, s[m - 1] as nat);
        assert(p * f >= 1) by (nonlinear_arith)
            requires
                p >= 1,
                f >= 1,
        ;
    } else {
        lemma_factor_product_grows(x, s, n, (m - 1) as nat);
        lemma_falling_factorial_positive(x[m - 1] as int, s[m - 1] as nat);
        let p = factor_product(x, s, (m - 1) as nat);
        let f = falling_factorial(x[m - 1] as int, s[m - 1] as nat);
        assert(p * f >= p) by (nonlinear_arith)
            requires
                p >= 1,
                f >= 1,
        ;
    }
}

/// A propensity is never negative, whatever the state.
pub proof fn lemma_combinations_nonnegative(x: Seq<i64>, s: Seq<u64>)
    ensures
        combinations(x, s) >= 0,
{
    if !exhausted(x, s) {
        lemma_factor_product_grows(x, s, shared_len(x, s), shared_len(x, s));
    }
}

/// A reaction short of a reactant has propensity zero, and only such a reaction has.
pub proof fn lemma_combinations_zero_iff_exhausted(x: Seq<i64>, s: Seq<u64>)
    ensures
        combinations(x, s) == 0 <==> exhausted(x, s),
{
    if !exhausted(x, s) {
        lemma_factor_product_grows(x, s, shared_len(x, s), shared_len(x, s));
    }
}

/// On states without negative counts the guard against exhausted reactants
/// agrees with the bare product of falling factorials.
pub proof fn lemma_combinations_is_product(x: Seq<i64>, s: Seq<u64>)
    requires
        forall|i: int| 0 <= i < x.len() ==> x[i] >= 0,
    ensures
        combinations(x, s) == factor_product(x, s, shared_len(x, s)),
{
    if exhausted(x, s) {
        let i = choose|i: int| 0 <= i < shared_len(x, s) && x[i] < s[i];
        lemma_factor_product_vanishes(x, s, shared_len(x, s), i);
    }
}

/// One vanishing factor makes every later partial product vanish.
proof fn lemma_factor_product_vanishes(x: Seq<i64>, s: Seq<u64>, n: nat, i: int)
    requires
        0 <= i < n,
        0 <= x[i] < s[i],
    ensures
        factor_product(x, s, n) == 0,
    decreases n,
{
    let p = factor_product(x, s, (n - 1) as nat);
    let f = falling_factorial(x[n - 1] as int, s[n - 1] as nat);
    if i == n - 1 {
        lemma_falling_factorial_vanishes(x[i] as int, s[i] as nat);
        assert(p * 0 == 0) by (nonlinear_arith);
    } else {
        lemma_factor_product_vanishes(x, s, (n - 1) as nat, i);
        assert(0 * f == 0) by (nonlinear_arith);
    }
}

/// How the propensity of a reaction depends on the state.
pub enum Rate<K> {
    /// Law of mass action: a rate constant and, for each species, how many
    /// molecules of it one firing consumes.
    LMA(K, Vec<u64>),
}

impl<K> Rate<K> {
    /// The rate constant.
    pub open spec fn constant(&self) -> K {
        match self {
            Rate::LMA(k, _) => *k,
        }
    }

    /// The reactant multiplicities, by species index.
    pub open spec fn reactants(&self) -> Seq<u64> {
        match self {
            Rate::LMA(_, s) => s@,
        }
    }

    /// A mass-action rate with constant `rate` and multiplicities `reactants`.
    pub fn lma(rate: K, reactants: Vec<u64>) -> (r: Self)
        ensures
            r == Rate::LMA(rate, reactants),
    {
        Rate::LMA(rate, reactants)
    }

    /// The rate constant.
    pub fn rate_constant(&self) -> (k: &K)
        ensures
            *k == self.constant(),
    {
        match self {
            Rate::LMA(k, _) => k,
        }
    }

    /// The reactant multiplicities, by species index.
    pub fn stoichiometry(&self) -> (s: &Vec<u64>)
        ensures
            s@ == self.reactants(),
    {
        match self {
            Rate::LMA(_, s) => s,
        }
    }

    /// Evaluates the integer part of the propensity in state `x`.
    ///
    /// The factors are multiplied as signed 64-bit integers.  `None` says that
    /// the product is too large for that width; the propensity is then to be
    /// saturated by the caller.
    pub fn combinations(&self, x: &Vec<i64>) -> (c: Option<i64>)
        ensures
            match c {
                Some(p) => p == combinations(x@, self.reactants()),
                None => combinations(x@, self.reactants()) > i64::MAX,
            },
    {
        let s = self.stoichiometry();
        let n: usize = if x.len() <= s.len() {
            x.len()
        } else {
            s.len()
        };
        let mut i: usize = 0;
        while i < n
            invariant
                i <= n,
                n == shared_len(x@, s@),
                s@ == self.reactants(),
                forall|k: int| 0 <= k < i ==> x@[k] >= s@[k],
            decreases n - i,
        {
            if x[i] < 0 || (x[i] as u64) < s[i] {
                assert(0 <= i < shared_len(x@, s@) && x@[i as int] < s@[i as int]);
                return Some(0);
            }
            i += 1;
        }
        assert(!exhausted(x@, s@));
        let mut acc: i64 = 1;
        let mut i: usize = 0;
        while i < n
            invariant
                i <= n,
                n == shared_len(x@, s@),
                s@ == self.reactants(),
                forall|k: int| 0 <= k < n ==> x@[k] >= s@[k],
                acc == factor_product(x@, s@, i as nat),
                acc >= 1,
            decreases n - i,
        {
            let xi: i64 = x[i];
            let si: u64 = s[i];
            let mut j: u64 = 0;
            while j < si
                invariant
                    i < n,
                    n == shared_len(x@, s@),
                    s@ == self.reactants(),
                s@ == self.reactants(),
                    forall|k: int| 0 <= k < n ==> x@[k] >= s@[k],
                    xi == x@[i as int],
                    si == s@[i as int],
                    j <= si,
                    acc == factor_product(x@, s@, i as nat) * falling_factorial(
                        xi as int,
                        j as nat,
                    ),
                    acc >= 1,
                decreases si - j,
            {
                let factor: i64 = xi - (j as i64);
                proof {
                    lemma_partial_product_bounded(x@, s@, i as nat, (j + 1) as nat);
                    assert(factor_product(x@, s@, i as nat) * falling_factorial(
                        xi as int,
                        (j + 1) as nat,
                    ) == acc * factor) by {
                        let p = factor_product(x@, s@, i as nat);
                        let q = falling_factorial(xi as int, j as nat);
                        assert(falling_factorial(xi as int, (j + 1) as nat) == q * (xi - j));
                        assert(p * (q * (xi - j)) == (p * q) * (xi - j)) by (nonlinear_arith);
                    }
                    assert(acc * factor >= 1) by (nonlinear_arith)
                        requires
                            acc >= 1,
                            factor >= 1,
                    ;
                }
                match acc.checked_mul(factor) {
                    Some(v) => {
                        acc = v;
                    },
                    None => {
                        assert(!exhausted(x@, s@));
                        return None;
                    },
                }
                j += 1;
            }
            i += 1;
        }
        Some(acc)
    }
}

/// A product cut short inside species `i` does not exceed the whole product.
proof fn lemma_partial_product_bounded(x: Seq<i64>, s: Seq<u64>, i: nat, j: nat)
    requires
        i < shared_len(x, s),
        j <= s[i as int],
        forall|k: int| 0 <= k < shared_len(x, s) ==> x[k] >= s[k],
    ensures
        factor_product(x, s, i) * falling_factorial(x[i as int] as int, j) <= factor_product(
            x,
            s,
            shared_len(x, s),
        ),
{
    let n = shared_len(x, s);
    let p = factor_product(x, s, i);
    let q = falling_factorial(x[i as int] as int, j);
    let r = falling_factorial(x[i as int] as int, s[i as int] as nat);
    lemma_factor_product_grows(x, s, i, i);
    lemma_falling_factorial_grows(x[i as int] as int, j, s[i as int] as nat);
    assert(p * q <= p * r) by (nonlinear_arith)
        requires
            p >= 1,
            q <= r,
    ;
    assert(factor_product(x, s, i + 1) == p * r);
    lemma_factor_product_grows(x, s, i + 1, n);
}

} // verus!
