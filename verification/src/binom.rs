//! Binomial coefficients: a recursive specification by Pascal's rule, the
//! algebraic lemmas the rest of the crate builds on, and an executable
//! computation by a symmetric, multiply-then-divide ascending product.

use vstd::prelude::*;

verus! {

/// `C(n, k)`, the number of `k`-element subsets of an `n`-element set,
/// defined by Pascal's rule. `C(n, k) == 0` whenever `k > n`.
pub open spec fn binom(n: nat, k: nat) -> nat
    decreases n,
{
    if k == 0 {
        1
    } else if k > n {
        0
    } else {
        binom((n - 1) as nat, (k - 1) as nat) + binom((n - 1) as nat, k)
    }
}

/// The right edge of Pascal's triangle: `C(n, n) == 1`.
pub proof fn lemma_binom_n_n(n: nat)
    ensures
        binom(n, n) == 1,
    decreases n,
{
    if n > 0 {
        lemma_binom_n_n((n - 1) as nat);
        assert(binom((n - 1) as nat, n) == 0);
    }
}

/// `C(n, 1) == n`.
pub proof fn lemma_binom_n_1(n: nat)
    ensures
        binom(n, 1) == n,
    decreases n,
{
    if n > 0 {
        lemma_binom_n_1((n - 1) as nat);
        assert(binom((n - 1) as nat, 0) == 1);
        assert(binom(n, 1) == binom((n - 1) as nat, 0) + binom((n - 1) as nat, 1));
    }
}

/// Symmetry of the binomial coefficient: `C(n, k) == C(n, n - k)` for `k <= n`.
pub proof fn lemma_binom_symmetry(n: nat, k: nat)
    requires
        k <= n,
    ensures
        binom(n, k) == binom(n, (n - k) as nat),
    decreases n,
{
    if k == 0 || k == n {
        lemma_binom_n_n(n);
    } else {
        lemma_binom_symmetry((n - 1) as nat, (k - 1) as nat);
        lemma_binom_symmetry((n - 1) as nat, k);
        assert(binom(n, k) == binom((n - 1) as nat, (k - 1) as nat) + binom((n - 1) as nat, k));
        assert(binom(n, (n - k) as nat) == binom((n - 1) as nat, (n - k - 1) as nat) + binom(
            (n - 1) as nat,
            (n - k) as nat,
        ));
    }
}

/// The absorption identity `k * C(n, k) == n * C(n - 1, k - 1)`, the exact
/// step behind computing `C(n, k)` as an ascending product of quotients.
pub proof fn lemma_binom_absorption(n: nat, k: nat)
    requires
        1 <= k <= n,
    ensures
        k * binom(n, k) == n * binom((n - 1) as nat, (k - 1) as nat),
    decreases n,
{
    if k == n {
        lemma_binom_n_n(n);
        lemma_binom_n_n((n - 1) as nat);
        assert(k * binom(n, k) == k) by (nonlinear_arith)
            requires
                binom(n, k) == 1,
        ;
        assert(n * binom((n - 1) as nat, (k - 1) as nat) == n) by (nonlinear_arith)
            requires
                binom((n - 1) as nat, (k - 1) as nat) == 1,
        ;
    } else if k == 1 {
        lemma_binom_n_1(n);
        assert(binom((n - 1) as nat, 0) == 1);
        assert(k * binom(n, k) == n * binom((n - 1) as nat, (k - 1) as nat)) by (nonlinear_arith)
            requires
                k == 1,
                binom(n, k) == n,
                binom((n - 1) as nat, (k - 1) as nat) == 1,
        ;
    } else {
        let n1: nat = (n - 1) as nat;
        let n2: nat = (n - 2) as nat;
        let k1: nat = (k - 1) as nat;
        let k2: nat = (k - 2) as nat;
        lemma_binom_absorption(n1, k);
        lemma_binom_absorption(n1, k1);
        assert(binom(n, k) == binom(n1, k1) + binom(n1, k));
        assert(binom(n1, k1) == binom(n2, k2) + binom(n2, k1));
        assert(k * binom(n, k) == k * binom(n1, k1) + k * binom(n1, k)) by (nonlinear_arith)
            requires
                binom(n, k) == binom(n1, k1) + binom(n1, k),
        ;
        assert(k * binom(n1, k1) == binom(n1, k1) + k1 * binom(n1, k1)) by (nonlinear_arith)
            requires
                k == k1 + 1,
        ;
        assert(k1 * binom(n1, k1) + k * binom(n1, k) == n1 * binom(n2, k2) + n1 * binom(n2, k1));
        assert(n1 * binom(n2, k2) + n1 * binom(n2, k1) == n1 * binom(n1, k1)) by (nonlinear_arith)
            requires
                binom(n1, k1) == binom(n2, k2) + binom(n2, k1),
        ;
        assert(binom(n1, k1) + n1 * binom(n1, k1) == n * binom(n1, k1)) by (nonlinear_arith)
            requires
                n == n1 + 1,
        ;
    }
}

/// Rows of Pascal's triangle grow pointwise: `C(a, k) <= C(b, k)` for `a <= b`.
pub proof fn lemma_binom_row_mono(a: nat, b: nat, k: nat)
    requires
        a <= b,
    ensures
        binom(a, k) <= binom(b, k),
    decreases b - a,
{
    if a < b {
        lemma_binom_row_mono(a, (b - 1) as nat, k);
        if 0 < k <= b {
            assert(binom(b, k) == binom((b - 1) as nat, (k - 1) as nat) + binom((b - 1) as nat, k));
        }
    }
}

/// Within one row, coefficients grow towards the middle:
/// `C(n, i) <= C(n, j)` for `i <= j <= n / 2`.
pub proof fn lemma_binom_col_mono(n: nat, i: nat, j: nat)
    requires
        i <= j,
        2 * j <= n,
    ensures
        binom(n, i) <= binom(n, j),
    decreases j - i,
{
    if i < j {
        let j1: nat = (j - 1) as nat;
        lemma_binom_col_mono(n, i, j1);
        // j * C(n, j) == (n - j + 1) * C(n, j - 1), by absorption and symmetry.
        lemma_binom_absorption(n, j);
        lemma_binom_symmetry(n, j1);
        lemma_binom_absorption(n, (n - j1) as nat);
        lemma_binom_symmetry((n - 1) as nat, j1);
        assert(j * binom(n, j) == (n - j1) * binom(n, j1));
        assert(binom(n, j1) <= binom(n, j)) by (nonlinear_arith)
            requires
                j * binom(n, j) == (n - j1) * binom(n, j1),
                1 <= j,
                j <= n - j1,
        ;
    }
}

/// Every coefficient of a row is at most the central one:
/// `C(n, k) <= C(n, n / 2)` for `k <= n`.
pub proof fn lemma_binom_le_central(n: nat, k: nat)
    requires
        k <= n,
    ensures
        binom(n, k) <= binom(n, n / 2),
{
    if 2 * k <= n {
        lemma_binom_col_mono(n, k, n / 2);
    } else {
        lemma_binom_symmetry(n, k);
        lemma_binom_col_mono(n, (n - k) as nat, n / 2);
    }
}

/// `C(n, k)` by the numerically stable route: reduce `k` to `min(k, n - k)`
/// through symmetry, then build the ascending product `C(n - m + i, i)` for
/// `i = 1..=m`, dividing at every step so each intermediate value is itself a
/// binomial coefficient and never exceeds the final result.
pub fn binom_u32(n: u32, k: u32) -> (r: u32)
    requires
        k <= n,
        binom(n as nat, k as nat) <= u32::MAX,
    ensures
        r == binom(n as nat, k as nat),
{
    let m: u32 = if k < n - k {
        k
    } else {
        n - k
    };
    proof {
        if m != k {
            lemma_binom_symmetry(n as nat, k as nat);
        }
    }
    let mut c: u64 = 1;
    let mut i: u32 = 0;
    while i < m
        invariant
            i <= m,
            2 * m <= n,
            binom(n as nat, m as nat) == binom(n as nat, k as nat),
            binom(n as nat, k as nat) <= u32::MAX,
            c == binom((n - m + i) as nat, i as nat),
        decreases m - i,
    {
        let a: u32 = n - m + i + 1;
        proof {
            let b0: nat = binom((a - 1) as nat, i as nat);
            let b1: nat = binom(a as nat, (i + 1) as nat);
            // (i + 1) * C(a, i + 1) == a * C(a - 1, i): the product stays exact.
            lemma_binom_absorption(a as nat, (i + 1) as nat);
            // Both C(a - 1, i) and C(a, i + 1) are bounded by C(n, m).
            lemma_binom_row_mono((a - 1) as nat, n as nat, i as nat);
            lemma_binom_col_mono(n as nat, i as nat, m as nat);
            lemma_binom_row_mono(a as nat, n as nat, (i + 1) as nat);
            lemma_binom_col_mono(n as nat, (i + 1) as nat, m as nat);
            assert(c * a <= u64::MAX) by (nonlinear_arith)
                requires
                    c <= u32::MAX,
                    a <= u32::MAX,
            ;
            assert(c * a == (i + 1) * b1) by (nonlinear_arith)
                requires
                    c == b0,
                    (i + 1) * b1 == a * b0,
            ;
            vstd::arithmetic::div_mod::lemma_div_multiples_vanish(b1 as int, (i + 1) as int);
            assert((c * a) / ((i + 1) as int) == b1);
        }
        c = (c * (a as u64)) / ((i + 1) as u64);
        i = i + 1;
    }
    c as u32
}

} // verus!
