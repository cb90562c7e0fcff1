//! Binomial coefficients, computed exactly in integer arithmetic.
use vstd::prelude::*;

verus! {

/// The binomial coefficient, by Pascal's rule.
pub open spec fn binom(n: nat, k: nat) -> nat
    decreases n,
{
    if k == 0 {
        1
    } else if n == 0 {
        0
    } else {
        binom((n - 1) as nat, (k - 1) as nat) + binom((n - 1) as nat, k)
    }
}

/// `v` if it fits in a `u64`, else `u64::MAX`.
pub open spec fn saturate_u64(v: nat) -> nat {
    if v <= u64::MAX {
        v
    } else {
        u64::MAX as nat
    }
}

/// There is no way to choose more items than there are.
pub proof fn lemma_binom_above(n: nat, k: nat)
    requires
        k > n,
    ensures
        binom(n, k) == 0,
    decreases n,
{
    if n > 0 {
        lemma_binom_above((n - 1) as nat, (k - 1) as nat);
        lemma_binom_above((n - 1) as nat, k);
    }
}

/// There is one way to choose everything.
pub proof fn lemma_binom_all(n: nat)
    ensures
        binom(n, n) == 1,
    decreases n,
{
    if n > 0 {
        lemma_binom_all((n - 1) as nat);
        lemma_binom_above((n - 1) as nat, n);
    }
}

/// Choosing `k` items is choosing the `n - k` left out.
pub proof fn lemma_binom_symmetric(n: nat, k: nat)
    requires
        k <= n,
    ensures
        binom(n, k) == binom(n, (n - k) as nat),
    decreases n,
{
    if k == 0 {
        lemma_binom_all(n);
    } else if k == n {
        lemma_binom_all(n);
    } else {
        lemma_binom_symmetric((n - 1) as nat, (k - 1) as nat);
        lemma_binom_symmetric((n - 1) as nat, k);
        assert(binom(n, (n - k) as nat) == binom((n - 1) as nat, (n - k - 1) as nat) + binom(
            (n - 1) as nat,
            (n - k) as nat,
        ));
    }
}

/// The absorption identity `k * C(n, k) == n * C(n - 1, k - 1)`.
pub proof fn lemma_binom_absorb(n: nat, k: nat)
    requires
        n >= 1,
        k >= 1,
    ensures
        k * binom(n, k) == n * binom((n - 1) as nat, (k - 1) as nat),
    decreases n,
{
    if n == 1 {
        if k >= 2 {
            lemma_binom_above(0, (k - 1) as nat);
            lemma_binom_above(0, k);
            assert(k * 0 == 0) by (nonlinear_arith);
        }
    } else if k == 1 {
        lemma_binom_absorb((n - 1) as nat, 1);
        assert(binom((n - 2) as nat, 0) == 1);
        let prev = binom((n - 1) as nat, 1);
        let unit = binom((n - 2) as nat, 0);
        assert(prev == n - 1) by (nonlinear_arith)
            requires
                1 * prev == (n - 1) * unit,
                unit == 1,
        ;
        assert(binom(n, 1) == 1 + binom((n - 1) as nat, 1));
    } else {
        lemma_binom_absorb((n - 1) as nat, (k - 1) as nat);
        lemma_binom_absorb((n - 1) as nat, k);
        let a = binom((n - 2) as nat, (k - 2) as nat);
        let b = binom((n - 2) as nat, (k - 1) as nat);
        let c = binom((n - 1) as nat, (k - 1) as nat);
        let d = binom((n - 1) as nat, k);
        assert(c == a + b);
        assert(binom(n, k) == c + d);
        let kk = k as int;
        let nn = n as int;
        assert((kk - 1) * c == (nn - 1) * a);
        assert(kk * d == (nn - 1) * b);
        assert(kk * (c + d) == nn * c) by (nonlinear_arith)
            requires
                c == a + b,
                (kk - 1) * c == (nn - 1) * a,
                kk * d == (nn - 1) * b,
        ;
    }
}

/// Along a diagonal of Pascal's triangle the coefficients grow:
/// `C(m + i, i) <= C(m + j, j)` for `i <= j`.
pub proof fn lemma_binom_diagonal_grows(m: nat, i: nat, j: nat)
    requires
        i <= j,
    ensures
        binom(m + i, i) <= binom(m + j, j),
    decreases j - i,
{
    if i < j {
        lemma_binom_diagonal_grows(m, i, (j - 1) as nat);
        assert(binom(m + j, j) == binom((m + j - 1) as nat, (j - 1) as nat) + binom(
            (m + j - 1) as nat,
            j,
        ));
        assert((m + j - 1) as nat == m + (j - 1) as nat);
    }
}

/// `C(n, k)`, the number of ways to choose `k` of `n` items. The value is
/// exact; where it exceeds `u64::MAX`, `u64::MAX` is returned.
pub fn nchoosek(n: u64, k: u64) -> (r: u64)
    requires
        k <= n,
    ensures
        r as nat == saturate_u64(binom(n as nat, k as nat)),
{
    let small: u64 = if k <= n - k {
        k
    } else {
        n - k
    };
    let m: u64 = n - small;
    proof {
        lemma_binom_symmetric(n as nat, k as nat);
        assert(binom(n as nat, k as nat) == binom((m + small) as nat, small as nat));
    }
    let mut r: u128 = 1;
    let mut i: u64 = 0;
    while i < small
        invariant
            i <= small,
            m + small == n,
            binom(n as nat, k as nat) == binom((m + small) as nat, small as nat),
            r as nat == binom((m + i) as nat, i as nat),
            r <= u64::MAX,
        decreases small - i,
    {
        i = i + 1;
        let top: u128 = (m + i) as u128;
        proof {
            lemma_binom_absorb((m + i) as nat, i as nat);
            let b = binom((m + i) as nat, i as nat);
            let prev = binom((m + i - 1) as nat, (i - 1) as nat);
            let ii = i as int;
            assert(r == prev);
            assert(r * top == ii * b) by (nonlinear_arith)
                requires
                    r == prev,
                    top == m + ii,
                    ii * b == (m + ii) * prev,
            ;
            assert(r * top <= u64::MAX as int * u64::MAX as int) by (nonlinear_arith)
                requires
                    r <= u64::MAX,
                    top <= u64::MAX,
            ;
        }
        let prod: u128 = r * top;
        r = prod / (i as u128);
        proof {
            let b = binom((m + i) as nat, i as nat);
            let ii = i as int;
            assert(r == b) by (nonlinear_arith)
                requires
                    prod == ii * b,
                    ii > 0,
                    r as int == prod as int / ii,
            ;
        }
        if r > u64::MAX as u128 {
            proof {
                lemma_binom_diagonal_grows(m as nat, i as nat, small as nat);
            }
            return u64::MAX;
        }
    }
    r as u64
}

} // verus!
