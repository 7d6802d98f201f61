//! Integer square root: the Sobel edge magnitude is the floor of the square
//! root of the squared gradient sum, truncated to a byte.

use vstd::prelude::*;

verus! {

/// The floor of the square root of `n`.
pub open spec fn isqrt(n: nat) -> nat
    decreases n,
{
    if n == 0 {
        0
    } else {
        let r = isqrt((n - 1) as nat);
        if (r + 1) * (r + 1) <= n {
            r + 1
        } else {
            r
        }
    }
}

/// `isqrt(n)` is the unique natural `r` with `r * r <= n < (r + 1) * (r + 1)`.
pub proof fn lemma_isqrt_bounds(n: nat)
    ensures
        isqrt(n) * isqrt(n) <= n,
        n < (isqrt(n) + 1) * (isqrt(n) + 1),
    decreases n,
{
    if n == 0 {
        let i = isqrt(n);
        assert(i == 0);
        assert(n < (i + 1) * (i + 1)) by (nonlinear_arith)
            requires n == 0nat, i == 0nat,
        ;
    } else {
        let r = isqrt((n - 1) as nat);
        lemma_isqrt_bounds((n - 1) as nat);
        if (r + 1) * (r + 1) <= n {
            assert(isqrt(n) == r + 1);
            assert(n <= (r + 1) * (r + 1));
            assert(n < (r + 2) * (r + 2)) by (nonlinear_arith)
                requires n <= (r + 1) * (r + 1), r >= 0,
            ;
            assert(n < (isqrt(n) + 1) * (isqrt(n) + 1));
        } else {
            assert(isqrt(n) == r);
            assert(n < (isqrt(n) + 1) * (isqrt(n) + 1));
        }
    }
}

/// Any natural satisfying the square-root bounds equals `isqrt(n)`.
pub proof fn lemma_isqrt_unique(n: nat, r: nat)
    requires
        r * r <= n,
        n < (r + 1) * (r + 1),
    ensures
        r == isqrt(n),
{
    lemma_isqrt_bounds(n);
    let i = isqrt(n);
    if r < i {
        assert((r + 1) * (r + 1) <= i * i) by (nonlinear_arith)
            requires r + 1 <= i,
        ;
    }
    if i < r {
        assert((i + 1) * (i + 1) <= r * r) by (nonlinear_arith)
            requires i + 1 <= r,
        ;
    }
}

/// Computes the floor of the square root by counting up; the gradient sums
/// it is applied to are small, so the simple scan is enough.
pub fn isqrt_exec(n: u64) -> (r: u64)
    requires
        n <= 0xffff_ffff,
    ensures
        r as nat == isqrt(n as nat),
        r * r <= n,
{
    let mut r: u64 = 0;
    loop
        invariant
            n <= 0xffff_ffff,
            r * r <= n,
            r <= n,
            r <= 0xffff,
        ensures
            r * r <= n,
            n < (r + 1) * (r + 1),
        decreases n - r,
    {
        proof {
            assert((r + 1) * (r + 1) <= 0x1_0000 * 0x1_0000) by (nonlinear_arith)
                requires r <= 0xffffu64,
            ;
        }
        let s: u64 = (r + 1) * (r + 1);
        if s > n {
            break;
        }
        proof {
            assert(r + 1 <= n && r + 1 <= 0xffff) by (nonlinear_arith)
                requires (r + 1) * (r + 1) <= n, r >= 0, n <= 0xffff_ffffu64,
            ;
        }
        r = r + 1;
    }
    proof {
        lemma_isqrt_unique(n as nat, r as nat);
    }
    r
}

} // verus!
