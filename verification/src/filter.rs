//! The integer structure of the order-`n` differentiating filter: the shape
//! of its controllable-canonical state-space realization and the binomial
//! weights of its denominator `(1 + T s)^n`.

use crate::binom::binom;
use crate::binom::binom_u32;
use crate::binom::lemma_binom_le_central;
use crate::binom::lemma_binom_n_n;
use vstd::prelude::*;

verus! {

/// The shape of a state-space model `(A, B, C, D)`: `A` is
/// `nstates x nstates`, `B` is `nstates x ninputs`, `C` is
/// `noutputs x nstates` and `D` is `noutputs x ninputs`.
pub struct SsShape {
    pub nstates: usize,
    pub ninputs: usize,
    pub noutputs: usize,
}

/// Shape of the realization of the order-`order` differentiator: one state
/// per order, a single input, and one output per derivative-chain state plus
/// the final filtered-derivative row.
pub fn diff_filter_shape(order: u32) -> (s: SsShape)
    requires
        order + 1 <= usize::MAX,
    ensures
        s.nstates == order,
        s.ninputs == 1,
        s.noutputs == order + 1,
{
    SsShape { nstates: order as usize, ninputs: 1, noutputs: order as usize + 1 }
}

/// The integer weights of the denominator of the differentiator's transfer
/// function, `(1 + T s)^order` expanded in ascending powers of `s`: entry
/// `k` is `C(order, k)`, the factor of `T^k` in the `k`-th coefficient.
/// Both edge weights are 1, so the leading denominator coefficient is
/// `T^order` and the constant one is 1.
pub fn diff_filter_denom_coeffs(order: u32) -> (v: Vec<u32>)
    requires
        binom(order as nat, (order / 2) as nat) <= u32::MAX,
    ensures
        v@.len() == order + 1,
        forall|j: int| 0 <= j <= order ==> v@[j] == binom(order as nat, j as nat),
        v@[0] == 1,
        v@[order as int] == 1,
{
    let mut v: Vec<u32> = Vec::new();
    let mut k: u64 = 0;
    while k <= order as u64
        invariant
            k <= order + 1,
            v@.len() == k,
            binom(order as nat, (order / 2) as nat) <= u32::MAX,
            forall|j: int| 0 <= j < k ==> v@[j] == binom(order as nat, j as nat),
        decreases order + 1 - k,
    {
        proof {
            lemma_binom_le_central(order as nat, k as nat);
        }
        v.push(binom_u32(order, k as u32));
        k = k + 1;
    }
    proof {
        lemma_binom_n_n(order as nat);
    }
    v
}

} // verus!
