//! Splitting a number of work items into groups of a fixed size.
use vstd::prelude::*;

verus! {

/// The number of groups of `b` items that hold `a` items: `a / b` rounded
/// up.
pub fn div_ceil(a: u32, b: u32) -> (r: u32)
    requires
        a > 0,
        b > 0,
    ensures
        r as int == (a as int + b as int - 1) / (b as int),
        (r as int - 1) * b < a <= r as int * b,
{
    let q = (a - 1) / b + 1;
    proof {
        let x = (a - 1) as int;
        let bi = b as int;
        assert((x / bi) * bi <= x < (x / bi + 1) * bi) by (nonlinear_arith)
            requires
                bi > 0,
                x >= 0,
        {
            vstd::arithmetic::div_mod::lemma_fundamental_div_mod(x, bi);
        }
        assert((x + bi) / bi == x / bi + 1) by {
            vstd::arithmetic::div_mod::lemma_div_plus_one(x, bi);
        }
    }
    q
}

} // verus!
