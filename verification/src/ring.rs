//! Going round in a ring.
use vstd::arithmetic::div_mod::*;
use vstd::prelude::*;

verus! {

/// The position that is `delta` steps from `at` in a ring of `n`.
pub fn wrap(at: usize, delta: isize, n: usize) -> (r: usize)
    requires
        at < n,
    ensures
        r == (at + delta) % (n as int),
        r < n,
{
    let size: i128 = n as i128;
    let to: i128 = at as i128 + delta as i128;
    let r: i128 = if to >= 0 {
        to % size
    } else {
        let back: i128 = (-to) % size;
        if back == 0 {
            0
        } else {
            size - back
        }
    };
    proof {
        let t = at + delta;
        if to < 0 {
            let back = (-t) % (n as int);
            let q = (-t) / (n as int);
            lemma_fundamental_div_mod(-t, n as int);
            assert(-t == n * q + back);
            if back == 0 {
                assert(t == (-q) * n + 0) by (nonlinear_arith)
                    requires
                        -t == n * q + back,
                        back == 0,
                ;
                lemma_fundamental_div_mod_converse(t, n as int, -q, 0);
            } else {
                assert(t == (-q - 1) * n + (n - back)) by (nonlinear_arith)
                    requires
                        -t == n * q + back,
                ;
                lemma_fundamental_div_mod_converse(t, n as int, -q - 1, n - back);
            }
        }
    }
    r as usize
}

} // verus!
