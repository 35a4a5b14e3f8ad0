//! Small facts about wrapping (modular) address arithmetic, shared by the
//! display-drawing proof and the memory-indirect instructions.

use vstd::prelude::*;
use vstd::arithmetic::div_mod::{
    lemma_add_mod_noop, lemma_add_mod_noop_right, lemma_small_mod, lemma_sub_mod_noop,
    lemma_sub_mod_noop_right,
};

verus! {

/// Stepping `b` places forward from `a` and wrapping at `m` lands at
/// offset `b` from `a`: `((a + b) % m - a) % m == b`.
pub proof fn lemma_wrap_offset(a: int, b: int, m: int)
    requires
        m > 0,
        0 <= a,
        0 <= b < m,
    ensures
        ((a + b) % m - a) % m == b,
{
    lemma_sub_mod_noop(a + b, a, m);
    lemma_sub_mod_noop_right((a + b) % m, a, m);
    lemma_small_mod(b as nat, m as nat);
}

/// A cell `t` in `[0, m)` lies at wrapped offset `b` from `a` exactly when
/// it is the cell reached by stepping `b` places forward from `a`.
pub proof fn lemma_wrap_unique(a: int, b: int, t: int, m: int)
    requires
        m > 0,
        0 <= a,
        0 <= b < m,
        0 <= t < m,
    ensures
        ((t - a) % m == b) <==> (t == (a + b) % m),
{
    lemma_wrap_offset(a, b, m);
    if (t - a) % m == b {
        lemma_add_mod_noop_right(a, t - a, m);
        lemma_small_mod(t as nat, m as nat);
        assert((a + ((t - a) % m)) % m == t);
    }
}

/// Adding a small step to an already-wrapped value wraps the same way as
/// adding it before wrapping: `((a % m) + k) % m == (a + k) % m`.
pub proof fn lemma_wrap_then_add(a: int, k: int, m: int)
    requires
        m > 0,
        0 <= a,
        0 <= k < m,
    ensures
        ((a % m) + k) % m == (a + k) % m,
{
    lemma_add_mod_noop(a, k, m);
    lemma_small_mod(k as nat, m as nat);
}

} // verus!
