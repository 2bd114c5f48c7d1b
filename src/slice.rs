//! Start/stop/step slice semantics: bounds are clamped, never rejected.

use crate::object::SliceArgs;
use vstd::arithmetic::div_mod::{lemma_fundamental_div_mod, lemma_mod_pos_bound};
use vstd::arithmetic::mul::lemma_mul_inequality;
use vstd::prelude::*;

verus! {

/// The step of a slice; an absent step is 1.
pub open spec fn step_of(a: SliceArgs) -> int {
    match a.step {
        Some(s) => s as int,
        None => 1,
    }
}

/// A given bound, wrapped once if negative and then clamped to the range a
/// walk in that direction may start or stop at.
pub open spec fn clamp_bound(len: int, v: int, forward: bool) -> int {
    if v < 0 {
        if v + len < 0 {
            if forward { 0 } else { -1 }
        } else {
            v + len
        }
    } else if v >= len {
        if forward { len } else { len - 1 }
    } else {
        v
    }
}

/// The first index a slice visits (when it visits any).
pub open spec fn slice_start(len: int, a: SliceArgs) -> int {
    match a.start {
        Some(v) => clamp_bound(len, v as int, step_of(a) > 0),
        None => if step_of(a) > 0 { 0 } else { len - 1 },
    }
}

/// The index at which a slice stops, exclusive.
pub open spec fn slice_stop(len: int, a: SliceArgs) -> int {
    match a.stop {
        Some(v) => clamp_bound(len, v as int, step_of(a) > 0),
        None => if step_of(a) > 0 { len } else { -1 },
    }
}

/// How many indices a slice visits.
pub open spec fn slice_len(len: int, a: SliceArgs) -> int {
    let b = slice_start(len, a);
    let e = slice_stop(len, a);
    let s = step_of(a);
    if s > 0 {
        if b < e { (e - b - 1) / s + 1 } else { 0 }
    } else {
        if e < b { (b - e - 1) / (-s) + 1 } else { 0 }
    }
}

/// The `k`-th index a slice visits.
pub open spec fn slice_index(len: int, a: SliceArgs, k: int) -> int {
    slice_start(len, a) + k * step_of(a)
}

/// `k` steps of a walk from the start have not yet reached the stop.
pub open spec fn before_stop(len: int, a: SliceArgs, k: int) -> bool {
    if step_of(a) > 0 {
        slice_index(len, a, k) < slice_stop(len, a)
    } else {
        slice_index(len, a, k) > slice_stop(len, a)
    }
}

/// The bytes a slice selects from `b`.
pub open spec fn sliced(b: Seq<u8>, a: SliceArgs) -> Seq<u8> {
    Seq::new(slice_len(b.len() as int, a) as nat, |k: int| b[slice_index(b.len() as int, a, k)])
}

pub(crate) proof fn lemma_steps_within(k: int, x: int, s: int)
    requires
        s > 0,
        x >= 0,
    ensures
        0 <= k <= x / s ==> k * s <= x,
        k >= 0 && k > x / s ==> k * s > x,
{
    lemma_fundamental_div_mod(x, s);
    lemma_mod_pos_bound(x, s);
    if 0 <= k <= x / s {
        lemma_mul_inequality(k, x / s, s);
        assert((x / s) * s == s * (x / s)) by (nonlinear_arith);
    }
    if k >= 0 && k > x / s {
        lemma_mul_inequality(x / s + 1, k, s);
        assert((x / s + 1) * s == s * (x / s) + s) by (nonlinear_arith);
    }
}

/// Every visit of a slice with a nonzero step lies inside the sequence, and
/// the visits counted by `slice_len` are exactly the steps that come before
/// the stop.
pub proof fn lemma_slice_visits(len: int, a: SliceArgs, k: int)
    requires
        len >= 0,
        step_of(a) != 0,
        k >= 0,
    ensures
        k < slice_len(len, a) ==> 0 <= slice_index(len, a, k) < len,
        k < slice_len(len, a) <==> before_stop(len, a, k),
{
    let b = slice_start(len, a);
    let e = slice_stop(len, a);
    let s = step_of(a);
    if s > 0 {
        assert(0 <= k * s) by (nonlinear_arith)
            requires k >= 0, s > 0;
        if b < e {
            lemma_steps_within(k, e - b - 1, s);
        }
    } else {
        assert(k * s == -(k * (-s))) by (nonlinear_arith);
        assert(0 <= k * (-s)) by (nonlinear_arith)
            requires k >= 0, s < 0;
        if e < b {
            lemma_steps_within(k, b - e - 1, -s);
        }
    }
}

} // verus!
