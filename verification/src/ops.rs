//! Edit-script operations and the tie-breaking minimum selector.

use vstd::prelude::*;

verus! {

/// A bare edit step, also used as the direction recorded in the cost grid:
/// `Del` consumes one element of the left sequence, `Ins` one element of the
/// right sequence, `Nop` one element of each (a diagonal match).
#[derive(Clone, Copy, PartialEq, Eq, Structural, Debug)]
pub enum BareOp {
    Del,
    Ins,
    Nop,
}

/// One operation of an edit script.  `Nop(n)` is a coalesced run of `n >= 1`
/// consecutive steps that surface no visible change.
#[derive(Clone, Copy, PartialEq, Eq, Debug)]
pub enum Op<T> {
    Del(T),
    Ins(T),
    Nop(usize),
}

/// The fixed tie-break of the engine: prefer `Del`, then `Ins`, then `Nop`,
/// and return the least of the three costs.
pub open spec fn opsel_min_spec(a: usize, b: usize, c: usize) -> (BareOp, usize) {
    if a <= b && a <= c {
        (BareOp::Del, a)
    } else if b <= c {
        (BareOp::Ins, b)
    } else {
        (BareOp::Nop, c)
    }
}

/// Selects the cheapest of a delete cost `a`, an insert cost `b` and a
/// diagonal cost `c`, preferring `Del` over `Ins` over `Nop` on ties.
pub fn opsel_min(a: usize, b: usize, c: usize) -> (r: (BareOp, usize))
    ensures
        r == opsel_min_spec(a, b, c),
        r.1 <= a && r.1 <= b && r.1 <= c,
        r.1 == a || r.1 == b || r.1 == c,
{
    if a <= b && a <= c {
        return (BareOp::Del, a);
    }
    if b <= c {
        return (BareOp::Ins, b);
    }
    (BareOp::Nop, c)
}

} // verus!
