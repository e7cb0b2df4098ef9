//! The mathematical model of the edit-distance engine.
//!
//! `dcell` gives, for each grid cell `(i, j)`, the direction chosen under the
//! fixed tie-break (`Del` over `Ins` over `Nop`) together with the cost of the
//! cheapest script turning `a[0..i]` into `b[0..j]` (unit insert/delete cost,
//! zero-cost match, no substitution).  `trace` is the forward-order sequence
//! of bare steps the backtrace walks from `(0, 0)` to `(i, j)`, and
//! `steps_to_ops` turns those steps into the final edit script, folding
//! non-editable deletes/inserts and consecutive matches into coalesced
//! `Nop` runs.  `script` composes the three.

use vstd::prelude::*;

use crate::engine::DiffPolicy;
use crate::ops::{BareOp, Op};

verus! {

/// The direction and cost of grid cell `(i, j)`.
///
/// Row 0 carries `Ins` directions and cost `j` (pure insertion), column 0
/// carries `Del` directions and cost `i` (pure deletion); the origin holds an
/// unused `Nop` sentinel.  An inner cell picks the cheapest of
/// delete (`cost(i-1, j) + 1`), insert (`cost(i, j-1) + 1`) and, only when
/// the elements match, the free diagonal `cost(i-1, j-1)`, preferring
/// `Del` over `Ins` over `Nop` on ties.
pub open spec fn dcell<T, P: DiffPolicy<T>>(p: P, a: Seq<T>, b: Seq<T>, i: nat, j: nat) -> (
    BareOp,
    nat,
)
    decreases i + j,
{
    if i == 0 && j == 0 {
        (BareOp::Nop, 0)
    } else if i == 0 {
        (BareOp::Ins, j)
    } else if j == 0 {
        (BareOp::Del, i)
    } else {
        let del = dcell(p, a, b, (i - 1) as nat, j).1 + 1;
        let ins = dcell(p, a, b, i, (j - 1) as nat).1 + 1;
        if p.eq_spec(a[i - 1], b[j - 1]) {
            let diag = dcell(p, a, b, (i - 1) as nat, (j - 1) as nat).1;
            if del <= ins && del <= diag {
                (BareOp::Del, del)
            } else if ins <= diag {
                (BareOp::Ins, ins)
            } else {
                (BareOp::Nop, diag)
            }
        } else {
            if del <= ins {
                (BareOp::Del, del)
            } else {
                (BareOp::Ins, ins)
            }
        }
    }
}

/// Every cell's cost is at most `i + j`: a script may always delete all of
/// `a[0..i]` and insert all of `b[0..j]`.
pub proof fn lemma_dcell_bound<T, P: DiffPolicy<T>>(p: P, a: Seq<T>, b: Seq<T>, i: nat, j: nat)
    ensures
        dcell(p, a, b, i, j).1 <= i + j,
    decreases i + j,
{
    if i == 0 || j == 0 {
    } else {
        lemma_dcell_bound(p, a, b, (i - 1) as nat, j);
        lemma_dcell_bound(p, a, b, i, (j - 1) as nat);
        lemma_dcell_bound(p, a, b, (i - 1) as nat, (j - 1) as nat);
    }
}

/// The forward-order bare steps of the backtrace path from `(0, 0)` to
/// `(i, j)`, following the direction recorded at each cell.
pub open spec fn trace<T, P: DiffPolicy<T>>(p: P, a: Seq<T>, b: Seq<T>, i: nat, j: nat) -> Seq<
    BareOp,
>
    decreases i + j,
{
    if i == 0 && j == 0 {
        Seq::empty()
    } else if i == 0 {
        trace(p, a, b, 0, (j - 1) as nat).push(BareOp::Ins)
    } else if j == 0 {
        trace(p, a, b, (i - 1) as nat, 0).push(BareOp::Del)
    } else {
        match dcell(p, a, b, i, j).0 {
            BareOp::Del => trace(p, a, b, (i - 1) as nat, j).push(BareOp::Del),
            BareOp::Ins => trace(p, a, b, i, (j - 1) as nat).push(BareOp::Ins),
            BareOp::Nop => trace(p, a, b, (i - 1) as nat, (j - 1) as nat).push(BareOp::Nop),
        }
    }
}

/// Extends an op sequence at the front by one invisible step: if the sequence
/// starts with a `Nop` run the run grows by one, otherwise a fresh `Nop(1)`
/// is prepended.
pub open spec fn prepend_nop<T>(rest: Seq<Op<T>>) -> Seq<Op<T>> {
    if rest.len() > 0 && (rest[0] is Nop) {
        seq![Op::Nop(((rest[0]->Nop_0) + 1) as usize)].add(rest.drop_first())
    } else {
        seq![Op::Nop(1usize)].add(rest)
    }
}

/// Turns the forward step sequence `t`, read against `a` and `b` from cursor
/// positions `ai` and `bi`, into the edit script: a `Del`/`Ins` step whose
/// element is editable surfaces as a visible op, every other step extends a
/// coalesced `Nop` run.
pub open spec fn steps_to_ops<T, P: DiffPolicy<T>>(
    p: P,
    t: Seq<BareOp>,
    a: Seq<T>,
    b: Seq<T>,
    ai: int,
    bi: int,
) -> Seq<Op<T>>
    decreases t.len(),
{
    if t.len() == 0 {
        Seq::empty()
    } else {
        match t[0] {
            BareOp::Del => {
                let rest = steps_to_ops(p, t.drop_first(), a, b, ai + 1, bi);
                if p.ed_spec(a[ai]) {
                    seq![Op::Del(a[ai])].add(rest)
                } else {
                    prepend_nop(rest)
                }
            },
            BareOp::Ins => {
                let rest = steps_to_ops(p, t.drop_first(), a, b, ai, bi + 1);
                if p.ed_spec(b[bi]) {
                    seq![Op::Ins(b[bi])].add(rest)
                } else {
                    prepend_nop(rest)
                }
            },
            BareOp::Nop => prepend_nop(steps_to_ops(p, t.drop_first(), a, b, ai + 1, bi + 1)),
        }
    }
}

/// Unfolds `steps_to_ops` over a step prepended to the step sequence.
pub proof fn lemma_steps_to_ops_cons<T, P: DiffPolicy<T>>(
    p: P,
    s: BareOp,
    t: Seq<BareOp>,
    a: Seq<T>,
    b: Seq<T>,
    ai: int,
    bi: int,
)
    ensures
        s is Del ==> steps_to_ops(p, seq![s] + t, a, b, ai, bi) == (if p.ed_spec(a[ai]) {
            seq![Op::Del(a[ai])].add(steps_to_ops(p, t, a, b, ai + 1, bi))
        } else {
            prepend_nop(steps_to_ops(p, t, a, b, ai + 1, bi))
        }),
        s is Ins ==> steps_to_ops(p, seq![s] + t, a, b, ai, bi) == (if p.ed_spec(b[bi]) {
            seq![Op::Ins(b[bi])].add(steps_to_ops(p, t, a, b, ai, bi + 1))
        } else {
            prepend_nop(steps_to_ops(p, t, a, b, ai, bi + 1))
        }),
        s is Nop ==> steps_to_ops(p, seq![s] + t, a, b, ai, bi) == prepend_nop(
            steps_to_ops(p, t, a, b, ai + 1, bi + 1),
        ),
{
    assert((seq![s] + t).drop_first() =~= t);
    assert((seq![s] + t)[0] == s);
    assert((seq![s] + t).len() == t.len() + 1);
}

/// The edit script the engine returns for `a` and `b` under policy `p`.
pub open spec fn script<T, P: DiffPolicy<T>>(p: P, a: Seq<T>, b: Seq<T>) -> Seq<Op<T>> {
    steps_to_ops(p, trace(p, a, b, a.len(), b.len()), a, b, 0, 0)
}

/// The remaining script consumes exactly what is left of both sequences
/// from cursors `ai` and `bi`: each `Del` takes one left element, each `Ins`
/// one right element, each `Nop(n)` run (`n >= 1`) takes `n` of each, and at
/// the end both cursors are exhausted.
pub open spec fn fits_from<T>(ops: Seq<Op<T>>, na: int, nb: int, ai: int, bi: int) -> bool
    decreases ops.len(),
{
    if ops.len() == 0 {
        ai == na && bi == nb
    } else {
        match ops[0] {
            Op::Del(_) => ai < na && fits_from(ops.drop_first(), na, nb, ai + 1, bi),
            Op::Ins(_) => bi < nb && fits_from(ops.drop_first(), na, nb, ai, bi + 1),
            Op::Nop(n) => n >= 1 && ai + n <= na && bi + n <= nb && fits_from(
                ops.drop_first(),
                na,
                nb,
                ai + n,
                bi + n,
            ),
        }
    }
}

/// The script consumes a length-`na` left sequence and a length-`nb` right
/// sequence exactly.  This is the renderer's consistency precondition; the
/// editability filter can fold an unmatched element into a `Nop` run, so not
/// every engine output satisfies it.
pub open spec fn script_fits<T>(ops: Seq<Op<T>>, na: int, nb: int) -> bool {
    fits_from(ops, na, nb, 0, 0)
}

/// Reversing after a `push` is prepending to the reversal.
pub proof fn lemma_reverse_push<A>(s: Seq<A>, x: A)
    ensures
        (s.push(x)).reverse() =~= seq![x] + s.reverse(),
{
}

/// `push` then append is append of the singleton-extended tail.
pub proof fn lemma_push_assoc<A>(s: Seq<A>, x: A, t: Seq<A>)
    ensures
        s.push(x) + t =~= s + (seq![x] + t),
{
}

/// Every `Nop` run in `steps_to_ops` counts at most `t.len()` steps.
pub proof fn lemma_nop_counts_bounded<T, P: DiffPolicy<T>>(
    p: P,
    t: Seq<BareOp>,
    a: Seq<T>,
    b: Seq<T>,
    ai: int,
    bi: int,
)
    requires
        t.len() <= usize::MAX,
    ensures
        forall|k: int|
            0 <= k < steps_to_ops(p, t, a, b, ai, bi).len() && (
            #[trigger] steps_to_ops(p, t, a, b, ai, bi)[k]) is Nop ==> steps_to_ops(
                p,
                t,
                a,
                b,
                ai,
                bi,
            )[k]->Nop_0 <= t.len(),
    decreases t.len(),
{
    if t.len() == 0 {
    } else {
        let rest_ai: int = match t[0] {
            BareOp::Del => ai + 1,
            BareOp::Ins => ai,
            BareOp::Nop => ai + 1,
        };
        let rest_bi: int = match t[0] {
            BareOp::Del => bi,
            BareOp::Ins => bi + 1,
            BareOp::Nop => bi + 1,
        };
        lemma_nop_counts_bounded(p, t.drop_first(), a, b, rest_ai, rest_bi);
    }
}

} // verus!
