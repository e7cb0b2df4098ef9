//! Laws of the engine, proved against the `model` spec functions that
//! `diff_ops`' contract pins its output to.

use vstd::prelude::*;

use crate::engine::DiffPolicy;
use crate::model::{dcell, prepend_nop, script, steps_to_ops, trace};
use crate::ops::{BareOp, Op};

verus! {

/// How many left-sequence elements a step sequence consumes
/// (one per `Del` and per `Nop`).
pub open spec fn acount(t: Seq<BareOp>) -> int
    decreases t.len(),
{
    if t.len() == 0 {
        0
    } else {
        (match t[0] {
            BareOp::Del => 1int,
            BareOp::Ins => 0int,
            BareOp::Nop => 1int,
        }) + acount(t.drop_first())
    }
}

/// How many right-sequence elements a step sequence consumes
/// (one per `Ins` and per `Nop`).
pub open spec fn bcount(t: Seq<BareOp>) -> int
    decreases t.len(),
{
    if t.len() == 0 {
        0
    } else {
        (match t[0] {
            BareOp::Del => 0int,
            BareOp::Ins => 1int,
            BareOp::Nop => 1int,
        }) + bcount(t.drop_first())
    }
}

proof fn lemma_counts_nonneg(t: Seq<BareOp>)
    ensures
        acount(t) >= 0,
        bcount(t) >= 0,
    decreases t.len(),
{
    if t.len() > 0 {
        lemma_counts_nonneg(t.drop_first());
    }
}

proof fn lemma_count_snoc(t: Seq<BareOp>, x: BareOp)
    ensures
        acount(t.push(x)) == acount(t) + (match x {
            BareOp::Del => 1int,
            BareOp::Ins => 0int,
            BareOp::Nop => 1int,
        }),
        bcount(t.push(x)) == bcount(t) + (match x {
            BareOp::Del => 0int,
            BareOp::Ins => 1int,
            BareOp::Nop => 1int,
        }),
    decreases t.len(),
{
    if t.len() == 0 {
        assert(t.push(x)[0] == x);
        assert(t.push(x).drop_first() =~= t);
    } else {
        assert(t.push(x)[0] == t[0]);
        assert(t.push(x).drop_first() =~= t.drop_first().push(x));
        lemma_count_snoc(t.drop_first(), x);
    }
}

/// The backtrace path from the origin to `(i, j)` consumes exactly `i` left
/// and `j` right elements.
pub proof fn lemma_trace_counts<T, P: DiffPolicy<T>>(p: P, a: Seq<T>, b: Seq<T>, i: nat, j: nat)
    ensures
        acount(trace(p, a, b, i, j)) == i,
        bcount(trace(p, a, b, i, j)) == j,
    decreases i + j,
{
    if i == 0 && j == 0 {
    } else if i == 0 {
        lemma_trace_counts(p, a, b, 0, (j - 1) as nat);
        lemma_count_snoc(trace(p, a, b, 0, (j - 1) as nat), BareOp::Ins);
    } else if j == 0 {
        lemma_trace_counts(p, a, b, (i - 1) as nat, 0);
        lemma_count_snoc(trace(p, a, b, (i - 1) as nat, 0), BareOp::Del);
    } else {
        let d = dcell(p, a, b, i, j).0;
        if d is Del {
            lemma_trace_counts(p, a, b, (i - 1) as nat, j);
            lemma_count_snoc(trace(p, a, b, (i - 1) as nat, j), BareOp::Del);
        } else if d is Ins {
            lemma_trace_counts(p, a, b, i, (j - 1) as nat);
            lemma_count_snoc(trace(p, a, b, i, (j - 1) as nat), BareOp::Ins);
        } else {
            lemma_trace_counts(p, a, b, (i - 1) as nat, (j - 1) as nat);
            lemma_count_snoc(trace(p, a, b, (i - 1) as nat, (j - 1) as nat), BareOp::Nop);
        }
    }
}

/// The script, read from cursors `ai` and `bi`, decomposes the rest of both
/// sequences exactly once: each `Del` carries the left element at its
/// position, each `Ins` the right element, each `Nop(n)` run (`n >= 1`)
/// consumes `n` matched elements of each side, and at the end both cursors
/// are exhausted.  Replaying such a script — emitting the consumed right
/// elements for `Ins` and `Nop`, skipping `Del` — therefore rebuilds the
/// right sequence from the left one exactly.
pub open spec fn covers_from<T>(ops: Seq<Op<T>>, a: Seq<T>, b: Seq<T>, ai: int, bi: int) -> bool
    decreases ops.len(),
{
    if ops.len() == 0 {
        ai == a.len() && bi == b.len()
    } else {
        match ops[0] {
            Op::Del(x) => ai < a.len() && x == a[ai] && covers_from(
                ops.drop_first(),
                a,
                b,
                ai + 1,
                bi,
            ),
            Op::Ins(x) => bi < b.len() && x == b[bi] && covers_from(
                ops.drop_first(),
                a,
                b,
                ai,
                bi + 1,
            ),
            Op::Nop(n) => n >= 1 && ai + n <= a.len() && bi + n <= b.len() && covers_from(
                ops.drop_first(),
                a,
                b,
                ai + n,
                bi + n,
            ),
        }
    }
}

/// `covers_from` from the start of both sequences.
pub open spec fn covers<T>(ops: Seq<Op<T>>, a: Seq<T>, b: Seq<T>) -> bool {
    covers_from(ops, a, b, 0, 0)
}

proof fn lemma_steps_covers<T, P: DiffPolicy<T>>(
    p: P,
    t: Seq<BareOp>,
    a: Seq<T>,
    b: Seq<T>,
    ai: int,
    bi: int,
)
    requires
        forall|x: T| #[trigger] p.ed_spec(x),
        0 <= ai,
        0 <= bi,
        ai + acount(t) == a.len(),
        bi + bcount(t) == b.len(),
        a.len() <= usize::MAX,
        b.len() <= usize::MAX,
    ensures
        covers_from(steps_to_ops(p, t, a, b, ai, bi), a, b, ai, bi),
    decreases t.len(),
{
    if t.len() == 0 {
    } else if t[0] is Del {
        lemma_counts_nonneg(t.drop_first());
        assert(p.ed_spec(a[ai]));
        lemma_steps_covers(p, t.drop_first(), a, b, ai + 1, bi);
        let rest = steps_to_ops(p, t.drop_first(), a, b, ai + 1, bi);
        assert((seq![Op::Del(a[ai])] + rest).drop_first() =~= rest);
    } else if t[0] is Ins {
        lemma_counts_nonneg(t.drop_first());
        assert(p.ed_spec(b[bi]));
        lemma_steps_covers(p, t.drop_first(), a, b, ai, bi + 1);
        let rest = steps_to_ops(p, t.drop_first(), a, b, ai, bi + 1);
        assert((seq![Op::Ins(b[bi])] + rest).drop_first() =~= rest);
    } else {
        lemma_counts_nonneg(t.drop_first());
        lemma_steps_covers(p, t.drop_first(), a, b, ai + 1, bi + 1);
        let rest = steps_to_ops(p, t.drop_first(), a, b, ai + 1, bi + 1);
        if rest.len() > 0 && rest[0] is Nop {
            let k = rest[0]->Nop_0;
            assert((seq![Op::<T>::Nop(((k + 1) as usize))] + rest.drop_first()).drop_first()
                =~= rest.drop_first());
            assert(covers_from(prepend_nop(rest), a, b, ai, bi));
        } else {
            assert((seq![Op::<T>::Nop(1usize)] + rest).drop_first() =~= rest);
            assert(covers_from(prepend_nop(rest), a, b, ai, bi));
        }
    }
}

/// Round trip: when every element is editable, the computed script covers
/// both inputs exactly — replaying it (left elements for `Del` and matched
/// positions, right elements for `Ins` and matched positions) rebuilds the
/// right sequence from the left one.  A policy whose editability filter
/// folds unmatched elements breaks the cursor accounting, so it is excluded.
pub proof fn lemma_script_covers<T, P: DiffPolicy<T>>(p: P, a: Seq<T>, b: Seq<T>)
    requires
        forall|x: T| #[trigger] p.ed_spec(x),
        a.len() <= usize::MAX,
        b.len() <= usize::MAX,
    ensures
        covers(script(p, a, b), a, b),
{
    lemma_trace_counts(p, a, b, a.len(), b.len());
    lemma_steps_covers(p, trace(p, a, b, a.len(), b.len()), a, b, 0, 0);
}

proof fn lemma_self_cell<T, P: DiffPolicy<T>>(p: P, a: Seq<T>, i: nat)
    requires
        i <= a.len(),
        forall|k: int| 0 <= k < a.len() ==> #[trigger] p.eq_spec(a[k], a[k]),
    ensures
        dcell(p, a, a, i, i).1 == 0,
        i > 0 ==> dcell(p, a, a, i, i).0 == BareOp::Nop,
    decreases i,
{
    if i > 0 {
        lemma_self_cell(p, a, (i - 1) as nat);
        assert(p.eq_spec(a[i - 1], a[i - 1]));
    }
}

proof fn lemma_self_trace<T, P: DiffPolicy<T>>(p: P, a: Seq<T>, i: nat)
    requires
        i <= a.len(),
        forall|k: int| 0 <= k < a.len() ==> #[trigger] p.eq_spec(a[k], a[k]),
    ensures
        trace(p, a, a, i, i) == Seq::new(i, |k: int| BareOp::Nop),
    decreases i,
{
    if i == 0 {
        assert(trace(p, a, a, 0, 0) =~= Seq::new(0, |k: int| BareOp::Nop));
    } else {
        lemma_self_cell(p, a, i);
        lemma_self_trace(p, a, (i - 1) as nat);
        assert(trace(p, a, a, i, i) == trace(p, a, a, (i - 1) as nat, (i - 1) as nat).push(
            BareOp::Nop,
        ));
        assert(Seq::new((i - 1) as nat, |k: int| BareOp::Nop).push(BareOp::Nop) =~= Seq::new(
            i,
            |k: int| BareOp::Nop,
        ));
    }
}

proof fn lemma_nop_run_ops<T, P: DiffPolicy<T>>(
    p: P,
    t: Seq<BareOp>,
    a: Seq<T>,
    b: Seq<T>,
    ai: int,
    bi: int,
)
    requires
        1 <= t.len() <= usize::MAX,
        forall|k: int| 0 <= k < t.len() ==> #[trigger] t[k] == BareOp::Nop,
    ensures
        steps_to_ops(p, t, a, b, ai, bi) == seq![Op::<T>::Nop((t.len() as usize))],
    decreases t.len(),
{
    if t.len() == 1 {
        assert(t.drop_first().len() == 0);
        assert(steps_to_ops(p, t.drop_first(), a, b, ai + 1, bi + 1) == Seq::<Op<T>>::empty());
        assert(seq![Op::<T>::Nop(1usize)] + Seq::<Op<T>>::empty() =~= seq![Op::<T>::Nop(1usize)]);
    } else {
        assert(forall|k: int|
            0 <= k < t.drop_first().len() ==> #[trigger] t.drop_first()[k] == BareOp::Nop);
        lemma_nop_run_ops(p, t.drop_first(), a, b, ai + 1, bi + 1);
        let c = (t.len() - 1) as usize;
        assert(seq![Op::<T>::Nop(c)][0] is Nop);
        assert(seq![Op::<T>::Nop(c)].drop_first() =~= Seq::<Op<T>>::empty());
        assert(seq![Op::<T>::Nop((t.len() as usize))] + Seq::<Op<T>>::empty() =~= seq![
            Op::<T>::Nop((t.len() as usize)),
        ]);
    }
}

/// Diffing a sequence against itself, under a reflexive equality, yields a
/// single `Nop` run over the whole sequence — and the empty script for the
/// empty sequence.
pub proof fn lemma_script_self<T, P: DiffPolicy<T>>(p: P, a: Seq<T>)
    requires
        a.len() <= usize::MAX,
        forall|k: int| 0 <= k < a.len() ==> #[trigger] p.eq_spec(a[k], a[k]),
    ensures
        a.len() == 0 ==> script(p, a, a) == Seq::<Op<T>>::empty(),
        a.len() > 0 ==> script(p, a, a) == seq![Op::<T>::Nop((a.len() as usize))],
{
    lemma_self_trace(p, a, a.len());
    if a.len() > 0 {
        lemma_nop_run_ops(p, Seq::new(a.len(), |k: int| BareOp::Nop), a, a, 0, 0);
    }
}

proof fn lemma_ins_trace<T, P: DiffPolicy<T>>(p: P, b: Seq<T>, j: nat)
    ensures
        trace(p, Seq::<T>::empty(), b, 0, j) == Seq::new(j, |k: int| BareOp::Ins),
    decreases j,
{
    if j == 0 {
        assert(trace(p, Seq::<T>::empty(), b, 0, 0) =~= Seq::new(0, |k: int| BareOp::Ins));
    } else {
        lemma_ins_trace(p, b, (j - 1) as nat);
        assert(Seq::new((j - 1) as nat, |k: int| BareOp::Ins).push(BareOp::Ins) =~= Seq::new(
            j,
            |k: int| BareOp::Ins,
        ));
    }
}

proof fn lemma_ins_run_ops<T, P: DiffPolicy<T>>(
    p: P,
    t: Seq<BareOp>,
    a: Seq<T>,
    b: Seq<T>,
    ai: int,
    bi: int,
)
    requires
        forall|k: int| 0 <= k < t.len() ==> #[trigger] t[k] == BareOp::Ins,
        forall|x: T| #[trigger] p.ed_spec(x),
    ensures
        steps_to_ops(p, t, a, b, ai, bi) == Seq::new(t.len(), |k: int| Op::Ins(b[bi + k])),
    decreases t.len(),
{
    if t.len() == 0 {
        assert(steps_to_ops(p, t, a, b, ai, bi) =~= Seq::new(0, |k: int| Op::<T>::Ins(b[bi + k])));
    } else {
        assert(p.ed_spec(b[bi]));
        assert(forall|k: int|
            0 <= k < t.drop_first().len() ==> #[trigger] t.drop_first()[k] == BareOp::Ins);
        lemma_ins_run_ops(p, t.drop_first(), a, b, ai, bi + 1);
        assert(seq![Op::<T>::Ins(b[bi])] + Seq::new(
            (t.len() - 1) as nat,
            |k: int| Op::Ins(b[bi + 1 + k]),
        ) =~= Seq::new(t.len(), |k: int| Op::Ins(b[bi + k])));
    }
}

/// Diffing the empty sequence against `b`, when every element is editable,
/// yields one `Ins` per element of `b`, in `b`'s order.
pub proof fn lemma_script_inserts_all<T, P: DiffPolicy<T>>(p: P, b: Seq<T>)
    requires
        forall|x: T| #[trigger] p.ed_spec(x),
    ensures
        script(p, Seq::<T>::empty(), b) == Seq::new(b.len(), |k: int| Op::Ins(b[k])),
{
    lemma_ins_trace(p, b, b.len());
    lemma_ins_run_ops(p, Seq::new(b.len(), |k: int| BareOp::Ins), Seq::<T>::empty(), b, 0, 0);
    assert(Seq::new(b.len(), |k: int| Op::<T>::Ins(b[0 + k])) =~= Seq::new(
        b.len(),
        |k: int| Op::<T>::Ins(b[k]),
    ));
}

/// Tie-break determinism: the engine's contract pins its output to the
/// `script` model, a function of the inputs alone, so repeated computations
/// on the same inputs yield identical edit scripts — also on inputs with
/// several minimum-cost alignments.
pub proof fn lemma_script_deterministic<T, P: DiffPolicy<T>>(
    p: P,
    a: Seq<T>,
    b: Seq<T>,
    r1: Seq<Op<T>>,
    r2: Seq<Op<T>>,
)
    requires
        r1 == script(p, a, b),
        r2 == script(p, a, b),
    ensures
        r1 == r2,
{
}

} // verus!
