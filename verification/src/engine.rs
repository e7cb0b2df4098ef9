//! The generic minimum-edit-distance engine.
//!
//! `diff_ops` fills an `(|a|+1) x (|b|+1)` cost/direction grid bottom-up,
//! backtraces from `(|a|, |b|)` to the origin, and returns the edit script in
//! forward order.  Its result is pinned exactly to the mathematical model:
//! `diff_ops(a, b, p)` returns `model::script(p, a@, b@)`.

use vstd::prelude::*;

use crate::grid::{grid_get, grid_new, grid_set, grid_dim, grid_map, Grid};
use crate::model::{dcell, lemma_dcell_bound, lemma_nop_counts_bounded, prepend_nop, script,
    steps_to_ops, trace};
use crate::ops::{opsel_min, BareOp, Op};

verus! {

/// The two behavioral predicates the engine is parametrized by: `eq_spec`
/// decides whether two elements match (free diagonal), `ed_spec` whether an
/// unmatched element surfaces as a visible change or folds into a `Nop` run.
/// `eq_pre` restricts the element pairs `equal` may be asked about (the
/// character-level oracle needs its grid to be allocatable).
pub trait DiffPolicy<T>: Sized {
    spec fn eq_spec(self, x: T, y: T) -> bool;

    spec fn ed_spec(self, x: T) -> bool;

    spec fn eq_pre(self, x: T, y: T) -> bool;

    fn equal(&self, x: &T, y: &T) -> (r: bool)
        requires
            self.eq_pre(*x, *y),
        ensures
            r == self.eq_spec(*x, *y),
    ;

    fn editable(&self, x: &T) -> (r: bool)
        ensures
            r == self.ed_spec(*x),
    ;
}

/// The `usize` encoding under which a direction is stored in the grid.
pub open spec fn dir_code(d: BareOp) -> usize {
    match d {
        BareOp::Del => 0,
        BareOp::Ins => 1,
        BareOp::Nop => 2,
    }
}

/// `dir_code` is injective and lands in `0..=2`.
proof fn lemma_dir_code_props(x: BareOp, y: BareOp)
    ensures
        dir_code(x) <= 2,
        dir_code(x) == dir_code(y) ==> x == y,
{
    match x {
        BareOp::Del => {
            match y {
                BareOp::Del => {},
                BareOp::Ins => {},
                BareOp::Nop => {},
            }
        },
        BareOp::Ins => {
            match y {
                BareOp::Del => {},
                BareOp::Ins => {},
                BareOp::Nop => {},
            }
        },
        BareOp::Nop => {
            match y {
                BareOp::Del => {},
                BareOp::Ins => {},
                BareOp::Nop => {},
            }
        },
    }
}

fn decode_dir(c: usize) -> (d: BareOp)
    requires
        c <= 2,
    ensures
        dir_code(d) == c,
{
    if c == 0 {
        BareOp::Del
    } else if c == 1 {
        BareOp::Ins
    } else {
        BareOp::Nop
    }
}

/// Cell `(ii, jj)` of the two grids agrees with the model.
pub open spec fn cell_ok<T, P: DiffPolicy<T>>(
    p: P,
    a: Seq<T>,
    b: Seq<T>,
    cost: Grid,
    dir: Grid,
    ii: int,
    jj: int,
) -> bool {
    &&& grid_map(cost)[(ii, jj)] == dcell(p, a, b, ii as nat, jj as nat).1
    &&& grid_map(dir)[(ii, jj)] == dir_code(dcell(p, a, b, ii as nat, jj as nat).0)
}

/// Appends an invisible step at the tail of the in-progress (reversed) op
/// list: extend a trailing `Nop` run, or start a fresh one.
fn push_nop<T: Copy>(ops: &mut Vec<Op<T>>)
    requires
        old(ops)@.len() > 0 && (old(ops)@.last() is Nop) ==> (old(ops)@.last()->Nop_0 as int)
            < usize::MAX as int,
    ensures
        (final(ops)@).reverse() == prepend_nop((old(ops)@).reverse()),
{
    proof {
        crate::model::lemma_reverse_push(old(ops)@.drop_last(), old(ops)@.last());
    }
    let l = ops.len();
    if l > 0 {
        let merge: Option<usize> = match ops[l - 1] {
            Op::Nop(c) => Some(c),
            _ => None,
        };
        match merge {
            Some(c) => {
                proof {
                    assert(old(ops)@.drop_last().push(old(ops)@.last()) =~= old(ops)@);
                }
                ops.pop();
                ops.push(Op::Nop(c + 1));
                proof {
                    crate::model::lemma_reverse_push(old(ops)@.drop_last(), Op::Nop((c + 1) as usize));
                    assert(ops@.reverse() =~= prepend_nop((old(ops)@).reverse()));
                }
            },
            None => {
                ops.push(Op::Nop(1));
                proof {
                    crate::model::lemma_reverse_push(old(ops)@, Op::<T>::Nop(1));
                    assert(ops@.reverse() =~= prepend_nop((old(ops)@).reverse()));
                }
            },
        }
    } else {
        ops.push(Op::Nop(1));
        proof {
            crate::model::lemma_reverse_push(old(ops)@, Op::<T>::Nop(1));
            assert(ops@.reverse() =~= prepend_nop((old(ops)@).reverse()));
        }
    }
}

/// A copy of `v` in reverse order.
fn reversed<T: Copy>(v: &Vec<Op<T>>) -> (r: Vec<Op<T>>)
    ensures
        r@ == v@.reverse(),
{
    let mut r: Vec<Op<T>> = Vec::new();
    let mut k: usize = v.len();
    while k > 0
        invariant
            k <= v@.len(),
            r@.len() == v@.len() - k,
            forall|t: int| 0 <= t < r@.len() ==> r@[t] == v@[v@.len() - 1 - t],
        decreases k,
    {
        k = k - 1;
        let x = v[k];
        r.push(x);
    }
    proof {
        assert(r@ =~= v@.reverse());
    }
    r
}

/// Computes the minimum edit script turning `a` into `b` under policy `p`:
/// unit cost per visible delete/insert, zero-cost matches, ties broken
/// `Del` over `Ins` over `Nop`, non-editable unmatched elements folded into
/// `Nop` runs, consecutive invisible steps coalesced.  The two size bounds
/// keep the costs inside `usize` and the grid allocatable.
#[verifier::rlimit(60)]
pub fn diff_ops<T: Copy, P: DiffPolicy<T>>(a: &[T], b: &[T], p: &P) -> (r: Vec<Op<T>>)
    requires
        a@.len() + b@.len() < usize::MAX as int,
        (a@.len() + 1) * (b@.len() + 1) <= isize::MAX as int,
        forall|i: int, j: int|
            0 <= i < a@.len() && 0 <= j < b@.len() ==> (*p).eq_pre(a@[i], b@[j]),
    ensures
        r@ == script(*p, a@, b@),
{
    let ghost aseq = a@;
    let ghost bseq = b@;
    let ghost pp = *p;
    let n = a.len();
    let m = b.len();
    let mut cost = grid_new(n + 1, m + 1, 0);
    let mut dir = grid_new(n + 1, m + 1, 2);

    // Boundary row 0: pure insertion costs, `Ins` directions.
    let mut j: usize = 0;
    while j < m + 1
        invariant
            j <= m + 1,
            n == aseq.len(),
            m == bseq.len(),
            n + m < usize::MAX,
            grid_dim(cost) == ((n + 1) as int, (m + 1) as int),
            grid_dim(dir) == ((n + 1) as int, (m + 1) as int),
            forall|jj: int| 0 <= jj < j ==> grid_map(cost)[(0, jj)] == jj,
            forall|jj: int| 0 <= jj < j ==> grid_map(dir)[(0, jj)] == 1usize,
        decreases m + 1 - j,
    {
        grid_set(&mut cost, 0, j, j);
        grid_set(&mut dir, 0, j, 1);
        j = j + 1;
    }
    // Boundary column 0: pure deletion costs, `Del` directions.
    let mut i: usize = 0;
    while i < n + 1
        invariant
            i <= n + 1,
            n == aseq.len(),
            m == bseq.len(),
            n + m < usize::MAX,
            grid_dim(cost) == ((n + 1) as int, (m + 1) as int),
            grid_dim(dir) == ((n + 1) as int, (m + 1) as int),
            forall|jj: int| 0 <= jj <= m ==> grid_map(cost)[(0, jj)] == jj,
            forall|jj: int| 1 <= jj <= m ==> grid_map(dir)[(0, jj)] == 1usize,
            forall|ii: int| 0 <= ii < i ==> grid_map(cost)[(ii, 0)] == ii,
            forall|ii: int| 0 <= ii < i ==> grid_map(dir)[(ii, 0)] == 0usize,
        decreases n + 1 - i,
    {
        grid_set(&mut cost, i, 0, i);
        grid_set(&mut dir, i, 0, 0);
        i = i + 1;
    }
    grid_set(&mut dir, 0, 0, 2);
    proof {
        assert forall|jj: int| 0 <= jj <= m implies cell_ok(pp, aseq, bseq, cost, dir, 0, jj) by {
            assert(dcell(pp, aseq, bseq, 0, jj as nat).1 == jj);
        }
        assert forall|ii: int| 0 <= ii <= n implies cell_ok(pp, aseq, bseq, cost, dir, ii, 0) by {
            assert(dcell(pp, aseq, bseq, ii as nat, 0).1 == ii);
        }
    }

    // Inner cells, row by row.
    let mut i: usize = 1;
    while i < n + 1
        invariant
            1 <= i <= n + 1,
            n == aseq.len(),
            m == bseq.len(),
            n + m < usize::MAX,
            pp == *p,
            aseq == a@,
            bseq == b@,
            forall|x: int, y: int|
                0 <= x < aseq.len() && 0 <= y < bseq.len() ==> pp.eq_pre(aseq[x], bseq[y]),
            grid_dim(cost) == ((n + 1) as int, (m + 1) as int),
            grid_dim(dir) == ((n + 1) as int, (m + 1) as int),
            forall|jj: int| 0 <= jj <= m ==> cell_ok(pp, aseq, bseq, cost, dir, 0, jj),
            forall|ii: int| 0 <= ii <= n ==> cell_ok(pp, aseq, bseq, cost, dir, ii, 0),
            forall|ii: int, jj: int|
                1 <= ii < i && 1 <= jj <= m ==> cell_ok(pp, aseq, bseq, cost, dir, ii, jj),
        decreases n + 1 - i,
    {
        let mut j: usize = 1;
        while j < m + 1
            invariant
                1 <= i <= n,
                1 <= j <= m + 1,
                n == aseq.len(),
                m == bseq.len(),
                n + m < usize::MAX,
                pp == *p,
                aseq == a@,
                bseq == b@,
                forall|x: int, y: int|
                    0 <= x < aseq.len() && 0 <= y < bseq.len() ==> pp.eq_pre(aseq[x], bseq[y]),
                grid_dim(cost) == ((n + 1) as int, (m + 1) as int),
                grid_dim(dir) == ((n + 1) as int, (m + 1) as int),
                forall|jj: int| 0 <= jj <= m ==> cell_ok(pp, aseq, bseq, cost, dir, 0, jj),
                forall|ii: int| 0 <= ii <= n ==> cell_ok(pp, aseq, bseq, cost, dir, ii, 0),
                forall|ii: int, jj: int|
                    1 <= ii < i && 1 <= jj <= m ==> cell_ok(pp, aseq, bseq, cost, dir, ii, jj),
                forall|jj: int| 1 <= jj < j ==> cell_ok(pp, aseq, bseq, cost, dir, i as int, jj),
            decreases m + 1 - j,
        {
            let ghost cost0 = cost;
            let ghost dir0 = dir;
            proof {
                lemma_dcell_bound(pp, aseq, bseq, (i - 1) as nat, j as nat);
                lemma_dcell_bound(pp, aseq, bseq, i as nat, (j - 1) as nat);
                lemma_dcell_bound(pp, aseq, bseq, (i - 1) as nat, (j - 1) as nat);
                assert(cell_ok(pp, aseq, bseq, cost, dir, i as int - 1, j as int));
                assert(cell_ok(pp, aseq, bseq, cost, dir, i as int, j as int - 1));
                assert(cell_ok(pp, aseq, bseq, cost, dir, i as int - 1, j as int - 1));
            }
            let du = grid_get(&cost, i - 1, j);
            let iu = grid_get(&cost, i, j - 1);
            let kx: (BareOp, usize) = if p.equal(&a[i - 1], &b[j - 1]) {
                let dg = grid_get(&cost, i - 1, j - 1);
                opsel_min(du + 1, iu + 1, dg)
            } else {
                opsel_min(du + 1, iu + 1, usize::MAX)
            };
            proof {
                assert(kx.1 == dcell(pp, aseq, bseq, i as nat, j as nat).1);
                assert(kx.0 == dcell(pp, aseq, bseq, i as nat, j as nat).0);
            }
            let code = match kx.0 {
                BareOp::Del => 0,
                BareOp::Ins => 1,
                BareOp::Nop => 2,
            };
            grid_set(&mut dir, i, j, code);
            grid_set(&mut cost, i, j, kx.1);
            proof {
                assert forall|jj: int| 0 <= jj <= m implies cell_ok(
                    pp,
                    aseq,
                    bseq,
                    cost,
                    dir,
                    0,
                    jj,
                ) by {
                    assert(cell_ok(pp, aseq, bseq, cost0, dir0, 0, jj));
                }
                assert forall|ii: int| 0 <= ii <= n implies cell_ok(
                    pp,
                    aseq,
                    bseq,
                    cost,
                    dir,
                    ii,
                    0,
                ) by {
                    assert(cell_ok(pp, aseq, bseq, cost0, dir0, ii, 0));
                }
                assert forall|ii: int, jj: int| 1 <= ii < i && 1 <= jj <= m implies cell_ok(
                    pp,
                    aseq,
                    bseq,
                    cost,
                    dir,
                    ii,
                    jj,
                ) by {
                    assert(cell_ok(pp, aseq, bseq, cost0, dir0, ii, jj));
                }
                assert forall|jj: int| 1 <= jj < j + 1 implies cell_ok(
                    pp,
                    aseq,
                    bseq,
                    cost,
                    dir,
                    i as int,
                    jj,
                ) by {
                    if jj < j {
                        assert(cell_ok(pp, aseq, bseq, cost0, dir0, i as int, jj));
                    }
                }
            }
            j = j + 1;
        }
        i = i + 1;
    }

    // Backtrace from `(n, m)` to the origin, building the script in reverse.
    let mut bi: usize = n;
    let mut bj: usize = m;
    let mut ops: Vec<Op<T>> = Vec::new();
    let ghost mut st: Seq<BareOp> = Seq::empty();
    proof {
        assert(trace(pp, aseq, bseq, n as nat, m as nat) + Seq::<BareOp>::empty() =~= trace(
            pp,
            aseq,
            bseq,
            n as nat,
            m as nat,
        ));
        assert(ops@.reverse() =~= steps_to_ops(pp, st, aseq, bseq, n as int, m as int));
    }
    while bi != 0 || bj != 0
        invariant
            bi <= n,
            bj <= m,
            n == aseq.len(),
            m == bseq.len(),
            n + m < usize::MAX,
            pp == *p,
            aseq == a@,
            bseq == b@,
            grid_dim(dir) == ((n + 1) as int, (m + 1) as int),
            forall|jj: int| 0 <= jj <= m ==> cell_ok(pp, aseq, bseq, cost, dir, 0, jj),
            forall|ii: int| 0 <= ii <= n ==> cell_ok(pp, aseq, bseq, cost, dir, ii, 0),
            forall|ii: int, jj: int|
                1 <= ii <= n && 1 <= jj <= m ==> cell_ok(pp, aseq, bseq, cost, dir, ii, jj),
            trace(pp, aseq, bseq, n as nat, m as nat) == trace(pp, aseq, bseq, bi as nat, bj as nat)
                + st,
            ops@.reverse() == steps_to_ops(pp, st, aseq, bseq, bi as int, bj as int),
            st.len() <= (n - bi) + (m - bj),
        decreases bi + bj,
    {
        let ghost old_st = st;
        let ghost old_ops = ops@;
        proof {
            lemma_nop_counts_bounded(pp, st, aseq, bseq, bi as int, bj as int);
            if ops@.len() > 0 {
                assert(ops@.last() == ops@.reverse()[0]);
            }
        }
        let ghost dd = dcell(pp, aseq, bseq, bi as nat, bj as nat).0;
        proof {
            lemma_dir_code_props(dd, dd);
            if bi == 0 {
                assert(cell_ok(pp, aseq, bseq, cost, dir, 0, bj as int));
            } else if bj == 0 {
                assert(cell_ok(pp, aseq, bseq, cost, dir, bi as int, 0));
            } else {
                assert(cell_ok(pp, aseq, bseq, cost, dir, bi as int, bj as int));
            }
            assert(grid_map(dir)[(bi as int, bj as int)] == dir_code(dd));
        }
        let d = decode_dir(grid_get(&dir, bi, bj));
        proof {
            lemma_dir_code_props(dd, d);
            assert(d == dd);
        }
        match d {
            BareOp::Nop => {
                proof {
                    if bj == 0 {
                        assert(dcell(pp, aseq, bseq, bi as nat, 0).0 == BareOp::Del);
                    }
                    if bi == 0 {
                        assert(dcell(pp, aseq, bseq, 0, bj as nat).0 == BareOp::Ins);
                    }
                }
                bi = bi - 1;
                bj = bj - 1;
                push_nop(&mut ops);
                proof {
                    st = seq![BareOp::Nop] + old_st;
                    assert(trace(pp, aseq, bseq, (bi + 1) as nat, (bj + 1) as nat) == trace(
                        pp,
                        aseq,
                        bseq,
                        bi as nat,
                        bj as nat,
                    ).push(BareOp::Nop));
                    crate::model::lemma_push_assoc(
                        trace(pp, aseq, bseq, bi as nat, bj as nat),
                        BareOp::Nop,
                        old_st,
                    );
                    crate::model::lemma_steps_to_ops_cons(
                        pp,
                        BareOp::Nop,
                        old_st,
                        aseq,
                        bseq,
                        bi as int,
                        bj as int,
                    );
                }
            },
            BareOp::Ins => {
                proof {
                    if bj == 0 {
                        if bi != 0 {
                            assert(dcell(pp, aseq, bseq, bi as nat, 0).0 == BareOp::Del);
                        }
                        assert(false);
                    }
                }
                bj = bj - 1;
                if p.editable(&b[bj]) {
                    ops.push(Op::Ins(b[bj]));
                    proof {
                        crate::model::lemma_reverse_push(old_ops, Op::Ins(bseq[bj as int]));
                    }
                } else {
                    push_nop(&mut ops);
                }
                proof {
                    st = seq![BareOp::Ins] + old_st;
                    assert(trace(pp, aseq, bseq, bi as nat, (bj + 1) as nat) == trace(
                        pp,
                        aseq,
                        bseq,
                        bi as nat,
                        bj as nat,
                    ).push(BareOp::Ins));
                    crate::model::lemma_push_assoc(
                        trace(pp, aseq, bseq, bi as nat, bj as nat),
                        BareOp::Ins,
                        old_st,
                    );
                    crate::model::lemma_steps_to_ops_cons(
                        pp,
                        BareOp::Ins,
                        old_st,
                        aseq,
                        bseq,
                        bi as int,
                        bj as int,
                    );
                }
            },
            BareOp::Del => {
                proof {
                    if bi == 0 {
                        if bj != 0 {
                            assert(dcell(pp, aseq, bseq, 0, bj as nat).0 == BareOp::Ins);
                        }
                        assert(false);
                    }
                }
                bi = bi - 1;
                if p.editable(&a[bi]) {
                    ops.push(Op::Del(a[bi]));
                    proof {
                        crate::model::lemma_reverse_push(old_ops, Op::Del(aseq[bi as int]));
                    }
                } else {
                    push_nop(&mut ops);
                }
                proof {
                    st = seq![BareOp::Del] + old_st;
                    assert(trace(pp, aseq, bseq, (bi + 1) as nat, bj as nat) == trace(
                        pp,
                        aseq,
                        bseq,
                        bi as nat,
                        bj as nat,
                    ).push(BareOp::Del));
                    crate::model::lemma_push_assoc(
                        trace(pp, aseq, bseq, bi as nat, bj as nat),
                        BareOp::Del,
                        old_st,
                    );
                    crate::model::lemma_steps_to_ops_cons(
                        pp,
                        BareOp::Del,
                        old_st,
                        aseq,
                        bseq,
                        bi as int,
                        bj as int,
                    );
                }
            },
        }
    }
    proof {
        assert(Seq::<BareOp>::empty() + st =~= st);
        assert(st == trace(pp, aseq, bseq, n as nat, m as nat));
    }
    let r = reversed(&ops);
    proof {
        assert(r@ == steps_to_ops(pp, trace(pp, aseq, bseq, aseq.len(), bseq.len()), aseq, bseq, 0, 0));
    }
    r
}

} // verus!
