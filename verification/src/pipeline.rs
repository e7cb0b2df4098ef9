//! The composition root: builds the line-level edit script under the
//! numeric-tolerant oracle and feeds it to the context renderer.

use vstd::prelude::*;

use crate::engine::{diff_ops, DiffPolicy};
use crate::model::{fits_from, script, script_fits};
use crate::oracle::{all_digits, is_all_digits, lines_equal, lines_equal_pre, lines_equal_spec};
use crate::ops::Op;
use crate::render::{render, render_spec, TaggedLine};

verus! {

/// The outer, line-level policy: lines match under numeric-tolerant
/// equality, and a line made entirely of digits never surfaces as a visible
/// change (it folds into a `Nop` run even when unmatched).
#[derive(Clone, Copy)]
pub struct LinePolicy;

impl<'a> DiffPolicy<&'a str> for LinePolicy {
    open spec fn eq_spec(self, x: &'a str, y: &'a str) -> bool {
        lines_equal_spec(x@, y@)
    }

    open spec fn ed_spec(self, x: &'a str) -> bool {
        !all_digits(x@)
    }

    open spec fn eq_pre(self, x: &'a str, y: &'a str) -> bool {
        lines_equal_pre(x@, y@)
    }

    fn equal(&self, x: &&'a str, y: &&'a str) -> (r: bool) {
        lines_equal(*x, *y)
    }

    fn editable(&self, x: &&'a str) -> (r: bool) {
        !is_all_digits(*x)
    }
}

/// The line-level edit script of `a` and `b` under the numeric-tolerant
/// oracle.
pub open spec fn line_script<'a>(a: Seq<&'a str>, b: Seq<&'a str>) -> Seq<Op<&'a str>> {
    script(LinePolicy, a, b)
}

/// The machine bounds under which `diff` runs: the outer grid and every
/// character-level grid must be allocatable, with costs inside `usize`.
pub open spec fn diff_pre<'a>(a: Seq<&'a str>, b: Seq<&'a str>) -> bool {
    &&& a.len() + b.len() < usize::MAX as int
    &&& (a.len() + 1) * (b.len() + 1) <= isize::MAX as int
    &&& forall|i: int, j: int|
        0 <= i < a.len() && 0 <= j < b.len() ==> #[trigger] lines_equal_pre(a[i]@, b[j]@)
}

/// Decides whether the script consumes a length-`na` left sequence and a
/// length-`nb` right sequence exactly.
pub fn check_fits<T: Copy>(ops: &Vec<Op<T>>, na: usize, nb: usize) -> (r: bool)
    ensures
        r == script_fits(ops@, na as int, nb as int),
{
    let mut ai: usize = 0;
    let mut bi: usize = 0;
    let mut k: usize = 0;
    proof {
        assert(ops@.skip(0) =~= ops@);
    }
    while k < ops.len()
        invariant
            k <= ops@.len(),
            ai <= na,
            bi <= nb,
            script_fits(ops@, na as int, nb as int) == fits_from(
                ops@.skip(k as int),
                na as int,
                nb as int,
                ai as int,
                bi as int,
            ),
        decreases ops@.len() - k,
    {
        let ghost rest = ops@.skip(k as int);
        proof {
            assert(rest[0] == ops@[k as int]);
            assert(rest.drop_first() =~= ops@.skip(k as int + 1));
        }
        match ops[k] {
            Op::Del(_) => {
                if ai >= na {
                    return false;
                }
                ai = ai + 1;
            },
            Op::Ins(_) => {
                if bi >= nb {
                    return false;
                }
                bi = bi + 1;
            },
            Op::Nop(n) => {
                if n == 0 || n > na - ai || n > nb - bi {
                    return false;
                }
                ai = ai + n;
                bi = bi + n;
            },
        }
        k = k + 1;
    }
    proof {
        assert(ops@.skip(ops@.len() as int) =~= Seq::<Op<T>>::empty());
    }
    ai == na && bi == nb
}

/// Runs the whole pipeline: computes the line-level script of `a` and `b`
/// under the numeric-tolerant oracle, then renders it with context radius
/// `radius`.  Returns `None` exactly when the script does not consume both
/// inputs — an unmatched all-digit line folded into a `Nop` run — since the
/// renderer's cursors would desynchronize on such a script.
pub fn diff<'a>(a: &[&'a str], b: &[&'a str], radius: usize) -> (r: Option<
    Vec<TaggedLine<&'a str>>,
>)
    requires
        diff_pre(a@, b@),
        2 * radius <= usize::MAX as int,
    ensures
        script_fits(line_script(a@, b@), a@.len() as int, b@.len() as int) ==> (r matches Some(v)
            && v@ == render_spec(line_script(a@, b@), a@, b@, radius as nat)),
        !script_fits(line_script(a@, b@), a@.len() as int, b@.len() as int) ==> r is None,
{
    let p = LinePolicy;
    proof {
        assert forall|i: int, j: int|
            0 <= i < a@.len() && 0 <= j < b@.len() implies #[trigger] p.eq_pre(a@[i], b@[j]) by {
            assert(lines_equal_pre(a@[i]@, b@[j]@));
        }
    }
    let ops = diff_ops(a, b, &p);
    if check_fits(&ops, a.len(), b.len()) {
        Some(render(&ops, a, b, radius))
    } else {
        None
    }
}

} // verus!
