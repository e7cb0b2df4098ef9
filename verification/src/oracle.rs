//! Numeric-tolerant line equality, built by running the engine at the
//! character level: two lines are equal when their character-level edit
//! script contains only `Nop` runs, i.e. every unmatched character is a
//! decimal digit.

use vstd::prelude::*;

use crate::engine::{diff_ops, DiffPolicy};
use crate::model::script;
use crate::ops::Op;

verus! {

broadcast use vstd::string::axiom_spec_iter;

/// `c` is a decimal digit `'0'..='9'`.
pub open spec fn is_digit(c: char) -> bool {
    48 <= c as u32 <= 57
}

/// Every character of `s` is a decimal digit (vacuously true of the empty
/// sequence).
pub open spec fn all_digits(s: Seq<char>) -> bool {
    forall|i: int| 0 <= i < s.len() ==> is_digit(#[trigger] s[i])
}

/// Decides `is_digit`.
pub fn is_digit_char(c: char) -> (r: bool)
    ensures
        r == is_digit(c),
{
    let u = c as u32;
    48 <= u && u <= 57
}

/// The characters of `s`, in order.
pub fn chars_of(s: &str) -> (r: Vec<char>)
    ensures
        r@ == s@,
{
    let mut r: Vec<char> = Vec::new();
    for c in it: s.chars()
        invariant
            r@ == it.seq().take(it.index() as int),
    {
        r.push(c);
    }
    proof {
        assert(r@ =~= s@);
    }
    r
}

/// Decides `all_digits`.
pub fn is_all_digits(s: &str) -> (r: bool)
    ensures
        r == all_digits(s@),
{
    let cs = chars_of(s);
    let mut k: usize = 0;
    let mut ok = true;
    while k < cs.len()
        invariant
            k <= cs@.len(),
            cs@ == s@,
            ok == (forall|i: int| 0 <= i < k ==> is_digit(#[trigger] s@[i])),
        decreases cs@.len() - k,
    {
        if !is_digit_char(cs[k]) {
            ok = false;
        }
        k = k + 1;
    }
    ok
}

/// The inner, character-level policy: exact character equality, and only
/// non-digit characters may surface as visible changes.
#[derive(Clone, Copy)]
pub struct CharPolicy;

impl DiffPolicy<char> for CharPolicy {
    open spec fn eq_spec(self, x: char, y: char) -> bool {
        x == y
    }

    open spec fn ed_spec(self, x: char) -> bool {
        !is_digit(x)
    }

    open spec fn eq_pre(self, x: char, y: char) -> bool {
        true
    }

    fn equal(&self, x: &char, y: &char) -> (r: bool) {
        *x == *y
    }

    fn editable(&self, x: &char) -> (r: bool) {
        !is_digit_char(*x)
    }
}

/// The script holds no visible `Del` or `Ins`.
pub open spec fn only_nops<T>(ops: Seq<Op<T>>) -> bool {
    forall|k: int| 0 <= k < ops.len() ==> (#[trigger] ops[k]) is Nop
}

/// Two lines are equal when the character-level script under `CharPolicy`
/// contains only `Nop` runs: their only unmatched characters are digits.
pub open spec fn lines_equal_spec(x: Seq<char>, y: Seq<char>) -> bool {
    only_nops(script(CharPolicy, x, y))
}

/// The machine bounds under which the character-level grid exists: costs fit
/// in `usize` and the cell count fits in `isize`.
pub open spec fn lines_equal_pre(x: Seq<char>, y: Seq<char>) -> bool {
    &&& x.len() + y.len() < usize::MAX as int
    &&& (x.len() + 1) * (y.len() + 1) <= isize::MAX as int
}

/// Decides numeric-tolerant equality of two lines by diffing their
/// characters and checking that no visible change survives.
pub fn lines_equal(x: &str, y: &str) -> (r: bool)
    requires
        lines_equal_pre(x@, y@),
    ensures
        r == lines_equal_spec(x@, y@),
{
    let xc = chars_of(x);
    let yc = chars_of(y);
    let ops = diff_ops(xc.as_slice(), yc.as_slice(), &CharPolicy);
    let mut k: usize = 0;
    let mut r = true;
    while k < ops.len()
        invariant
            k <= ops@.len(),
            ops@ == script(CharPolicy, x@, y@),
            r == (forall|t: int| 0 <= t < k ==> (#[trigger] ops@[t]) is Nop),
        decreases ops@.len() - k,
    {
        match ops[k] {
            Op::Nop(_) => {},
            _ => {
                r = false;
            },
        }
        k = k + 1;
    }
    r
}

} // verus!
