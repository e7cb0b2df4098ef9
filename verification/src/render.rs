//! Streaming renderer: consumes an edit script against the two original
//! sequences through a fixed-capacity circular context buffer, emitting
//! tagged output lines.
//!
//! Matched lines are pushed into the buffer (oldest silently evicted once it
//! is full); a visible change flushes the buffer as `Context` lines and emits
//! the changed line as `Added`/`Removed`; a final flush empties what remains.

use vstd::prelude::*;

use crate::model::{fits_from, script_fits};
use crate::ops::Op;

verus! {

/// How a rendered line is to be presented.
#[derive(Clone, Copy, PartialEq, Eq, Structural, Debug)]
pub enum Tag {
    Context,
    Added,
    Removed,
}

/// One line of rendered output.
#[derive(Clone, Copy, PartialEq, Eq, Debug)]
pub struct TaggedLine<T> {
    pub tag: Tag,
    pub text: T,
}

/// `s` tagged as context lines, in order.
pub open spec fn as_context<T>(s: Seq<T>) -> Seq<TaggedLine<T>> {
    s.map_values(|t: T| (TaggedLine { tag: Tag::Context, text: t }))
}

/// Pushing onto a buffer of capacity `cap`: the newest element enters, the
/// oldest leaves once the buffer is full.
pub open spec fn push_model<T>(s: Seq<T>, cap: nat, x: T) -> Seq<T> {
    let t = s.push(x);
    if t.len() <= cap {
        t
    } else {
        t.skip(t.len() - cap)
    }
}

/// Pushing every element of `es` in order.
pub open spec fn push_run<T>(s: Seq<T>, cap: nat, es: Seq<T>) -> Seq<T>
    decreases es.len(),
{
    if es.len() == 0 {
        s
    } else {
        push_run(push_model(s, cap, es[0]), cap, es.drop_first())
    }
}

/// The window law of the context buffer: after pushing `es`, the buffer
/// holds the most recent `cap` elements of `s + es` — older elements are
/// silently evicted, and no fault arises.
pub proof fn lemma_push_run_window<T>(s: Seq<T>, cap: nat, es: Seq<T>)
    requires
        s.len() <= cap,
    ensures
        s.len() + es.len() <= cap ==> push_run(s, cap, es) == s + es,
        s.len() + es.len() > cap ==> push_run(s, cap, es) == (s + es).skip(
            s.len() + es.len() - cap,
        ),
    decreases es.len(),
{
    if es.len() == 0 {
        assert(s + es =~= s);
    } else {
        let s1 = push_model(s, cap, es[0]);
        assert(s1.len() <= cap);
        lemma_push_run_window(s1, cap, es.drop_first());
        if s.len() + 1 <= cap {
            assert(s1 =~= s.push(es[0]));
            assert(s1 + es.drop_first() =~= s + es);
        } else {
            assert(s1 =~= s.push(es[0]).skip(1));
            assert(s1 + es.drop_first() =~= (s + es).skip(1));
            if s1.len() + es.drop_first().len() <= cap {
                assert(push_run(s, cap, es) == s1 + es.drop_first());
                assert((s + es).skip(s.len() + es.len() - cap) =~= s1 + es.drop_first());
            } else {
                assert((s + es).skip(s.len() + es.len() - cap) =~= (s1 + es.drop_first()).skip(
                    s1.len() + es.drop_first().len() - cap,
                ));
            }
        }
    }
}

/// Pushing a run and then one more element is pushing the extended run.
pub proof fn lemma_push_run_snoc<T>(s: Seq<T>, cap: nat, es: Seq<T>, e: T)
    ensures
        push_run(s, cap, es.push(e)) == push_model(push_run(s, cap, es), cap, e),
    decreases es.len(),
{
    if es.len() == 0 {
        assert(es.push(e)[0] == e);
        assert(es.push(e).drop_first() =~= Seq::<T>::empty());
        assert(push_run(push_model(s, cap, e), cap, Seq::<T>::empty()) == push_model(s, cap, e));
        assert(push_run(s, cap, es.push(e)) == push_run(
            push_model(s, cap, e),
            cap,
            Seq::<T>::empty(),
        ));
    } else {
        assert(es.push(e)[0] == es[0]);
        assert(es.push(e).drop_first() =~= es.drop_first().push(e));
        lemma_push_run_snoc(push_model(s, cap, es[0]), cap, es.drop_first(), e);
        assert(push_run(s, cap, es.push(e)) == push_run(
            push_model(s, cap, es[0]),
            cap,
            es.drop_first().push(e),
        ));
        assert(push_run(s, cap, es) == push_run(push_model(s, cap, es[0]), cap, es.drop_first()));
    }
}

/// The rendered output for the remaining script `ops`, given the lines not
/// yet flushed (`buf`) and the two cursor positions.
pub open spec fn render_model<T>(
    ops: Seq<Op<T>>,
    a: Seq<T>,
    b: Seq<T>,
    cap: nat,
    buf: Seq<T>,
    ai: int,
    bi: int,
) -> Seq<TaggedLine<T>>
    decreases ops.len(),
{
    if ops.len() == 0 {
        as_context(buf)
    } else {
        match ops[0] {
            Op::Nop(n) => render_model(
                ops.drop_first(),
                a,
                b,
                cap,
                push_run(buf, cap, a.subrange(ai, ai + n)),
                ai + n,
                bi + n,
            ),
            Op::Ins(_) => as_context(buf) + seq![(TaggedLine { tag: Tag::Added, text: b[bi] })]
                + render_model(ops.drop_first(), a, b, cap, Seq::empty(), ai, bi + 1),
            Op::Del(_) => as_context(buf) + seq![(TaggedLine { tag: Tag::Removed, text: a[ai] })]
                + render_model(ops.drop_first(), a, b, cap, Seq::empty(), ai + 1, bi),
        }
    }
}

/// The full rendering of `ops` against `a` and `b` with context radius
/// `radius` (buffer capacity `2 * radius`).
pub open spec fn render_spec<T>(ops: Seq<Op<T>>, a: Seq<T>, b: Seq<T>, radius: nat) -> Seq<
    TaggedLine<T>,
> {
    render_model(ops, a, b, 2 * radius, Seq::empty(), 0, 0)
}

/// A fixed-capacity buffer of the most recent unflushed context lines.
pub struct ContextBuffer<T> {
    cap: usize,
    buf: Vec<T>,
}

impl<T: Copy> ContextBuffer<T> {
    /// The buffer never holds more than its capacity.
    pub closed spec fn wf(self) -> bool {
        self.buf@.len() <= self.cap
    }

    /// The buffered lines, oldest first.
    pub closed spec fn contents(self) -> Seq<T> {
        self.buf@
    }

    /// The fixed capacity.
    pub closed spec fn capacity(self) -> usize {
        self.cap
    }

    /// An empty buffer of capacity `cap`.
    pub fn new(cap: usize) -> (r: Self)
        ensures
            r.wf(),
            r.capacity() == cap,
            r.contents() == Seq::<T>::empty(),
    {
        ContextBuffer { cap, buf: Vec::new() }
    }

    /// Pushes one line, silently evicting the oldest once full.
    pub fn push(&mut self, x: T)
        requires
            old(self).wf(),
        ensures
            final(self).wf(),
            final(self).capacity() == old(self).capacity(),
            final(self).contents() == push_model(
                old(self).contents(),
                old(self).capacity() as nat,
                x,
            ),
    {
        if self.cap == 0 {
            proof {
                assert(push_model(self.contents(), 0, x) =~= self.buf@);
            }
            return ;
        }
        if self.buf.len() == self.cap {
            self.buf.remove(0);
            proof {
                assert(old(self).buf@.remove(0) =~= old(self).buf@.drop_first());
            }
        }
        self.buf.push(x);
        proof {
            assert(final(self).contents() =~= push_model(
                old(self).contents(),
                old(self).capacity() as nat,
                x,
            ));
        }
    }

    /// Empties the buffer, appending its lines to `out` as `Context` lines
    /// in insertion order.
    pub fn flush_into(&mut self, out: &mut Vec<TaggedLine<T>>)
        requires
            old(self).wf(),
        ensures
            final(self).wf(),
            final(self).capacity() == old(self).capacity(),
            final(self).contents() == Seq::<T>::empty(),
            final(out)@ == old(out)@ + as_context(old(self).contents()),
    {
        let mut k: usize = 0;
        while k < self.buf.len()
            invariant
                k <= self.buf@.len(),
                self == old(self),
                out@ == old(out)@ + as_context(self.buf@.take(k as int)),
            decreases self.buf@.len() - k,
        {
            let x = self.buf[k];
            out.push(TaggedLine { tag: Tag::Context, text: x });
            proof {
                assert(self.buf@.take(k + 1) =~= self.buf@.take(k as int).push(self.buf@[k as int]));
                assert(old(out)@ + as_context(self.buf@.take(k + 1)) =~= (old(out)@ + as_context(
                    self.buf@.take(k as int),
                )).push((TaggedLine { tag: Tag::Context, text: self.buf@[k as int] })));
            }
            k = k + 1;
        }
        proof {
            assert(self.buf@.take(self.buf@.len() as int) =~= self.buf@);
        }
        self.buf.clear();
    }
}

/// Streams the edit script `ops` against `a` and `b` through a context
/// buffer of capacity `2 * radius`, returning the tagged output lines.
/// The precondition asks that the script consume both sequences exactly;
/// under it both cursors end exhausted and no internal fault can arise.
#[verifier::rlimit(60)]
pub fn render<T: Copy>(ops: &Vec<Op<T>>, a: &[T], b: &[T], radius: usize) -> (r: Vec<
    TaggedLine<T>,
>)
    requires
        script_fits(ops@, a@.len() as int, b@.len() as int),
        2 * radius <= usize::MAX as int,
    ensures
        r@ == render_spec(ops@, a@, b@, radius as nat),
{
    let na = a.len();
    let nb = b.len();
    let cap = 2 * radius;
    let mut out: Vec<TaggedLine<T>> = Vec::new();
    let mut cb: ContextBuffer<T> = ContextBuffer::new(cap);
    let mut ai: usize = 0;
    let mut bi: usize = 0;
    let mut k: usize = 0;
    proof {
        assert(ops@.skip(0) =~= ops@);
        assert(out@ + render_model(ops@, a@, b@, cap as nat, cb.contents(), 0, 0) =~= render_model(
            ops@,
            a@,
            b@,
            cap as nat,
            Seq::empty(),
            0,
            0,
        ));
    }
    while k < ops.len()
        invariant
            k <= ops@.len(),
            ai <= na,
            bi <= nb,
            na == a@.len(),
            nb == b@.len(),
            cb.wf(),
            cb.capacity() == cap,
            cap == 2 * radius,
            fits_from(ops@.skip(k as int), na as int, nb as int, ai as int, bi as int),
            render_spec(ops@, a@, b@, radius as nat) == out@ + render_model(
                ops@.skip(k as int),
                a@,
                b@,
                cap as nat,
                cb.contents(),
                ai as int,
                bi as int,
            ),
        decreases ops@.len() - k,
    {
        let ghost rest = ops@.skip(k as int);
        let ghost out0 = out@;
        let ghost cbc = cb.contents();
        let ghost ai0 = ai as int;
        let ghost bi0 = bi as int;
        proof {
            assert(rest[0] == ops@[k as int]);
            assert(rest.drop_first() =~= ops@.skip(k as int + 1));
        }
        match ops[k] {
            Op::Nop(n) => {
                let mut t: usize = 0;
                while t < n
                    invariant
                        t <= n,
                        0 <= ai0,
                        ai as int == ai0 + t,
                        ai0 + n <= a@.len(),
                        na == a@.len(),
                        cb.wf(),
                        cb.capacity() == cap,
                        cb.contents() == push_run(cbc, cap as nat, a@.subrange(ai0, ai0 + t)),
                    decreases n - t,
                {
                    proof {
                        assert(a@.subrange(ai0, ai0 + t + 1) =~= a@.subrange(ai0, ai0 + t).push(
                            a@[ai0 + t],
                        ));
                        lemma_push_run_snoc(cbc, cap as nat, a@.subrange(ai0, ai0 + t), a@[ai0 + t]);
                    }
                    let x = a[ai];
                    cb.push(x);
                    ai = ai + 1;
                    t = t + 1;
                }
                bi = bi + n;
            },
            Op::Ins(_) => {
                cb.flush_into(&mut out);
                let y = b[bi];
                out.push(TaggedLine { tag: Tag::Added, text: y });
                bi = bi + 1;
                proof {
                    assert(out@ =~= out0 + (as_context(cbc) + seq![
                        (TaggedLine { tag: Tag::Added, text: b@[bi0] }),
                    ]));
                }
            },
            Op::Del(_) => {
                cb.flush_into(&mut out);
                let x = a[ai];
                out.push(TaggedLine { tag: Tag::Removed, text: x });
                ai = ai + 1;
                proof {
                    assert(out@ =~= out0 + (as_context(cbc) + seq![
                        (TaggedLine { tag: Tag::Removed, text: a@[ai0] }),
                    ]));
                }
            },
        }
        k = k + 1;
        proof {
            assert(out@ + render_model(
                ops@.skip(k as int),
                a@,
                b@,
                cap as nat,
                cb.contents(),
                ai as int,
                bi as int,
            ) =~= out0 + render_model(rest, a@, b@, cap as nat, cbc, ai0, bi0));
        }
    }
    proof {
        assert(ops@.skip(ops@.len() as int) =~= Seq::<Op<T>>::empty());
    }
    cb.flush_into(&mut out);
    proof {
        assert(out@ =~= render_spec(ops@, a@, b@, radius as nat));
    }
    out
}

} // verus!
