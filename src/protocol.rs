use vstd::prelude::*;
use crate::bridge::is_scalar_spec;

verus! {

/// One step of reference bookkeeping on a foreign value.
#[derive(PartialEq, Eq, Structural, Clone, Copy, Debug)]
pub enum RcOp {
    /// Take one more reference (nothing for a scalar).
    Retain(usize),
    /// Give one reference up (nothing for a scalar).
    Release(usize),
}

/// The steps that decode an option value `wrapper`: when it is present,
/// retain its payload, then release the wrapper; else release the wrapper.
pub fn option_steps(wrapper: usize, present: bool, payload: usize) -> (r: Vec<RcOp>)
    ensures
        present ==> r@ == seq![RcOp::Retain(payload), RcOp::Release(wrapper)],
        !present ==> r@ == seq![RcOp::Release(wrapper)],
{
    let mut r: Vec<RcOp> = Vec::new();
    if present {
        r.push(RcOp::Retain(payload));
    }
    r.push(RcOp::Release(wrapper));
    r
}

/// The steps that decode a pair `wrapper` of `fst` and `snd`: retain both
/// children, then release the wrapper.
pub fn pair_steps(wrapper: usize, fst: usize, snd: usize) -> (r: Vec<RcOp>)
    ensures
        r@ == seq![RcOp::Retain(fst), RcOp::Retain(snd), RcOp::Release(wrapper)],
{
    let mut r: Vec<RcOp> = Vec::new();
    r.push(RcOp::Retain(fst));
    r.push(RcOp::Retain(snd));
    r.push(RcOp::Release(wrapper));
    r
}

/// The steps before each trial: the sequence's constructor consumes one
/// reference to the automaton and one to the haystack, so both are retained.
pub fn trial_retains(automaton: usize, haystack: usize) -> (r: Vec<RcOp>)
    ensures
        r@ == seq![RcOp::Retain(automaton), RcOp::Retain(haystack)],
{
    let mut r: Vec<RcOp> = Vec::new();
    r.push(RcOp::Retain(automaton));
    r.push(RcOp::Retain(haystack));
    r
}

/// What the engine's advance call answered, as read from its result before
/// any step is taken: absent, or present with the step pair, the span pair,
/// the next cursor and the two offsets as handles.
#[derive(PartialEq, Eq, Structural, Clone, Copy, Debug)]
pub enum Answer {
    Absent { wrapper: usize },
    Present { wrapper: usize, step: usize, span: usize, next: usize, start: usize, end: usize },
}

/// The net change, in references the host holds to `h`, that the steps bring.
pub open spec fn held_change(ops: Seq<RcOp>, h: usize) -> int
    decreases ops.len()
{
    if ops.len() == 0 {
        0
    } else {
        held_change(ops.drop_last(), h) + match ops.last() {
            RcOp::Retain(x) => if x == h { 1int } else { 0int },
            RcOp::Release(x) => if x == h { -1int } else { 0int },
        }
    }
}

/// The steps of a present answer, in the order `Matches::on_answer` gives them.
pub open spec fn present_steps(
    wrapper: usize,
    step: usize,
    span: usize,
    next: usize,
    start: usize,
    end: usize,
) -> Seq<RcOp> {
    seq![
        RcOp::Retain(step),
        RcOp::Release(wrapper),
        RcOp::Retain(span),
        RcOp::Retain(next),
        RcOp::Release(step),
        RcOp::Retain(start),
        RcOp::Retain(end),
        RcOp::Release(span),
    ]
}

/// A step that yields a span gives up the host's reference to the answer,
/// takes one to the next cursor, and leaves every other heap value it
/// touches as it found it: what it retains it releases.
pub proof fn lemma_step_balance(
    wrapper: usize,
    step: usize,
    span: usize,
    next: usize,
    start: usize,
    end: usize,
    h: usize,
)
    requires
        is_scalar_spec(start),
        is_scalar_spec(end),
        !is_scalar_spec(h),
        wrapper != step,
        wrapper != span,
        wrapper != next,
        step != span,
        step != next,
        span != next,
    ensures
        held_change(present_steps(wrapper, step, span, next, start, end), h) == (if h == next {
            1int
        } else {
            0int
        }) - (if h == wrapper {
            1int
        } else {
            0int
        }),
{
    let ops = present_steps(wrapper, step, span, next, start, end);
    assert(h != start && h != end);
    assert(ops.drop_last() =~= ops.take(7));
    assert(ops.take(7).drop_last() =~= ops.take(6));
    assert(ops.take(6).drop_last() =~= ops.take(5));
    assert(ops.take(5).drop_last() =~= ops.take(4));
    assert(ops.take(4).drop_last() =~= ops.take(3));
    assert(ops.take(3).drop_last() =~= ops.take(2));
    assert(ops.take(2).drop_last() =~= ops.take(1));
    assert(ops.take(1).drop_last() =~= Seq::<RcOp>::empty());
    reveal_with_fuel(held_change, 9);
}

/// The last step ends the host's hold on the answer and takes nothing.
pub proof fn lemma_last_step_balance(wrapper: usize, h: usize)
    ensures
        held_change(seq![RcOp::Release(wrapper)], h) == if h == wrapper { -1int } else { 0int },
{
    assert(seq![RcOp::Release(wrapper)].drop_last() =~= Seq::<RcOp>::empty());
    reveal_with_fuel(held_change, 2);
}

/// Before a trial the host takes one reference each to the automaton and
/// the haystack, which the sequence's constructor then consumes: across a
/// trial their counts come back to where they were.
pub proof fn lemma_trial_balance(automaton: usize, haystack: usize)
    requires
        automaton != haystack,
    ensures
        held_change(seq![RcOp::Retain(automaton), RcOp::Retain(haystack)], automaton) == 1,
        held_change(seq![RcOp::Retain(automaton), RcOp::Retain(haystack)], haystack) == 1,
{
    let ops = seq![RcOp::Retain(automaton), RcOp::Retain(haystack)];
    assert(ops.drop_last() =~= seq![RcOp::Retain(automaton)]);
    assert(ops.drop_last().drop_last() =~= Seq::<RcOp>::empty());
    reveal_with_fuel(held_change, 3);
}

} // verus!
