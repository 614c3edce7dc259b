use vstd::prelude::*;
use crate::bridge::{is_scalar_spec, lean_unbox};
use crate::protocol::{RcOp, Answer, option_steps, pair_steps, present_steps};
use crate::heap::{
    Heap, index_of, lemma_child_below, lemma_frame, lemma_outside_records,
    lemma_index_injective, lemma_free_one, release_frees, rc_after_release, released,
};
use crate::decode::{
    decode_option, decode_pair, option_shaped, pair_shaped, heap_count, child_rc_after,
    wrapper_released,
};

verus! {

/// The answer that the advance call gives for cursor `c` in this simulated
/// heap. By the simulation's convention a cursor record holds its answer as
/// its only child; the real engine computes the answer when called.
pub open spec fn answer_of(heap: &Heap, c: usize) -> usize {
    heap.fields_of(c)[0]
}

/// The payload of a present answer: a pair (span, next cursor).
pub open spec fn step_of(heap: &Heap, c: usize) -> usize {
    heap.fields_of(answer_of(heap, c))[0]
}

/// The span record of a present answer: a pair of scalar offsets.
pub open spec fn span_of(heap: &Heap, c: usize) -> usize {
    heap.fields_of(step_of(heap, c))[0]
}

/// The cursor that follows a present answer.
pub open spec fn next_of(heap: &Heap, c: usize) -> usize {
    heap.fields_of(step_of(heap, c))[1]
}

/// Start offset of the span that cursor `c` yields.
pub open spec fn start_of(heap: &Heap, c: usize) -> int {
    heap.fields_of(span_of(heap, c))[0] as int / 2
}

/// End offset of the span that cursor `c` yields.
pub open spec fn end_of(heap: &Heap, c: usize) -> int {
    heap.fields_of(span_of(heap, c))[1] as int / 2
}

/// True iff the engine's answer for `c` says the sequence is over.
pub open spec fn is_last(heap: &Heap, c: usize) -> bool {
    heap.tag_of(answer_of(heap, c)) == 0
}

/// `c` is a live cursor whose answer has the engine's result type,
/// `Option ((Pos × Pos) × Matches)`, one level deep: an absent answer is the
/// scalar `none`, and the span record was made after the cursor that follows
/// it, so it is no part of the rest of the sequence.
pub open spec fn cursor_ready(heap: &Heap, c: usize) -> bool {
    &&& heap.live(c)
    &&& !is_scalar_spec(c)
    &&& heap.fields_of(c).len() == 1
    &&& heap.retainable(answer_of(heap, c), 1)
    &&& option_shaped(heap, answer_of(heap, c))
    &&& is_last(heap, c) ==> is_scalar_spec(answer_of(heap, c))
    &&& !is_last(heap, c) ==> {
        &&& pair_shaped(heap, step_of(heap, c))
        &&& !is_scalar_spec(span_of(heap, c))
        &&& !is_scalar_spec(next_of(heap, c))
        &&& index_of(next_of(heap, c)) < index_of(span_of(heap, c))
        &&& pair_shaped(heap, span_of(heap, c))
        &&& is_scalar_spec(heap.fields_of(span_of(heap, c))[0])
        &&& is_scalar_spec(heap.fields_of(span_of(heap, c))[1])
    }
}

/// `c` and every cursor after it are ready, each span runs forward
/// (`start <= end`), and the sequence is finite (each cursor was made before
/// the one that leads to it).
pub open spec fn chain_ready(heap: &Heap, c: usize) -> bool
    decreases index_of(c)
{
    &&& cursor_ready(heap, c)
    &&& !is_last(heap, c) ==> {
        let n = next_of(heap, c);
        &&& start_of(heap, c) <= end_of(heap, c)
        &&& 0 <= index_of(n) < index_of(c)
        &&& chain_ready(heap, n)
    }
}

/// The spans that the cursors from `c` on yield, in order.
pub open spec fn spans_from(heap: &Heap, c: usize) -> Seq<(int, int)>
    decreases index_of(c)
{
    if !heap.is_obj(c) || heap.fields_of(c).len() == 0 || is_last(heap, c) {
        Seq::empty()
    } else {
        let n = next_of(heap, c);
        let here = seq![(start_of(heap, c), end_of(heap, c))];
        if 0 <= index_of(n) < index_of(c) {
            here + spans_from(heap, n)
        } else {
            here
        }
    }
}

/// Sum of `end - start` over the spans.
pub open spec fn total_length(spans: Seq<(int, int)>) -> int
    decreases spans.len()
{
    if spans.len() == 0 {
        0
    } else {
        (spans[0].1 - spans[0].0) + total_length(spans.drop_first())
    }
}

/// The spans depend on the records' tags and children alone.
pub proof fn lemma_spans_frame(h: &Heap, h2: &Heap, c: usize)
    requires
        h.len() == h2.len(),
        h.tags@ == h2.tags@,
        h.fields@ == h2.fields@,
    ensures
        spans_from(h, c) == spans_from(h2, c),
    decreases index_of(c)
{
    if h.is_obj(c) && h.fields_of(c).len() != 0 && !is_last(h, c) {
        let n = next_of(h, c);
        if 0 <= index_of(n) < index_of(c) {
            lemma_spans_frame(h, h2, n);
        }
    }
}

/// Readiness from `c` on depends on records made before `c` and on `c` being live.
pub proof fn lemma_chain_frame(h: &Heap, h2: &Heap, c: usize)
    requires
        h.wf(),
        h2.wf(),
        h.len() == h2.len(),
        h.tags@ == h2.tags@,
        h.fields@ == h2.fields@,
        forall|k: int| 0 <= k < index_of(c) ==> h.rcs@[k] == h2.rcs@[k] && h.freed@[k] == h2.freed@[k],
        h.live(c) == h2.live(c),
        h.is_obj(c),
    ensures
        chain_ready(h, c) == chain_ready(h2, c),
    decreases index_of(c)
{
    if h.live(c) && h.fields_of(c).len() >= 1 {
        let a = answer_of(h, c);
        if !is_scalar_spec(a) {
            lemma_child_below(h, c, 0);
            if h.fields_of(a).len() >= 1 {
                let p = h.fields_of(a)[0];
                if !is_scalar_spec(p) {
                    lemma_child_below(h, a, 0);
                    if h.fields_of(p).len() >= 2 {
                        let sp = h.fields_of(p)[0];
                        let n = h.fields_of(p)[1];
                        if !is_scalar_spec(sp) {
                            lemma_child_below(h, p, 0);
                        }
                        if !is_scalar_spec(n) {
                            lemma_child_below(h, p, 1);
                            lemma_chain_frame(h, h2, n);
                        }
                    }
                }
            }
        }
    }
}

/// The spans from `c` on number at most the records below it.
pub proof fn lemma_spans_len(h: &Heap, c: usize)
    requires
        index_of(c) >= 0,
    ensures
        spans_from(h, c).len() <= index_of(c) + 1,
    decreases index_of(c)
{
    if h.fields_of(c).len() != 0 && !is_last(h, c) {
        let n = next_of(h, c);
        if 0 <= index_of(n) < index_of(c) {
            lemma_spans_len(h, n);
        }
    }
}

/// Every span that a ready sequence yields runs forward from a non-negative
/// start: `0 <= start <= end`.
pub proof fn lemma_spans_forward(heap: &Heap, c: usize)
    requires
        chain_ready(heap, c),
    ensures
        forall|i: int|
            0 <= i < spans_from(heap, c).len() ==> 0 <= (#[trigger] spans_from(heap, c)[i]).0
                <= spans_from(heap, c)[i].1,
    decreases index_of(c)
{
    let s = spans_from(heap, c);
    if s.len() > 0 {
        let n = next_of(heap, c);
        lemma_spans_forward(heap, n);
        assert forall|i: int| 0 <= i < s.len() implies 0 <= (#[trigger] s[i]).0 <= s[i].1 by {
            if i > 0 {
                assert(s[i] == spans_from(heap, n)[i - 1]);
            }
        }
    }
}

/// The heap `new` is `old` after the final step from cursor `c`: the engine
/// consumed the cursor (its count dropped by one) and nothing else changed.
pub open spec fn ended(new: &Heap, old: &Heap, c: usize) -> bool {
    &&& new.same_except(old, index_of(c))
    &&& new.rc(c) == rc_after_release(old.rc(c))
    &&& new.freed@[index_of(c)] == release_frees(old.rc(c))
}

/// The heap `new` is `old` after a step from cursor `c` that yielded a span.
/// The engine consumed the cursor. The host released the answer, the step
/// pair and the span pair once each, after retaining what it took from each;
/// whatever a release freed, the runtime released its children. The host
/// keeps one reference to the next cursor. No other record changed.
pub open spec fn stepped(new: &Heap, old: &Heap, c: usize) -> bool {
    let a = answer_of(old, c);
    let p = step_of(old, c);
    let sp = span_of(old, c);
    let n = next_of(old, c);
    let ra = child_rc_after(old.rc(a), release_frees(old.rc(c)));
    let rp = child_rc_after(old.rc(p), release_frees(ra as i32));
    let rs = child_rc_after(old.rc(sp), release_frees(rp as i32));
    &&& new.same_outside(old, Heap::records_of(seq![c, a, p, sp, n]))
    &&& new.rc(c) == rc_after_release(old.rc(c))
    &&& new.freed@[index_of(c)] == release_frees(old.rc(c))
    &&& new.rc(a) == rc_after_release(ra as i32)
    &&& new.freed@[index_of(a)] == release_frees(ra as i32)
    &&& new.rc(p) == rc_after_release(rp as i32)
    &&& new.freed@[index_of(p)] == release_frees(rp as i32)
    &&& new.rc(sp) == rc_after_release(rs as i32)
    &&& new.freed@[index_of(sp)] == release_frees(rs as i32)
    &&& new.rc(n) == child_rc_after(old.rc(n), release_frees(rp as i32))
    &&& new.live(n)
}

/// The simulation's advance call, standing in for the engine's: by the
/// convention of `answer_of` it consumes the cursor and hands over one
/// reference to the answer the cursor record holds. It is no model of how
/// the engine finds matches.
pub fn advance(heap: &mut Heap, c: usize) -> (r: usize)
    requires
        old(heap).wf(),
        cursor_ready(old(heap), c),
    ensures
        final(heap).wf(),
        r == answer_of(old(heap), c),
        index_of(r) < index_of(c) || is_scalar_spec(r),
        final(heap).same_outside(old(heap), Heap::records_of(seq![c, r])),
        wrapper_released(final(heap), old(heap), c),
        !is_scalar_spec(r) ==> final(heap).rc(r) == child_rc_after(
            old(heap).rc(r),
            release_frees(old(heap).rc(c)),
        ),
        final(heap).valid(r),
        final(heap).releases() == old(heap).releases() + 1,
        final(heap).retains() == old(heap).retains() + heap_count(r),
{
    let r = heap.ctor_get(c, 0);
    heap.inc(r);
    let ghost h1 = *heap;
    heap.dec(c);
    proof {
        let s = Heap::records_of(seq![c, r]);
        assert(s.contains(index_of(c))) by { assert(seq![c, r][0] == c); }
        if !is_scalar_spec(r) {
            assert(s.contains(index_of(r))) by { assert(seq![c, r][1] == r); }
        }
        if release_frees(h1.rc(c)) {
            let ic = index_of(c);
            assert(h1.kids()[ic] == h1.fields@[ic]@);
            assert(h1.kids()[ic] =~= seq![r]);
            lemma_free_one(h1.counts(), h1.kids(), c, r);
        }
    }
    r
}

/// A single-pass sequence of match spans. It owns one reference to its
/// cursor until the sequence is over; then it holds nothing.
pub struct Matches {
    pub cursor: Option<usize>,
}

impl Matches {
    /// Takes over the cursor that the engine's begin entry point returned.
    pub fn new(cursor: usize) -> (r: Matches)
        ensures
            r.cursor == Some(cursor),
    {
        Matches { cursor: Some(cursor) }
    }

    /// The cursor to hand to the engine's advance call, if the sequence is
    /// not over. The call consumes it.
    pub fn pending(&self) -> (r: Option<usize>)
        ensures
            r == self.cursor,
    {
        self.cursor
    }

    /// One step of the sequence, decided from what the engine's advance call
    /// answered for the pending cursor. Returns the bookkeeping to carry out,
    /// in order, and the span if there is one. An absent answer ends the
    /// sequence; a present one is decoded as `option_steps` on the answer,
    /// then `pair_steps` on the step pair and on the span pair, and its next
    /// cursor becomes the pending one.
    pub fn on_answer(&mut self, a: Answer) -> (r: (Vec<RcOp>, Option<(usize, usize)>))
        requires
            old(self).cursor is Some,
            a matches Answer::Present { start, end, .. } ==> is_scalar_spec(start) && is_scalar_spec(
                end,
            ),
        ensures
            a matches Answer::Absent { wrapper } ==> {
                &&& r.0@ == seq![RcOp::Release(wrapper)]
                &&& r.1 is None
                &&& final(self).cursor is None
            },
            a matches Answer::Present { wrapper, step, span, next, start, end } ==> {
                &&& r.0@ == present_steps(wrapper, step, span, next, start, end)
                &&& r.1 == Some((start / 2, end / 2))
                &&& final(self).cursor == Some(next)
            },
    {
        match a {
            Answer::Absent { wrapper } => {
                let ops = option_steps(wrapper, false, wrapper);
                self.cursor = None;
                (ops, None)
            },
            Answer::Present { wrapper, step, span, next, start, end } => {
                let mut ops = option_steps(wrapper, true, step);
                let mut outer = pair_steps(step, span, next);
                let mut inner = pair_steps(span, start, end);
                ops.append(&mut outer);
                ops.append(&mut inner);
                assert(ops@ =~= seq![
                    RcOp::Retain(step),
                    RcOp::Release(wrapper),
                    RcOp::Retain(span),
                    RcOp::Retain(next),
                    RcOp::Release(step),
                    RcOp::Retain(start),
                    RcOp::Retain(end),
                    RcOp::Release(span),
                ]);
                self.cursor = Some(next);
                (ops, Some((lean_unbox(start), lean_unbox(end))))
            },
        }
    }

    /// The bookkeeping when the sequence is given up: release the pending
    /// cursor, if any. The sequence then holds nothing.
    pub fn on_drop(&mut self) -> (r: Vec<RcOp>)
        ensures
            old(self).cursor matches Some(c) ==> r@ == seq![RcOp::Release(c)],
            old(self).cursor is None ==> r@.len() == 0,
            final(self).cursor is None,
    {
        let mut r: Vec<RcOp> = Vec::new();
        if let Some(c) = self.cursor {
            r.push(RcOp::Release(c));
        }
        self.cursor = None;
        r
    }

    /// True once the sequence is over.
    pub fn is_exhausted(&self) -> (r: bool)
        ensures
            r == (self.cursor is None),
    {
        self.cursor.is_none()
    }

    /// The next span `(start, end)`, or `None` once the engine says the
    /// sequence is over, and on every call after that. Each step consumes the
    /// current cursor and keeps the one that follows; the retains and releases
    /// of a step that yields a span balance, and the final step releases the
    /// one reference the sequence held. On the simulated heap this carries
    /// out, through `decode_option` and `decode_pair`, the same `option_steps`
    /// and `pair_steps` whose concatenation `on_answer` returns to a caller
    /// that drives the real runtime.
    #[verifier::rlimit(30)]
    pub fn next(&mut self, heap: &mut Heap) -> (r: Option<(usize, usize)>)
        requires
            old(heap).wf(),
            old(self).cursor matches Some(c) ==> cursor_ready(old(heap), c),
        ensures
            final(heap).wf(),
            old(self).cursor is None ==> r is None && final(self).cursor is None && *final(heap)
                == *old(heap),
            old(self).cursor matches Some(c) ==> {
                &&& r is None <==> is_last(old(heap), c)
                &&& r is None ==> final(self).cursor is None && final(heap).net() == old(heap).net() + 1
                    && ended(final(heap), old(heap), c)
                &&& r matches Some(span) ==> {
                    &&& span.0 == start_of(old(heap), c)
                    &&& span.1 == end_of(old(heap), c)
                    &&& final(self).cursor == Some(next_of(old(heap), c))
                    &&& stepped(final(heap), old(heap), c)
                    &&& final(heap).live(next_of(old(heap), c))
                    &&& final(heap).net() == old(heap).net()
                }
            },
            old(self).cursor matches Some(c) ==> chain_ready(old(heap), c) ==> {
                &&& r is None ==> spans_from(old(heap), c).len() == 0
                &&& r matches Some(span) ==> {
                    &&& spans_from(old(heap), c).len() > 0
                    &&& spans_from(old(heap), c)[0] == (span.0 as int, span.1 as int)
                    &&& index_of(next_of(old(heap), c)) < index_of(c)
                    &&& chain_ready(final(heap), next_of(old(heap), c))
                    &&& spans_from(final(heap), next_of(old(heap), c)) == spans_from(
                        old(heap),
                        c,
                    ).drop_first()
                }
            },
    {
        match self.cursor {
            None => None,
            Some(c) => {
                let ghost h0 = *heap;
                let ghost a = answer_of(&h0, c);
                proof {
                    if !is_scalar_spec(a) {
                        lemma_child_below(&h0, c, 0);
                    }
                }
                let answer = advance(heap, c);
                let ghost h1 = *heap;
                proof {
                    let p = step_of(&h0, c);
                    if !is_last(&h0, c) && !is_scalar_spec(p) {
                        lemma_child_below(&h0, a, 0);
                        lemma_outside_records(seq![c, a], index_of(p));
                        lemma_frame(&h1, &h0, Heap::records_of(seq![c, a]), p);
                    }
                }
                match decode_option(heap, answer) {
                    None => {
                        proof {
                            assert forall|k: int| 0 <= k < heap.len() && k != index_of(c) implies heap.rcs@[k]
                                == h0.rcs@[k] && heap.freed@[k] == h0.freed@[k] by {
                                lemma_outside_records(seq![c, a], k);
                            }
                        }
                        self.cursor = None;
                        None
                    },
                    Some(step) => {
                        let ghost h2 = *heap;
                        let ghost sp = span_of(&h0, c);
                        let ghost n = next_of(&h0, c);
                        proof {
                            lemma_child_below(&h0, a, 0);
                            lemma_child_below(&h0, step, 0);
                            lemma_child_below(&h0, step, 1);
                            lemma_outside_records(seq![c, a], index_of(sp));
                            lemma_outside_records(seq![c, a], index_of(n));
                            lemma_frame(&h1, &h0, Heap::records_of(seq![c, a]), sp);
                            lemma_frame(&h1, &h0, Heap::records_of(seq![c, a]), n);
                            lemma_outside_records(seq![a, step], index_of(sp));
                            lemma_outside_records(seq![a, step], index_of(n));
                            lemma_frame(&h2, &h1, Heap::records_of(seq![a, step]), sp);
                            lemma_frame(&h2, &h1, Heap::records_of(seq![a, step]), n);
                        }
                        let (span, next) = decode_pair(heap, step);
                        let ghost h3 = *heap;
                        let (s, e) = decode_pair(heap, span);
                        proof {
                            lemma_index_injective(sp, n);
                            lemma_outside_records(seq![sp, s, e], index_of(n));
                            lemma_frame(&*heap, &h3, Heap::records_of(seq![sp, s, e]), n);
                            let h4 = *heap;
                            // where each record stood after each step
                            lemma_outside_records(seq![c, a], index_of(step));
                            lemma_frame(&h1, &h0, Heap::records_of(seq![c, a]), step);
                            lemma_outside_records(seq![a, step], index_of(c));
                            lemma_frame(&h2, &h1, Heap::records_of(seq![a, step]), c);
                            lemma_outside_records(seq![step, sp, n], index_of(c));
                            lemma_frame(&h3, &h2, Heap::records_of(seq![step, sp, n]), c);
                            lemma_outside_records(seq![step, sp, n], index_of(a));
                            lemma_frame(&h3, &h2, Heap::records_of(seq![step, sp, n]), a);
                            lemma_outside_records(seq![sp, s, e], index_of(c));
                            lemma_frame(&h4, &h3, Heap::records_of(seq![sp, s, e]), c);
                            lemma_outside_records(seq![sp, s, e], index_of(a));
                            lemma_frame(&h4, &h3, Heap::records_of(seq![sp, s, e]), a);
                            lemma_outside_records(seq![sp, s, e], index_of(step));
                            lemma_frame(&h4, &h3, Heap::records_of(seq![sp, s, e]), step);
                            let big = seq![c, a, step, sp, n];
                            assert(big[0] == c && big[1] == a && big[2] == step && big[3] == sp && big[4] == n);
                            assert forall|k: int| 0 <= k < h4.len() && !Heap::records_of(big).contains(k)
                                implies h4.rcs@[k] == h0.rcs@[k] && h4.freed@[k] == h0.freed@[k] by {
                                lemma_outside_records(seq![c, a], k);
                                lemma_outside_records(seq![a, step], k);
                                lemma_outside_records(seq![step, sp, n], k);
                                lemma_outside_records(seq![sp, s, e], k);
                            }
                            if chain_ready(&h0, c) {
                                assert forall|k: int| 0 <= k < index_of(n) implies h0.rcs@[k]
                                    == h4.rcs@[k] && h0.freed@[k] == h4.freed@[k] by {
                                    lemma_outside_records(seq![c, a], k);
                                    lemma_outside_records(seq![a, step], k);
                                    lemma_outside_records(seq![step, sp, n], k);
                                    lemma_outside_records(seq![sp, s, e], k);
                                }
                                lemma_chain_frame(&h0, &h4, n);
                                lemma_spans_frame(&h0, &h4, n);
                                assert(spans_from(&h0, c).drop_first() =~= spans_from(&h0, n));
                            }
                        }
                        let start = lean_unbox(s);
                        let end = lean_unbox(e);
                        self.cursor = Some(next);
                        Some((start, end))
                    },
                }
            },
        }
    }

    /// Gives up the sequence early: releases the cursor if one is still held.
    pub fn release(&mut self, heap: &mut Heap)
        requires
            old(heap).wf(),
            old(self).cursor matches Some(c) ==> old(heap).live(c) && !is_scalar_spec(c),
        ensures
            final(heap).wf(),
            final(self).cursor is None,
            old(self).cursor is None ==> *final(heap) == *old(heap),
            old(self).cursor is Some ==> final(heap).net() == old(heap).net() + 1,
            old(self).cursor matches Some(c) ==> {
                &&& final(heap).counts() == released(old(heap).counts(), old(heap).kids(), c)
                &&& final(heap).rc(c) == rc_after_release(old(heap).rc(c))
                &&& final(heap).freed@[index_of(c)] == release_frees(old(heap).rc(c))
                &&& !release_frees(old(heap).rc(c)) ==> final(heap).same_except(old(heap), index_of(c))
            },
    {
        if let Some(c) = self.cursor {
            heap.dec(c);
        }
        self.cursor = None;
    }
}

} // verus!
