use vstd::prelude::*;
use crate::bridge::is_scalar_spec;
use crate::protocol::{option_steps, pair_steps};
use crate::heap::{
    Heap, index_of, rc_after_retain, rc_after_release, release_frees, released, lemma_free_one,
    lemma_free_two,
};

verus! {

/// Count increase that a set of retains brings to a heap value: 0 for a scalar.
pub open spec fn heap_count(h: usize) -> nat {
    if is_scalar_spec(h) { 0 } else { 1 }
}

/// `v` is an option value: absent (discriminant 0), or present (record with
/// tag 1 whose one child is a value the host may hold and retain).
pub open spec fn option_shaped(heap: &Heap, v: usize) -> bool {
    &&& heap.valid(v)
    &&& heap.tag_of(v) == 0 || {
        &&& !is_scalar_spec(v)
        &&& heap.tag_of(v) == 1
        &&& heap.fields_of(v).len() == 1
        &&& heap.valid(heap.fields_of(v)[0])
        &&& heap.retainable(heap.fields_of(v)[0], 1)
    }
}

/// `v` is a pair record whose two children are values the host may hold and
/// retain (twice, should both be the same value).
pub open spec fn pair_shaped(heap: &Heap, v: usize) -> bool {
    &&& heap.live(v)
    &&& heap.fields_of(v).len() == 2
    &&& heap.valid(heap.fields_of(v)[0])
    &&& heap.valid(heap.fields_of(v)[1])
    &&& heap.retainable(heap.fields_of(v)[0], 2)
    &&& heap.retainable(heap.fields_of(v)[1], 2)
}

/// A child's count after it was retained once and the wrapper released:
/// when the release freed the wrapper, the runtime released the child again.
pub open spec fn child_rc_after(old_rc: i32, wrapper_freed: bool) -> int {
    if wrapper_freed { old_rc as int } else { rc_after_retain(old_rc) }
}

/// The same for a child held twice by a freed or surviving wrapper.
pub open spec fn twin_rc_after(old_rc: i32, wrapper_freed: bool) -> int {
    if wrapper_freed { old_rc as int } else { rc_after_retain(rc_after_retain(old_rc) as i32) }
}

/// What releasing the wrapper `v` left in `new`, given the heap `old` before.
pub open spec fn wrapper_released(new: &Heap, old: &Heap, v: usize) -> bool {
    !is_scalar_spec(v) ==> {
        &&& new.rc(v) == rc_after_release(old.rc(v))
        &&& new.freed@[index_of(v)] == release_frees(old.rc(v))
    }
}

/// Consumes the option value `v` by carrying out `option_steps`. Returns `None` exactly when it is absent,
/// else its payload, retained before the wrapper is released: the caller then
/// owns one reference to the payload and none to the wrapper. When that
/// release frees the wrapper, the runtime releases the wrapper's own reference
/// to the payload, so its count ends where it began: the reference passed to
/// the caller.
pub fn decode_option(heap: &mut Heap, v: usize) -> (r: Option<usize>)
    requires
        old(heap).wf(),
        option_shaped(old(heap), v),
    ensures
        final(heap).wf(),
        r is None <==> old(heap).tag_of(v) == 0,
        wrapper_released(final(heap), old(heap), v),
        r is None ==> {
            &&& is_scalar_spec(v) ==> *final(heap) == *old(heap)
            &&& !is_scalar_spec(v) ==> {
                &&& final(heap).counts() == released(old(heap).counts(), old(heap).kids(), v)
                &&& final(heap).len() == old(heap).len()
                &&& final(heap).tags@ == old(heap).tags@
                &&& final(heap).fields@ == old(heap).fields@
            }
            &&& final(heap).releases() == old(heap).releases() + heap_count(v)
            &&& final(heap).retains() == old(heap).retains()
        },
        r matches Some(c) ==> {
            &&& c == old(heap).fields_of(v)[0]
            &&& final(heap).valid(c)
            &&& !is_scalar_spec(c) ==> final(heap).rc(c) == child_rc_after(
                old(heap).rc(c),
                release_frees(old(heap).rc(v)),
            )
            &&& final(heap).same_outside(old(heap), Heap::records_of(seq![v, c]))
            &&& final(heap).releases() == old(heap).releases() + 1
            &&& final(heap).retains() == old(heap).retains() + heap_count(c)
        },
{
    let present = heap.obj_tag(v) != 0;
    let c = if present {
        heap.ctor_get(v, 0)
    } else {
        v
    };
    let ops = option_steps(v, present, c);
    if !present {
        heap.apply_op(ops[0]);
        None
    } else {
        heap.apply_op(ops[0]);
        let ghost h1 = *heap;
        heap.apply_op(ops[1]);
        proof {
            let s = Heap::records_of(seq![v, c]);
            assert(s.contains(index_of(v))) by { assert(seq![v, c][0] == v); }
            if !is_scalar_spec(c) {
                assert(s.contains(index_of(c))) by { assert(seq![v, c][1] == c); }
            }
            if release_frees(h1.rc(v)) {
                let iv = index_of(v);
                assert(h1.kids()[iv] == h1.fields@[iv]@);
                assert(h1.kids()[iv] =~= seq![c]);
                lemma_free_one(h1.counts(), h1.kids(), v, c);
            }
        }
        Some(c)
    }
}

/// Consumes the pair record `v` by carrying out `pair_steps`. Returns its two children, each retained
/// before the wrapper is released: the caller owns one reference to each.
/// When that release frees the pair, the runtime releases the pair's own
/// references to them, so each count ends where it began.
pub fn decode_pair(heap: &mut Heap, v: usize) -> (r: (usize, usize))
    requires
        old(heap).wf(),
        pair_shaped(old(heap), v),
    ensures
        final(heap).wf(),
        r.0 == old(heap).fields_of(v)[0],
        r.1 == old(heap).fields_of(v)[1],
        final(heap).valid(r.0),
        final(heap).valid(r.1),
        wrapper_released(final(heap), old(heap), v),
        r.0 != r.1 ==> {
            &&& !is_scalar_spec(r.0) ==> final(heap).rc(r.0) == child_rc_after(
                old(heap).rc(r.0),
                release_frees(old(heap).rc(v)),
            )
            &&& !is_scalar_spec(r.1) ==> final(heap).rc(r.1) == child_rc_after(
                old(heap).rc(r.1),
                release_frees(old(heap).rc(v)),
            )
        },
        r.0 == r.1 && !is_scalar_spec(r.0) ==> final(heap).rc(r.0) == twin_rc_after(
            old(heap).rc(r.0),
            release_frees(old(heap).rc(v)),
        ),
        final(heap).same_outside(old(heap), Heap::records_of(seq![v, r.0, r.1])),
        final(heap).releases() == old(heap).releases() + 1,
        final(heap).retains() == old(heap).retains() + heap_count(r.0) + heap_count(r.1),
{
    let fst = heap.ctor_get(v, 0);
    let snd = heap.ctor_get(v, 1);
    let ops = pair_steps(v, fst, snd);
    heap.apply_op(ops[0]);
    heap.apply_op(ops[1]);
    let ghost h2 = *heap;
    heap.apply_op(ops[2]);
    proof {
        let s = Heap::records_of(seq![v, fst, snd]);
        assert(s.contains(index_of(v))) by { assert(seq![v, fst, snd][0] == v); }
        if !is_scalar_spec(fst) {
            assert(s.contains(index_of(fst))) by { assert(seq![v, fst, snd][1] == fst); }
        }
        if !is_scalar_spec(snd) {
            assert(s.contains(index_of(snd))) by { assert(seq![v, fst, snd][2] == snd); }
        }
        if release_frees(h2.rc(v)) {
            let iv = index_of(v);
            assert(h2.kids()[iv] == h2.fields@[iv]@);
            assert(h2.kids()[iv] =~= seq![fst, snd]);
            lemma_free_two(h2.counts(), h2.kids(), v, fst, snd);
        }
    }
    (fst, snd)
}

} // verus!
