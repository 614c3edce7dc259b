use vstd::prelude::*;
use crate::heap::{Heap, index_of, MAX_OBJECTS};
use crate::config::{check_text, ConfigError};
use vstd::string::StringSliceAdditionalSpecFns;
use crate::matches::{Matches, chain_ready, spans_from, total_length, lemma_spans_len};

verus! {

/// The spans that a sequence has still to yield.
pub open spec fn pending_spans(heap: &Heap, m: &Matches) -> Seq<(int, int)> {
    match m.cursor {
        Some(c) => spans_from(heap, c),
        None => Seq::empty(),
    }
}

/// The sequence is over, or its cursors are ready to its end.
pub open spec fn matches_ready(heap: &Heap, m: &Matches) -> bool {
    m.cursor matches Some(c) ==> chain_ready(heap, c)
}

/// Measure that each step of a ready sequence lowers.
pub open spec fn remaining(m: &Matches) -> int {
    match m.cursor {
        Some(c) => index_of(c) + 1,
        None => 0,
    }
}

/// The reference a sequence holds: one while it runs, none once it is over.
pub open spec fn held(m: &Matches) -> int {
    if m.cursor is Some { 1 } else { 0 }
}

/// Forward spans have a total length of at least zero.
pub proof fn lemma_total_nonneg(heap: &Heap, c: usize)
    requires
        chain_ready(heap, c),
    ensures
        total_length(spans_from(heap, c)) >= 0,
    decreases index_of(c)
{
    let s = spans_from(heap, c);
    if s.len() > 0 {
        let n = crate::matches::next_of(heap, c);
        lemma_total_nonneg(heap, n);
        assert(s.drop_first() =~= spans_from(heap, n));
    }
}

/// One trial of the `count` model over `haystack`, which must cross into
/// the runtime as a C string (else `NulByte`, before anything is touched):
/// drains the sequence and returns how many
/// spans it yielded. The trial releases exactly the one reference that the
/// sequence held, so repeated trials leave the heap's bookkeeping balanced.
pub fn model_count(heap: &mut Heap, haystack: &str, m: Matches) -> (r: Result<usize, ConfigError>)
    requires
        old(heap).wf(),
        matches_ready(old(heap), &m),
    ensures
        final(heap).wf(),
        r is Err <==> haystack.spec_bytes().contains(0u8),
        r matches Err(e) ==> e == ConfigError::NulByte && *final(heap) == *old(heap),
        r matches Ok(n) ==> {
            &&& n == pending_spans(old(heap), &m).len()
            &&& final(heap).net() == old(heap).net() + held(&m)
        },
{
    if let Err(e) = check_text(haystack) {
        return Err(e);
    }
    let mut m = m;
    let ghost m0 = m;
    let ghost total = pending_spans(heap, &m).len();
    proof {
        if let Some(c) = m.cursor {
            lemma_spans_len(heap, c);
        }
    }
    let mut count: usize = 0;
    loop
        invariant
            heap.wf(),
            matches_ready(heap, &m),
            count + pending_spans(heap, &m).len() == total,
            total <= MAX_OBJECTS,
            heap.net() == old(heap).net() + held(&m0) - held(&m),
        ensures
            m.cursor is None,
        decreases remaining(&m),
    {
        match m.next(heap) {
            Some(_) => {
                count = count + 1;
            },
            None => {
                break ;
            },
        }
    }
    Ok(count)
}

/// One trial of the `count-spans` model over `haystack` (refused with
/// `NulByte` as in `model_count`): drains the sequence and returns the
/// summed length `end - start` of its spans. Like `model_count`, it releases
/// exactly the one reference that the sequence held.
pub fn model_count_spans(heap: &mut Heap, haystack: &str, m: Matches) -> (r: Result<usize, ConfigError>)
    requires
        old(heap).wf(),
        matches_ready(old(heap), &m),
        total_length(pending_spans(old(heap), &m)) <= usize::MAX,
    ensures
        final(heap).wf(),
        r is Err <==> haystack.spec_bytes().contains(0u8),
        r matches Err(e) ==> e == ConfigError::NulByte && *final(heap) == *old(heap),
        r matches Ok(n) ==> {
            &&& n == total_length(pending_spans(old(heap), &m))
            &&& final(heap).net() == old(heap).net() + held(&m)
        },
{
    if let Err(e) = check_text(haystack) {
        return Err(e);
    }
    let mut m = m;
    let ghost m0 = m;
    let ghost total = total_length(pending_spans(heap, &m));
    let mut sum: usize = 0;
    loop
        invariant
            heap.wf(),
            matches_ready(heap, &m),
            sum + total_length(pending_spans(heap, &m)) == total,
            total <= usize::MAX,
            heap.net() == old(heap).net() + held(&m0) - held(&m),
        ensures
            m.cursor is None,
        decreases remaining(&m),
    {
        let ghost before = pending_spans(heap, &m);
        proof {
            if let Some(c) = m.cursor {
                lemma_total_nonneg(heap, c);
            }
        }
        match m.next(heap) {
            Some((start, end)) => {
                proof {
                    if let Some(c) = m.cursor {
                        lemma_total_nonneg(heap, c);
                    }
                }
                assert(before.drop_first() == pending_spans(heap, &m));
                sum = sum + (end - start);
            },
            None => {
                break ;
            },
        }
    }
    Ok(sum)
}

} // verus!
