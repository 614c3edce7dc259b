use lean_bridge::bridge::lean_box;
use lean_bridge::decode::{decode_option, decode_pair};
use lean_bridge::config::ConfigError;
use lean_bridge::driver::{model_count, model_count_spans};
use lean_bridge::heap::Heap;
use lean_bridge::matches::Matches;

/// Builds, record by record, the answers an engine gives for these spans,
/// and returns the first cursor.
fn build_chain(heap: &mut Heap, spans: &[(usize, usize)]) -> usize {
    let mut cursor = heap.alloc_ctor(0, vec![lean_box(0)]);
    for &(start, end) in spans.iter().rev() {
        let span = heap.alloc_ctor(0, vec![lean_box(start), lean_box(end)]);
        let step = heap.alloc_ctor(0, vec![span, cursor]);
        let answer = heap.alloc_ctor(1, vec![step]);
        cursor = heap.alloc_ctor(0, vec![answer]);
    }
    cursor
}

#[test]
fn new_record_has_one_reference() {
    let mut heap = Heap::new();
    let h = heap.alloc_ctor(3, vec![lean_box(1)]);
    assert_eq!(h, 2);
    assert_eq!(heap.rc_of(h), 1);
    assert_eq!(heap.obj_tag(h), 3);
    assert_eq!(heap.ctor_num_objs(h), 1);
    assert_eq!(heap.ctor_get(h, 0), lean_box(1));
    let g = heap.alloc_ctor(0, vec![h]);
    assert_eq!(g, 4);
}

#[test]
fn retain_and_release_single_threaded() {
    let mut heap = Heap::new();
    let h = heap.alloc_ctor(0, vec![]);
    heap.inc(h);
    assert_eq!(heap.rc_of(h), 2);
    heap.dec(h);
    assert_eq!(heap.rc_of(h), 1);
    assert!(heap.is_valid(h));
    heap.dec(h);
    assert!(!heap.is_valid(h));
}

#[test]
fn retain_and_release_shared() {
    let mut heap = Heap::new();
    let h = heap.alloc_ctor(0, vec![]);
    heap.rcs[0] = -2;
    heap.inc(h);
    assert_eq!(heap.rc_of(h), -3);
    heap.dec(h);
    heap.dec(h);
    assert_eq!(heap.rc_of(h), -1);
    assert!(heap.is_valid(h));
    heap.dec(h);
    assert!(!heap.is_valid(h));
}

#[test]
fn persistent_record_is_never_counted() {
    let mut heap = Heap::new();
    let h = heap.alloc_ctor(0, vec![]);
    heap.rcs[0] = 0;
    heap.inc(h);
    heap.dec(h);
    heap.dec(h);
    assert_eq!(heap.rc_of(h), 0);
    assert!(heap.is_valid(h));
}

#[test]
fn scalars_are_never_counted() {
    let mut heap = Heap::new();
    heap.inc(lean_box(7));
    heap.dec(lean_box(7));
    assert!(heap.is_valid(lean_box(7)));
    assert_eq!(heap.obj_tag(lean_box(7)), 7);
}

#[test]
fn decode_absent_option() {
    let mut heap = Heap::new();
    assert_eq!(decode_option(&mut heap, lean_box(0)), None);
    let none = heap.alloc_ctor(0, vec![]);
    assert_eq!(decode_option(&mut heap, none), None);
    assert!(!heap.is_valid(none));
}

#[test]
fn decode_present_option_round_trip() {
    let mut heap = Heap::new();
    let payload = heap.alloc_ctor(5, vec![]);
    let wrapper = heap.alloc_ctor(1, vec![payload]);
    assert_eq!(decode_option(&mut heap, wrapper), Some(payload));
    assert!(!heap.is_valid(wrapper));
    assert!(heap.is_valid(payload));
    // the wrapper's reference passed to the caller
    assert_eq!(heap.rc_of(payload), 1);
}

#[test]
fn decode_present_scalar_option() {
    let mut heap = Heap::new();
    let wrapper = heap.alloc_ctor(1, vec![lean_box(42)]);
    assert_eq!(decode_option(&mut heap, wrapper), Some(lean_box(42)));
    assert!(!heap.is_valid(wrapper));
}

#[test]
fn decode_pair_retains_each_child() {
    let mut heap = Heap::new();
    let a = heap.alloc_ctor(0, vec![]);
    let b = heap.alloc_ctor(0, vec![]);
    let pair = heap.alloc_ctor(0, vec![a, b]);
    heap.inc(pair);
    assert_eq!(decode_pair(&mut heap, pair), (a, b));
    assert_eq!(heap.rc_of(a), 2);
    assert_eq!(heap.rc_of(b), 2);
    assert_eq!(heap.rc_of(pair), 1);
    assert!(heap.is_valid(pair));
}

#[test]
fn decode_pair_of_one_child_twice() {
    let mut heap = Heap::new();
    let a = heap.alloc_ctor(0, vec![]);
    let pair = heap.alloc_ctor(0, vec![a, a]);
    assert_eq!(decode_pair(&mut heap, pair), (a, a));
    assert_eq!(heap.rc_of(a), 1);
    assert!(!heap.is_valid(pair));
}

#[test]
fn decode_pair_of_scalars() {
    let mut heap = Heap::new();
    let pair = heap.alloc_ctor(0, vec![lean_box(3), lean_box(8)]);
    assert_eq!(decode_pair(&mut heap, pair), (lean_box(3), lean_box(8)));
    assert!(!heap.is_valid(pair));
}

#[test]
fn iterator_yields_spans_in_order_then_stays_done() {
    let mut heap = Heap::new();
    let c = build_chain(&mut heap, &[(0, 3), (7, 11)]);
    let mut m = Matches::new(c);
    assert_eq!(m.next(&mut heap), Some((0, 3)));
    assert!(!heap.is_valid(c));
    assert_eq!(m.next(&mut heap), Some((7, 11)));
    assert_eq!(m.next(&mut heap), None);
    assert!(m.is_exhausted());
    assert_eq!(m.next(&mut heap), None);
    assert_eq!(m.next(&mut heap), None);
}

#[test]
fn iterator_released_early_gives_up_its_cursor() {
    let mut heap = Heap::new();
    let c = build_chain(&mut heap, &[(1, 2), (4, 6)]);
    let mut m = Matches::new(c);
    assert_eq!(m.next(&mut heap), Some((1, 2)));
    let held = m.cursor.unwrap();
    assert_eq!(heap.rc_of(held), 1);
    m.release(&mut heap);
    assert!(m.is_exhausted());
    assert!(!heap.is_valid(held));
    assert_eq!(m.next(&mut heap), None);
}

#[test]
fn count_model_one_match() {
    // hand-built: the single span 0..5, as for `Hello|world` against `Hello`
    let mut heap = Heap::new();
    let c = build_chain(&mut heap, &[(0, 5)]);
    assert_eq!(model_count(&mut heap, "Hello", Matches::new(c)).unwrap(), 1);
}

#[test]
fn count_model_no_match() {
    // hand-built: no span, as for `Hello|world` against `こんにちは`
    let mut heap = Heap::new();
    let c = build_chain(&mut heap, &[]);
    assert_eq!(model_count(&mut heap, "こんにちは", Matches::new(c)).unwrap(), 0);
    assert!(!heap.is_valid(c));
}

#[test]
fn count_spans_model_sums_lengths() {
    // hand-built: spans 0..3 and 7..11, as for `a+` against `aaa bb aaaa`
    let mut heap = Heap::new();
    let c = build_chain(&mut heap, &[(0, 3), (7, 11)]);
    assert_eq!(model_count_spans(&mut heap, "aaa bb aaaa", Matches::new(c)).unwrap(), 7);
}

#[test]
fn repeated_trials_share_nothing() {
    let mut heap = Heap::new();
    for _ in 0..3 {
        let c = build_chain(&mut heap, &[(2, 2), (5, 9), (9, 10)]);
        assert_eq!(model_count(&mut heap, "aaa bb aaaa", Matches::new(c)).unwrap(), 3);
        assert!(!heap.is_valid(c));
        let d = build_chain(&mut heap, &[(2, 2), (5, 9), (9, 10)]);
        assert_eq!(model_count_spans(&mut heap, "aaa bb aaaa", Matches::new(d)).unwrap(), 5);
    }
}

#[test]
fn exhausted_sequence_counts_nothing() {
    let mut heap = Heap::new();
    let m = Matches { cursor: None };
    assert_eq!(model_count(&mut heap, "aaa bb aaaa", m).unwrap(), 0);
    let m = Matches { cursor: None };
    assert_eq!(model_count_spans(&mut heap, "aaa bb aaaa", m).unwrap(), 0);
}

fn all_freed(heap: &Heap) -> bool {
    (0..heap.rcs.len()).all(|i| !heap.is_valid(2 * i + 2))
}

#[test]
fn release_frees_children_in_turn() {
    let mut heap = Heap::new();
    let leaf = heap.alloc_ctor(0, vec![]);
    let shared = heap.alloc_ctor(0, vec![]);
    heap.inc(shared);
    let mid = heap.alloc_ctor(0, vec![leaf, shared, lean_box(4)]);
    let top = heap.alloc_ctor(2, vec![mid]);
    heap.dec(top);
    assert!(!heap.is_valid(top));
    assert!(!heap.is_valid(mid));
    assert!(!heap.is_valid(leaf));
    assert!(heap.is_valid(shared));
    assert_eq!(heap.rc_of(shared), 1);
}

#[test]
fn decode_pair_of_freed_wrapper_keeps_counts() {
    let mut heap = Heap::new();
    let a = heap.alloc_ctor(0, vec![]);
    let b = heap.alloc_ctor(0, vec![]);
    heap.inc(a);
    let pair = heap.alloc_ctor(0, vec![a, b]);
    assert_eq!(decode_pair(&mut heap, pair), (a, b));
    assert!(!heap.is_valid(pair));
    assert_eq!(heap.rc_of(a), 2);
    assert_eq!(heap.rc_of(b), 1);
}

#[test]
fn drained_trials_free_every_record() {
    let mut heap = Heap::new();
    for _ in 0..4 {
        let c = build_chain(&mut heap, &[(0, 3), (7, 11)]);
        assert_eq!(model_count(&mut heap, "aaa bb aaaa", Matches::new(c)).unwrap(), 2);
        assert!(all_freed(&heap));
        let d = build_chain(&mut heap, &[(0, 3), (7, 11)]);
        assert_eq!(model_count_spans(&mut heap, "aaa bb aaaa", Matches::new(d)).unwrap(), 7);
        assert!(all_freed(&heap));
    }
}

#[test]
fn abandoned_sequence_frees_every_record() {
    let mut heap = Heap::new();
    let c = build_chain(&mut heap, &[(0, 1), (2, 3), (4, 5)]);
    let mut m = Matches::new(c);
    assert_eq!(m.next(&mut heap), Some((0, 1)));
    m.release(&mut heap);
    assert!(all_freed(&heap));
}

#[test]
fn trial_refuses_haystack_with_nul() {
    let mut heap = Heap::new();
    let c = build_chain(&mut heap, &[(0, 1)]);
    assert_eq!(model_count(&mut heap, "a\0b", Matches::new(c)), Err(ConfigError::NulByte));
    assert!(heap.is_valid(c));
    assert_eq!(heap.rc_of(c), 1);
    assert_eq!(
        model_count_spans(&mut heap, "\0", Matches::new(c)),
        Err(ConfigError::NulByte)
    );
    assert_eq!(heap.rc_of(c), 1);
}
