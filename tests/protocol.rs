use lean_bridge::bridge::lean_box;
use lean_bridge::matches::Matches;
use lean_bridge::protocol::{option_steps, pair_steps, trial_retains, Answer, RcOp};

#[test]
fn option_steps_present_and_absent() {
    assert_eq!(option_steps(8, true, 4), vec![RcOp::Retain(4), RcOp::Release(8)]);
    assert_eq!(option_steps(1, false, 1), vec![RcOp::Release(1)]);
}

#[test]
fn pair_steps_retain_both_then_release() {
    assert_eq!(
        pair_steps(10, 4, 6),
        vec![RcOp::Retain(4), RcOp::Retain(6), RcOp::Release(10)]
    );
}

#[test]
fn trial_retains_automaton_and_haystack() {
    assert_eq!(trial_retains(20, 30), vec![RcOp::Retain(20), RcOp::Retain(30)]);
}

#[test]
fn answer_present_yields_span_and_next_cursor() {
    let mut m = Matches::new(40);
    assert_eq!(m.pending(), Some(40));
    let a = Answer::Present {
        wrapper: 38,
        step: 36,
        span: 34,
        next: 32,
        start: lean_box(7),
        end: lean_box(11),
    };
    let (ops, span) = m.on_answer(a);
    assert_eq!(span, Some((7, 11)));
    assert_eq!(
        ops,
        vec![
            RcOp::Retain(36),
            RcOp::Release(38),
            RcOp::Retain(34),
            RcOp::Retain(32),
            RcOp::Release(36),
            RcOp::Retain(lean_box(7)),
            RcOp::Retain(lean_box(11)),
            RcOp::Release(34),
        ]
    );
    assert_eq!(m.pending(), Some(32));
}

#[test]
fn answer_absent_ends_the_sequence() {
    let mut m = Matches::new(40);
    let (ops, span) = m.on_answer(Answer::Absent { wrapper: lean_box(0) });
    assert_eq!(span, None);
    assert_eq!(ops, vec![RcOp::Release(lean_box(0))]);
    assert_eq!(m.pending(), None);
    assert!(m.is_exhausted());
}

#[test]
fn drop_releases_pending_cursor_once() {
    let mut m = Matches::new(12);
    assert_eq!(m.on_drop(), vec![RcOp::Release(12)]);
    assert_eq!(m.pending(), None);
    assert_eq!(m.on_drop(), vec![]);
}
