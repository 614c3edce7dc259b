use lean_bridge::bridge::{
    dec_ref_step, inc_ref_step, lean_box, lean_io_mk_world, lean_io_result_is_error,
    lean_io_result_is_ok, lean_is_scalar, lean_is_st, lean_obj_tag, lean_unbox, RcStep,
    MAX_SCALAR,
};

#[test]
fn box_and_unbox_round_trip() {
    assert_eq!(lean_box(0), 1);
    assert_eq!(lean_box(5), 11);
    assert_eq!(lean_unbox(11), 5);
    assert_eq!(lean_unbox(lean_box(123_456)), 123_456);
}

#[test]
fn box_largest_scalar() {
    assert_eq!(lean_box(MAX_SCALAR), usize::MAX);
    assert_eq!(lean_unbox(usize::MAX), MAX_SCALAR);
}

#[test]
fn scalar_iff_low_bit() {
    assert!(lean_is_scalar(1));
    assert!(lean_is_scalar(11));
    assert!(!lean_is_scalar(0));
    assert!(!lean_is_scalar(8));
}

#[test]
fn world_token_is_scalar_zero() {
    assert_eq!(lean_io_mk_world(), 1);
    assert_eq!(lean_unbox(lean_io_mk_world()), 0);
}

#[test]
fn single_threaded_counts_are_positive() {
    assert!(lean_is_st(1));
    assert!(!lean_is_st(0));
    assert!(!lean_is_st(-4));
}

#[test]
fn retain_decisions() {
    assert_eq!(inc_ref_step(1), RcStep::Write(2));
    assert_eq!(inc_ref_step(41), RcStep::Write(42));
    assert_eq!(inc_ref_step(-3), RcStep::Cold);
    assert_eq!(inc_ref_step(0), RcStep::Keep);
}

#[test]
fn release_decisions() {
    assert_eq!(dec_ref_step(2), RcStep::Write(1));
    assert_eq!(dec_ref_step(1), RcStep::Cold);
    assert_eq!(dec_ref_step(-2), RcStep::Cold);
    assert_eq!(dec_ref_step(0), RcStep::Keep);
}

#[test]
fn tag_of_scalar_and_record() {
    assert_eq!(lean_obj_tag(lean_box(3), 9), 3);
    assert_eq!(lean_obj_tag(16, 9), 9);
}

#[test]
fn io_result_tags() {
    assert!(lean_io_result_is_ok(0));
    assert!(!lean_io_result_is_ok(1));
    assert!(lean_io_result_is_error(1));
    assert!(!lean_io_result_is_error(0));
}
