use vstd::prelude::*;

verus! {

/// A foreign handle holds an inline integer when its lowest bit is set.
pub open spec fn is_scalar_spec(o: usize) -> bool {
    o % 2 == 1
}

/// The largest integer that still fits in a handle after the one-bit shift.
pub const MAX_SCALAR: usize = usize::MAX / 2;

/// True iff the handle is an inline scalar rather than a heap pointer.
pub fn lean_is_scalar(o: usize) -> (r: bool)
    ensures
        r == is_scalar_spec(o),
{
    o % 2 == 1
}

/// Packs `n` into scalar form: shifted left by one, lowest bit set.
pub fn lean_box(n: usize) -> (r: usize)
    requires
        n <= MAX_SCALAR,
    ensures
        r == 2 * n + 1,
        is_scalar_spec(r),
{
    2 * n + 1
}

/// Reads the integer held by a scalar handle.
pub fn lean_unbox(o: usize) -> (r: usize)
    requires
        is_scalar_spec(o),
    ensures
        r == o / 2,
        r <= MAX_SCALAR,
{
    o / 2
}

/// The token handed to IO actions of the foreign runtime: the scalar 0.
pub fn lean_io_mk_world() -> (r: usize)
    ensures
        r == 1,
        is_scalar_spec(r),
{
    lean_box(0)
}

/// True iff an object with this reference count is owned by one thread.
pub fn lean_is_st(rc: i32) -> (r: bool)
    ensures
        r == (rc > 0),
{
    rc > 0
}

/// What a retain or a release does to a heap object's reference count.
#[derive(PartialEq, Eq, Structural, Clone, Copy, Debug)]
pub enum RcStep {
    /// The count is left as it is: the object is persistent.
    Keep,
    /// The count is overwritten in place with this value.
    Write(i32),
    /// The runtime's own routine takes over: shared objects, or deallocation.
    Cold,
}

/// The retain decision on a heap object with count `rc`: in place while one
/// thread owns it, through the runtime for shared ones, nothing for persistent ones.
pub fn inc_ref_step(rc: i32) -> (r: RcStep)
    requires
        rc < i32::MAX,
    ensures
        rc > 0 ==> r == RcStep::Write((rc + 1) as i32),
        rc < 0 ==> r == RcStep::Cold,
        rc == 0 ==> r == RcStep::Keep,
{
    if lean_is_st(rc) {
        RcStep::Write(rc + 1)
    } else if rc != 0 {
        RcStep::Cold
    } else {
        RcStep::Keep
    }
}

/// The release decision on a heap object with count `rc`: in place while other
/// references remain; the last single-threaded reference and every shared one
/// go through the runtime, which frees the object when the count runs out.
pub fn dec_ref_step(rc: i32) -> (r: RcStep)
    ensures
        rc > 1 ==> r == RcStep::Write((rc - 1) as i32),
        (rc == 1 || rc < 0) ==> r == RcStep::Cold,
        rc == 0 ==> r == RcStep::Keep,
{
    if rc > 1 {
        RcStep::Write(rc - 1)
    } else if rc != 0 {
        RcStep::Cold
    } else {
        RcStep::Keep
    }
}

/// The discriminant of a value: the integer itself for a scalar, else the
/// constructor tag stored in the object's header.
pub fn lean_obj_tag(o: usize, ptr_tag: u8) -> (r: usize)
    ensures
        is_scalar_spec(o) ==> r == o / 2,
        !is_scalar_spec(o) ==> r == ptr_tag as usize,
{
    if lean_is_scalar(o) {
        lean_unbox(o)
    } else {
        ptr_tag as usize
    }
}

/// An IO result with header tag 0 is a success.
pub fn lean_io_result_is_ok(tag: u8) -> (r: bool)
    ensures
        r == (tag == 0),
{
    tag == 0
}

/// An IO result with header tag 1 is an error.
pub fn lean_io_result_is_error(tag: u8) -> (r: bool)
    ensures
        r == (tag == 1),
{
    tag == 1
}

} // verus!
