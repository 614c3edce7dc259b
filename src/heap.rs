use vstd::prelude::*;
use crate::protocol::RcOp;
use crate::bridge::{
    is_scalar_spec, lean_is_scalar, lean_obj_tag, inc_ref_step, dec_ref_step, RcStep,
};

verus! {

/// Bound on the number of records, so that every handle fits in a `usize`.
pub const MAX_OBJECTS: usize = usize::MAX / 4;

/// The runtime keeps a record's number of children in an 8-bit header field.
pub const MAX_CHILDREN: usize = 255;

/// Reference counts and freed flags of all records, by index.
pub type Counts = (Seq<i32>, Seq<bool>);

/// The counts after one release of `h` by the runtime: the count drops by
/// one, and a record whose last reference goes is freed and releases each
/// of its children in turn.
pub open spec fn released(st: Counts, kids: Seq<Seq<usize>>, h: usize) -> Counts
    decreases index_of(h), 256int
{
    if is_scalar_spec(h) || h < 2 || index_of(h) >= st.0.len() {
        st
    } else {
        let i = index_of(h);
        let rc = st.0[i];
        let st1: Counts = (
            st.0.update(i, rc_after_release(rc) as i32),
            if release_frees(rc) { st.1.update(i, true) } else { st.1 },
        );
        if release_frees(rc) && i < kids.len() && kids[i].len() <= 255 {
            released_all(st1, kids, i, kids[i])
        } else {
            st1
        }
    }
}

/// The counts after releasing, first to last, the children `hs` of record `parent`.
pub open spec fn released_all(st: Counts, kids: Seq<Seq<usize>>, parent: int, hs: Seq<usize>) -> Counts
    decreases parent, hs.len()
{
    if hs.len() == 0 || hs.len() > 255 {
        st
    } else {
        let last = hs.last();
        let st1 = released_all(st, kids, parent, hs.drop_last());
        if !is_scalar_spec(last) && last >= 2 && index_of(last) < parent {
            released(st1, kids, last)
        } else {
            st1
        }
    }
}

/// A release that does not free the record changes its count alone.
pub proof fn lemma_released_keeps(st: Counts, kids: Seq<Seq<usize>>, h: usize)
    requires
        !is_scalar_spec(h),
        h >= 2,
        index_of(h) < st.0.len(),
        !release_frees(st.0[index_of(h)]),
    ensures
        released(st, kids, h) == (
            st.0.update(index_of(h), rc_after_release(st.0[index_of(h)]) as i32),
            st.1,
        ),
{
}

/// Index of the record that a heap handle points to.
pub open spec fn index_of(h: usize) -> int {
    h as int / 2 - 1
}

/// Handle of the record at index `i`: even and non-null, like an aligned pointer.
pub open spec fn handle_of(i: int) -> int {
    2 * i + 2
}

/// Count after a retain: one more reference in either sign convention;
/// persistent objects (count 0) are never counted.
pub open spec fn rc_after_retain(rc: i32) -> int {
    if rc > 0 {
        rc + 1
    } else if rc < 0 {
        rc - 1
    } else {
        0
    }
}

/// Count after a release: one reference fewer; the last one frees the object.
pub open spec fn rc_after_release(rc: i32) -> int {
    if rc > 1 {
        rc - 1
    } else if rc < -1 {
        rc + 1
    } else {
        0
    }
}

/// True iff a release of an object with count `rc` frees it.
pub open spec fn release_frees(rc: i32) -> bool {
    rc == 1 || rc == -1
}

/// A model of the foreign runtime's heap: tagged constructor records with
/// reference counts, addressed by handles in the runtime's own encoding.
/// Scalars live in the handles and never here. A release that takes a
/// record's last reference frees it, and the runtime's deallocator then
/// releases each of its children in turn (`released`). The ghost counters
/// record how many retains and releases the host applied to heap objects.
pub struct Heap {
    pub rcs: Vec<i32>,
    pub tags: Vec<u8>,
    pub fields: Vec<Vec<usize>>,
    pub freed: Vec<bool>,
    pub tally: Tally,
}

/// The counts of the host's retains and releases. Its fields are private:
/// only the heap's own `inc` and `dec` move them.
pub struct Tally {
    retained: Ghost<nat>,
    released: Ghost<nat>,
}

impl Tally {
    pub closed spec fn retains(&self) -> nat {
        self.retained@
    }

    pub closed spec fn releases(&self) -> nat {
        self.released@
    }
}

impl Heap {
    pub open spec fn len(&self) -> int {
        self.rcs@.len() as int
    }

    /// The handle points into the heap (freed or not).
    pub open spec fn is_obj(&self, h: usize) -> bool {
        &&& !is_scalar_spec(h)
        &&& h >= 2
        &&& index_of(h) < self.len()
    }

    /// The handle points to a record that has not been freed.
    pub open spec fn live(&self, h: usize) -> bool {
        self.is_obj(h) && !self.freed@[index_of(h)]
    }

    /// A value the host may hold: a scalar, or a live object.
    pub open spec fn valid(&self, h: usize) -> bool {
        is_scalar_spec(h) || self.live(h)
    }

    pub open spec fn rc(&self, h: usize) -> i32 {
        self.rcs@[index_of(h)]
    }

    /// The number of references that the count stands for.
    pub open spec fn refs(&self, h: usize) -> int {
        let rc = self.rc(h);
        if rc >= 0 { rc as int } else { -rc }
    }

    pub open spec fn fields_of(&self, h: usize) -> Seq<usize> {
        self.fields@[index_of(h)]@
    }

    /// The discriminant of a value: the integer of a scalar, or the record's tag.
    pub open spec fn tag_of(&self, h: usize) -> int {
        if is_scalar_spec(h) {
            h as int / 2
        } else {
            self.tags@[index_of(h)] as int
        }
    }

    /// How many retains the host applied to heap objects.
    pub open spec fn retains(&self) -> nat {
        self.tally.retains()
    }

    /// How many releases the host applied to heap objects.
    pub open spec fn releases(&self) -> nat {
        self.tally.releases()
    }

    /// Balance of the host's bookkeeping: releases minus retains.
    pub open spec fn net(&self) -> int {
        self.releases() - self.retains()
    }

    /// The columns agree in length, every handle fits, and a record only
    /// points to records made before it: values are immutable and acyclic.
    pub open spec fn wf(&self) -> bool {
        &&& self.tags@.len() == self.len()
        &&& self.fields@.len() == self.len()
        &&& self.freed@.len() == self.len()
        &&& self.len() < MAX_OBJECTS
        &&& forall|i: int| 0 <= i < self.len() ==> (#[trigger] self.fields@[i]@).len() <= MAX_CHILDREN
        &&& forall|i: int, j: int|
            0 <= i < self.len() && 0 <= j < self.fields@[i]@.len() ==> {
                let f = #[trigger] self.fields@[i]@[j];
                is_scalar_spec(f) || (f >= 2 && index_of(f) < i)
            }
    }

    /// Every record but the one at `i` is as in `old`.
    pub open spec fn same_except(&self, old: &Heap, i: int) -> bool {
        &&& self.len() == old.len()
        &&& self.tags@ == old.tags@
        &&& self.fields@ == old.fields@
        &&& forall|k: int| 0 <= k < self.len() && k != i ==> self.rcs@[k] == old.rcs@[k]
        &&& forall|k: int| 0 <= k < self.len() && k != i ==> self.freed@[k] == old.freed@[k]
    }

    /// Every record outside the indices `s` is as in `old`.
    pub open spec fn same_outside(&self, old: &Heap, s: Set<int>) -> bool {
        &&& self.len() == old.len()
        &&& self.tags@ == old.tags@
        &&& self.fields@ == old.fields@
        &&& forall|k: int| 0 <= k < self.len() && !s.contains(k) ==> self.rcs@[k] == old.rcs@[k]
        &&& forall|k: int| 0 <= k < self.len() && !s.contains(k) ==> self.freed@[k] == old.freed@[k]
    }

    /// The indices of the heap records among `hs`; scalars have none.
    pub open spec fn records_of(hs: Seq<usize>) -> Set<int> {
        Set::new(|k: int| exists|j: int| 0 <= j < hs.len() && !is_scalar_spec(hs[j]) && k == index_of(hs[j]))
    }

    /// The count may take one retain without leaving the `i32` range.
    pub open spec fn retainable(&self, h: usize, times: int) -> bool {
        is_scalar_spec(h) || -i32::MAX + times <= self.rc(h) <= i32::MAX - times
    }

    /// An empty heap.
    pub fn new() -> (r: Heap)
        ensures
            r.wf(),
            r.len() == 0,
            r.net() == 0,
    {
        Heap {
            rcs: Vec::new(),
            tags: Vec::new(),
            fields: Vec::new(),
            freed: Vec::new(),
            tally: Tally { retained: Ghost(0), released: Ghost(0) },
        }
    }

    /// Allocates a constructor record with count 1. The record takes over
    /// the caller's reference to each field.
    pub fn alloc_ctor(&mut self, tag: u8, fields: Vec<usize>) -> (h: usize)
        requires
            old(self).wf(),
            old(self).len() + 1 < MAX_OBJECTS,
            fields@.len() <= MAX_CHILDREN,
            forall|j: int| 0 <= j < fields@.len() ==> old(self).valid(#[trigger] fields@[j]),
        ensures
            final(self).wf(),
            h == handle_of(old(self).len()),
            final(self).len() == old(self).len() + 1,
            final(self).live(h),
            final(self).rc(h) == 1,
            final(self).tag_of(h) == tag,
            final(self).fields_of(h) == fields@,
            final(self).rcs@.subrange(0, old(self).len()) == old(self).rcs@,
            final(self).tags@.subrange(0, old(self).len()) == old(self).tags@,
            final(self).fields@.subrange(0, old(self).len()) == old(self).fields@,
            final(self).freed@.subrange(0, old(self).len()) == old(self).freed@,
            final(self).retains() == old(self).retains(),
            final(self).releases() == old(self).releases(),
    {
        let n = self.rcs.len();
        let ghost fs = fields@;
        self.rcs.push(1);
        self.tags.push(tag);
        self.fields.push(fields);
        self.freed.push(false);
        let h = 2 * n + 2;
        assert(index_of(h) == n);
        assert(self.rcs@.subrange(0, n as int) =~= old(self).rcs@);
        assert(self.tags@.subrange(0, n as int) =~= old(self).tags@);
        assert(self.fields@.subrange(0, n as int) =~= old(self).fields@);
        assert(self.freed@.subrange(0, n as int) =~= old(self).freed@);
        assert forall|i: int| 0 <= i < self.len() implies (#[trigger] self.fields@[i]@).len() <= MAX_CHILDREN by {
            if i < n {
                assert(self.fields@[i] == old(self).fields@[i]);
            }
        }
        assert forall|i: int, j: int|
            0 <= i < self.len() && 0 <= j < self.fields@[i]@.len() implies {
                let f = #[trigger] self.fields@[i]@[j];
                is_scalar_spec(f) || (f >= 2 && index_of(f) < i)
            } by {
            if i == n {
                assert(self.fields@[i]@ == fs);
                assert(old(self).valid(fs[j]));
            } else {
                assert(self.fields@[i] == old(self).fields@[i]);
            }
        }
        h
    }

    /// `retain`: one more reference to a heap object; nothing for a scalar.
    pub fn inc(&mut self, h: usize)
        requires
            old(self).wf(),
            old(self).valid(h),
            !is_scalar_spec(h) ==> -i32::MAX < old(self).rc(h) < i32::MAX,
        ensures
            final(self).wf(),
            is_scalar_spec(h) ==> *final(self) == *old(self),
            !is_scalar_spec(h) ==> {
                &&& final(self).same_except(old(self), index_of(h))
                &&& final(self).rc(h) == rc_after_retain(old(self).rc(h))
                &&& final(self).live(h)
                &&& final(self).retains() == old(self).retains() + 1
                &&& final(self).releases() == old(self).releases()
            },
    {
        if !lean_is_scalar(h) {
            let i = h / 2 - 1;
            let rc = self.rcs[i];
            match inc_ref_step(rc) {
                RcStep::Write(n) => {
                    self.rcs.set(i, n);
                },
                RcStep::Cold => {
                    // the runtime's shared path: one more reference, counted negatively
                    self.rcs.set(i, rc - 1);
                },
                RcStep::Keep => {},
            }
            self.tally.retained = Ghost(self.tally.retained@ + 1);
        }
    }

    /// The counts and freed flags of all records.
    pub open spec fn counts(&self) -> Counts {
        (self.rcs@, self.freed@)
    }

    /// The children of all records.
    pub open spec fn kids(&self) -> Seq<Seq<usize>> {
        self.fields@.map_values(|v: Vec<usize>| v@)
    }

    /// The runtime's release, cascading through the children of what it frees.
    fn release_rec(&mut self, h: usize)
        requires
            old(self).wf(),
        ensures
            final(self).wf(),
            final(self).counts() == released(old(self).counts(), old(self).kids(), h),
            final(self).tags@ == old(self).tags@,
            final(self).fields@ == old(self).fields@,
            final(self).retains() == old(self).retains(),
            final(self).releases() == old(self).releases(),
        decreases index_of(h), 256int
    {
        if lean_is_scalar(h) || h < 2 || h / 2 - 1 >= self.rcs.len() {
            return;
        }
        let i = h / 2 - 1;
        let rc = self.rcs[i];
        let ghost kids = self.kids();
        assert(kids[i as int] == self.fields@[i as int]@);
        match dec_ref_step(rc) {
            RcStep::Write(n) => {
                self.rcs.set(i, n);
            },
            RcStep::Cold => {
                if rc == 1 || rc == -1 {
                    self.rcs.set(i, 0);
                    self.freed.set(i, true);
                    let ghost st1 = self.counts();
                    let n = self.fields[i].len();
                    let mut j: usize = 0;
                    while j < n
                        invariant
                            self.wf(),
                            self.kids() == kids,
                            self.tags@ == old(self).tags@,
                            self.fields@ == old(self).fields@,
                            self.retains() == old(self).retains(),
                            self.releases() == old(self).releases(),
                            i < self.len(),
                            h >= 2,
                            i == index_of(h),
                            n == kids[i as int].len(),
                            n <= 255,
                            0 <= j <= n,
                            self.counts() == released_all(st1, kids, i as int, kids[i as int].take(j as int)),
                        decreases n - j,
                    {
                        let c = self.fields[i][j];
                        assert(kids[i as int].take(j as int + 1).drop_last() =~= kids[i as int].take(j as int));
                        assert(kids[i as int].take(j as int + 1).last() == c);
                        if !lean_is_scalar(c) && c >= 2 && c / 2 - 1 < i {
                            assert(0 <= index_of(c) < index_of(h));
                            self.release_rec(c);
                        }
                        j = j + 1;
                    }
                    assert(kids[i as int].take(n as int) =~= kids[i as int]);
                } else {
                    self.rcs.set(i, rc + 1);
                }
            },
            RcStep::Keep => {},
        }
        assert(self.counts().0 =~= released(old(self).counts(), kids, h).0);
        assert(self.counts().1 =~= released(old(self).counts(), kids, h).1);
    }

    /// `release`: one reference fewer to a heap object; nothing for a scalar.
    /// The last reference frees the record, and the runtime then releases each
    /// of its children in turn, as `released` states.
    pub fn dec(&mut self, h: usize)
        requires
            old(self).wf(),
            old(self).valid(h),
        ensures
            final(self).wf(),
            is_scalar_spec(h) ==> *final(self) == *old(self),
            !is_scalar_spec(h) ==> {
                &&& final(self).counts() == released(old(self).counts(), old(self).kids(), h)
                &&& final(self).len() == old(self).len()
                &&& final(self).tags@ == old(self).tags@
                &&& final(self).fields@ == old(self).fields@
                &&& final(self).rc(h) == rc_after_release(old(self).rc(h))
                &&& final(self).freed@[index_of(h)] == release_frees(old(self).rc(h))
                &&& final(self).releases() == old(self).releases() + 1
                &&& final(self).retains() == old(self).retains()
            },
            !is_scalar_spec(h) && !release_frees(old(self).rc(h)) ==> final(self).same_except(
                old(self),
                index_of(h),
            ),
    {
        if !lean_is_scalar(h) {
            self.release_rec(h);
            self.tally.released = Ghost(self.tally.released@ + 1);
            proof {
                let i = index_of(h);
                if !release_frees(old(self).rc(h)) {
                    lemma_released_keeps(old(self).counts(), old(self).kids(), h);
                    assert(self.counts() == released(old(self).counts(), old(self).kids(), h));
                    assert(self.len() == old(self).len());
                    assert(self.rc(h) == rc_after_release(old(self).rc(h)));
                    assert(self.freed@[i] == release_frees(old(self).rc(h)));
                } else {
                    let st = old(self).counts();
                    let kids = old(self).kids();
                    let st1: Counts = (
                        st.0.update(i, rc_after_release(st.0[i]) as i32),
                        st.1.update(i, true),
                    );
                    assert(kids[i] == old(self).fields@[i]@);
                    assert(kids[i].len() <= 255);
                    assert(released(st, kids, h) == released_all(st1, kids, i, kids[i]));
                    lemma_released_all_above(st1, kids, i, kids[i], i);
                    assert(0 <= i < st.0.len());
                    assert(released_all(st1, kids, i, kids[i]).0[i] == st1.0[i]);
                    assert(released_all(st1, kids, i, kids[i]).1[i] == st1.1[i]);
                    assert(self.counts() == released(st, kids, h));
                    assert(self.len() == old(self).len());
                    assert(self.rc(h) == rc_after_release(old(self).rc(h)));
                    assert(self.freed@[i] == release_frees(old(self).rc(h)));
                }
            }
        }
    }

    /// Carries out one bookkeeping step: `inc` or `dec`.
    pub fn apply_op(&mut self, op: RcOp)
        requires
            old(self).wf(),
            op matches RcOp::Retain(h) ==> old(self).valid(h) && (!is_scalar_spec(h) ==> -i32::MAX
                < old(self).rc(h) < i32::MAX),
            op matches RcOp::Release(h) ==> old(self).valid(h),
        ensures
            final(self).wf(),
            op matches RcOp::Retain(h) ==> {
                &&& is_scalar_spec(h) ==> *final(self) == *old(self)
                &&& !is_scalar_spec(h) ==> {
                    &&& final(self).same_except(old(self), index_of(h))
                    &&& final(self).rc(h) == rc_after_retain(old(self).rc(h))
                    &&& final(self).live(h)
                    &&& final(self).retains() == old(self).retains() + 1
                    &&& final(self).releases() == old(self).releases()
                }
            },
            op matches RcOp::Release(h) ==> {
                &&& is_scalar_spec(h) ==> *final(self) == *old(self)
                &&& !is_scalar_spec(h) ==> {
                    &&& final(self).counts() == released(old(self).counts(), old(self).kids(), h)
                    &&& final(self).len() == old(self).len()
                    &&& final(self).tags@ == old(self).tags@
                    &&& final(self).fields@ == old(self).fields@
                    &&& final(self).rc(h) == rc_after_release(old(self).rc(h))
                    &&& final(self).freed@[index_of(h)] == release_frees(old(self).rc(h))
                    &&& final(self).releases() == old(self).releases() + 1
                    &&& final(self).retains() == old(self).retains()
                }
                &&& !is_scalar_spec(h) && !release_frees(old(self).rc(h)) ==> final(self).same_except(
                    old(self),
                    index_of(h),
                )
            },
    {
        match op {
            RcOp::Retain(h) => self.inc(h),
            RcOp::Release(h) => self.dec(h),
        }
    }

    /// The reference count of a heap record, freed or not.
    pub fn rc_of(&self, h: usize) -> (r: i32)
        requires
            self.wf(),
            self.is_obj(h),
        ensures
            r == self.rc(h),
    {
        self.rcs[h / 2 - 1]
    }

    /// True iff the handle is a scalar or points to a record not yet freed.
    pub fn is_valid(&self, h: usize) -> (r: bool)
        requires
            self.wf(),
        ensures
            r == self.valid(h),
    {
        if lean_is_scalar(h) {
            true
        } else if h < 2 || h / 2 - 1 >= self.rcs.len() {
            false
        } else {
            !self.freed[h / 2 - 1]
        }
    }

    /// The discriminant of a value (see `tag_of`).
    pub fn obj_tag(&self, h: usize) -> (r: usize)
        requires
            self.wf(),
            self.valid(h),
        ensures
            r == self.tag_of(h),
    {
        let t: u8 = if lean_is_scalar(h) {
            0
        } else {
            self.tags[h / 2 - 1]
        };
        lean_obj_tag(h, t)
    }

    /// The number of child values of a live constructor record.
    pub fn ctor_num_objs(&self, h: usize) -> (r: usize)
        requires
            self.wf(),
            self.live(h),
        ensures
            r == self.fields_of(h).len(),
            r <= MAX_CHILDREN,
    {
        self.fields[h / 2 - 1].len()
    }

    /// Child `i` of a live constructor record. No reference is handed over.
    pub fn ctor_get(&self, h: usize, i: usize) -> (r: usize)
        requires
            self.wf(),
            self.live(h),
            i < self.fields_of(h).len(),
        ensures
            r == self.fields_of(h)[i as int],
            is_scalar_spec(r) || (r >= 2 && index_of(r) < index_of(h)),
    {
        self.fields[h / 2 - 1][i]
    }
}

/// A heap record's children are scalars or records made before it.
pub proof fn lemma_child_below(heap: &Heap, h: usize, j: int)
    requires
        heap.wf(),
        heap.is_obj(h),
        0 <= j < heap.fields_of(h).len(),
        !is_scalar_spec(heap.fields_of(h)[j]),
    ensures
        heap.is_obj(heap.fields_of(h)[j]),
        index_of(heap.fields_of(h)[j]) < index_of(h),
{
    let i = index_of(h);
    assert(heap.fields@[i]@[j] == heap.fields_of(h)[j]);
}

/// A value whose record lies outside the changed indices keeps its state.
pub proof fn lemma_frame(new: &Heap, old: &Heap, s: Set<int>, h: usize)
    requires
        new.same_outside(old, s),
        is_scalar_spec(h) || (old.is_obj(h) && !s.contains(index_of(h))),
    ensures
        new.valid(h) == old.valid(h),
        new.tag_of(h) == old.tag_of(h),
        !is_scalar_spec(h) ==> {
            &&& new.rc(h) == old.rc(h)
            &&& new.fields_of(h) == old.fields_of(h)
            &&& new.live(h) == old.live(h)
        },
{
}

/// An index that no heap value among `hs` points to is outside their records.
pub proof fn lemma_outside_records(hs: Seq<usize>, k: int)
    requires
        forall|j: int| 0 <= j < hs.len() ==> is_scalar_spec(#[trigger] hs[j]) || index_of(hs[j]) != k,
    ensures
        !Heap::records_of(hs).contains(k),
{
}

/// Distinct heap handles point to distinct records.
pub proof fn lemma_index_injective(a: usize, b: usize)
    requires
        !is_scalar_spec(a),
        !is_scalar_spec(b),
        a != b,
    ensures
        index_of(a) != index_of(b),
{
}

/// Releasing children of record `parent` leaves every record at or above
/// `floor >= parent` as it was.
pub proof fn lemma_released_all_above(st: Counts, kids: Seq<Seq<usize>>, parent: int, hs: Seq<usize>, floor: int)
    requires
        parent <= floor,
        st.0.len() == st.1.len(),
    ensures
        forall|k: int| floor <= k < st.0.len() ==> released_all(st, kids, parent, hs).0[k] == st.0[k],
        forall|k: int| floor <= k < st.1.len() ==> released_all(st, kids, parent, hs).1[k] == st.1[k],
        released_all(st, kids, parent, hs).0.len() == st.0.len(),
        released_all(st, kids, parent, hs).1.len() == st.1.len(),
    decreases parent, hs.len(), 0int
{
    if hs.len() == 0 || hs.len() > 255 {
    } else {
        let last = hs.last();
        lemma_released_all_above(st, kids, parent, hs.drop_last(), floor);
        let st1 = released_all(st, kids, parent, hs.drop_last());
        if !is_scalar_spec(last) && last >= 2 && index_of(last) < parent {
            lemma_released_above(st1, kids, last, floor);
        }
    }
}

/// Releasing `h` leaves every record at or above `floor > index_of(h)` as it was.
pub proof fn lemma_released_above(st: Counts, kids: Seq<Seq<usize>>, h: usize, floor: int)
    requires
        index_of(h) < floor,
        st.0.len() == st.1.len(),
    ensures
        forall|k: int| floor <= k < st.0.len() ==> released(st, kids, h).0[k] == st.0[k],
        forall|k: int| floor <= k < st.1.len() ==> released(st, kids, h).1[k] == st.1[k],
        released(st, kids, h).0.len() == st.0.len(),
        released(st, kids, h).1.len() == st.1.len(),
    decreases index_of(h), 256int, 0int
{
    if is_scalar_spec(h) || h < 2 || index_of(h) >= st.0.len() {
    } else {
        let i = index_of(h);
        let rc = st.0[i];
        let st1: Counts = (
            st.0.update(i, rc_after_release(rc) as i32),
            if release_frees(rc) { st.1.update(i, true) } else { st.1 },
        );
        assert(released(st, kids, h) == if release_frees(rc) && i < kids.len() && kids[i].len() <= 255 {
            released_all(st1, kids, i, kids[i])
        } else {
            st1
        });
        assert(forall|k: int| floor <= k < st.0.len() ==> st1.0[k] == st.0[k]);
        assert(forall|k: int| floor <= k < st.1.len() ==> st1.1[k] == st.1[k]);
        if release_frees(rc) && i < kids.len() && kids[i].len() <= 255 {
            lemma_released_all_above(st1, kids, i, kids[i], floor);
        }
    }
}

/// A release of `h` that does not free it: its count alone drops by one.
pub open spec fn release_kept(st: Counts, h: usize) -> Counts {
    if is_scalar_spec(h) {
        st
    } else {
        (st.0.update(index_of(h), rc_after_release(st.0[index_of(h)]) as i32), st.1)
    }
}

/// The counts just after record `v` is freed, before its children are released.
pub open spec fn freed_alone(st: Counts, v: usize) -> Counts {
    (st.0.update(index_of(v), 0), st.1.update(index_of(v), true))
}

/// Freeing a record with one child that survives its release.
pub proof fn lemma_free_one(st: Counts, kids: Seq<Seq<usize>>, v: usize, c: usize)
    requires
        !is_scalar_spec(v),
        v >= 2,
        index_of(v) < st.0.len(),
        st.0.len() == st.1.len(),
        index_of(v) < kids.len(),
        kids[index_of(v)] == seq![c],
        release_frees(st.0[index_of(v)]),
        is_scalar_spec(c) || (c >= 2 && index_of(c) < index_of(v) && !release_frees(st.0[index_of(c)])),
    ensures
        released(st, kids, v) == release_kept(freed_alone(st, v), c),
{
    let iv = index_of(v);
    let st1: Counts = (st.0.update(iv, rc_after_release(st.0[iv]) as i32), st.1.update(iv, true));
    assert(st1 == freed_alone(st, v));
    let hs = kids[iv];
    assert(hs.drop_last() =~= Seq::<usize>::empty());
    assert(released_all(st1, kids, iv, hs.drop_last()) == st1);
    if !is_scalar_spec(c) {
        lemma_released_keeps(st1, kids, c);
    }
}

/// Freeing a record with two children (possibly the same one) that survive
/// their releases.
pub proof fn lemma_free_two(st: Counts, kids: Seq<Seq<usize>>, v: usize, a: usize, b: usize)
    requires
        !is_scalar_spec(v),
        v >= 2,
        index_of(v) < st.0.len(),
        st.0.len() == st.1.len(),
        index_of(v) < kids.len(),
        kids[index_of(v)] == seq![a, b],
        release_frees(st.0[index_of(v)]),
        is_scalar_spec(a) || (a >= 2 && index_of(a) < index_of(v) && !release_frees(st.0[index_of(a)])),
        is_scalar_spec(b) || (b >= 2 && index_of(b) < index_of(v) && !release_frees(
            release_kept(freed_alone(st, v), a).0[index_of(b)],
        )),
    ensures
        released(st, kids, v) == release_kept(release_kept(freed_alone(st, v), a), b),
{
    let iv = index_of(v);
    let st1: Counts = (st.0.update(iv, rc_after_release(st.0[iv]) as i32), st.1.update(iv, true));
    assert(st1 == freed_alone(st, v));
    let hs = kids[iv];
    assert(hs.drop_last() =~= seq![a]);
    assert(hs.drop_last().drop_last() =~= Seq::<usize>::empty());
    assert(released_all(st1, kids, iv, hs.drop_last().drop_last()) == st1);
    if !is_scalar_spec(a) {
        lemma_released_keeps(st1, kids, a);
    }
    let st2 = release_kept(st1, a);
    assert(released_all(st1, kids, iv, hs.drop_last()) == st2);
    if !is_scalar_spec(b) {
        lemma_released_keeps(st2, kids, b);
    }
}

} // verus!
