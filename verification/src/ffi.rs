//! Ownership of foreign pointers: what each holder hands to the host's
//! garbage collection callbacks when it is released, and the tags that say
//! which kind of Rust object an address holds.
use vstd::prelude::*;
use crate::interfaces::{
    ReleaseStep, RawCppPtr, RawCppPtrArr, RawCppPtrCarr, RawCppPtrTuple, RawCppPtrType,
    RawRustPtrType, RawVoidPtr, SpecialCppPtrType,
};

verus! {

/// The kinds of Rust objects that this peer hands to the host.
#[derive(Debug, Copy, Clone, Hash, PartialEq, Eq, Structural)]
pub enum RawRustPtrTypeEnum {
    Untyped,
    TimerTask,
    ArcFutureWaker,
}

impl RawRustPtrTypeEnum {
    /// The tag of each kind.
    pub open spec fn tag(self) -> u32 {
        match self {
            RawRustPtrTypeEnum::Untyped => 0,
            RawRustPtrTypeEnum::TimerTask => 1,
            RawRustPtrTypeEnum::ArcFutureWaker => 2,
        }
    }

    /// The kind that a valid tag (`0`, `1` or `2`) names.
    pub open spec fn of_tag(x: u32) -> RawRustPtrTypeEnum
        recommends
            x <= 2,
    {
        if x == 0 {
            RawRustPtrTypeEnum::Untyped
        } else if x == 1 {
            RawRustPtrTypeEnum::TimerTask
        } else {
            RawRustPtrTypeEnum::ArcFutureWaker
        }
    }

    /// The kind that the tag `x` names; only the tags of the three kinds are kinds.
    pub fn from_u32(x: u32) -> (r: RawRustPtrTypeEnum)
        requires
            x <= 2,
        ensures
            r == RawRustPtrTypeEnum::of_tag(x),
            r.tag() == x,
    {
        if x == 0 {
            RawRustPtrTypeEnum::Untyped
        } else if x == 1 {
            RawRustPtrTypeEnum::TimerTask
        } else {
            RawRustPtrTypeEnum::ArcFutureWaker
        }
    }
}

impl From<RawRustPtrTypeEnum> for u32 {
    fn from(x: RawRustPtrTypeEnum) -> (r: u32) {
        match x {
            RawRustPtrTypeEnum::Untyped => 0,
            RawRustPtrTypeEnum::TimerTask => 1,
            RawRustPtrTypeEnum::ArcFutureWaker => 2,
        }
    }
}

impl vstd::std_specs::convert::FromSpecImpl<RawRustPtrTypeEnum> for u32 {
    open spec fn obeys_from_spec() -> bool {
        true
    }

    open spec fn from_spec(x: RawRustPtrTypeEnum) -> u32 {
        x.tag()
    }
}

/// Tags round-trip: a kind's tag names that kind again, and the kind named by
/// a valid tag has that tag.
pub proof fn lemma_rust_ptr_type_roundtrip(t: RawRustPtrTypeEnum, x: u32)
    ensures
        RawRustPtrTypeEnum::of_tag(t.tag()) == t,
        t.tag() <= 2,
        x <= 2 ==> RawRustPtrTypeEnum::of_tag(x).tag() == x,
{
}

/// Which Rust object `ffi_gc_rust_ptr(data, type_)` frees: none for a null
/// address, else the object of the kind that `type_` names. A non-null
/// address must carry the tag of a timer task or of a future waker.
pub fn gc_rust_ptr_kind(data: RawVoidPtr, type_: RawRustPtrType) -> (r: Option<RawRustPtrTypeEnum>)
    requires
        data == 0 || type_ == 1 || type_ == 2,
    ensures
        data == 0 ==> r is None,
        data != 0 ==> r == Some(RawRustPtrTypeEnum::of_tag(type_)),
        r matches Some(k) ==> k != RawRustPtrTypeEnum::Untyped,
{
    if data == 0 {
        return None;
    }
    Some(RawRustPtrTypeEnum::from_u32(type_))
}

/// The steps that free each slot of a tuple in order, nulling each slot
/// once its object is freed.
pub open spec fn tuple_slot_steps(items: Seq<RawCppPtr>) -> Seq<ReleaseStep>
    decreases items.len(),
{
    if items.len() == 0 {
        seq![]
    } else {
        tuple_slot_steps(items.drop_last()) + seq![
            ReleaseStep::GcRawCppPtr { ptr: items.last().ptr, type_: items.last().type_ },
            ReleaseStep::NullSlot { index: (items.len() - 1) as usize },
        ]
    }
}

/// The steps that free each non-null slot of an array of objects of the kind
/// `type_` in order, nulling each slot once its object is freed.
pub open spec fn arr_slot_steps(items: Seq<RawVoidPtr>, type_: RawCppPtrType) -> Seq<ReleaseStep>
    decreases items.len(),
{
    if items.len() == 0 {
        seq![]
    } else if items.last() != 0 {
        arr_slot_steps(items.drop_last(), type_) + seq![
            ReleaseStep::GcRawCppPtr { ptr: items.last(), type_: type_ },
            ReleaseStep::NullSlot { index: (items.len() - 1) as usize },
        ]
    } else {
        arr_slot_steps(items.drop_last(), type_)
    }
}

/// Each slot of a tuple is freed, with its own kind, and then nulled; slot
/// by slot, in order, and nothing else happens to the slots.
pub proof fn lemma_tuple_slot_steps(items: Seq<RawCppPtr>)
    requires
        items.len() <= usize::MAX,
    ensures
        tuple_slot_steps(items).len() == 2 * items.len(),
        forall|i: int|
            0 <= i < items.len() ==> #[trigger] tuple_slot_steps(items)[2 * i] == (
            ReleaseStep::GcRawCppPtr { ptr: items[i].ptr, type_: items[i].type_ }),
        forall|i: int|
            0 <= i < items.len() ==> #[trigger] tuple_slot_steps(items)[2 * i + 1] == (
            ReleaseStep::NullSlot { index: i as usize }),
    decreases items.len(),
{
    if items.len() > 0 {
        let rest = items.drop_last();
        lemma_tuple_slot_steps(rest);
        let steps = tuple_slot_steps(items);
        let prev = tuple_slot_steps(rest);
        assert forall|i: int| 0 <= i < items.len() implies #[trigger] steps[2 * i] == (
        ReleaseStep::GcRawCppPtr { ptr: items[i].ptr, type_: items[i].type_ }) by {
            if i < rest.len() {
                assert(rest[i] == items[i]);
                assert(steps[2 * i] == prev[2 * i]);
            }
        }
        assert forall|i: int| 0 <= i < items.len() implies #[trigger] steps[2 * i + 1] == (
        ReleaseStep::NullSlot { index: i as usize }) by {
            if i < rest.len() {
                assert(steps[2 * i + 1] == prev[2 * i + 1]);
            }
        }
    }
}

/// Releasing the slots of an array writes only into slots whose object it
/// has just freed: each `NullSlot` step directly follows the freeing of that
/// slot's object, and every step is one of the two.
pub proof fn lemma_arr_slot_steps_null_after_free(items: Seq<RawVoidPtr>, type_: RawCppPtrType)
    requires
        items.len() <= usize::MAX,
    ensures
        forall|j: int|
            0 <= j < arr_slot_steps(items, type_).len() ==> (#[trigger] arr_slot_steps(
                items,
                type_,
            )[j] is GcRawCppPtr || arr_slot_steps(items, type_)[j] is NullSlot),
        forall|j: int|
            0 <= j < arr_slot_steps(items, type_).len() && (#[trigger] arr_slot_steps(
                items,
                type_,
            )[j] is NullSlot) ==> {
                let index = arr_slot_steps(items, type_)[j]->index;
                &&& index < items.len()
                &&& j >= 1
                &&& arr_slot_steps(items, type_)[j - 1] == (ReleaseStep::GcRawCppPtr {
                    ptr: items[index as int],
                    type_: type_,
                })
            },
    decreases items.len(),
{
    if items.len() > 0 {
        let rest = items.drop_last();
        lemma_arr_slot_steps_null_after_free(rest, type_);
        let steps = arr_slot_steps(items, type_);
        let prev = arr_slot_steps(rest, type_);
        assert forall|j: int| 0 <= j < steps.len() implies (#[trigger] steps[j] is GcRawCppPtr
            || steps[j] is NullSlot) by {
            if j < prev.len() {
                assert(steps[j] == prev[j]);
            }
        }
        assert forall|j: int| 0 <= j < steps.len() && (#[trigger] steps[j] is NullSlot) implies {
            let index = steps[j]->index;
            &&& index < items.len()
            &&& j >= 1
            &&& steps[j - 1] == (ReleaseStep::GcRawCppPtr {
                ptr: items[index as int],
                type_: type_,
            })
        } by {
            if j < prev.len() {
                assert(steps[j] == prev[j]);
                assert(steps[j - 1] == prev[j - 1]);
                assert(rest[prev[j]->index as int] == items[prev[j]->index as int]);
            }
        }
    }
}

/// Releasing the slots of an array frees exactly its non-null slots: every
/// object it frees is a non-null slot, freed with the array's kind, and every
/// non-null slot is freed and then nulled.
pub proof fn lemma_arr_slot_steps_free_owned(items: Seq<RawVoidPtr>, type_: RawCppPtrType)
    requires
        items.len() <= usize::MAX,
    ensures
        forall|j: int|
            0 <= j < arr_slot_steps(items, type_).len() && (#[trigger] arr_slot_steps(
                items,
                type_,
            )[j] is GcRawCppPtr) ==> {
                let step = arr_slot_steps(items, type_)[j];
                &&& step->GcRawCppPtr_ptr != 0
                &&& step->GcRawCppPtr_type_ == type_
                &&& items.contains(step->GcRawCppPtr_ptr)
            },
        forall|i: int|
            0 <= i < items.len() && #[trigger] items[i] != 0 ==> exists|j: int|
                0 <= j && j + 1 < arr_slot_steps(items, type_).len() && #[trigger] arr_slot_steps(
                    items,
                    type_,
                )[j] == (ReleaseStep::GcRawCppPtr { ptr: items[i], type_: type_ })
                    && arr_slot_steps(items, type_)[j + 1] == (ReleaseStep::NullSlot {
                    index: i as usize,
                }),
    decreases items.len(),
{
    if items.len() > 0 {
        let rest = items.drop_last();
        lemma_arr_slot_steps_free_owned(rest, type_);
        let steps = arr_slot_steps(items, type_);
        let prev = arr_slot_steps(rest, type_);
        let n = items.len() - 1;
        assert forall|j: int| 0 <= j < steps.len() && (#[trigger] steps[j] is GcRawCppPtr) implies {
            let step = steps[j];
            &&& step->GcRawCppPtr_ptr != 0
            &&& step->GcRawCppPtr_type_ == type_
            &&& items.contains(step->GcRawCppPtr_ptr)
        } by {
            if j < prev.len() {
                assert(steps[j] == prev[j]);
                let k = choose|k: int| 0 <= k < rest.len() && rest[k] == prev[j]->GcRawCppPtr_ptr;
                assert(items[k] == rest[k]);
            } else {
                assert(items[n] == items.last());
            }
        }
        assert forall|i: int| 0 <= i < items.len() && #[trigger] items[i] != 0 implies exists|j: int|
            0 <= j && j + 1 < steps.len() && #[trigger] steps[j] == (ReleaseStep::GcRawCppPtr {
                ptr: items[i],
                type_: type_,
            }) && steps[j + 1] == (ReleaseStep::NullSlot { index: i as usize }) by {
            if i < n {
                assert(rest[i] == items[i]);
                let j = choose|j: int|
                    0 <= j && j + 1 < prev.len() && #[trigger] prev[j] == (ReleaseStep::GcRawCppPtr {
                        ptr: rest[i],
                        type_: type_,
                    }) && prev[j + 1] == (ReleaseStep::NullSlot { index: i as usize });
                assert(steps[j] == prev[j]);
                assert(steps[j + 1] == prev[j + 1]);
            } else {
                let j = prev.len() as int;
                assert(steps[j] == (ReleaseStep::GcRawCppPtr { ptr: items[i], type_: type_ }));
                assert(steps[j + 1] == (ReleaseStep::NullSlot { index: i as usize }));
            }
        }
    }
}

/// What releasing a non-null array must do, stated over its fields and the
/// steps: the last step frees the array itself; every other step either
/// frees a non-null slot's object, with the array's kind, or nulls the slot
/// whose object the step before freed; and every non-null slot is freed and
/// then nulled. Null slots are never handed to the host.
pub open spec fn arr_release_law(
    inner: RawVoidPtr,
    len: u64,
    type_: RawCppPtrType,
    items: Seq<RawVoidPtr>,
    steps: Seq<ReleaseStep>,
) -> bool {
    &&& steps.len() >= 1
    &&& steps.last() == (ReleaseStep::GcSpecialRawCppPtr {
        ptr: inner,
        len: len,
        kind: SpecialCppPtrType::ArrayOfRawCppPtr,
    })
    &&& forall|j: int|
        0 <= j < steps.len() - 1 ==> match #[trigger] steps[j] {
            ReleaseStep::GcRawCppPtr { ptr, type_: t } => ptr != 0 && t == type_ && items.contains(
                ptr,
            ),
            ReleaseStep::NullSlot { index } => {
                &&& index < items.len()
                &&& j >= 1
                &&& steps[j - 1] == (ReleaseStep::GcRawCppPtr {
                    ptr: items[index as int],
                    type_: type_,
                })
            },
            _ => false,
        }
    &&& forall|i: int|
        0 <= i < items.len() && #[trigger] items[i] != 0 ==> exists|j: int|
            0 <= j && j + 1 < steps.len() && #[trigger] steps[j] == (ReleaseStep::GcRawCppPtr {
                ptr: items[i],
                type_: type_,
            }) && steps[j + 1] == (ReleaseStep::NullSlot { index: i as usize })
}

/// What releasing a tuple whose first slot is non-null must do, stated over
/// its fields and the steps: for each slot `i` in order, free its object
/// with the slot's own kind, then null slot `i`; last, free the tuple.
pub open spec fn tuple_release_law(
    inner: RawVoidPtr,
    len: u64,
    items: Seq<RawCppPtr>,
    steps: Seq<ReleaseStep>,
) -> bool {
    &&& steps.len() == 2 * items.len() + 1
    &&& forall|i: int|
        0 <= i < items.len() ==> #[trigger] steps[2 * i] == (ReleaseStep::GcRawCppPtr {
            ptr: items[i].ptr,
            type_: items[i].type_,
        })
    &&& forall|i: int|
        0 <= i < items.len() ==> #[trigger] steps[2 * i + 1] == (ReleaseStep::NullSlot {
            index: i as usize,
        })
    &&& steps[2 * items.len() as int] == (ReleaseStep::GcSpecialRawCppPtr {
        ptr: inner,
        len: len,
        kind: SpecialCppPtrType::TupleOfRawCppPtr,
    })
}

/// Releasing a non-null holder frees its object, with its own kind, in one
/// step; releasing a null one does nothing.
pub proof fn lemma_cpp_ptr_release_frees_object(p: RawCppPtr)
    ensures
        p.ptr != 0 ==> p.release_steps() == seq![
            ReleaseStep::GcRawCppPtr { ptr: p.ptr, type_: p.type_ },
        ],
        p.ptr == 0 ==> p.release_steps().len() == 0,
{
}

/// Releasing a non-null C array frees the whole array in one step, with its
/// own kind and length; releasing a null one does nothing.
pub proof fn lemma_carr_release_frees_array(a: RawCppPtrCarr)
    ensures
        a.inner != 0 ==> a.release_steps() == seq![
            ReleaseStep::GcRawCppPtrCarr { ptr: a.inner, type_: a.type_, len: a.len },
        ],
        a.inner == 0 ==> a.release_steps().len() == 0,
{
}

/// Releasing a non-null array meets `arr_release_law`, whichever of its
/// slots are null.
#[verifier::rlimit(40)]
pub proof fn lemma_arr_release_frees_owned(a: RawCppPtrArr)
    requires
        a.wf(),
        a.inner != 0,
        a.items@.len() <= usize::MAX,
    ensures
        arr_release_law(a.inner, a.len, a.type_, a.items@, a.release_steps()),
{
    let items = a.items@;
    let steps = a.release_steps();
    let slot_steps = arr_slot_steps(items, a.type_);
    lemma_arr_slot_steps_null_after_free(items, a.type_);
    lemma_arr_slot_steps_free_owned(items, a.type_);
    assert forall|j: int| 0 <= j < steps.len() - 1 implies match #[trigger] steps[j] {
        ReleaseStep::GcRawCppPtr { ptr, type_: t } => ptr != 0 && t == a.type_ && items.contains(
            ptr,
        ),
        ReleaseStep::NullSlot { index } => {
            &&& index < items.len()
            &&& j >= 1
            &&& steps[j - 1] == (ReleaseStep::GcRawCppPtr {
                ptr: items[index as int],
                type_: a.type_,
            })
        },
        _ => false,
    } by {
        assert(steps[j] == slot_steps[j]);
        assert(slot_steps[j] is GcRawCppPtr || slot_steps[j] is NullSlot);
        if slot_steps[j] is NullSlot {
            assert(steps[j - 1] == slot_steps[j - 1]);
        }
    }
    assert forall|i: int| 0 <= i < items.len() && #[trigger] items[i] != 0 implies exists|j: int|
        0 <= j && j + 1 < steps.len() && #[trigger] steps[j] == (ReleaseStep::GcRawCppPtr {
            ptr: items[i],
            type_: a.type_,
        }) && steps[j + 1] == (ReleaseStep::NullSlot { index: i as usize }) by {
        let j = choose|j: int|
            0 <= j && j + 1 < slot_steps.len() && #[trigger] slot_steps[j] == (
            ReleaseStep::GcRawCppPtr { ptr: items[i], type_: a.type_ }) && slot_steps[j + 1] == (
            ReleaseStep::NullSlot { index: i as usize });
        assert(steps[j] == slot_steps[j]);
        assert(steps[j + 1] == slot_steps[j + 1]);
    }
}

/// Releasing a tuple whose first slot is non-null meets `tuple_release_law`:
/// each slot is freed with its own kind.
pub proof fn lemma_tuple_release_frees_each_slot(t: RawCppPtrTuple)
    requires
        t.wf(),
        t.inner != 0,
        t.len > 0,
        t.items@[0].ptr != 0,
        t.items@.len() <= usize::MAX,
    ensures
        tuple_release_law(t.inner, t.len, t.items@, t.release_steps()),
{
    let items = t.items@;
    let steps = t.release_steps();
    let slot_steps = tuple_slot_steps(items);
    lemma_tuple_slot_steps(items);
    assert forall|i: int| 0 <= i < items.len() implies #[trigger] steps[2 * i] == (
    ReleaseStep::GcRawCppPtr { ptr: items[i].ptr, type_: items[i].type_ }) by {
        assert(steps[2 * i] == slot_steps[2 * i]);
    }
    assert forall|i: int| 0 <= i < items.len() implies #[trigger] steps[2 * i + 1] == (
    ReleaseStep::NullSlot { index: i as usize }) by {
        assert(steps[2 * i + 1] == slot_steps[2 * i + 1]);
    }
}

impl RawCppPtr {
    /// What releasing this holder frees: its object, unless it is null.
    pub open spec fn release_steps(self) -> Seq<ReleaseStep> {
        if self.ptr == 0 {
            seq![]
        } else {
            seq![ReleaseStep::GcRawCppPtr { ptr: self.ptr, type_: self.type_ }]
        }
    }

    pub fn is_null(&self) -> (r: bool)
        ensures
            r == (self.ptr == 0),
    {
        self.ptr == 0
    }

    /// Gives up ownership: returns the address and leaves a null holder,
    /// which frees nothing when released.
    pub fn into_raw(&mut self) -> (r: RawVoidPtr)
        ensures
            r == old(self).ptr,
            final(self).ptr == 0,
            final(self).type_ == old(self).type_,
            final(self).release_steps() == Seq::<ReleaseStep>::empty(),
    {
        let ptr = self.ptr;
        self.ptr = 0;
        ptr
    }

    /// Releases the object: the steps to take, after which the holder is null.
    pub fn release(&mut self) -> (steps: Vec<ReleaseStep>)
        ensures
            steps@ == old(self).release_steps(),
            old(self).ptr != 0 ==> steps@ == seq![
                ReleaseStep::GcRawCppPtr { ptr: old(self).ptr, type_: old(self).type_ },
            ],
            old(self).ptr == 0 ==> steps@.len() == 0,
            final(self).ptr == 0,
            final(self).type_ == old(self).type_,
            final(self).release_steps() == Seq::<ReleaseStep>::empty(),
    {
        proof {
            lemma_cpp_ptr_release_frees_object(*old(self));
        }
        let mut steps: Vec<ReleaseStep> = Vec::new();
        if !self.is_null() {
            steps.push(ReleaseStep::GcRawCppPtr { ptr: self.ptr, type_: self.type_ });
            self.ptr = 0;
        }
        steps
    }
}

impl RawCppPtrTuple {
    /// The slots are those of the array at `inner`, when there is one.
    pub open spec fn wf(&self) -> bool {
        self.inner != 0 ==> self.items@.len() == self.len
    }

    /// What releasing the tuple does: nothing when its first slot is null;
    /// else it frees and nulls every slot, in order, then frees the array.
    pub open spec fn release_steps(&self) -> Seq<ReleaseStep> {
        if self.items@[0].ptr == 0 {
            seq![]
        } else {
            tuple_slot_steps(self.items@).push(
                ReleaseStep::GcSpecialRawCppPtr {
                    ptr: self.inner,
                    len: self.len,
                    kind: SpecialCppPtrType::TupleOfRawCppPtr,
                },
            )
        }
    }

    /// Whether the first slot of the array holds a null object.
    pub fn is_null(&self) -> (r: bool)
        requires
            self.inner != 0,
            self.items@.len() > 0,
        ensures
            r == (self.items@[0].ptr == 0),
    {
        self.items[0].ptr == 0
    }

    /// Releases the tuple: the steps to take, after which it holds nothing.
    /// A tuple whose first slot is null is left as it is.
    pub fn release(&mut self) -> (steps: Vec<ReleaseStep>)
        requires
            old(self).wf(),
            old(self).inner != 0,
            old(self).len > 0,
        ensures
            steps@ == old(self).release_steps(),
            old(self).items@[0].ptr == 0 ==> steps@.len() == 0,
            old(self).items@[0].ptr != 0 ==> tuple_release_law(
                old(self).inner,
                old(self).len,
                old(self).items@,
                steps@,
            ),
            old(self).items@[0].ptr == 0 ==> *final(self) == *old(self),
            old(self).items@[0].ptr != 0 ==> {
                &&& final(self).inner == 0
                &&& final(self).len == 0
                &&& final(self).items@.len() == 0
            },
            final(self).wf(),
    {
        let mut steps: Vec<ReleaseStep> = Vec::new();
        if self.is_null() {
            return steps;
        }
        let count = self.items.len();
        proof {
            lemma_tuple_release_frees_each_slot(*self);
        }
        let ghost slots = self.items@;
        let mut i: usize = 0;
        while i < count
            invariant
                i <= slots.len(),
                count == slots.len(),
                self.items@ == slots,
                steps@ == tuple_slot_steps(slots.take(i as int)),
            decreases slots.len() - i,
        {
            let slot = self.items[i];
            steps.push(ReleaseStep::GcRawCppPtr { ptr: slot.ptr, type_: slot.type_ });
            steps.push(ReleaseStep::NullSlot { index: i });
            proof {
                assert(slots.take(i + 1).drop_last() =~= slots.take(i as int));
                assert(steps@ =~= tuple_slot_steps(slots.take(i + 1)));
            }
            i = i + 1;
        }
        assert(slots.take(slots.len() as int) =~= slots);
        steps.push(
            ReleaseStep::GcSpecialRawCppPtr {
                ptr: self.inner,
                len: self.len,
                kind: SpecialCppPtrType::TupleOfRawCppPtr,
            },
        );
        self.inner = 0;
        self.len = 0;
        self.items = Vec::new();
        steps
    }
}

impl RawCppPtrArr {
    /// The slots are those of the array at `inner`, when there is one.
    pub open spec fn wf(&self) -> bool {
        self.inner != 0 ==> self.items@.len() == self.len
    }

    /// What releasing the array does: nothing when it is null; else it frees
    /// and nulls every non-null slot, in order and with the array's kind,
    /// then frees the array.
    pub open spec fn release_steps(&self) -> Seq<ReleaseStep> {
        if self.inner == 0 {
            seq![]
        } else {
            arr_slot_steps(self.items@, self.type_).push(
                ReleaseStep::GcSpecialRawCppPtr {
                    ptr: self.inner,
                    len: self.len,
                    kind: SpecialCppPtrType::ArrayOfRawCppPtr,
                },
            )
        }
    }

    pub fn is_null(&self) -> (r: bool)
        ensures
            r == (self.inner == 0),
    {
        self.inner == 0
    }

    /// Releases the array: the steps to take, after which it is null.
    pub fn release(&mut self) -> (steps: Vec<ReleaseStep>)
        requires
            old(self).wf(),
        ensures
            steps@ == old(self).release_steps(),
            old(self).inner == 0 ==> steps@.len() == 0,
            old(self).inner != 0 ==> arr_release_law(
                old(self).inner,
                old(self).len,
                old(self).type_,
                old(self).items@,
                steps@,
            ),
            final(self).inner == 0,
            final(self).type_ == old(self).type_,
            old(self).inner != 0 ==> final(self).len == 0 && final(self).items@.len() == 0,
            old(self).inner == 0 ==> *final(self) == *old(self),
            final(self).wf(),
            final(self).release_steps() == Seq::<ReleaseStep>::empty(),
    {
        if self.is_null() {
            return Vec::new();
        }
        let count = self.items.len();
        proof {
            lemma_arr_release_frees_owned(*self);
        }
        let mut steps: Vec<ReleaseStep> = Vec::new();
        let ghost slots = self.items@;
        let mut i: usize = 0;
        while i < count
            invariant
                i <= slots.len(),
                count == slots.len(),
                self.items@ == slots,
                steps@ == arr_slot_steps(slots.take(i as int), self.type_),
            decreases slots.len() - i,
        {
            let p = self.items[i];
            if p != 0 {
                steps.push(ReleaseStep::GcRawCppPtr { ptr: p, type_: self.type_ });
                steps.push(ReleaseStep::NullSlot { index: i });
            }
            proof {
                assert(slots.take(i + 1).drop_last() =~= slots.take(i as int));
                assert(steps@ =~= arr_slot_steps(slots.take(i + 1), self.type_));
            }
            i = i + 1;
        }
        assert(slots.take(slots.len() as int) =~= slots);
        steps.push(
            ReleaseStep::GcSpecialRawCppPtr {
                ptr: self.inner,
                len: self.len,
                kind: SpecialCppPtrType::ArrayOfRawCppPtr,
            },
        );
        self.inner = 0;
        self.len = 0;
        self.items = Vec::new();
        steps
    }
}

impl RawCppPtrCarr {
    /// What releasing the C array frees: nothing when it is null; else the
    /// whole array, with its kind and length.
    pub open spec fn release_steps(self) -> Seq<ReleaseStep> {
        if self.inner == 0 {
            seq![]
        } else {
            seq![ReleaseStep::GcRawCppPtrCarr { ptr: self.inner, type_: self.type_, len: self.len }]
        }
    }

    pub fn is_null(&self) -> (r: bool)
        ensures
            r == (self.inner == 0),
    {
        self.inner == 0
    }

    /// Releases the C array: the steps to take, after which it is null.
    pub fn release(&mut self) -> (steps: Vec<ReleaseStep>)
        ensures
            steps@ == old(self).release_steps(),
            old(self).inner != 0 ==> steps@ == seq![
                ReleaseStep::GcRawCppPtrCarr {
                    ptr: old(self).inner,
                    type_: old(self).type_,
                    len: old(self).len,
                },
            ],
            old(self).inner == 0 ==> steps@.len() == 0,
            final(self).inner == 0,
            final(self).type_ == old(self).type_,
            old(self).inner != 0 ==> final(self).len == 0,
            old(self).inner == 0 ==> *final(self) == *old(self),
            final(self).release_steps() == Seq::<ReleaseStep>::empty(),
    {
        proof {
            lemma_carr_release_frees_array(*old(self));
        }
        let mut steps: Vec<ReleaseStep> = Vec::new();
        if !self.is_null() {
            steps.push(ReleaseStep::GcRawCppPtrCarr { ptr: self.inner, type_: self.type_, len: self.len });
            self.inner = 0;
            self.len = 0;
        }
        steps
    }
}

} // verus!
