//! A stand-in for the C++ peer: its object kinds, its notifier, and the
//! decisions of its garbage collection callbacks.
use vstd::prelude::*;
use crate::ffi::{gc_rust_ptr_kind, RawRustPtrTypeEnum};
use crate::interfaces::{
    ReleaseStep, RawCppPtr, RawCppPtrType, RawRustPtr, RawRustPtrType, RawVoidPtr,
};

verus! {

/// The kinds of C++ objects that the stand-in peer makes.
#[derive(Debug, Copy, Clone, PartialEq, Eq, Structural)]
pub enum RawCppPtrTypeImpl {
    Untyped,
    String,
    WakerNotifier,
}

impl RawCppPtrTypeImpl {
    /// The tag of each kind.
    pub open spec fn tag(self) -> u32 {
        match self {
            RawCppPtrTypeImpl::Untyped => 0,
            RawCppPtrTypeImpl::String => 1,
            RawCppPtrTypeImpl::WakerNotifier => 12,
        }
    }

    /// The kind that `x` is the tag of, if any.
    pub open spec fn of_tag(x: u32) -> Option<RawCppPtrTypeImpl> {
        if x == 0 {
            Some(RawCppPtrTypeImpl::Untyped)
        } else if x == 1 {
            Some(RawCppPtrTypeImpl::String)
        } else if x == 12 {
            Some(RawCppPtrTypeImpl::WakerNotifier)
        } else {
            None
        }
    }

    /// The kind that `x` is the tag of; `None` for any other number.
    pub fn try_from_u32(x: u32) -> (r: Option<RawCppPtrTypeImpl>)
        ensures
            r == RawCppPtrTypeImpl::of_tag(x),
    {
        if x == 0 {
            Some(RawCppPtrTypeImpl::Untyped)
        } else if x == 1 {
            Some(RawCppPtrTypeImpl::String)
        } else if x == 12 {
            Some(RawCppPtrTypeImpl::WakerNotifier)
        } else {
            None
        }
    }

    /// The kind that `x` is the tag of; `x` must be the tag of a kind.
    pub fn from_u32(x: u32) -> (r: RawCppPtrTypeImpl)
        requires
            RawCppPtrTypeImpl::of_tag(x) is Some,
        ensures
            Some(r) == RawCppPtrTypeImpl::of_tag(x),
            r.tag() == x,
    {
        match RawCppPtrTypeImpl::try_from_u32(x) {
            Some(t) => t,
            None => RawCppPtrTypeImpl::Untyped,
        }
    }
}

impl From<RawCppPtrTypeImpl> for u32 {
    fn from(x: RawCppPtrTypeImpl) -> (r: u32) {
        match x {
            RawCppPtrTypeImpl::Untyped => 0,
            RawCppPtrTypeImpl::String => 1,
            RawCppPtrTypeImpl::WakerNotifier => 12,
        }
    }
}

impl vstd::std_specs::convert::FromSpecImpl<RawCppPtrTypeImpl> for u32 {
    open spec fn obeys_from_spec() -> bool {
        true
    }

    open spec fn from_spec(x: RawCppPtrTypeImpl) -> u32 {
        x.tag()
    }
}

/// Tags round-trip: a kind's tag names that kind again, and a number names a
/// kind exactly when it is that kind's tag.
pub proof fn lemma_cpp_ptr_type_roundtrip(t: RawCppPtrTypeImpl, x: u32)
    ensures
        RawCppPtrTypeImpl::of_tag(t.tag()) == Some(t),
        RawCppPtrTypeImpl::of_tag(x) matches Some(k) ==> k.tag() == x,
{
}

/// The calls that free the non-null elements of an array of one kind, in order.
pub open spec fn free_non_null(items: Seq<RawVoidPtr>, type_: RawCppPtrType) -> Seq<ReleaseStep> {
    items.filter(|p: RawVoidPtr| p != 0).map_values(
        |p: RawVoidPtr| ReleaseStep::GcRawCppPtr { ptr: p, type_: type_ },
    )
}

/// Builds the calls of `free_non_null` for `items`.
fn free_non_null_calls(items: &Vec<RawVoidPtr>, type_: RawCppPtrType) -> (calls: Vec<ReleaseStep>)
    ensures
        calls@ == free_non_null(items@, type_),
{
    let mut calls: Vec<ReleaseStep> = Vec::new();
    let mut i: usize = 0;
    while i < items.len()
        invariant
            i <= items@.len(),
            calls@ == free_non_null(items@.take(i as int), type_),
        decreases items@.len() - i,
    {
        proof {
            reveal_with_fuel(Seq::filter, 1);
            assert(items@.take(i + 1).drop_last() =~= items@.take(i as int));
        }
        let p = items[i];
        if p != 0 {
            calls.push(ReleaseStep::GcRawCppPtr { ptr: p, type_: type_ });
        }
        proof {
            let nn = |q: RawVoidPtr| q != 0;
            let f = |q: RawVoidPtr| ReleaseStep::GcRawCppPtr { ptr: q, type_: type_ };
            let before = items@.take(i as int).filter(nn);
            if p != 0 {
                assert(items@.take(i + 1).filter(nn) =~= before.push(p));
                assert(before.push(p).map_values(f) =~= before.map_values(f).push(f(p)));
            } else {
                assert(items@.take(i + 1).filter(nn) =~= before);
            }
        }
        i = i + 1;
    }
    assert(items@.take(items@.len() as int) =~= items@);
    calls
}

/// What the stand-in peer's `ffi_gc_raw_cpp_ptr_carr` frees of a C array of
/// strings before it frees the array: every non-null slot, as a string.
/// Only arrays of strings are handled.
pub fn gc_raw_cpp_ptr_carr_calls(tp: RawCppPtrType, items: &Vec<RawVoidPtr>) -> (calls: Vec<ReleaseStep>)
    requires
        tp == RawCppPtrTypeImpl::String.tag(),
    ensures
        calls@ == free_non_null(items@, RawCppPtrTypeImpl::String.tag()),
{
    match RawCppPtrTypeImpl::from_u32(tp) {
        RawCppPtrTypeImpl::String => free_non_null_calls(items, RawCppPtrTypeImpl::String.into()),
        _ => Vec::new(),
    }
}

#[verifier::external_type_specification]
#[verifier::external_body]
#[verifier::reject_recursive_types(T)]
pub struct ExMutex<T: ?Sized>(std::sync::Mutex<T>);

#[verifier::external_type_specification]
#[verifier::external_body]
pub struct ExCondvar(std::sync::Condvar);

/// `std::sync::Mutex::new`: a new unlocked mutex.
#[verifier::external_body]
fn new_mutex() -> std::sync::Mutex<()> {
    std::sync::Mutex::new(())
}

/// `std::sync::Condvar::new`: a new condition variable.
#[verifier::external_body]
fn new_condvar() -> std::sync::Condvar {
    std::sync::Condvar::new()
}

/// `Box::into_raw`: gives up the box and returns the address of its contents,
/// which is never null.
#[verifier::external_body]
fn notifier_into_addr(notifier: Box<MockCPeerNotifier>) -> (addr: RawVoidPtr)
    ensures
        addr != 0,
{
    Box::into_raw(notifier) as usize
}

/// A notifier with many notifiers and a single receiver. The flag records a
/// notification that came while nobody waited, so that the receiver does not
/// wait until its timeout for it.
///
/// The notifier decides, from its flag, whether to block or to notify; the
/// blocking and the notifying themselves, under the notifier's mutex and on
/// its condition variable, are handed in by the caller.
pub struct MockCPeerNotifier {
    /// The condition variable that the receiver blocks on.
    pub cv: std::sync::Condvar,
    /// The mutex under which the receiver checks the flag and blocks, and
    /// under which a notifier notifies.
    pub mutex: std::sync::Mutex<()>,
    flag: std::sync::atomic::AtomicBool,
}

impl MockCPeerNotifier {
    /// A notifier with no pending notification.
    pub fn new() -> MockCPeerNotifier {
        MockCPeerNotifier {
            cv: new_condvar(),
            mutex: new_mutex(),
            flag: std::sync::atomic::AtomicBool::new(false),
        }
    }

    /// Whether a notification is pending.
    pub fn is_notified(&self) -> bool {
        self.flag.load(std::sync::atomic::Ordering::Acquire)
    }

    /// Waits for a notification, unless one came since the last wait; in
    /// either case the flag is cleared afterwards. `wait_unless_notified` is
    /// the wait itself: under the mutex, unless `is_notified`, block on the
    /// condition variable for at most the timeout.
    pub fn blocked_wait_for<F: FnOnce()>(&self, wait_unless_notified: F)
        requires
            wait_unless_notified.requires(()),
    {
        // flag from false to false: wait for a notification.
        // flag from true to false: nothing to wait for.
        if !self.flag.swap(false, std::sync::atomic::Ordering::AcqRel) {
            wait_unless_notified();
            self.flag.store(false, std::sync::atomic::Ordering::Release);
        }
    }

    /// Notifies the receiver, unless a notification is already pending.
    /// `notify` is the notification itself: under the mutex, notify one
    /// thread blocked on the condition variable.
    pub fn wake<F: FnOnce()>(&self, notify: F)
        requires
            notify.requires(()),
    {
        // flag from false to true: wake the receiver up.
        // flag from true to true: nothing to do.
        if !self.flag.swap(true, std::sync::atomic::Ordering::AcqRel) {
            notify();
        }
    }

    /// A new notifier, handed out as an owned C++ object of the kind
    /// `WakerNotifier`.
    pub fn new_raw() -> (r: RawCppPtr)
        ensures
            r.ptr != 0,
            r.type_ == RawCppPtrTypeImpl::WakerNotifier.tag(),
    {
        let notifier = Box::new(MockCPeerNotifier::new());
        RawCppPtr { ptr: notifier_into_addr(notifier), type_: RawCppPtrTypeImpl::WakerNotifier.into() }
    }
}

/// An owned Rust object handed out to the host, freed by this peer once it
/// is released.
pub struct RawRustPtrWrap(RawRustPtr);

impl View for RawRustPtrWrap {
    type V = RawRustPtr;

    closed spec fn view(&self) -> RawRustPtr {
        self.0
    }
}

impl RawRustPtrWrap {
    pub fn new(ptr: RawRustPtr) -> (r: RawRustPtrWrap)
        ensures
            r@ == ptr,
    {
        RawRustPtrWrap(ptr)
    }

    /// The address of the wrapped object.
    pub fn ptr(&self) -> (r: RawVoidPtr)
        ensures
            r == self@.ptr,
    {
        self.0.ptr
    }

    /// The kind tag of the wrapped object.
    pub fn type_tag(&self) -> (r: RawRustPtrType)
        ensures
            r == self@.type_,
    {
        self.0.type_
    }

    /// Releases the object: which object to free (its address and kind),
    /// none for a null address; afterwards the wrapper is null. A non-null
    /// object must carry the tag of a timer task or of a future waker.
    pub fn release(&mut self) -> (r: Option<(RawVoidPtr, RawRustPtrTypeEnum)>)
        requires
            old(self)@.ptr == 0 || old(self)@.type_ == 1 || old(self)@.type_ == 2,
        ensures
            old(self)@.ptr == 0 ==> r is None,
            old(self)@.ptr != 0 ==> r == Some(
                (old(self)@.ptr, RawRustPtrTypeEnum::of_tag(old(self)@.type_)),
            ),
            final(self)@.ptr == 0,
            final(self)@.type_ == old(self)@.type_,
    {
        let ptr = self.0.ptr;
        let kind = gc_rust_ptr_kind(ptr, self.0.type_);
        self.0.ptr = 0;
        match kind {
            Some(k) => Some((ptr, k)),
            None => None,
        }
    }
}

} // verus!
