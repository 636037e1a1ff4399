//! The values that cross the boundary between this peer and the C++ host,
//! with every pointer held as the address it points at (`0` for null).
use vstd::prelude::*;

verus! {

/// Address of a foreign object, `0` for null.
pub type RawVoidPtr = usize;

/// The host's tag for the kind of a C++ object.
pub type RawCppPtrType = u32;

/// This peer's tag for the kind of a Rust object handed to the host.
pub type RawRustPtrType = u32;

/// A C++ string, only ever seen behind a pointer.
pub struct RawCppString {
    _unused: [u8; 0],
}

/// A Rust object handed to the host, with its kind.
#[derive(Debug, Clone, Copy, PartialEq, Eq, Structural)]
pub struct RawRustPtr {
    pub ptr: RawVoidPtr,
    pub type_: RawRustPtrType,
}

/// The kinds of containers of C++ pointers that the host frees as a whole.
#[derive(Debug, Copy, Clone, Hash, PartialEq, Eq, Structural)]
pub enum SpecialCppPtrType {
    Untyped,
    TupleOfRawCppPtr,
    ArrayOfRawCppPtr,
}

/// An owned C++ object: released through the host once it is dropped.
#[derive(Debug, Clone, Copy, PartialEq, Eq, Structural)]
pub struct RawCppPtr {
    pub ptr: RawVoidPtr,
    pub type_: RawCppPtrType,
}

/// An owned C array of `len` C++ objects of one kind, freed by the host as a whole.
#[derive(Debug, Clone, Copy, PartialEq, Eq, Structural)]
pub struct RawCppPtrCarr {
    pub inner: RawVoidPtr,
    pub len: u64,
    pub type_: RawCppPtrType,
}

/// An owned array of `len` `RawCppPtr`s (a tuple of objects of mixed kinds).
/// `items` holds the array's slots as read from `inner`.
pub struct RawCppPtrTuple {
    pub inner: RawVoidPtr,
    pub len: u64,
    pub items: Vec<RawCppPtr>,
}

/// An owned array of `len` pointers to C++ objects that share the kind `type_`.
/// `items` holds the array's slots as read from `inner`.
pub struct RawCppPtrArr {
    pub inner: RawVoidPtr,
    pub len: u64,
    pub type_: RawCppPtrType,
    pub items: Vec<RawVoidPtr>,
}

/// One step of releasing a holder: a call into the host's garbage collection
/// callbacks, or a write into the array being released.
#[derive(Debug, Clone, Copy, PartialEq, Eq, Structural)]
pub enum ReleaseStep {
    /// `fn_gc_raw_cpp_ptr(ptr, type_)`: free one C++ object.
    GcRawCppPtr { ptr: RawVoidPtr, type_: RawCppPtrType },
    /// `fn_gc_raw_cpp_ptr_carr(ptr, type_, len)`: free a C array of C++ objects.
    GcRawCppPtrCarr { ptr: RawVoidPtr, type_: RawCppPtrType, len: u64 },
    /// `fn_gc_special_raw_cpp_ptr(ptr, len, kind)`: free a container of pointers.
    GcSpecialRawCppPtr { ptr: RawVoidPtr, len: u64, kind: SpecialCppPtrType },
    /// Write null into slot `index` of the array being released, whose
    /// object was just freed, so that the host never frees it twice.
    NullSlot { index: usize },
}

} // verus!
