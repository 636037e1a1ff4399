use rustpeer::ffi::RawRustPtrTypeEnum;
use rustpeer::interfaces::{
    ReleaseStep, RawCppPtr, RawCppPtrArr, RawCppPtrCarr, RawCppPtrTuple, SpecialCppPtrType,
};
use rustpeer::mock_cpeer::{gc_raw_cpp_ptr_carr_calls, RawCppPtrTypeImpl};

/// Ten strings made by the peer, standing for the C++ strings of the host.
fn make_strings(len: usize) -> Vec<String> {
    let mut v = vec![];
    for i in 0..len {
        v.push(format!("s{}", i));
    }
    v
}

fn address_of(s: &String) -> usize {
    s.as_ptr() as usize
}

#[test]
fn test_tuple_of_raw_cpp_ptr() {
    let len = 10;
    let strings = make_strings(len);
    let mut v: Vec<RawCppPtr> = vec![];
    for s in strings.iter() {
        v.push(RawCppPtr { ptr: address_of(s), type_: RawCppPtrTypeImpl::String.into() });
    }
    // The spare capacity of the vector holds null objects of no kind.
    let l = v.len();
    let cap = 16;
    for _ in l..cap {
        v.push(RawCppPtr { ptr: 0, type_: RawCppPtrTypeImpl::Untyped.into() });
    }
    assert_ne!(l, cap);
    let inner = 0x7f00_0000usize;
    let mut cpp_ptr_tp = RawCppPtrTuple { inner, len: cap as u64, items: v.clone() };
    let steps = cpp_ptr_tp.release();
    // Every slot is freed and then nulled, null ones too; then the array.
    assert_eq!(steps.len(), 2 * cap + 1);
    for i in 0..cap {
        assert_eq!(steps[2 * i], ReleaseStep::GcRawCppPtr { ptr: v[i].ptr, type_: v[i].type_ });
        assert_eq!(steps[2 * i + 1], ReleaseStep::NullSlot { index: i });
    }
    assert_eq!(
        steps[2 * cap],
        ReleaseStep::GcSpecialRawCppPtr {
            ptr: inner,
            len: cap as u64,
            kind: SpecialCppPtrType::TupleOfRawCppPtr
        }
    );
    assert_eq!(cpp_ptr_tp.inner, 0);
    assert_eq!(cpp_ptr_tp.len, 0);
    assert!(cpp_ptr_tp.items.is_empty());
}

#[test]
fn test_array_of_raw_cpp_ptr() {
    let len = 10;
    let strings = make_strings(len);
    let mut v: Vec<usize> = vec![];
    for s in strings.iter() {
        let mut raw_cpp_ptr =
            RawCppPtr { ptr: address_of(s), type_: RawCppPtrTypeImpl::String.into() };
        let raw_void_ptr = raw_cpp_ptr.into_raw();
        assert!(raw_cpp_ptr.is_null());
        assert!(raw_cpp_ptr.release().is_empty());
        v.push(raw_void_ptr);
    }
    let l = v.len();
    let cap = 16;
    for _ in l..cap {
        v.push(0);
    }
    assert_ne!(l, cap);
    let inner = 0x7e00_0000usize;
    let mut cpp_ptr_arr = RawCppPtrArr {
        inner,
        type_: RawCppPtrTypeImpl::String.into(),
        len: cap as u64,
        items: v.clone(),
    };
    assert!(!cpp_ptr_arr.is_null());
    let steps = cpp_ptr_arr.release();
    // Only the ten strings, each nulled once freed, and the array itself.
    assert_eq!(steps.len(), 2 * len + 1);
    for i in 0..len {
        assert_eq!(steps[2 * i], ReleaseStep::GcRawCppPtr { ptr: v[i], type_: 1 });
        assert_eq!(steps[2 * i + 1], ReleaseStep::NullSlot { index: i });
    }
    assert_eq!(
        steps[2 * len],
        ReleaseStep::GcSpecialRawCppPtr {
            ptr: inner,
            len: cap as u64,
            kind: SpecialCppPtrType::ArrayOfRawCppPtr
        }
    );
    assert!(cpp_ptr_arr.is_null());
    assert!(cpp_ptr_arr.release().is_empty());
}

#[test]
fn test_carray_of_raw_cpp_ptr() {
    const LEN: usize = 10;
    let strings = make_strings(LEN);
    let mut v: [usize; LEN] = [0; LEN];
    for i in 0..LEN {
        let mut raw_cpp_ptr =
            RawCppPtr { ptr: address_of(&strings[i]), type_: RawCppPtrTypeImpl::String.into() };
        v[i] = raw_cpp_ptr.into_raw();
    }
    let pv1 = 0x7d00_0000usize;
    let mut carr = RawCppPtrCarr { inner: pv1, len: LEN as u64, type_: RawCppPtrTypeImpl::String.into() };
    assert_eq!(
        carr.release(),
        vec![ReleaseStep::GcRawCppPtrCarr { ptr: pv1, type_: 1, len: LEN as u64 }]
    );
    // What the peer then frees: every string of the C array.
    let calls = gc_raw_cpp_ptr_carr_calls(RawCppPtrTypeImpl::String.into(), &v.to_vec());
    assert_eq!(calls.len(), LEN);
    for i in 0..LEN {
        assert_eq!(calls[i], ReleaseStep::GcRawCppPtr { ptr: v[i], type_: 1 });
    }
}

#[test]
fn tuple_with_null_first_slot_is_kept() {
    let items = vec![RawCppPtr { ptr: 0, type_: 0 }, RawCppPtr { ptr: 0x40, type_: 1 }];
    let mut t = RawCppPtrTuple { inner: 0x1000, len: 2, items: items.clone() };
    assert!(t.is_null());
    assert!(t.release().is_empty());
    assert_eq!(t.inner, 0x1000);
    assert_eq!(t.len, 2);
    assert_eq!(t.items, items);
}

#[test]
fn null_holders_free_nothing() {
    let mut p = RawCppPtr { ptr: 0, type_: 1 };
    assert!(p.is_null());
    assert!(p.release().is_empty());
    let mut a = RawCppPtrArr { inner: 0, len: 3, type_: 1, items: vec![] };
    assert!(a.release().is_empty());
    assert_eq!(a.len, 3);
    let mut c = RawCppPtrCarr { inner: 0, len: 3, type_: 1 };
    assert!(c.is_null());
    assert!(c.release().is_empty());
}

#[test]
fn released_holders_free_nothing_again() {
    let mut p = RawCppPtr { ptr: 0x88, type_: 12 };
    assert!(!p.is_null());
    assert_eq!(p.release(), vec![ReleaseStep::GcRawCppPtr { ptr: 0x88, type_: 12 }]);
    assert!(p.is_null());
    assert_eq!(p.type_, 12);
    assert!(p.release().is_empty());

    let mut c = RawCppPtrCarr { inner: 0x90, len: 4, type_: 1 };
    assert_eq!(c.release().len(), 1);
    assert!(c.is_null());
    assert_eq!(c.len, 0);
    assert!(c.release().is_empty());

    let mut a = RawCppPtrArr { inner: 0xa0, len: 3, type_: 1, items: vec![0x10, 0, 0x18] };
    let steps = a.release();
    assert_eq!(
        steps,
        vec![
            ReleaseStep::GcRawCppPtr { ptr: 0x10, type_: 1 },
            ReleaseStep::NullSlot { index: 0 },
            ReleaseStep::GcRawCppPtr { ptr: 0x18, type_: 1 },
            ReleaseStep::NullSlot { index: 2 },
            ReleaseStep::GcSpecialRawCppPtr {
                ptr: 0xa0,
                len: 3,
                kind: SpecialCppPtrType::ArrayOfRawCppPtr
            },
        ]
    );
    assert!(a.release().is_empty());
}

#[test]
fn into_raw_gives_up_ownership() {
    let mut p = RawCppPtr { ptr: 0x1234, type_: 1 };
    assert_eq!(p.into_raw(), 0x1234);
    assert_eq!(p.ptr, 0);
    assert_eq!(p.type_, 1);
    assert!(p.release().is_empty());
}

#[test]
fn rust_ptr_tags() {
    let kinds = [
        RawRustPtrTypeEnum::Untyped,
        RawRustPtrTypeEnum::TimerTask,
        RawRustPtrTypeEnum::ArcFutureWaker,
    ];
    for (i, k) in kinds.iter().enumerate() {
        let tag: u32 = (*k).into();
        assert_eq!(tag, i as u32);
        assert_eq!(RawRustPtrTypeEnum::from_u32(tag), *k);
    }
}

#[test]
fn cpp_ptr_tags() {
    assert_eq!(u32::from(RawCppPtrTypeImpl::Untyped), 0);
    assert_eq!(u32::from(RawCppPtrTypeImpl::String), 1);
    assert_eq!(u32::from(RawCppPtrTypeImpl::WakerNotifier), 12);
    for k in [RawCppPtrTypeImpl::Untyped, RawCppPtrTypeImpl::String, RawCppPtrTypeImpl::WakerNotifier] {
        assert_eq!(RawCppPtrTypeImpl::try_from_u32(k.into()), Some(k));
        assert_eq!(RawCppPtrTypeImpl::from_u32(k.into()), k);
    }
    assert_eq!(RawCppPtrTypeImpl::try_from_u32(2), None);
    assert_eq!(RawCppPtrTypeImpl::try_from_u32(11), None);
    assert_eq!(RawCppPtrTypeImpl::try_from_u32(u32::MAX), None);
}

#[test]
fn carr_gc_skips_null_slots() {
    let calls = gc_raw_cpp_ptr_carr_calls(1, &vec![0, 0x20, 0, 0x30]);
    assert_eq!(
        calls,
        vec![ReleaseStep::GcRawCppPtr { ptr: 0x20, type_: 1 }, ReleaseStep::GcRawCppPtr { ptr: 0x30, type_: 1 }]
    );
    assert!(gc_raw_cpp_ptr_carr_calls(1, &vec![]).is_empty());
}
