use rustpeer::ffi::{gc_rust_ptr_kind, RawRustPtrTypeEnum};
use rustpeer::interfaces::RawRustPtr;
use rustpeer::mock_cpeer::{MockCPeerNotifier, RawCppPtrTypeImpl, RawRustPtrWrap};
use std::time::{Duration, Instant};

#[test]
fn gc_rust_ptr_kind_by_tag() {
    assert_eq!(gc_rust_ptr_kind(0, 0), None);
    assert_eq!(gc_rust_ptr_kind(0, 7), None);
    assert_eq!(gc_rust_ptr_kind(0x10, 1), Some(RawRustPtrTypeEnum::TimerTask));
    assert_eq!(gc_rust_ptr_kind(0x10, 2), Some(RawRustPtrTypeEnum::ArcFutureWaker));
}

#[test]
fn rust_ptr_wrap_releases_once() {
    let mut w = RawRustPtrWrap::new(RawRustPtr { ptr: 0x500, type_: 2 });
    assert_eq!(w.ptr(), 0x500);
    assert_eq!(w.release(), Some((0x500, RawRustPtrTypeEnum::ArcFutureWaker)));
    assert_eq!(w.ptr(), 0);
    assert_eq!(w.release(), None);
    let mut t = RawRustPtrWrap::new(RawRustPtr { ptr: 0x600, type_: 1 });
    assert_eq!(t.release(), Some((0x600, RawRustPtrTypeEnum::TimerTask)));
    let mut n = RawRustPtrWrap::new(RawRustPtr { ptr: 0, type_: 0 });
    assert_eq!(n.release(), None);
}

#[test]
fn new_raw_is_an_owned_notifier() {
    let p = MockCPeerNotifier::new_raw();
    assert!(!p.is_null());
    assert_eq!(p.type_, u32::from(RawCppPtrTypeImpl::WakerNotifier));
    assert_eq!(p.type_, 12);
}

fn wait(n: &MockCPeerNotifier, timeout: Duration) {
    n.blocked_wait_for(|| {
        let lock = n.mutex.lock().unwrap();
        if !n.is_notified() {
            let _cv = n.cv.wait_timeout(lock, timeout);
        }
    })
}

fn notify(n: &MockCPeerNotifier) {
    n.wake(|| {
        let _lock = n.mutex.lock().unwrap();
        n.cv.notify_one();
    })
}

#[test]
fn wake_before_wait_is_not_lost() {
    let n = MockCPeerNotifier::new();
    assert!(!n.is_notified());
    notify(&n);
    assert!(n.is_notified());
    notify(&n);
    let now = Instant::now();
    wait(&n, Duration::from_secs(3));
    assert!(now.elapsed() < Duration::from_secs(3));
    assert!(!n.is_notified());
}

#[test]
fn wait_without_wake_times_out() {
    let n = MockCPeerNotifier::new();
    let now = Instant::now();
    wait(&n, Duration::from_millis(50));
    assert!(now.elapsed() >= Duration::from_millis(40));
    assert!(!n.is_notified());
}

#[test]
fn wakes_coalesce_and_only_the_first_notifies() {
    let n = MockCPeerNotifier::new();
    let mut notified = 0;
    n.wake(|| notified += 1);
    n.wake(|| notified += 1);
    assert_eq!(notified, 1);
    let mut waited = 0;
    n.blocked_wait_for(|| waited += 1);
    assert_eq!(waited, 0);
    n.blocked_wait_for(|| waited += 1);
    assert_eq!(waited, 1);
}

#[test]
fn rust_ptr_wrap_tag() {
    let w = RawRustPtrWrap::new(RawRustPtr { ptr: 0x700, type_: 1 });
    assert_eq!(w.type_tag(), 1);
}
