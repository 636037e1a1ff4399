# rustpeer

The Rust side of a C++/Rust peer pair, as a verified library and a thin
C ABI around it.

- `src/` (verified with Verus): the holders of C++ pointers and what
  releasing each of them asks of the host (`interfaces`, `ffi`), the tags of
  the objects behind the pointers and their round trips, the stand-in C++
  peer's notifier decisions and collection decisions (`mock_cpeer`), thread-name tags
  (`util`), byte-string search and order (`text`) and the binding generator's header order and text
  handling (`codegen`).
- `app/`: the `extern "C"` functions, the `repr(C)` layouts with raw
  pointers, the destructors that run the library's release steps through the
  host's callbacks, the tokio timer tasks and futures wakers, the locking and
  waiting that carry out the notifier's decisions, the panic hook, and the
  bindgen driver.
