# fdreactor

A small poll-driven event reactor for Linux descriptors (files, named pipes,
signalfd, timerfd), with its decision logic verified by Verus.

- `src/` is the verified library: the `Buffer` trait and its `Vec<u8>`
  implementation, line framing (`LineFramer`, `FrameBuffer`), the handlers as
  state machines from an I/O outcome to an `Action`, the file and pipe
  callback contexts, and the reactor's descriptor `Registry`.
- `app/` is the program around it: the nix system calls, the poll loop, the
  executor thread, the shared (`Arc<Mutex<..>>`) contexts that hold user
  callbacks, and `main`, which prints the lines arriving on `thepipe`.
- `tests/` runs the library on concrete inputs.
