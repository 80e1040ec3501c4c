//! The decision logic of a small poll-driven event reactor: byte buffers and
//! line framing, the per-descriptor handlers (file reads and writes, pipes,
//! signals, timers) as state machines from an I/O outcome to an action, the
//! callback contexts they feed, and the registry the reactor loop keeps.
pub mod buffer;
pub mod framer;
pub mod fd;
pub mod handler;
pub mod filectx;
pub mod files;
pub mod pipes;
pub mod reactor;
pub mod signals;
pub mod timer;
