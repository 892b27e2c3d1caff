//! Reading, writing and accepting on non-blocking sockets.
//!
//! Each operation is a state machine. It asks for one system call at a time, or
//! for the task to be registered with the reactor, and is given the outcome.
pub mod accept;
pub mod for_each;
pub mod lines;
pub mod write;
