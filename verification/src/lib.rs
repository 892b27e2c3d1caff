//! Decision logic of a single-threaded, multi-task TCP server.
//!
//! The library holds everything the server decides and computes; reading,
//! writing, waiting and polling are left to the program around it, which hands
//! the outcome of each of these back as a plain value.
//!
//! * [`executor`]: the task queue and the loop that runs tasks.
//! * [`reactor`]: the readiness registry behind `epoll`.
//! * [`tcp`]: accepting, reading lines and writing on non-blocking sockets.
//! * [`echo`]: the answers of the shouting echo server.
//! * [`game`]: the rules of the guessing game server.
pub mod echo;
pub mod event;
pub mod executor;
pub mod game;
pub mod io_error;
pub mod reactor;
pub mod tcp;
pub mod text;

