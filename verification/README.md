# Single-threaded multi-task server

Concurrent tasks on a single thread: a TCP server that accepts clients and talks to
all of them at once.

There are two servers. One is an echo server on an asynchronous runtime of its
own, with an executor, an `epoll` reactor and futures for sockets. The other makes
its clients play a guessing game on an established runtime. It starts a timer. When
time is up or somebody has won, it tells every client that is still connected, and
shuts down after that.

Both are meant to be idle while nothing happens. The loop of the executor runs the
tasks that are ready, and then waits for I/O if a task waits for some; tasks that
were woken meanwhile run after the wait. A connection of the game that has come to
the end of its stream reads no more.

- `src/` is the verified library, with everything that the servers decide and
  compute. It makes no system call: a state machine asks for one, and is given
  the outcome.
  - `executor`: the queue of tasks that are ready, and the loop that runs them.
  - `event`, `reactor`: what tasks wait for, what to ask of `epoll`, whom to wake.
  - `tcp`: accepting, reading line by line, and writing on non-blocking sockets.
  - `echo`, `game`: what the two servers answer, and when the game is over.
  - `io_error`, `text`: failures of system calls, and operations on strings.
- `app/` polls the futures and makes the system calls.
- `tests/` runs the library.
