//! Accepting a connection.
use crate::io_error::{ErrorKind, IoError};
use vstd::prelude::*;

verus! {

/// How far the accepting of a connection has come.
#[derive(Clone, Copy, Debug, PartialEq, Eq, Structural)]
pub enum TcpConnectionAcceptState {
    Start,
    FirstAttemptBlocked,
    WokenWhenReady,
    Finished,
}

/// The accepting of a connection.
pub struct TcpConnectionAccept {
    pub state: TcpConnectionAcceptState,
}

/// What the acceptor is given. `S` is a connection.
pub enum AcceptInput<S> {
    /// The accepting is to go on.
    Poll,
    /// The outcome of accepting on the socket.
    Accepted(Result<S, IoError>),
    /// The outcome of registering the task to be woken when the socket is readable.
    Registered(Result<(), IoError>),
}

/// What the acceptor asks for or answers.
pub enum AcceptStep<S> {
    /// Accept on the socket.
    Accept,
    /// Register the task to be woken when the socket is readable.
    AwaitReadable,
    /// There is no connection yet.
    Pending,
    /// The connection, or the failure to accept one.
    Ready(Result<S, IoError>),
}

/// Whether accepting would have had to wait.
pub open spec fn is_blocked<S>(outcome: Result<S, IoError>) -> bool {
    outcome matches Err(error) && error.kind == ErrorKind::WouldBlock
}

/// Whether the acceptor can go on from `state` with `input`: it has not finished,
/// it was asked for the outcome that it is given, and accepting does not block
/// after the socket was reported readable.
pub open spec fn may_accept<S>(state: TcpConnectionAcceptState, input: AcceptInput<S>) -> bool {
    match state {
        TcpConnectionAcceptState::Start => input !is Registered,
        TcpConnectionAcceptState::FirstAttemptBlocked => input !is Accepted,
        TcpConnectionAcceptState::WokenWhenReady => {
            &&& input !is Registered
            &&& input matches AcceptInput::Accepted(outcome) ==> !is_blocked(outcome)
        },
        TcpConnectionAcceptState::Finished => false,
    }
}

/// One step of the acceptor: its next state, and what it asks for or answers.
pub open spec fn accept_step<S>(state: TcpConnectionAcceptState, input: AcceptInput<S>) -> (
    TcpConnectionAcceptState,
    AcceptStep<S>,
) {
    match input {
        AcceptInput::Poll => if state is FirstAttemptBlocked {
            (state, AcceptStep::AwaitReadable)
        } else {
            (state, AcceptStep::Accept)
        },
        AcceptInput::Accepted(outcome) => if is_blocked(outcome) {
            (TcpConnectionAcceptState::FirstAttemptBlocked, AcceptStep::AwaitReadable)
        } else if state is WokenWhenReady && outcome is Ok {
            (TcpConnectionAcceptState::Finished, AcceptStep::Ready(outcome))
        } else {
            (state, AcceptStep::Ready(outcome))
        },
        AcceptInput::Registered(Ok(_)) => (
            TcpConnectionAcceptState::WokenWhenReady,
            AcceptStep::Pending,
        ),
        AcceptInput::Registered(Err(error)) => (state, AcceptStep::Ready(Err(error))),
    }
}

impl TcpConnectionAccept {
    pub fn new() -> (accept: TcpConnectionAccept)
        ensures
            accept.state == TcpConnectionAcceptState::Start,
    {
        TcpConnectionAccept { state: TcpConnectionAcceptState::Start }
    }

    /// The first attempt.
    pub fn poll_start<S>(&mut self, input: AcceptInput<S>) -> (step: AcceptStep<S>)
        requires
            old(self).state == TcpConnectionAcceptState::Start,
            may_accept(old(self).state, input),
        ensures
            (final(self).state, step) == accept_step(old(self).state, input),
    {
        match input {
            AcceptInput::Accepted(Err(error)) => {
                if error.kind == ErrorKind::WouldBlock {
                    self.state = TcpConnectionAcceptState::FirstAttemptBlocked;
                    self.poll_first_attempt_blocked(AcceptInput::Poll)
                } else {
                    AcceptStep::Ready(Err(error))
                }
            },
            AcceptInput::Accepted(outcome) => AcceptStep::Ready(outcome),
            _ => AcceptStep::Accept,
        }
    }

    /// The first attempt would have had to wait.
    pub fn poll_first_attempt_blocked<S>(&mut self, input: AcceptInput<S>) -> (step: AcceptStep<S>)
        requires
            old(self).state == TcpConnectionAcceptState::FirstAttemptBlocked,
            may_accept(old(self).state, input),
        ensures
            (final(self).state, step) == accept_step(old(self).state, input),
    {
        match input {
            AcceptInput::Registered(Err(error)) => AcceptStep::Ready(Err(error)),
            AcceptInput::Registered(Ok(_)) => {
                self.state = TcpConnectionAcceptState::WokenWhenReady;
                AcceptStep::Pending
            },
            _ => AcceptStep::AwaitReadable,
        }
    }

    /// The socket has been reported readable.
    pub fn poll_assume_ready<S>(&mut self, input: AcceptInput<S>) -> (step: AcceptStep<S>)
        requires
            old(self).state == TcpConnectionAcceptState::WokenWhenReady,
            may_accept(old(self).state, input),
        ensures
            (final(self).state, step) == accept_step(old(self).state, input),
    {
        match input {
            AcceptInput::Accepted(Ok(connection)) => {
                self.state = TcpConnectionAcceptState::Finished;
                AcceptStep::Ready(Ok(connection))
            },
            AcceptInput::Accepted(Err(error)) => AcceptStep::Ready(Err(error)),
            _ => AcceptStep::Accept,
        }
    }

    /// One step of the accepting.
    pub fn poll<S>(&mut self, input: AcceptInput<S>) -> (step: AcceptStep<S>)
        requires
            may_accept(old(self).state, input),
        ensures
            (final(self).state, step) == accept_step(old(self).state, input),
    {
        match self.state {
            TcpConnectionAcceptState::Start => self.poll_start(input),
            TcpConnectionAcceptState::FirstAttemptBlocked => self.poll_first_attempt_blocked(input),
            _ => self.poll_assume_ready(input),
        }
    }
}

/// The acceptor is pending only once its task has been registered, and then
/// accepts again when it is polled; it returns only connections that were
/// accepted, and each of them.
pub proof fn law_accept_keeps_connections<S>(state: TcpConnectionAcceptState, input: AcceptInput<S>)
    requires
        may_accept(state, input),
    ensures
        ({
            let (after, step) = accept_step(state, input);
            &&& step is Pending <==> (input matches AcceptInput::Registered(Ok(_)))
            &&& step is Pending ==> accept_step(after, AcceptInput::<S>::Poll).1 is Accept
            &&& forall|connection: S|
                step == AcceptStep::Ready(Ok(connection)) <==> input == AcceptInput::Accepted(
                    Ok(connection),
                )
            &&& after is Finished ==> step is Ready
        }),
{
}

/// What the acceptor asks for. A poll makes it accept on the socket, unless the first
/// attempt has blocked and its task is not registered yet: then it registers the task,
/// as it does right after an attempt that blocks. A failure is returned as it came.
pub proof fn law_accept_tries_before_it_waits<S>(
    state: TcpConnectionAcceptState,
    input: AcceptInput<S>,
)
    requires
        may_accept(state, input),
    ensures
        ({
            let step = accept_step(state, input).1;
            &&& step is Accept <==> input is Poll && state !is FirstAttemptBlocked
            &&& step is AwaitReadable <==> {
                ||| input is Poll && state is FirstAttemptBlocked
                ||| input matches AcceptInput::Accepted(Err(error)) && error.kind
                    == ErrorKind::WouldBlock
            }
            &&& forall|error: IoError|
                step == AcceptStep::<S>::Ready(Err(error)) <==> {
                    ||| input == AcceptInput::<S>::Accepted(Err(error)) && error.kind
                        != ErrorKind::WouldBlock
                    ||| input == AcceptInput::<S>::Registered(Err(error))
                }
        }),
{
}

/// How the acceptor gets from state to state: an attempt that blocks and a task that
/// is registered lead to the next one, and a connection after that ends it. Nothing
/// else changes its state.
pub proof fn law_accept_moves_on<S>(state: TcpConnectionAcceptState, input: AcceptInput<S>)
    requires
        may_accept(state, input),
    ensures
        ({
            let after = accept_step(state, input).0;
            if input matches AcceptInput::Accepted(Err(error)) && error.kind
                == ErrorKind::WouldBlock {
                after is FirstAttemptBlocked
            } else if input matches AcceptInput::Registered(Ok(_)) {
                after is WokenWhenReady
            } else if state is WokenWhenReady && (input matches AcceptInput::Accepted(Ok(_))) {
                after is Finished
            } else {
                after == state
            }
        }),
{
}

/// What the acceptor can be given: anything that it has asked for, as long as it has
/// not finished. Only a socket that was reported readable must not block.
pub proof fn law_what_may_be_accepted<S>(
    state: TcpConnectionAcceptState,
    outcome: Result<S, IoError>,
    registered: Result<(), IoError>,
)
    ensures
        is_blocked(outcome) <==> outcome is Err && outcome->Err_0.kind is WouldBlock,
        may_accept(state, AcceptInput::<S>::Poll) <==> state !is Finished,
        may_accept(state, AcceptInput::Accepted(outcome)) <==> state is Start || (
        state is WokenWhenReady && (outcome is Err ==> outcome->Err_0.kind !is WouldBlock)),
        may_accept(state, AcceptInput::<S>::Registered(registered)) <==> state
            is FirstAttemptBlocked,
{
}

/// Polling, accepting and registering in turn, as asked, meets the conditions of
/// every step until a connection or a failure comes out, as long as accepting
/// does not block after the socket was reported readable.
pub proof fn law_accept_goes_on<S>(state: TcpConnectionAcceptState, input: AcceptInput<S>)
    requires
        may_accept(state, input),
    ensures
        ({
            let (after, step) = accept_step(state, input);
            &&& step is Accept ==> {
                &&& after is Start || after is WokenWhenReady
                &&& forall|outcome: Result<S, IoError>|
                    (after is WokenWhenReady ==> !is_blocked(outcome)) ==> #[trigger] may_accept(
                        after,
                        AcceptInput::Accepted(outcome),
                    )
            }
            &&& step is AwaitReadable ==> forall|outcome: Result<(), IoError>| #[trigger]
                may_accept(after, AcceptInput::<S>::Registered(outcome))
            &&& step is Pending ==> may_accept(after, AcceptInput::<S>::Poll)
        }),
{
}

} // verus!
