//! Running a future for each line of a socket.
use crate::io_error::IoError;
use vstd::prelude::*;

verus! {

/// Runs one future after the other, each for the next line.
pub struct TcpLinesForEach {
    /// Whether there is a future that has not ended.
    pub running: bool,
}

/// What the loop over the lines is given.
pub enum ForEachInput {
    /// The loop is to go on.
    Poll,
    /// The future has been polled, and has ended or not.
    FuturePolled { ready: bool },
    /// There is no line yet.
    LinePending,
    /// The next line, or `None` at the end of the stream.
    Line(Option<Result<String, IoError>>),
}

/// What the loop over the lines asks for or answers.
pub enum ForEachStep {
    /// Poll the future.
    PollFuture,
    /// Ask for the next line.
    PollLine,
    /// Make the future for this line, and go on.
    Start(String),
    /// Report that a line could not be read, and go on.
    Report(IoError),
    /// The loop waits for its future or for a line.
    Pending,
    /// The stream has ended.
    Done,
}

/// One step of the loop: whether there is a future after it, and what it asks for
/// or answers.
pub open spec fn for_each_step(running: bool, input: ForEachInput) -> (bool, ForEachStep) {
    match input {
        ForEachInput::Poll => if running {
            (true, ForEachStep::PollFuture)
        } else {
            (false, ForEachStep::PollLine)
        },
        ForEachInput::FuturePolled { ready } => if ready {
            (false, ForEachStep::PollLine)
        } else {
            (true, ForEachStep::Pending)
        },
        ForEachInput::LinePending => (false, ForEachStep::Pending),
        ForEachInput::Line(None) => (false, ForEachStep::Done),
        ForEachInput::Line(Some(Ok(line))) => (true, ForEachStep::Start(line)),
        ForEachInput::Line(Some(Err(error))) => (false, ForEachStep::Report(error)),
    }
}

impl TcpLinesForEach {
    pub fn new() -> (for_each: TcpLinesForEach)
        ensures
            !for_each.running,
    {
        TcpLinesForEach { running: false }
    }

    /// One step of the loop.
    pub fn poll(&mut self, input: ForEachInput) -> (step: ForEachStep)
        requires
            input is FuturePolled ==> old(self).running,
            input is LinePending || input is Line ==> !old(self).running,
        ensures
            (final(self).running, step) == for_each_step(old(self).running, input),
    {
        match input {
            ForEachInput::Poll => {},
            ForEachInput::FuturePolled { ready } => {
                if !ready {
                    return ForEachStep::Pending;
                }
                self.running = false;
            },
            ForEachInput::LinePending => {
                return ForEachStep::Pending;
            },
            ForEachInput::Line(None) => {
                return ForEachStep::Done;
            },
            ForEachInput::Line(Some(Ok(line))) => {
                self.running = true;
                return ForEachStep::Start(line);
            },
            ForEachInput::Line(Some(Err(error))) => {
                self.running = false;
                return ForEachStep::Report(error);
            },
        }
        if self.running {
            ForEachStep::PollFuture
        } else {
            ForEachStep::PollLine
        }
    }
}

/// A line is asked for only while no future runs, and a future is started for
/// each line that comes, and for nothing else.
pub proof fn law_one_future_at_a_time(running: bool, input: ForEachInput)
    requires
        input is FuturePolled ==> running,
        input is LinePending || input is Line ==> !running,
    ensures
        ({
            let (after, step) = for_each_step(running, input);
            &&& step is PollLine ==> !after
            &&& step is PollFuture ==> after
            &&& !running && after <==> step is Start
            &&& forall|line: String|
                step == ForEachStep::Start(line) <==> input == ForEachInput::Line(Some(Ok(line)))
        }),
{
}

/// What the loop over the lines asks for: a running future is polled, and when there
/// is none, or it has ended, the next line is asked for. The loop is pending exactly
/// while its future or its line is, ends exactly with the stream, and reports each
/// line that could not be read.
pub proof fn law_loop_over_the_lines(running: bool, input: ForEachInput)
    requires
        input is FuturePolled ==> running,
        input is LinePending || input is Line ==> !running,
    ensures
        ({
            let (after, step) = for_each_step(running, input);
            &&& step is PollFuture <==> input is Poll && running
            &&& step is PollLine <==> input is Poll && !running || input
                == (ForEachInput::FuturePolled { ready: true })
            &&& step is Pending <==> input is LinePending || input
                == (ForEachInput::FuturePolled { ready: false })
            &&& step is Done <==> input == ForEachInput::Line(None)
            &&& forall|error: IoError|
                step == ForEachStep::Report(error) <==> input == ForEachInput::Line(
                    Some(Err(error)),
                )
            &&& after <==> {
                ||| step is Start
                ||| running && input != (ForEachInput::FuturePolled { ready: true })
            }
        }),
{
}

} // verus!
