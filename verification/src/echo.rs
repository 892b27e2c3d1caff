//! The echo server: it answers each line in upper case, with emphasis.
use crate::io_error::IoError;
use crate::text::str_to_uppercase;
use vstd::prelude::*;

verus! {

/// What happens on a connection.
pub enum EchoEvent {
    /// The next line, or `None` at the end of the stream.
    Line(Option<Result<String, IoError>>),
    /// The outcome of writing an answer.
    Written(Result<(), IoError>),
}

/// What is done about it.
pub enum EchoAction {
    /// Write this to the client.
    Reply(String),
    /// Wait for the next line.
    NextLine,
    /// Report that a line could not be read, and wait for the next one.
    ReportRead(IoError),
    /// Report that an answer could not be written, and wait for the next line.
    ReportWrite(IoError),
    /// Nothing more is done for the connection.
    Finish,
}

/// The answer to a line whose upper-case equivalent is `upper`.
pub open spec fn emphasized(upper: Seq<char>) -> Seq<char> {
    upper + "!!!\n"@
}

/// A line in upper case becomes the answer to it.
pub fn emphasize(upper: String) -> (reply: String)
    ensures
        reply@ == emphasized(upper@),
{
    upper.concat("!!!\n")
}

/// The answer to a line.
pub fn reply_to(line: &str) -> (reply: String)
    ensures
        reply@ == emphasized(crate::text::uppercase(line@)),
{
    emphasize(str_to_uppercase(line))
}

/// Whether `action` is what is done about an event on a connection. Every line is
/// answered, every failure is reported, and only the end of the stream ends it.
pub open spec fn is_echo_step(event: EchoEvent, action: EchoAction) -> bool {
    match action {
        EchoAction::Reply(reply) => event matches EchoEvent::Line(Some(Ok(line))) && reply@
            == emphasized(crate::text::uppercase(line@)),
        EchoAction::NextLine => event matches EchoEvent::Written(Ok(_)),
        EchoAction::ReportRead(error) => event == EchoEvent::Line(Some(Err(error))),
        EchoAction::ReportWrite(error) => event == EchoEvent::Written(Err(error)),
        EchoAction::Finish => event == EchoEvent::Line(None),
    }
}

/// What is done about an event on a connection. A failure to read or to write
/// does not end it.
pub fn handle_connection(event: EchoEvent) -> (action: EchoAction)
    ensures
        match event {
            EchoEvent::Line(Some(Ok(line))) => action matches EchoAction::Reply(reply) && reply@
                == emphasized(crate::text::uppercase(line@)),
            EchoEvent::Line(Some(Err(error))) => action == EchoAction::ReportRead(error),
            EchoEvent::Line(None) => action is Finish,
            EchoEvent::Written(Ok(_)) => action is NextLine,
            EchoEvent::Written(Err(error)) => action == EchoAction::ReportWrite(error),
        },
        is_echo_step(event, action),
{
    match event {
        EchoEvent::Line(Some(Ok(line))) => EchoAction::Reply(reply_to(line.as_str())),
        EchoEvent::Line(Some(Err(error))) => EchoAction::ReportRead(error),
        EchoEvent::Line(None) => EchoAction::Finish,
        EchoEvent::Written(Ok(_)) => EchoAction::NextLine,
        EchoEvent::Written(Err(error)) => EchoAction::ReportWrite(error),
    }
}

/// An answer is the upper-case line, all of it and unchanged, and then three
/// exclamation marks and a newline. So different lines have different answers.
pub proof fn law_answer_is_the_line_with_emphasis(upper: Seq<char>, other: Seq<char>)
    ensures
        emphasized(upper).len() == upper.len() + 4,
        emphasized(upper).take(upper.len() as int) == upper,
        emphasized(upper).skip(upper.len() as int) == seq!['!', '!', '!', '\n'],
        emphasized(upper) == emphasized(other) ==> upper == other,
{
    reveal_strlit("!!!\n");
    assert("!!!\n"@ =~= seq!['!', '!', '!', '\n']);
    assert(emphasized(upper).take(upper.len() as int) =~= upper);
    assert(emphasized(upper).skip(upper.len() as int) =~= seq!['!', '!', '!', '\n']);
    assert(emphasized(other).take(other.len() as int) =~= other);
}

/// Each line that is read is answered, by its own upper-case text with emphasis, and
/// nothing else is. The connection ends exactly with its stream, so that no failure
/// ends it. Each failure is reported as what it is.
pub proof fn law_every_line_is_answered(event: EchoEvent, action: EchoAction)
    requires
        is_echo_step(event, action),
    ensures
        action is Reply <==> (event matches EchoEvent::Line(Some(Ok(_)))),
        forall|line: String|
            event == EchoEvent::Line(Some(Ok(line))) ==> #[trigger] crate::text::uppercase(line@)
                + seq!['!', '!', '!', '\n'] == action->Reply_0@,
        action is Finish <==> event == EchoEvent::Line(None),
        action is NextLine <==> (event matches EchoEvent::Written(Ok(_))),
        forall|error: IoError|
            action == EchoAction::ReportRead(error) <==> event == EchoEvent::Line(
                Some(Err(error)),
            ),
        forall|error: IoError|
            action == EchoAction::ReportWrite(error) <==> event == EchoEvent::Written(
                Err(error),
            ),
{
    reveal_strlit("!!!\n");
    assert("!!!\n"@ =~= seq!['!', '!', '!', '\n']);
}

} // verus!
