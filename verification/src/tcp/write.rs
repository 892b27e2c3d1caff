//! Writing all of a buffer to a socket.
use crate::io_error::{ErrorKind, IoError};
use vstd::prelude::*;

verus! {

/// The writing of a buffer.
pub struct TcpStreamWriteAll<'b> {
    /// The bytes that are still to be written.
    buf: &'b [u8],
}

/// What the writer is given.
pub enum WriteInput {
    /// The writing is to go on.
    Poll,
    /// The outcome of writing the remaining bytes: how many of them were taken.
    Written(Result<usize, IoError>),
    /// The outcome of registering the task to be woken when the socket is writable.
    Registered(Result<(), IoError>),
}

/// What the writer asks for or answers.
pub enum WriteStep {
    /// Write the remaining bytes.
    Write,
    /// Register the task to be woken when the socket is writable.
    AwaitWritable,
    /// Not all bytes are written yet.
    Pending,
    /// All bytes are written, or the writing has failed.
    Ready(Result<(), IoError>),
}

/// What the writer does with some bytes remaining: it ends if there is none.
pub open spec fn next_write(remaining: Seq<u8>) -> WriteStep {
    if remaining.len() == 0 {
        WriteStep::Ready(Ok(()))
    } else {
        WriteStep::Write
    }
}

/// One step of the writer, from the bytes that remain before it to those that
/// remain after it. A write that takes no byte is a failure.
pub open spec fn is_write_step(
    before: Seq<u8>,
    input: WriteInput,
    after: Seq<u8>,
    step: WriteStep,
) -> bool {
    match input {
        WriteInput::Poll => after == before && step == next_write(before),
        WriteInput::Written(Ok(count)) => if count == 0 {
            &&& after == before
            &&& step matches WriteStep::Ready(Err(error)) && error.is_local(
                ErrorKind::WriteZero,
                "failed to write whole buffer"@,
            )
        } else {
            &&& after == before.skip(count as int)
            &&& step == next_write(after)
        },
        WriteInput::Written(Err(error)) => {
            &&& after == before
            &&& if error.kind == ErrorKind::WouldBlock {
                step is AwaitWritable
            } else {
                step == WriteStep::Ready(Err(error))
            }
        },
        WriteInput::Registered(Ok(_)) => after == before && step is Pending,
        WriteInput::Registered(Err(error)) => after == before && step == WriteStep::Ready(
            Err(error),
        ),
    }
}

impl<'b> View for TcpStreamWriteAll<'b> {
    type V = Seq<u8>;

    closed spec fn view(&self) -> Seq<u8> {
        self.buf@
    }
}

impl<'b> TcpStreamWriteAll<'b> {
    pub fn new(buf: &'b [u8]) -> (writer: TcpStreamWriteAll<'b>)
        ensures
            writer@ == buf@,
    {
        TcpStreamWriteAll { buf }
    }

    /// The bytes that are still to be written.
    pub fn remaining(&self) -> (bytes: &'b [u8])
        ensures
            bytes@ == self@,
    {
        self.buf
    }

    /// One step of the writing.
    pub fn poll(&mut self, input: WriteInput) -> (step: WriteStep)
        requires
            input matches WriteInput::Written(Ok(count)) ==> count <= old(self)@.len(),
        ensures
            is_write_step(old(self)@, input, final(self)@, step),
    {
        match input {
            WriteInput::Poll => {},
            WriteInput::Written(Ok(count)) => {
                if count == 0 {
                    let error = IoError::new(ErrorKind::WriteZero, "failed to write whole buffer");
                    return WriteStep::Ready(Err(error));
                }
                let len: usize = self.buf.len();
                self.buf = vstd::slice::slice_subrange(self.buf, count, len);
                assert(self@ =~= old(self)@.skip(count as int));
            },
            WriteInput::Written(Err(error)) => {
                if error.kind == ErrorKind::WouldBlock {
                    return WriteStep::AwaitWritable;
                }
                return WriteStep::Ready(Err(error));
            },
            WriteInput::Registered(Ok(_)) => {
                return WriteStep::Pending;
            },
            WriteInput::Registered(Err(error)) => {
                return WriteStep::Ready(Err(error));
            },
        }
        if self.buf.is_empty() {
            WriteStep::Ready(Ok(()))
        } else {
            WriteStep::Write
        }
    }
}

////////////////////////////////////////////////////////////////////////////////
// Laws
////////////////////////////////////////////////////////////////////////////////

/// Whether the bytes that writes took so far and those that remain make up the
/// buffer, in order.
pub open spec fn is_writing(buf: Seq<u8>, taken: Seq<u8>, remaining: Seq<u8>) -> bool {
    taken + remaining == buf
}

/// A writer that starts has written nothing.
pub proof fn law_new_writer_is_writing(buf: Seq<u8>)
    ensures
        is_writing(buf, Seq::empty(), buf),
{
    assert(Seq::<u8>::empty() + buf =~= buf);
}

/// A writer writes its buffer, each byte once and in order, however many writes
/// this takes and however often one would have had to wait. Where a step was asked
/// for, by a poll or with bytes still to be written, it ends well exactly when the
/// whole buffer is written.
pub proof fn law_writer_writes_the_buffer(
    before: Seq<u8>,
    input: WriteInput,
    after: Seq<u8>,
    step: WriteStep,
    buf: Seq<u8>,
    taken: Seq<u8>,
)
    requires
        is_writing(buf, taken, before),
        is_write_step(before, input, after, step),
        input matches WriteInput::Written(Ok(count)) ==> count <= before.len(),
    ensures
        ({
            let taken = match input {
                WriteInput::Written(Ok(count)) => taken + before.take(count as int),
                _ => taken,
            };
            &&& is_writing(buf, taken, after)
            &&& input is Poll || before.len() > 0 ==> (step == WriteStep::Ready(Ok(())) <==> taken
                == buf)
            &&& step is Write ==> taken != buf
        }),
{
    match input {
        WriteInput::Written(Ok(count)) => {
            let now = taken + before.take(count as int);
            assert(now + before.skip(count as int) =~= taken + before);
            if count == 0 {
                assert(now =~= taken);
            }
            if after.len() == 0 {
                assert(now + after =~= now);
            } else {
                assert((now + after).len() > now.len());
            }
        },
        _ => {
            if before.len() == 0 {
                assert(taken + before =~= taken);
            } else {
                assert((taken + before).len() > taken.len());
            }
        },
    }
}

/// The writer waits for writability only after a write that would have blocked.
/// Otherwise it writes as long as bytes remain, and is done when none remains.
pub proof fn law_writer_writes_while_bytes_remain(
    before: Seq<u8>,
    input: WriteInput,
    after: Seq<u8>,
    step: WriteStep,
)
    requires
        is_write_step(before, input, after, step),
        input matches WriteInput::Written(Ok(count)) ==> count <= before.len(),
    ensures
        step is AwaitWritable <==> (input matches WriteInput::Written(Err(error)) && error.kind
            == ErrorKind::WouldBlock),
        input is Poll || (input matches WriteInput::Written(Ok(count)) && count > 0) ==> {
            &&& step is Write <==> after.len() > 0
            &&& step == WriteStep::Ready(Ok(())) <==> after.len() == 0
        },
        step is Write ==> input is Poll || (input matches WriteInput::Written(Ok(count)) && count
            > 0),
{
}

/// The writer takes off what a write took, and nothing at any other time.
pub proof fn law_writer_takes_off_what_was_written(
    before: Seq<u8>,
    input: WriteInput,
    after: Seq<u8>,
    step: WriteStep,
    i: int,
)
    requires
        is_write_step(before, input, after, step),
        input matches WriteInput::Written(Ok(count)) ==> count <= before.len(),
    ensures
        input matches WriteInput::Written(Ok(count)) ==> {
            &&& after.len() == before.len() - count
            &&& 0 <= i < after.len() ==> after[i] == before[i + count]
        },
        !(input matches WriteInput::Written(Ok(_))) ==> after == before,
{
}

/// The writer fails exactly if a write took no byte, if a write failed other than by
/// blocking, or if its task could not be registered, and it passes on the failure
/// that it was given.
pub proof fn law_writer_fails_for_a_reason(
    before: Seq<u8>,
    input: WriteInput,
    after: Seq<u8>,
    step: WriteStep,
)
    requires
        is_write_step(before, input, after, step),
    ensures
        match input {
            WriteInput::Poll => !(step matches WriteStep::Ready(Err(_))),
            WriteInput::Written(Ok(count)) => {
                &&& count > 0 ==> !(step matches WriteStep::Ready(Err(_)))
                &&& count == 0 ==> {
                    &&& step is Ready
                    &&& step->Ready_0 is Err
                    &&& step->Ready_0->Err_0.kind is WriteZero
                    &&& step->Ready_0->Err_0.code is None
                    &&& step->Ready_0->Err_0.message@ == "failed to write whole buffer"@
                }
            },
            WriteInput::Written(Err(error)) => error.kind != ErrorKind::WouldBlock ==> step
                == WriteStep::Ready(Err(error)),
            WriteInput::Registered(Ok(_)) => step is Pending,
            WriteInput::Registered(Err(error)) => step == WriteStep::Ready(Err(error)),
        },
{
}

/// A buffer is written exactly if what was taken and what remains are the buffer.
pub proof fn law_buffer_is_what_was_taken_and_what_remains(
    buf: Seq<u8>,
    taken: Seq<u8>,
    remaining: Seq<u8>,
)
    ensures
        is_writing(buf, taken, remaining) <==> {
            &&& buf.len() == taken.len() + remaining.len()
            &&& taken == buf.take(taken.len() as int)
            &&& remaining == buf.skip(taken.len() as int)
        },
{
    let n = taken.len() as int;
    if is_writing(buf, taken, remaining) {
        assert(buf.take(n) =~= taken);
        assert(buf.skip(n) =~= remaining);
    } else if buf.len() == n + remaining.len() && taken == buf.take(n) && remaining == buf.skip(n) {
        assert(taken + remaining =~= buf);
    }
}

/// The writer is pending only once its task has been registered.
pub proof fn law_pending_write_is_registered(
    before: Seq<u8>,
    input: WriteInput,
    after: Seq<u8>,
    step: WriteStep,
)
    requires
        is_write_step(before, input, after, step),
    ensures
        step is Pending <==> (input matches WriteInput::Registered(Ok(_))),
{
}

} // verus!
