//! Reading a socket line by line.
use crate::io_error::{ErrorKind, IoError};
use crate::text::string_from_utf8;
use vstd::prelude::*;

verus! {

/// How many bytes are read from a socket at a time.
pub const BUF_SIZE: usize = 4096;

/// The byte that ends a line.
pub const NEWLINE: u8 = 0x0a;

////////////////////////////////////////////////////////////////////////////////
// Lines of a byte sequence
////////////////////////////////////////////////////////////////////////////////

/// A line without the carriage return that it may end with.
pub open spec fn without_carriage_return(line: Seq<char>) -> Seq<char> {
    if line.len() > 0 && line.last() == '\r' {
        line.drop_last()
    } else {
        line
    }
}

/// Whether `line` is what the bytes of a line, without the newline, are read as.
pub open spec fn is_line(bytes: Seq<u8>, line: Result<String, IoError>) -> bool {
    match line {
        Ok(text) => vstd::utf8::valid_utf8(bytes) && text@ == without_carriage_return(
            vstd::utf8::decode_utf8(bytes),
        ),
        Err(error) => !vstd::utf8::valid_utf8(bytes) && error.is_local(
            ErrorKind::InvalidInput,
            "Not utf8"@,
        ),
    }
}

/// The complete lines at the start of the bytes, without their newlines.
pub open spec fn complete_lines(bytes: Seq<u8>) -> Seq<Seq<u8>>
    decreases bytes.len(),
    via complete_lines_decreases
{
    match bytes.index_of_first(NEWLINE) {
        Some(i) => seq![bytes.take(i)] + complete_lines(bytes.skip(i + 1)),
        None => Seq::empty(),
    }
}

#[via_fn]
proof fn complete_lines_decreases(bytes: Seq<u8>) {
    bytes.index_of_first_ensures(NEWLINE);
}

/// The bytes after the last complete line.
pub open spec fn remainder(bytes: Seq<u8>) -> Seq<u8>
    decreases bytes.len(),
    via remainder_decreases
{
    match bytes.index_of_first(NEWLINE) {
        Some(i) => remainder(bytes.skip(i + 1)),
        None => bytes,
    }
}

#[via_fn]
proof fn remainder_decreases(bytes: Seq<u8>) {
    bytes.index_of_first_ensures(NEWLINE);
}

////////////////////////////////////////////////////////////////////////////////
// The reader
////////////////////////////////////////////////////////////////////////////////

/// The lines of a socket.
pub struct TcpStreamLines {
    /// The bytes of the last read, up to `pos` consumed.
    buf: Vec<u8>,
    pos: usize,
    /// The start of the next line, from earlier reads.
    next_line: Vec<u8>,
}

/// The contents of a [`TcpStreamLines`].
#[verifier::ext_equal]
pub struct LinesView {
    /// The bytes of the last read.
    pub buffer: Seq<u8>,
    /// How many of them are consumed.
    pub pos: nat,
    /// The start of the next line, from earlier reads.
    pub carried: Seq<u8>,
}

impl LinesView {
    pub open spec fn wf(self) -> bool {
        &&& self.pos <= self.buffer.len()
        &&& !self.carried.contains(NEWLINE)
    }

    /// What has been read and not been returned as part of a line.
    pub open spec fn unread(self) -> Seq<u8> {
        self.carried + self.buffer.skip(self.pos as int)
    }

    /// Whether all of the last read is consumed.
    pub open spec fn is_exhausted(self) -> bool {
        self.pos >= self.buffer.len()
    }
}

/// What the reader is given.
pub enum LineInput {
    /// The next line is asked for.
    Poll,
    /// The outcome of reading from the socket, up to [`BUF_SIZE`] bytes.
    Read(Result<Vec<u8>, IoError>),
    /// The outcome of registering the task to be woken when the socket is readable.
    Registered(Result<(), IoError>),
}

/// What the reader asks for or answers.
pub enum LineStep {
    /// Read from the socket.
    Read,
    /// Register the task to be woken when the socket is readable.
    AwaitReadable,
    /// There is no line yet.
    Pending,
    /// The next line, or `None` at the end of the stream.
    Ready(Option<Result<String, IoError>>),
}

/// The search for the end of a line in what has been read: a line is returned if
/// there is a complete one, and otherwise more is read.
pub open spec fn is_scan(before: LinesView, after: LinesView, step: LineStep) -> bool {
    match before.unread().index_of_first(NEWLINE) {
        Some(i) => {
            &&& after == (LinesView {
                pos: (before.pos + i - before.carried.len() + 1) as nat,
                carried: Seq::empty(),
                ..before
            })
            &&& step matches LineStep::Ready(Some(line)) && is_line(before.unread().take(i), line)
        },
        None => {
            &&& after == (LinesView {
                pos: before.buffer.len(),
                carried: before.unread(),
                ..before
            })
            &&& step is Read
        },
    }
}

/// One step of the reader. A failed read is returned, and changes nothing: the
/// consumed bytes stay consumed, and the next step reads anew.
pub open spec fn is_line_step(
    before: LinesView,
    input: LineInput,
    after: LinesView,
    step: LineStep,
) -> bool {
    match input {
        LineInput::Poll => if before.is_exhausted() {
            after == before && step is Read
        } else {
            is_scan(before, after, step)
        },
        LineInput::Read(Ok(bytes)) => {
            let filled = LinesView { buffer: bytes@, pos: 0, ..before };
            if bytes@.len() == 0 {
                after == filled && step == LineStep::Ready(None)
            } else {
                is_scan(filled, after, step)
            }
        },
        LineInput::Read(Err(error)) => if error.kind == ErrorKind::WouldBlock {
            after == before && step is AwaitReadable
        } else {
            after == before && step == LineStep::Ready(Some(Err(error)))
        },
        LineInput::Registered(Ok(_)) => after == before && step is Pending,
        LineInput::Registered(Err(error)) => after == before && step == LineStep::Ready(
            Some(Err(error)),
        ),
    }
}

/// Reads the bytes of a line.
fn decode_line(bytes: Vec<u8>) -> (line: Result<String, IoError>)
    ensures
        is_line(bytes@, line),
{
    match string_from_utf8(bytes) {
        Some(text) => {
            let len: usize = text.as_str().unicode_len();
            if len > 0 && text.as_str().get_char(len - 1) == '\r' {
                let line = text.as_str().substring_char(0, len - 1).to_owned();
                assert(line@ =~= text@.drop_last());
                Ok(line)
            } else {
                Ok(text)
            }
        },
        None => Err(IoError::new(ErrorKind::InvalidInput, "Not utf8")),
    }
}

proof fn lemma_first_newline(bytes: Seq<u8>, i: int)
    requires
        0 <= i < bytes.len(),
        bytes[i] == NEWLINE,
        forall|j: int| 0 <= j < i ==> bytes[j] != NEWLINE,
    ensures
        bytes.index_of_first(NEWLINE) == Some(i),
{
    bytes.index_of_first_ensures(NEWLINE);
    assert(bytes.contains(NEWLINE));
}

impl View for TcpStreamLines {
    type V = LinesView;

    closed spec fn view(&self) -> LinesView {
        LinesView { buffer: self.buf@, pos: self.pos as nat, carried: self.next_line@ }
    }
}

impl TcpStreamLines {
    /// The reader of a socket from which nothing has been read.
    pub fn new() -> (lines: TcpStreamLines)
        ensures
            lines@ == (LinesView { buffer: Seq::empty(), pos: 0, carried: Seq::empty() }),
            lines@.wf(),
    {
        TcpStreamLines { buf: Vec::new(), pos: 0, next_line: Vec::new() }
    }

    /// One step towards the next line.
    pub fn poll_line(&mut self, input: LineInput) -> (step: LineStep)
        requires
            old(self)@.wf(),
            input is Read ==> old(self)@.is_exhausted(),
        ensures
            final(self)@.wf(),
            is_line_step(old(self)@, input, final(self)@, step),
    {
        match input {
            LineInput::Poll => {
                if self.pos >= self.buf.len() {
                    return LineStep::Read;
                }
            },
            LineInput::Read(Ok(bytes)) => {
                self.pos = 0;
                self.buf = bytes;
                if self.buf.len() == 0 {
                    return LineStep::Ready(None);
                }
            },
            LineInput::Read(Err(error)) => {
                if error.kind == ErrorKind::WouldBlock {
                    return LineStep::AwaitReadable;
                }
                return LineStep::Ready(Some(Err(error)));
            },
            LineInput::Registered(Ok(_)) => {
                return LineStep::Pending;
            },
            LineInput::Registered(Err(error)) => {
                return LineStep::Ready(Some(Err(error)));
            },
        }
        self.scan()
    }

    /// Looks for the end of a line in what has been read.
    fn scan(&mut self) -> (step: LineStep)
        requires
            old(self)@.wf(),
        ensures
            final(self)@.wf(),
            is_scan(old(self)@, final(self)@, step),
    {
        let ghost before = self@;
        let ghost unread = self@.unread();
        let start: usize = self.pos;
        let mut end: usize = self.pos;
        while end < self.buf.len() && self.buf[end] != NEWLINE
            invariant
                start <= end <= self.buf@.len(),
                start == self.pos,
                self@ == before,
                forall|j: int| start <= j < end ==> self.buf@[j] != NEWLINE,
            decreases self.buf@.len() - end,
        {
            end = end + 1;
        }
        let ghost carried = self.next_line@;
        self.next_line.extend_from_slice(vstd::slice::slice_subrange(self.buf.as_slice(), start, end));
        assert(self.next_line@ =~= carried + self.buf@.subrange(start as int, end as int));
        assert(unread.len() == carried.len() + self.buf@.len() - start);
        let ghost i = carried.len() + end - start;
        assert(self.next_line@ =~= unread.take(i));
        assert forall|j: int| 0 <= j < i implies unread[j] != NEWLINE by {
            if j < carried.len() {
                assert(carried.contains(carried[j]));
            } else {
                assert(unread[j] == self.buf@[start + j - carried.len()]);
            }
        }
        if end < self.buf.len() {
            proof {
                assert(unread[i] == self.buf@[end as int]);
                lemma_first_newline(unread, i);
            }
            // The newline itself is not part of the line.
            self.pos = end + 1;
            let mut line: Vec<u8> = Vec::new();
            std::mem::swap(&mut line, &mut self.next_line);
            assert(!self@.carried.contains(NEWLINE));
            LineStep::Ready(Some(decode_line(line)))
        } else {
            proof {
                unread.index_of_first_ensures(NEWLINE);
                assert(unread.take(i) =~= unread);
                assert(!unread.contains(NEWLINE));
            }
            self.pos = end;
            LineStep::Read
        }
    }
}

////////////////////////////////////////////////////////////////////////////////
// Laws
////////////////////////////////////////////////////////////////////////////////

/// A line loses nothing but one carriage return at its end: a text that does not end
/// with one stays as it is, and one that is put at the end of a text is taken off
/// again.
pub proof fn law_only_a_final_carriage_return_is_lost(text: Seq<char>)
    ensures
        text.len() == 0 || text.last() != '\r' ==> without_carriage_return(text) == text,
        without_carriage_return(text.push('\r')) == text,
{
    assert(text.push('\r').drop_last() =~= text);
}

/// A text that was sent as a line, ended by a newline or by a carriage return and a
/// newline, is read as that text, but for a carriage return at its own end. Bytes that
/// encode no text are read as a failure, and no others.
pub proof fn law_line_is_read_as_it_was_sent(
    text: Seq<char>,
    bytes: Seq<u8>,
    line: Result<String, IoError>,
)
    ensures
        is_line(vstd::utf8::encode_utf8(text), line) && (text.len() == 0 || text.last() != '\r')
            ==> line is Ok && line->Ok_0@ == text,
        is_line(vstd::utf8::encode_utf8(text.push('\r')), line) ==> line is Ok && line->Ok_0@
            == text,
        is_line(bytes, line) ==> (line is Err <==> !vstd::utf8::valid_utf8(bytes)),
        is_line(bytes, line) && line is Err ==> {
            &&& line->Err_0.kind is InvalidInput
            &&& line->Err_0.code is None
            &&& line->Err_0.message@ == "Not utf8"@
        },
{
    law_only_a_final_carriage_return_is_lost(text);
    vstd::utf8::encode_utf8_valid_utf8(text);
    vstd::utf8::encode_utf8_decode_utf8(text);
    vstd::utf8::encode_utf8_valid_utf8(text.push('\r'));
    vstd::utf8::encode_utf8_decode_utf8(text.push('\r'));
}

/// What is unread are the bytes carried over from earlier reads and then those of the
/// last read from its position on.
pub proof fn law_unread_is_carried_and_not_consumed(lines: LinesView, i: int)
    requires
        lines.pos <= lines.buffer.len(),
    ensures
        lines.unread().len() == lines.carried.len() + lines.buffer.len() - lines.pos,
        0 <= i < lines.carried.len() ==> lines.unread()[i] == lines.carried[i],
        lines.pos <= i < lines.buffer.len() ==> lines.unread()[lines.carried.len() + i - lines.pos]
            == lines.buffer[i],
        lines.is_exhausted() <==> lines.pos == lines.buffer.len(),
        lines.wf() <==> !lines.carried.contains(0x0a),
{
}

/// The stream ends for the reader exactly when a read succeeds and brings no byte.
pub proof fn law_reader_ends_with_the_stream(
    before: LinesView,
    input: LineInput,
    after: LinesView,
    step: LineStep,
)
    requires
        is_line_step(before, input, after, step),
    ensures
        step == LineStep::Ready(None) <==> (input matches LineInput::Read(Ok(bytes)) && bytes@.len()
            == 0),
{
}

/// Looking for a line loses no byte: either the first complete line of what was
/// unread is returned and the bytes after its newline are still unread, or there
/// is no complete line and all bytes are still unread.
pub proof fn law_scan_takes_the_first_line(before: LinesView, after: LinesView, step: LineStep)
    requires
        before.wf(),
        is_scan(before, after, step),
    ensures
        after.wf(),
        match step {
            LineStep::Ready(Some(line)) => {
                &&& complete_lines(before.unread()).len() > 0
                &&& is_line(complete_lines(before.unread())[0], line)
                &&& before.unread() == complete_lines(before.unread())[0].push(NEWLINE)
                    + after.unread()
                &&& complete_lines(after.unread()) == complete_lines(before.unread()).skip(1)
                &&& remainder(after.unread()) == remainder(before.unread())
            },
            _ => {
                &&& step is Read
                &&& after.is_exhausted()
                &&& after.unread() == before.unread()
                &&& complete_lines(before.unread()) == Seq::<Seq<u8>>::empty()
                &&& remainder(before.unread()) == before.unread()
            },
        },
{
    let unread = before.unread();
    unread.index_of_first_ensures(NEWLINE);
    match unread.index_of_first(NEWLINE) {
        Some(i) => {
            if i < before.carried.len() {
                assert(unread[i] == before.carried[i]);
                assert(before.carried.contains(NEWLINE));
            }
            assert(after.unread() =~= unread.skip(i + 1));
            let lines = complete_lines(unread);
            assert(lines == seq![unread.take(i)] + complete_lines(unread.skip(i + 1)));
            assert(lines.skip(1) =~= complete_lines(unread.skip(i + 1)));
            assert(unread =~= unread.take(i).push(NEWLINE) + unread.skip(i + 1));
        },
        None => {
            assert(after.unread() =~= unread);
        },
    }
}

/// A read that succeeds adds its bytes to what is unread.
pub proof fn law_read_extends_the_unread(before: LinesView, bytes: Seq<u8>)
    requires
        before.wf(),
        before.is_exhausted(),
    ensures
        ({
            let filled = LinesView { buffer: bytes, pos: 0, ..before };
            filled.wf() && filled.unread() == before.unread() + bytes
        }),
{
    let filled = LinesView { buffer: bytes, pos: 0, ..before };
    assert(before.buffer.skip(before.pos as int) =~= Seq::<u8>::empty());
    assert(before.unread() =~= before.carried);
    assert(filled.unread() =~= before.unread() + bytes);
}

/// The lines, each with its newline.
pub open spec fn with_newlines(lines: Seq<Seq<u8>>) -> Seq<Seq<u8>> {
    lines.map_values(|line: Seq<u8>| line.push(NEWLINE))
}

/// The lines with their newlines, and then the remainder, are the bytes again;
/// no line holds a newline, and neither does the remainder.
pub proof fn law_lines_make_up_the_bytes(bytes: Seq<u8>)
    ensures
        with_newlines(complete_lines(bytes)).len() == complete_lines(bytes).len(),
        forall|i: int|
            0 <= i < complete_lines(bytes).len() ==> #[trigger] with_newlines(
                complete_lines(bytes),
            )[i] == complete_lines(bytes)[i].push(0x0a),
        with_newlines(complete_lines(bytes)).flatten() + remainder(bytes) == bytes,
        forall|i: int|
            0 <= i < complete_lines(bytes).len() ==> !(#[trigger] complete_lines(bytes)[i]).contains(
                NEWLINE,
            ),
        !remainder(bytes).contains(NEWLINE),
    decreases bytes.len(),
{
    bytes.index_of_first_ensures(NEWLINE);
    match bytes.index_of_first(NEWLINE) {
        Some(i) => {
            let rest = bytes.skip(i + 1);
            law_lines_make_up_the_bytes(rest);
            let lines = complete_lines(bytes);
            assert(lines == seq![bytes.take(i)] + complete_lines(rest));
            assert(with_newlines(lines).drop_first() =~= with_newlines(complete_lines(rest)));
            assert(with_newlines(lines).first() == bytes.take(i).push(NEWLINE));
            assert(with_newlines(lines).flatten() == bytes.take(i).push(NEWLINE)
                + with_newlines(complete_lines(rest)).flatten());
            assert(with_newlines(lines).flatten() + remainder(bytes) =~= bytes.take(i).push(NEWLINE)
                + (with_newlines(complete_lines(rest)).flatten() + remainder(rest)));
            assert(bytes =~= bytes.take(i).push(NEWLINE) + rest);
            assert forall|k: int| 0 <= k < lines.len() implies !(#[trigger] lines[k]).contains(
                NEWLINE,
            ) by {
                if k > 0 {
                    assert(lines[k] == complete_lines(rest)[k - 1]);
                }
            }
        },
        None => {
            assert(with_newlines(complete_lines(bytes)) =~= Seq::<Seq<u8>>::empty());
            assert(with_newlines(complete_lines(bytes)).flatten() =~= Seq::<u8>::empty());
            assert(Seq::<u8>::empty() + bytes =~= bytes);
        },
    }
}

/// The lines of a stream are those that were sent: whatever lines without a newline
/// are sent, each with a newline after it, these are the complete lines, and what was
/// sent after them is the rest.
pub proof fn law_lines_are_those_that_were_sent(lines: Seq<Seq<u8>>, rest: Seq<u8>)
    requires
        forall|i: int| 0 <= i < lines.len() ==> !(#[trigger] lines[i]).contains(0x0a),
        !rest.contains(0x0a),
    ensures
        complete_lines(with_newlines(lines).flatten() + rest) == lines,
        remainder(with_newlines(lines).flatten() + rest) == rest,
    decreases lines.len(),
{
    let bytes = with_newlines(lines).flatten() + rest;
    if lines.len() == 0 {
        assert(with_newlines(lines).flatten() =~= Seq::<u8>::empty());
        assert(bytes =~= rest);
        rest.index_of_first_ensures(NEWLINE);
        assert(complete_lines(bytes) =~= lines);
    } else {
        let first = lines.first();
        let others = lines.drop_first();
        let i = first.len() as int;
        assert(with_newlines(lines).drop_first() =~= with_newlines(others));
        assert(with_newlines(lines).first() == first.push(NEWLINE));
        assert(with_newlines(lines).flatten() == first.push(NEWLINE) + with_newlines(
            others,
        ).flatten());
        let later = with_newlines(others).flatten() + rest;
        assert(bytes =~= first.push(NEWLINE) + later);
        assert(bytes[i] == NEWLINE);
        assert(lines[0] == first);
        assert forall|j: int| 0 <= j < i implies bytes[j] != NEWLINE by {
            assert(bytes[j] == first[j]);
            assert(first.contains(first[j]));
        }
        lemma_first_newline(bytes, i);
        assert(bytes.take(i) =~= first);
        assert(bytes.skip(i + 1) =~= later);
        assert forall|j: int| 0 <= j < others.len() implies !(#[trigger] others[j]).contains(
            0x0a,
        ) by {
            assert(others[j] == lines[j + 1]);
        }
        law_lines_are_those_that_were_sent(others, rest);
        assert(complete_lines(bytes) =~= lines);
    }
}

/// Reading in two parts gives the same lines as reading at once.
pub proof fn law_lines_in_two_parts(first: Seq<u8>, second: Seq<u8>)
    ensures
        complete_lines(first + second) == complete_lines(first) + complete_lines(
            remainder(first) + second,
        ),
        remainder(first + second) == remainder(remainder(first) + second),
    decreases first.len(),
{
    first.index_of_first_ensures(NEWLINE);
    let both = first + second;
    match first.index_of_first(NEWLINE) {
        Some(i) => {
            let rest = first.skip(i + 1);
            assert(both[i] == NEWLINE);
            assert forall|j: int| 0 <= j < i implies both[j] != NEWLINE by {
                assert(both[j] == first[j]);
            }
            lemma_first_newline(both, i);
            assert(both.take(i) =~= first.take(i));
            assert(both.skip(i + 1) =~= rest + second);
            law_lines_in_two_parts(rest, second);
            assert(complete_lines(both) =~= complete_lines(first) + complete_lines(
                remainder(first) + second,
            ));
        },
        None => {
            assert(complete_lines(both) =~= complete_lines(first) + complete_lines(both));
        },
    }
}

/// The lines that come out when the parts are read one after the other, after
/// `carried` has been read.
pub open spec fn lines_of_parts(carried: Seq<u8>, parts: Seq<Seq<u8>>) -> Seq<Seq<u8>>
    decreases parts.len(),
{
    if parts.len() == 0 {
        Seq::empty()
    } else {
        complete_lines(carried + parts.first()) + lines_of_parts(
            remainder(carried + parts.first()),
            parts.drop_first(),
        )
    }
}

/// The lines of a stream do not depend on the parts in which it is read.
pub proof fn law_lines_in_any_parts(carried: Seq<u8>, parts: Seq<Seq<u8>>)
    requires
        !carried.contains(NEWLINE),
    ensures
        lines_of_parts(carried, parts) == complete_lines(carried + parts.flatten()),
    decreases parts.len(),
{
    if parts.len() == 0 {
        assert(carried + parts.flatten() =~= carried);
        carried.index_of_first_ensures(NEWLINE);
        assert(lines_of_parts(carried, parts) =~= complete_lines(carried));
    } else {
        let first = carried + parts.first();
        law_lines_make_up_the_bytes(first);
        law_lines_in_any_parts(remainder(first), parts.drop_first());
        law_lines_in_two_parts(first, parts.drop_first().flatten());
        assert(parts.flatten() == parts.first() + parts.drop_first().flatten());
        assert(carried + parts.flatten() =~= first + parts.drop_first().flatten());
    }
}

/// Whether a reader that has read the bytes `read` and returned the lines
/// `returned` is about to return the rest of the lines.
pub open spec fn is_reading(lines: LinesView, read: Seq<u8>, returned: Seq<Seq<u8>>) -> bool {
    &&& lines.wf()
    &&& returned + complete_lines(lines.unread()) == complete_lines(read)
    &&& remainder(lines.unread()) == remainder(read)
}

proof fn lemma_scan_is_reading(
    before: LinesView,
    after: LinesView,
    step: LineStep,
    read: Seq<u8>,
    returned: Seq<Seq<u8>>,
)
    requires
        is_reading(before, read, returned),
        is_scan(before, after, step),
    ensures
        match step {
            LineStep::Ready(Some(line)) => {
                let all = complete_lines(read);
                &&& returned.len() < all.len()
                &&& is_line(all[returned.len() as int], line)
                &&& is_reading(after, read, returned.push(all[returned.len() as int]))
            },
            _ => is_reading(after, read, returned),
        },
{
    law_scan_takes_the_first_line(before, after, step);
    if step is Ready {
        let all = complete_lines(read);
        let ahead = complete_lines(before.unread());
        assert(all[returned.len() as int] == ahead[0]);
        assert(returned.push(ahead[0]) + ahead.skip(1) =~= returned + ahead);
    }
}

/// A reader that starts on a socket has nothing to return.
pub proof fn law_new_reader_is_reading()
    ensures
        is_reading(
            LinesView { buffer: Seq::empty(), pos: 0, carried: Seq::empty() },
            Seq::empty(),
            Seq::empty(),
        ),
{
    let start = LinesView { buffer: Seq::empty(), pos: 0, carried: Seq::empty() };
    assert(start.unread() =~= Seq::<u8>::empty());
    assert(Seq::<Seq<u8>>::empty() + complete_lines(Seq::empty()) =~= complete_lines(Seq::empty()));
}

/// A reader returns the lines of its stream, each once and in order, however the
/// stream is cut into reads, and however often a read fails or would have had to
/// wait: each step from such a state leads to such a state. What it returns is the
/// failure that it was given, or the next line of the stream. It reads on only once all
/// lines that it has read are returned.
pub proof fn law_reader_returns_the_lines(
    before: LinesView,
    input: LineInput,
    after: LinesView,
    step: LineStep,
    read: Seq<u8>,
    returned: Seq<Seq<u8>>,
)
    requires
        is_reading(before, read, returned),
        is_line_step(before, input, after, step),
        input is Read ==> before.is_exhausted(),
    ensures
        ({
            let read = match input {
                LineInput::Read(Ok(bytes)) => read + bytes@,
                _ => read,
            };
            let all = complete_lines(read);
            match step {
                LineStep::Ready(Some(line)) => match input {
                    LineInput::Read(Err(error)) => line == Err::<String, IoError>(error)
                        && is_reading(after, read, returned),
                    LineInput::Registered(Err(error)) => line == Err::<String, IoError>(error)
                        && is_reading(after, read, returned),
                    _ => {
                        &&& returned.len() < all.len()
                        &&& is_line(all[returned.len() as int], line)
                        &&& is_reading(after, read, returned.push(all[returned.len() as int]))
                    },
                },
                _ => {
                    &&& is_reading(after, read, returned)
                    &&& step is Read ==> returned == all
                },
            }
        }),
{
    if step is Read {
        assert(after.unread() =~= after.carried);
        after.unread().index_of_first_ensures(NEWLINE);
        assert(complete_lines(after.unread()) =~= Seq::<Seq<u8>>::empty());
        assert(returned + Seq::<Seq<u8>>::empty() =~= returned);
    }
    match input {
        LineInput::Poll => {
            if !before.is_exhausted() {
                lemma_scan_is_reading(before, after, step, read, returned);
            }
        },
        LineInput::Read(Ok(bytes)) => {
            let filled = LinesView { buffer: bytes@, pos: 0, ..before };
            law_read_extends_the_unread(before, bytes@);
            assert(before.unread() =~= before.carried);
            before.unread().index_of_first_ensures(NEWLINE);
            assert(returned =~= complete_lines(read));
            law_lines_in_two_parts(read, bytes@);
            assert(is_reading(filled, read + bytes@, returned));
            if bytes@.len() > 0 {
                lemma_scan_is_reading(filled, after, step, read + bytes@, returned);
            }
        },
        _ => {},
    }
}

/// The reader is pending only once its task has been registered.
pub proof fn law_pending_line_is_registered(
    before: LinesView,
    input: LineInput,
    after: LinesView,
    step: LineStep,
)
    requires
        is_line_step(before, input, after, step),
    ensures
        step is Pending <==> (input matches LineInput::Registered(Ok(_))),
        step is AwaitReadable <==> (input matches LineInput::Read(Err(error)) && error.kind
            == ErrorKind::WouldBlock),
        step is Read ==> after.is_exhausted(),
{
}

} // verus!
