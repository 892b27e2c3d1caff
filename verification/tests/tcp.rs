use multitask_server::io_error::{ErrorKind, IoError};
use multitask_server::tcp::accept::{
    AcceptInput, AcceptStep, TcpConnectionAccept, TcpConnectionAcceptState,
};
use multitask_server::tcp::for_each::{ForEachInput, ForEachStep, TcpLinesForEach};
use multitask_server::tcp::lines::{LineInput, LineStep, TcpStreamLines, BUF_SIZE};
use multitask_server::tcp::write::{TcpStreamWriteAll, WriteInput, WriteStep};

fn failure(kind: ErrorKind) -> IoError {
    IoError { kind, code: Some(5), message: "failure".to_string() }
}

/// Reads all lines of a stream that is cut into the given reads.
fn lines_of(reads: &[&[u8]]) -> Vec<Result<String, ErrorKind>> {
    let mut lines = TcpStreamLines::new();
    let mut found = Vec::new();
    let mut step = lines.poll_line(LineInput::Poll);
    let mut next = 0;
    loop {
        step = match step {
            LineStep::Read => {
                let bytes = if next < reads.len() { reads[next].to_vec() } else { Vec::new() };
                next += 1;
                lines.poll_line(LineInput::Read(Ok(bytes)))
            }
            LineStep::Ready(Some(line)) => {
                found.push(line.map_err(|error| error.kind));
                lines.poll_line(LineInput::Poll)
            }
            LineStep::Ready(None) => return found,
            _ => panic!("nothing blocks here"),
        };
    }
}

#[test]
fn lines_are_split_at_newlines() {
    let found = lines_of(&[b"one\ntwo\r\n\nthree"]);
    assert_eq!(found, vec![Ok("one".to_string()), Ok("two".to_string()), Ok(String::new())]);
}

#[test]
fn lines_do_not_depend_on_the_reads() {
    let stream = "alpha\r\nbeta\n\u{3b3}\u{3ac}\u{3bc}\u{3bc}\u{3b1}\ndelta\n".as_bytes();
    let whole = lines_of(&[stream]);
    assert_eq!(whole.len(), 4);
    for i in 1..stream.len() {
        assert_eq!(lines_of(&[&stream[..i], &stream[i..]]), whole);
    }
    let single: Vec<&[u8]> = stream.chunks(1).collect();
    assert_eq!(lines_of(&single), whole);
}

#[test]
fn only_one_carriage_return_is_taken_off() {
    assert_eq!(lines_of(&[b"a\r\r\n\r\nb\rc\n"]), vec![
        Ok("a\r".to_string()),
        Ok(String::new()),
        Ok("b\rc".to_string()),
    ]);
}

#[test]
fn malformed_lines_are_failures() {
    let mut lines = TcpStreamLines::new();
    assert!(matches!(lines.poll_line(LineInput::Poll), LineStep::Read));
    match lines.poll_line(LineInput::Read(Ok(vec![0xff, b'\n', b'x', b'\n']))) {
        LineStep::Ready(Some(Err(error))) => {
            assert_eq!(error.kind, ErrorKind::InvalidInput);
            assert_eq!(error.code, None);
            assert_eq!(error.message, "Not utf8");
        }
        _ => panic!("the line is not UTF-8"),
    }
    match lines.poll_line(LineInput::Poll) {
        LineStep::Ready(Some(Ok(line))) => assert_eq!(line, "x"),
        _ => panic!("the next line is fine"),
    }
}

#[test]
fn characters_may_be_cut_by_reads() {
    assert_eq!(lines_of(&[b"\xc3", b"\xa9\n"]), vec![Ok("\u{e9}".to_string())]);
    assert_eq!(lines_of(&[b"\xc3\n", b"\xa9\n"]), vec![
        Err(ErrorKind::InvalidInput),
        Err(ErrorKind::InvalidInput),
    ]);
}

#[test]
fn blocked_reads_wait_for_readability() {
    let mut lines = TcpStreamLines::new();
    assert!(matches!(lines.poll_line(LineInput::Poll), LineStep::Read));
    let step = lines.poll_line(LineInput::Read(Err(failure(ErrorKind::WouldBlock))));
    assert!(matches!(step, LineStep::AwaitReadable));
    assert!(matches!(lines.poll_line(LineInput::Registered(Ok(()))), LineStep::Pending));
    match lines.poll_line(LineInput::Registered(Err(failure(ErrorKind::Other)))) {
        LineStep::Ready(Some(Err(error))) => assert_eq!(error.code, Some(5)),
        _ => panic!("a failed registration is returned"),
    }
    assert!(matches!(lines.poll_line(LineInput::Poll), LineStep::Read));
}

/// What polling for a line comes to, given what its reads bring.
fn next_line(
    lines: &mut TcpStreamLines,
    reads: &mut Vec<Result<Vec<u8>, IoError>>,
) -> Option<Result<String, IoError>> {
    let mut step = lines.poll_line(LineInput::Poll);
    loop {
        step = match step {
            LineStep::Read => lines.poll_line(LineInput::Read(reads.remove(0))),
            LineStep::Ready(line) => return line,
            _ => panic!("nothing blocks here"),
        };
    }
}

#[test]
fn failed_read_repeats_no_line() {
    let mut lines = TcpStreamLines::new();
    let mut reads =
        vec![Ok(b"a\n".to_vec()), Err(failure(ErrorKind::Other)), Ok(Vec::new())];
    assert_eq!(next_line(&mut lines, &mut reads).unwrap().unwrap(), "a");
    let error = next_line(&mut lines, &mut reads).unwrap().unwrap_err();
    assert_eq!(error.kind, ErrorKind::Other);
    assert_eq!(error.message, "failure");
    assert!(next_line(&mut lines, &mut reads).is_none());
    assert!(reads.is_empty());
}

#[test]
fn failed_read_keeps_the_line_that_has_begun() {
    let mut lines = TcpStreamLines::new();
    let mut reads =
        vec![Ok(b"a\nbc".to_vec()), Err(failure(ErrorKind::Other)), Ok(b"d\n".to_vec())];
    assert_eq!(next_line(&mut lines, &mut reads).unwrap().unwrap(), "a");
    assert!(next_line(&mut lines, &mut reads).unwrap().is_err());
    assert_eq!(next_line(&mut lines, &mut reads).unwrap().unwrap(), "bcd");
}

#[test]
fn reads_are_of_four_kibibytes() {
    assert_eq!(BUF_SIZE, 4096);
}

#[test]
fn writing_takes_as_many_writes_as_needed() {
    let buf = b"0123456789";
    for size in 1..=buf.len() {
        let mut sent: Vec<u8> = Vec::new();
        let mut writer = TcpStreamWriteAll::new(buf);
        let mut step = writer.poll(WriteInput::Poll);
        while let WriteStep::Write = step {
            let count = size.min(writer.remaining().len());
            sent.extend_from_slice(&writer.remaining()[..count]);
            step = writer.poll(WriteInput::Written(Ok(count)));
        }
        assert!(matches!(step, WriteStep::Ready(Ok(()))));
        assert_eq!(sent, buf);
    }
}

#[test]
fn writing_nothing_is_done() {
    let mut writer = TcpStreamWriteAll::new(b"");
    assert!(matches!(writer.poll(WriteInput::Poll), WriteStep::Ready(Ok(()))));
}

#[test]
fn write_of_no_byte_is_a_failure() {
    let mut writer = TcpStreamWriteAll::new(b"abc");
    assert!(matches!(writer.poll(WriteInput::Poll), WriteStep::Write));
    match writer.poll(WriteInput::Written(Ok(0))) {
        WriteStep::Ready(Err(error)) => {
            assert_eq!(error.kind, ErrorKind::WriteZero);
            assert_eq!(error.code, None);
            assert_eq!(error.message, "failed to write whole buffer");
        }
        _ => panic!("nothing was written"),
    }
    assert_eq!(writer.remaining(), b"abc");
}

#[test]
fn blocked_writes_wait_for_writability() {
    let mut writer = TcpStreamWriteAll::new(b"abc");
    assert!(matches!(writer.poll(WriteInput::Written(Ok(1))), WriteStep::Write));
    let step = writer.poll(WriteInput::Written(Err(failure(ErrorKind::WouldBlock))));
    assert!(matches!(step, WriteStep::AwaitWritable));
    assert!(matches!(writer.poll(WriteInput::Registered(Ok(()))), WriteStep::Pending));
    assert_eq!(writer.remaining(), b"bc");
    match writer.poll(WriteInput::Registered(Err(failure(ErrorKind::Other)))) {
        WriteStep::Ready(Err(error)) => assert_eq!(error.code, Some(5)),
        _ => panic!("a failed registration is returned"),
    }
    match writer.poll(WriteInput::Written(Err(failure(ErrorKind::Interrupted)))) {
        WriteStep::Ready(Err(error)) => assert_eq!(error.kind, ErrorKind::Interrupted),
        _ => panic!("any other failure is returned"),
    }
}

#[test]
fn accepting_at_once() {
    let mut accept = TcpConnectionAccept::new();
    assert!(matches!(accept.poll::<u8>(AcceptInput::Poll), AcceptStep::Accept));
    assert!(matches!(accept.poll(AcceptInput::Accepted(Ok(7u8))), AcceptStep::Ready(Ok(7))));
    assert_eq!(accept.state, TcpConnectionAcceptState::Start);
}

#[test]
fn accepting_after_a_wait() {
    let mut accept = TcpConnectionAccept::new();
    assert!(matches!(accept.poll::<u8>(AcceptInput::Poll), AcceptStep::Accept));
    let blocked = AcceptInput::<u8>::Accepted(Err(failure(ErrorKind::WouldBlock)));
    assert!(matches!(accept.poll(blocked), AcceptStep::AwaitReadable));
    assert_eq!(accept.state, TcpConnectionAcceptState::FirstAttemptBlocked);
    assert!(matches!(accept.poll::<u8>(AcceptInput::Registered(Ok(()))), AcceptStep::Pending));
    assert_eq!(accept.state, TcpConnectionAcceptState::WokenWhenReady);
    assert!(matches!(accept.poll::<u8>(AcceptInput::Poll), AcceptStep::Accept));
    assert!(matches!(accept.poll(AcceptInput::Accepted(Ok(7u8))), AcceptStep::Ready(Ok(7))));
    assert_eq!(accept.state, TcpConnectionAcceptState::Finished);
}

#[test]
fn accepting_may_fail() {
    let mut accept = TcpConnectionAccept::new();
    match accept.poll(AcceptInput::<u8>::Accepted(Err(failure(ErrorKind::Other)))) {
        AcceptStep::Ready(Err(error)) => assert_eq!(error.code, Some(5)),
        _ => panic!("the failure is returned"),
    }
    assert_eq!(accept.state, TcpConnectionAcceptState::Start);
    let blocked = AcceptInput::<u8>::Accepted(Err(failure(ErrorKind::WouldBlock)));
    assert!(matches!(accept.poll(blocked), AcceptStep::AwaitReadable));
    match accept.poll(AcceptInput::<u8>::Registered(Err(failure(ErrorKind::Other)))) {
        AcceptStep::Ready(Err(error)) => assert_eq!(error.message, "failure"),
        _ => panic!("a failed registration is returned"),
    }
    assert_eq!(accept.state, TcpConnectionAcceptState::FirstAttemptBlocked);
    assert!(matches!(accept.poll::<u8>(AcceptInput::Poll), AcceptStep::AwaitReadable));
    assert!(matches!(accept.poll::<u8>(AcceptInput::Registered(Ok(()))), AcceptStep::Pending));
    match accept.poll(AcceptInput::<u8>::Accepted(Err(failure(ErrorKind::Other)))) {
        AcceptStep::Ready(Err(error)) => assert_eq!(error.code, Some(5)),
        _ => panic!("the failure is returned"),
    }
    assert_eq!(accept.state, TcpConnectionAcceptState::WokenWhenReady);
}

#[test]
fn one_future_runs_for_each_line() {
    let mut lines = TcpLinesForEach::new();
    assert!(matches!(lines.poll(ForEachInput::Poll), ForEachStep::PollLine));
    assert!(matches!(lines.poll(ForEachInput::LinePending), ForEachStep::Pending));
    assert!(matches!(lines.poll(ForEachInput::Poll), ForEachStep::PollLine));
    match lines.poll(ForEachInput::Line(Some(Ok("a".to_string())))) {
        ForEachStep::Start(line) => assert_eq!(line, "a"),
        _ => panic!("a future starts"),
    }
    assert!(lines.running);
    assert!(matches!(lines.poll(ForEachInput::Poll), ForEachStep::PollFuture));
    let step = lines.poll(ForEachInput::FuturePolled { ready: false });
    assert!(matches!(step, ForEachStep::Pending));
    assert!(lines.running);
    let step = lines.poll(ForEachInput::FuturePolled { ready: true });
    assert!(matches!(step, ForEachStep::PollLine));
    assert!(!lines.running);
    match lines.poll(ForEachInput::Line(Some(Err(failure(ErrorKind::InvalidInput))))) {
        ForEachStep::Report(error) => assert_eq!(error.kind, ErrorKind::InvalidInput),
        _ => panic!("the failure is reported"),
    }
    assert!(matches!(lines.poll(ForEachInput::Line(None)), ForEachStep::Done));
}
