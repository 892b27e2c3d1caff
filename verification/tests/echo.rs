use multitask_server::echo::{emphasize, handle_connection, reply_to, EchoAction, EchoEvent};
use multitask_server::io_error::{syscall_result, ErrorKind, IoError};

#[test]
fn lines_are_answered_in_upper_case() {
    match handle_connection(EchoEvent::Line(Some(Ok("hello".to_string())))) {
        EchoAction::Reply(reply) => assert_eq!(reply, "HELLO!!!\n"),
        _ => panic!("a line is answered"),
    }
    assert_eq!(reply_to("stra\u{df}e"), "STRASSE!!!\n");
    assert_eq!(reply_to(""), "!!!\n");
    assert_eq!(emphasize("as is".to_string()), "as is!!!\n");
}

#[test]
fn unreadable_lines_are_reported() {
    let error = IoError::new(ErrorKind::InvalidInput, "Not utf8");
    match handle_connection(EchoEvent::Line(Some(Err(error)))) {
        EchoAction::ReportRead(error) => assert_eq!(error.message, "Not utf8"),
        _ => panic!("a failure to read is reported"),
    }
}

#[test]
fn unwritten_answers_are_reported() {
    let error = IoError::new(ErrorKind::WriteZero, "failed to write whole buffer");
    match handle_connection(EchoEvent::Written(Err(error))) {
        EchoAction::ReportWrite(error) => assert_eq!(error.kind, ErrorKind::WriteZero),
        _ => panic!("a failure to write is reported"),
    }
    assert!(matches!(handle_connection(EchoEvent::Written(Ok(()))), EchoAction::NextLine));
}

#[test]
fn end_of_stream_finishes_the_connection() {
    assert!(matches!(handle_connection(EchoEvent::Line(None)), EchoAction::Finish));
}

#[test]
fn system_calls_fail_with_minus_one() {
    let error = || IoError { kind: ErrorKind::Other, code: Some(9), message: "bad".to_string() };
    assert_eq!(syscall_result(7, error()).unwrap(), 7);
    assert_eq!(syscall_result(0, error()).unwrap(), 0);
    assert_eq!(syscall_result(-2, error()).unwrap(), -2);
    assert_eq!(syscall_result(-1, error()).unwrap_err().code, Some(9));
}
