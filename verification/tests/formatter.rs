use convey::error::ErrorKind;
use convey::fmt::TerminalFormatter;
use convey::human::{self, Formatter, Message, Response, Worker};
use convey::style::Style;
use convey::Error;

#[test]
fn flush_is_a_barrier() {
    let mut fmt = human::test().formatter();
    fmt.write(b"before".to_vec()).unwrap();
    assert_eq!(fmt.contents(), b"");
    fmt.flush().unwrap();
    assert_eq!(fmt.contents(), b"before");
    fmt.write(b" after".to_vec()).unwrap();
    assert_eq!(fmt.contents(), b"before");
    fmt.flush().unwrap();
    assert_eq!(fmt.contents(), b"before after");
}

#[test]
fn flush_with_nothing_enqueued_changes_nothing() {
    let mut fmt = human::test().formatter();
    fmt.flush().unwrap();
    fmt.flush().unwrap();
    assert_eq!(fmt.contents(), b"");
    assert!(fmt.is_open());
}

#[test]
fn commands_take_effect_in_the_order_sent() {
    let mut fmt = human::test_with_color().formatter();
    let mut style = Style::plain();
    style.bold = true;
    fmt.write(b"a".to_vec()).unwrap();
    fmt.set_color(&style).unwrap();
    fmt.write(b"b".to_vec()).unwrap();
    fmt.reset().unwrap();
    fmt.write(b"c".to_vec()).unwrap();
    fmt.flush().unwrap();
    assert_eq!(fmt.to_string(), "a\u{1b}[0m\u{1b}[1mb\u{1b}[0mc");
}

#[test]
fn close_lets_everything_through_and_then_refuses() {
    let mut fmt = human::test().formatter();
    fmt.write(b"last words".to_vec()).unwrap();
    fmt.close();
    assert!(!fmt.is_open());
    assert_eq!(fmt.contents(), b"last words");

    let refused = fmt.write(b"too late".to_vec()).unwrap_err();
    assert_eq!(refused.kind(), ErrorKind::Channel);
    assert_eq!(refused.message(), "Error sending data to channel");
    assert_eq!(fmt.set_color(&Style::plain()).unwrap_err().kind(), ErrorKind::Channel);
    assert_eq!(fmt.reset().unwrap_err().kind(), ErrorKind::Channel);
    assert_eq!(fmt.flush().unwrap_err().kind(), ErrorKind::Channel);
    assert_eq!(fmt.contents(), b"last words");
}

#[test]
fn a_sink_that_cannot_be_opened_is_reported() {
    let failed = Formatter::init_with(Err(Error::Io(String::from("no such file"))));
    match failed {
        Err(e) => {
            assert_eq!(e.kind(), ErrorKind::Io);
            assert_eq!(e.message(), "IO error: no such file");
        }
        Ok(_) => panic!("a formatter was made without a sink"),
    }
}

#[test]
fn worker_reports_how_it_started() {
    let (worker, report) = Worker::start(Ok(TerminalFormatter::no_color()));
    assert!(worker.is_some());
    assert!(matches!(report, Response::StartedSuccessfully));

    let (worker, report) = Worker::start(Err(Error::Io(String::from("denied"))));
    assert!(worker.is_none());
    assert!(matches!(report, Response::Error(Error::Io(_))));
}

#[test]
fn connect_accepts_only_a_started_worker() {
    let (worker, _) = Worker::start(Ok(TerminalFormatter::no_color()));
    assert!(Formatter::connect(worker, Some(Response::StartedSuccessfully)).is_ok());

    let (worker, _) = Worker::start(Ok(TerminalFormatter::no_color()));
    let e = Formatter::connect(worker, Some(Response::Flushed)).err().unwrap();
    assert_eq!(e.kind(), ErrorKind::Worker);
    assert_eq!(e.message(), "Worker error: unexpected message Flushed");

    let (worker, _) = Worker::start(Ok(TerminalFormatter::no_color()));
    let e = Formatter::connect(worker, None).err().unwrap();
    assert_eq!(e.kind(), ErrorKind::Worker);

    let e = Formatter::connect(None, Some(Response::StartedSuccessfully)).err().unwrap();
    assert_eq!(e.kind(), ErrorKind::Worker);

    let e = Formatter::connect(None, Some(Response::Error(Error::Io(String::from("x")))))
        .err()
        .unwrap();
    assert_eq!(e.kind(), ErrorKind::Io);
}

#[test]
fn flush_outcome_for_every_answer() {
    assert!(human::flush_outcome(Some(Response::Flushed)).is_ok());
    let e = human::flush_outcome(Some(Response::StartedSuccessfully)).unwrap_err();
    assert_eq!(e.message(), "Worker error: unexpected message StartedSuccessfully");
    let e = human::flush_outcome(None).unwrap_err();
    assert_eq!(e.message(), "Worker error: unexpected message: the worker is gone");
    let inner = Error::Json(String::from("bad"));
    let e = human::flush_outcome(Some(Response::Error(inner))).unwrap_err();
    assert_eq!(e.message(), "Worker error: unexpected message Error: Json error: bad");
}

#[test]
fn worker_takes_commands_one_by_one() {
    let (worker, _) = Worker::start(Ok(TerminalFormatter::ansi()));
    let mut worker = worker.unwrap();
    assert!(worker.handle(Some(&Message::Write(b"x".to_vec()))).is_none());
    assert!(worker.handle(Some(&Message::ResetStyle)).is_none());
    assert!(matches!(worker.handle(Some(&Message::Flush)), Some(Response::Flushed)));
    assert_eq!(worker.contents(), b"x\x1b[0m");
    assert!(worker.handle(Some(&Message::Exit)).is_none());
    assert!(worker.handle(Some(&Message::Write(b"y".to_vec()))).is_none());
    assert!(worker.handle(Some(&Message::Flush)).is_none());
    assert_eq!(worker.contents(), b"x\x1b[0m");
}

#[test]
fn worker_stops_when_no_more_commands_come() {
    let (worker, _) = Worker::start(Ok(TerminalFormatter::no_color()));
    let mut worker = worker.unwrap();
    assert!(worker.handle(None).is_none());
    assert!(worker.handle(Some(&Message::Write(b"y".to_vec()))).is_none());
    assert_eq!(worker.into_sink().contents(), b"");
}

#[test]
fn worker_serves_a_queue_up_to_the_exit() {
    let (worker, _) = Worker::start(Ok(TerminalFormatter::no_color()));
    let mut worker = worker.unwrap();
    let mut inbox = vec![
        Message::Write(b"one ".to_vec()),
        Message::Flush,
        Message::Write(b"two".to_vec()),
        Message::Flush,
        Message::Exit,
        Message::Write(b" never".to_vec()),
        Message::Flush,
    ];
    let replies = worker.serve(&mut inbox);
    assert!(inbox.is_empty());
    assert_eq!(replies.len(), 2);
    assert_eq!(worker.contents(), b"one two");

    let mut late = vec![Message::Write(b"late".to_vec()), Message::Flush];
    assert!(worker.serve(&mut late).is_empty());
    assert!(late.is_empty());
    assert_eq!(worker.contents(), b"one two");
}

#[test]
fn commands_can_be_handed_to_a_worker_elsewhere() {
    let mut fmt = human::test().formatter();
    fmt.write(b"one".to_vec()).unwrap();
    fmt.reset().unwrap();
    fmt.write(b"two".to_vec()).unwrap();
    let taken = fmt.take_pending();
    assert_eq!(taken.len(), 3);
    assert!(fmt.take_pending().is_empty());
    fmt.flush().unwrap();
    assert_eq!(fmt.contents(), b"");

    let (worker, _) = Worker::start(Ok(TerminalFormatter::ansi()));
    let mut worker = worker.unwrap();
    let mut written = Vec::new();
    for message in taken.iter() {
        assert!(worker.handle(Some(message)).is_none());
        written.extend(worker.take_output());
        assert_eq!(worker.contents(), b"");
    }
    assert!(worker.running());
    assert_eq!(written, b"one\x1b[0mtwo");
    worker.handle(Some(&Message::Exit));
    assert!(!worker.running());
}

#[test]
fn a_sink_can_be_emptied() {
    let mut sink = TerminalFormatter::ansi();
    sink.write(b"abc").unwrap();
    assert_eq!(sink.take(), b"abc");
    assert_eq!(sink.contents(), b"");
    sink.reset().unwrap();
    assert_eq!(sink.take(), b"\x1b[0m");
}
