use convey::components::{record, span, text};
use convey::error::ErrorKind;
use convey::json::{self, Formatter, Message, OpenMode, Response, Worker};
use convey::{Error, Render, Target};

#[test]
fn a_record_comes_back_as_it_was_written() -> Result<(), Error> {
    let mut fields = serde_json::Map::new();
    fields.insert(String::from("code"), serde_json::Value::from(42));
    fields.insert(String::from("message"), serde_json::Value::from("hi"));
    let value = serde_json::Value::Object(fields);
    let encoded = serde_json::to_vec(&value).unwrap();

    let mut out = convey::new().add_target(json::test().target())?;
    out.print(record(text("hi"), encoded))?;
    out.flush()?;

    let written = out.target(0).contents();
    assert_eq!(written.last(), Some(&b'\n'));
    let lines: Vec<&[u8]> = written[..written.len() - 1].split(|b| *b == b'\n').collect();
    assert_eq!(lines.len(), 1);
    let read: serde_json::Value = serde_json::from_slice(lines[0]).unwrap();
    assert_eq!(read, value);
    assert_eq!(read["code"], 42);
    assert_eq!(read["message"], "hi");
    Ok(())
}

#[test]
fn strings_are_written_as_json_strings() -> Result<(), Error> {
    let mut fmt = json::test().formatter();
    fmt.write("plain")?;
    fmt.write_separator()?;
    fmt.write("with \"quotes\" and \\ and\nbreak")?;
    fmt.flush()?;
    assert_eq!(
        fmt.to_string(),
        "\"plain\"\n\"with \\\"quotes\\\" and \\\\ and\\nbreak\""
    );
    Ok(())
}

#[test]
fn json_flush_is_a_barrier() -> Result<(), Error> {
    let mut fmt = json::test().formatter();
    fmt.write_encoded(b"1".to_vec())?;
    assert_eq!(fmt.contents(), b"");
    fmt.flush()?;
    assert_eq!(fmt.contents(), b"1");
    fmt.write_encoded(b"2".to_vec())?;
    assert_eq!(fmt.contents(), b"1");
    fmt.flush()?;
    assert_eq!(fmt.contents(), b"12");
    Ok(())
}

#[test]
fn span_children_are_separated_not_terminated() -> Result<(), Error> {
    let mut fmt = json::test().formatter();
    span().add_item("only").render_json(&mut fmt)?;
    assert_eq!(fmt.join(), b"\"only\"");

    let mut fmt = json::test().formatter();
    span().render_json(&mut fmt)?;
    assert_eq!(fmt.join(), b"");

    let mut fmt = json::test().formatter();
    span()
        .add_item("a")
        .add_item(span())
        .add_item("b")
        .render_json(&mut fmt)?;
    assert_eq!(fmt.join(), b"\"a\"\n\n\"b\"");
    Ok(())
}

#[test]
fn a_closed_json_formatter_refuses() {
    let mut fmt = json::test().formatter();
    fmt.write("kept").unwrap();
    fmt.close();
    assert!(!fmt.is_open());
    assert_eq!(fmt.write("lost").unwrap_err().kind(), ErrorKind::Channel);
    assert_eq!(fmt.write_encoded(b"1".to_vec()).unwrap_err().kind(), ErrorKind::Channel);
    assert_eq!(fmt.write_separator().unwrap_err().kind(), ErrorKind::Channel);
    assert_eq!(fmt.flush().unwrap_err().kind(), ErrorKind::Channel);
    assert_eq!(text("x").render_json(&mut fmt).unwrap_err().kind(), ErrorKind::Channel);
    assert!(span().render_json(&mut fmt).is_ok());
    assert_eq!(fmt.contents(), b"\"kept\"");
}

#[test]
fn creates_a_new_file() {
    assert_eq!(json::open_mode(false), OpenMode::Create);
    assert_eq!(json::opened(None), b"");
}

#[test]
fn doesnt_truncate_existing_file() {
    let intitial_content = "{\"success\":true}\n";
    assert_eq!(json::open_mode(true), OpenMode::Append);
    let contents = json::opened(Some(intitial_content.as_bytes().to_vec()));
    assert!(String::from_utf8_lossy(&contents).contains(intitial_content));
}

#[test]
fn appends_to_existing_file() -> Result<(), Error> {
    let intitial_content = "{\"success\":true}\n";
    let held = json::opened(Some(intitial_content.as_bytes().to_vec()));
    let target = Target::json(Formatter::init_with(Ok(held))?);
    let mut output = convey::new().add_target(target)?;
    output.print("wtf")?;
    output.flush()?;

    let written = output.target(0).to_string();
    assert!(written.trim().ends_with("\"wtf\""));
    assert!(written.starts_with(intitial_content));
    Ok(())
}

#[test]
fn appends_newline_to_existing_file() {
    let intitial_content = "{\"success\":true}"; // <- no newline at the end
    let contents = json::opened(Some(intitial_content.as_bytes().to_vec()));
    assert!(contents.ends_with(b"\n"));
    assert_eq!(contents, b"{\"success\":true}\n");
}

#[test]
fn a_json_sink_that_cannot_be_opened_is_reported() {
    let failed = Formatter::init_with(Err(Error::Io(String::from("read-only"))));
    assert_eq!(failed.err().unwrap().message(), "IO error: read-only");
}

#[test]
fn json_worker_protocol() {
    let (worker, report) = Worker::start(Ok(b"[]".to_vec()));
    assert!(matches!(report, Response::StartedSuccessfully));
    let mut worker = worker.unwrap();
    assert!(worker.handle(Some(&Message::Write(b"1".to_vec()))).is_none());
    assert!(matches!(worker.handle(Some(&Message::Flush)), Some(Response::Flushed)));
    let mut inbox = vec![Message::Write(b"2".to_vec()), Message::Exit, Message::Flush];
    assert!(worker.serve(&mut inbox).is_empty());
    assert!(worker.handle(Some(&Message::Flush)).is_none());
    assert_eq!(worker.contents(), b"[]12");
    assert_eq!(worker.into_sink(), b"[]12");

    let (worker, report) = Worker::start(Err(Error::Io(String::from("x"))));
    assert!(worker.is_none());
    assert!(matches!(report, Response::Error(_)));
}

#[test]
fn json_connect_and_flush_outcome() {
    let (worker, _) = Worker::start(Ok(Vec::new()));
    let e = Formatter::connect(worker, Some(Response::Flushed)).err().unwrap();
    assert_eq!(e.kind(), ErrorKind::Worker);
    let e = Formatter::connect(None, None).err().unwrap();
    assert_eq!(e.message(), "Worker error: unexpected message: the worker is gone");
    assert!(json::flush_outcome(Some(Response::Flushed)).is_ok());
    let e = json::flush_outcome(Some(Response::StartedSuccessfully)).unwrap_err();
    assert_eq!(e.kind(), ErrorKind::Worker);
}

#[test]
fn json_commands_can_be_handed_to_a_worker_elsewhere() {
    let mut fmt = json::test().formatter();
    fmt.write("a").unwrap();
    fmt.write_separator().unwrap();
    let taken = fmt.take_pending();
    assert_eq!(taken.len(), 2);

    let (worker, _) = Worker::start(Ok(Vec::new()));
    let mut worker = worker.unwrap();
    let mut written = Vec::new();
    for message in taken.iter() {
        worker.handle(Some(message));
        written.extend(worker.take_output());
    }
    assert!(worker.running());
    assert_eq!(written, b"\"a\"\n");
    worker.handle(None);
    assert!(!worker.running());
}
