use convey::components::{record, span, text};
use convey::error::ErrorKind;
use convey::{human, json, Error, Output, Target};

fn assert_both<T: Send + Sync>() {}

#[test]
fn assert_output_is_sync_and_send() {
    assert_both::<Output>();
}

#[test]
fn prints_text_with_one_line_feed() -> Result<(), Error> {
    let mut out = convey::new().add_target(human::test().target())?;
    out.print(text("hello"))?;
    out.flush()?;
    assert_eq!(out.target(0).to_string(), "hello\n");
    Ok(())
}

#[test]
fn prints_owned_and_borrowed_items() -> Result<(), Error> {
    let mut out = convey::new().add_target(human::test().target())?;
    out.print(text("owned element"))?;
    out.print(&text("reference to an element"))?;
    out.print("Hello, World!")?;
    out.print(String::from("Hello, String!"))?;
    out.flush()?;
    assert_eq!(
        out.target(0).to_string(),
        "owned element\nreference to an element\nHello, World!\nHello, String!\n"
    );
    Ok(())
}

#[test]
fn text_comes_out_byte_for_byte() -> Result<(), Error> {
    let texts = ["", "one", "two words", "ünï ✓", "a\nb"];
    let mut out = convey::new().add_target(human::test_with_color().target())?;
    let mut expected = Vec::new();
    for t in texts {
        out.print(text(t))?;
        expected.extend_from_slice(t.as_bytes());
        expected.push(b'\n');
    }
    out.flush()?;
    assert_eq!(out.target(0).contents(), expected);
    Ok(())
}

#[test]
fn nothing_reaches_a_sink_before_the_flush() -> Result<(), Error> {
    let mut out = convey::new().add_target(human::test().target())?;
    out.print(text("waiting"))?;
    assert_eq!(out.target(0).to_string(), "");
    out.flush()?;
    assert_eq!(out.target(0).to_string(), "waiting\n");
    Ok(())
}

#[test]
fn every_target_gets_every_item_once() -> Result<(), Error> {
    let mut out = convey::new()
        .add_target(human::test().target())?
        .add_target(json::test().target())?;
    assert_eq!(out.len(), 2);
    out.print(text("hello"))?;
    out.flush()?;
    assert_eq!(out.target(0).to_string(), "hello\n");
    assert_eq!(out.target(1).to_string(), "\"hello\"\n");
    Ok(())
}

#[test]
fn targets_are_served_in_the_order_added() -> Result<(), Error> {
    let mut out = convey::new()
        .add_target(json::test().target())?
        .add_target(human::test_with_color().target())?
        .add_target(human::test().target())?;
    out.print(span().add_item("a").add_item("b").bold(true)?)?;
    out.print("c")?;
    out.flush()?;
    assert_eq!(out.target(0).to_string(), "\"a\"\n\"b\"\n\"c\"\n");
    assert_eq!(out.target(1).to_string(), "\u{1b}[0m\u{1b}[1mab\u{1b}[0m\nc\n");
    assert_eq!(out.target(2).to_string(), "ab\nc\n");
    Ok(())
}

#[test]
fn an_output_without_targets_prints_nowhere() -> Result<(), Error> {
    let mut out = convey::new();
    assert_eq!(out.len(), 0);
    out.print("lost")?;
    out.flush()?;
    Ok(())
}

#[test]
fn the_first_failing_target_ends_the_print() -> Result<(), Error> {
    let mut closed = human::test().formatter();
    closed.close();
    let mut out = convey::new()
        .add_target(human::test().target())?
        .add_target(Target::human(closed))?
        .add_target(human::test().target())?;

    let e = out.print(text("hello")).unwrap_err();
    assert_eq!(e.kind(), ErrorKind::Channel);
    let e = out.flush().unwrap_err();
    assert_eq!(e.kind(), ErrorKind::Channel);

    assert_eq!(out.target(0).to_string(), "hello\n");
    assert_eq!(out.target(1).to_string(), "");
    assert_eq!(out.target(2).to_string(), "");
    Ok(())
}

#[test]
fn nested_spans_reset_to_no_style() -> Result<(), Error> {
    let mut out = convey::new().add_target(human::test_with_color().target())?;
    let inner = span().add_item("in").fg("red")?;
    out.print(span().add_item("a").add_item(inner).add_item("b").fg("green")?)?;
    out.flush()?;
    assert_eq!(
        out.target(0).to_string(),
        "\u{1b}[0m\u{1b}[32ma\u{1b}[0m\u{1b}[31min\u{1b}[0mb\u{1b}[0m\n"
    );
    Ok(())
}

#[test]
fn sibling_spans_do_not_interleave() -> Result<(), Error> {
    let mut out = convey::new().add_target(human::test_with_color().target())?;
    let first = span().add_item("1").bold(true)?;
    let second = span().add_item("2").underline(true)?;
    out.print(span().add_item(first).add_item(second))?;
    out.flush()?;
    assert_eq!(
        out.target(0).to_string(),
        "\u{1b}[0m\u{1b}[0m\u{1b}[1m1\u{1b}[0m\u{1b}[0m\u{1b}[4m2\u{1b}[0m\u{1b}[0m\n"
    );
    Ok(())
}

#[test]
fn an_empty_span_still_sets_and_resets() -> Result<(), Error> {
    let mut out = convey::new()
        .add_target(human::test_with_color().target())?
        .add_target(json::test().target())?;
    out.print(span())?;
    out.flush()?;
    assert_eq!(out.target(0).to_string(), "\u{1b}[0m\u{1b}[0m\n");
    assert_eq!(out.target(1).to_string(), "\n");
    Ok(())
}

#[test]
fn a_record_has_two_forms() -> Result<(), Error> {
    let mut out = convey::new()
        .add_target(human::test().target())?
        .add_target(json::test().target())?;
    out.print(record(text("42: hi"), b"{\"code\":42,\"message\":\"hi\"}".to_vec()))?;
    out.flush()?;
    assert_eq!(out.target(0).to_string(), "42: hi\n");
    assert_eq!(out.target(1).to_string(), "{\"code\":42,\"message\":\"hi\"}\n");
    Ok(())
}

#[test]
fn pending_commands_are_taken_target_by_target() -> Result<(), Error> {
    let mut out = convey::new()
        .add_target(human::test().target())?
        .add_target(json::test().target())?;
    out.print(text("x"))?;
    match out.take_pending(1) {
        convey::Pending::Json(messages) => assert_eq!(messages.len(), 2),
        convey::Pending::Human(_) => panic!("a JSON target gave human commands"),
    }
    match out.take_pending(0) {
        convey::Pending::Human(messages) => assert_eq!(messages.len(), 2),
        convey::Pending::Json(_) => panic!("a human target gave JSON commands"),
    }
    assert!(out.target(0).is_open());
    out.flush()?;
    assert_eq!(out.target(0).to_string(), "");
    assert_eq!(out.target(1).to_string(), "");
    Ok(())
}
