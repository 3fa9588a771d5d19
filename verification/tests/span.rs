use convey::components::{span, text};
use convey::{human, json, Error, Render};

#[test]
fn renders_span_children() -> Result<(), Error> {
    let item = span()
        .add_item(text("one"))
        .add_item(text("two"))
        .add_item(span().add_item(text("three")));

    let mut human_output = human::test().formatter();
    item.render_for_humans(&mut human_output)?;
    assert_eq!(&human_output.join().to_string(), "onetwothree");

    let mut json = json::test().formatter();
    item.render_json(&mut json)?;
    assert_eq!(
        String::from_utf8_lossy(&json.join()),
        "\"one\"\n\"two\"\n\"three\""
    );
    Ok(())
}

#[test]
fn test_colored_output() -> Result<(), Error> {
    let test_target = human::test_with_color();
    let mut out = convey::new().add_target(test_target.target())?;

    out.print(span().add_item("hello").fg("green")?.bg("blue")?)?;
    out.flush()?;

    assert_eq!(
        out.target(0).to_string(),
        "\u{1b}[0m\u{1b}[32m\u{1b}[44mhello\u{1b}[0m\n"
    );
    Ok(())
}

#[test]
fn test_bold_output() -> Result<(), Error> {
    let test_target = human::test_with_color();
    let mut out = convey::new().add_target(test_target.target())?;

    out.print(span().add_item("hello").bold(true)?)?;
    out.flush()?;

    assert_eq!(
        out.target(0).to_string(),
        "\u{1b}[0m\u{1b}[1mhello\u{1b}[0m\n"
    );
    Ok(())
}

#[test]
fn test_intense_output() -> Result<(), Error> {
    let test_target = human::test_with_color();
    let mut out = convey::new().add_target(test_target.target())?;

    out.print(span().add_item("hello").fg("green")?.intense(true)?)?;
    out.flush()?;

    assert_eq!(
        out.target(0).to_string(),
        "\u{1b}[0m\u{1b}[38;5;10mhello\u{1b}[0m\n"
    );
    Ok(())
}

#[test]
fn test_underline_output() -> Result<(), Error> {
    let test_target = human::test_with_color();
    let mut out = convey::new().add_target(test_target.target())?;

    out.print(span().add_item("hello").underline(true)?)?;
    out.flush()?;

    assert_eq!(
        out.target(0).to_string(),
        "\u{1b}[0m\u{1b}[4mhello\u{1b}[0m\n"
    );
    Ok(())
}
