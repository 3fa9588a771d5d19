use convey::components::{span, text};
use convey::error::ErrorKind;
use convey::style::{parse_color, Style};
use convey::Error;
use termcolor::Color;

#[test]
fn an_invalid_color_name_is_refused() {
    let e = span().add_item(text("kept")).fg("not-a-color").err().unwrap();
    assert_eq!(e.kind(), ErrorKind::ParseColor);
    assert!(e.message().contains("not-a-color"));
    let e = span().bg("not-a-color").err().unwrap();
    assert!(matches!(e, Error::ParseColorError(_)));
}

#[test]
fn color_names_are_read_by_termcolor() {
    assert_eq!(parse_color("green").unwrap().termcolor(), Color::Green);
    assert_eq!(parse_color("BLUE").unwrap().termcolor(), Color::Blue);
    assert_eq!(parse_color("17").unwrap().termcolor(), Color::Ansi256(17));
    assert_eq!(parse_color("0x10,20,255").unwrap().termcolor(), Color::Rgb(16, 20, 255));
    assert_eq!(parse_color("").unwrap_err().kind(), ErrorKind::ParseColor);
    assert_eq!(parse_color("256").unwrap_err().kind(), ErrorKind::ParseColor);
    assert_eq!(parse_color("1,2").unwrap_err().kind(), ErrorKind::ParseColor);
}

#[test]
fn the_builder_sets_each_setting() {
    let s = span()
        .fg("red")
        .unwrap()
        .bg("17")
        .unwrap()
        .bold(true)
        .unwrap()
        .underline(true)
        .unwrap()
        .intense(true)
        .unwrap();
    let style = s.style();
    assert_eq!(style.fg.map(|c| c.termcolor()), Some(Color::Red));
    assert_eq!(style.bg.map(|c| c.termcolor()), Some(Color::Ansi256(17)));
    assert!(style.bold && style.underline && style.intense);
    assert_eq!(s.len(), 0);

    let s = s.bold(false).unwrap().add_item("x").add_item(span());
    assert!(!s.style().bold);
    assert!(s.style().underline);
    assert_eq!(s.len(), 2);
}

#[test]
fn a_new_span_has_no_style() {
    let style = span().style();
    let plain = Style::plain();
    assert!(style.fg.is_none() && plain.fg.is_none());
    assert!(style.bg.is_none());
    assert!(!style.bold && !style.underline && !style.intense);
}

#[test]
fn every_error_shows_its_message() {
    assert_eq!(Error::Io(String::from("a")).message(), "IO error: a");
    assert_eq!(Error::ParseColorError(String::from("b")).message(), "b");
    assert_eq!(Error::Json(String::from("c")).message(), "Json error: c");
    assert_eq!(Error::worker_error(String::from("d")).message(), "Worker error: d");
    assert_eq!(Error::sync_error(String::from("e")).message(), "Error syncing output");
    assert_eq!(
        Error::channel_error(String::from("f")).message(),
        "Error sending data to channel"
    );
    assert_eq!(Error::SetLoggerError(String::from("g")).message(), "g");
    assert_eq!(Error::sync_error(String::from("e")).kind(), ErrorKind::Sync);
    assert_eq!(Error::SetLoggerError(String::from("g")).kind(), ErrorKind::SetLogger);
    assert_eq!(Error::Json(String::from("c")).kind(), ErrorKind::Json);
}
