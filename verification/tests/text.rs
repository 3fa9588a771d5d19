use convey::components::{newline, span, text};
use convey::fmt::TerminalFormatter;
use convey::style::{parse_color, Style};
use convey::{human, Render};
use std::io::Write;

fn rendered(s: &str) -> String {
    let mut fmt = human::test().formatter();
    text(s).render_for_humans(&mut fmt).unwrap();
    fmt.join().to_string()
}

#[test]
fn renders_text_exactly() {
    for s in ["a", "", "hello world", "tab\there", "ümlaut ✓ 🎉", "\"quoted\"", "line\nbreak"] {
        assert_eq!(rendered(s), s);
    }
}

#[test]
fn write_text() {
    let mut fmt = human::test().formatter();
    text("foo").render_for_humans(&mut fmt).unwrap();
    assert_eq!(fmt.join().contents(), b"foo");
}

#[test]
fn write_color() {
    let mut fmt = human::test_with_color().formatter();
    let x = span().add_item(text("foo")).fg("blue").unwrap();
    x.render_for_humans(&mut fmt).unwrap();
    assert_eq!(
        fmt.join().contents(),
        "\u{1b}[0m\u{1b}[34mfoo\u{1b}[0m".as_bytes()
    );
}

#[test]
fn newline_is_a_line_feed() {
    assert_eq!(newline().as_str(), "\n");
    assert_eq!(rendered("\n"), "\n");
}

#[test]
fn strings_render_as_their_text() {
    let mut fmt = human::test().formatter();
    "slice".render_for_humans(&mut fmt).unwrap();
    String::from(" owned").render_for_humans(&mut fmt).unwrap();
    (&text(" by reference")).render_for_humans(&mut fmt).unwrap();
    assert_eq!(fmt.join().to_string(), "slice owned by reference");
}

#[test]
fn sink_keeps_bytes_in_order() {
    let mut sink = TerminalFormatter::no_color();
    assert_eq!(sink.write(b"ab").unwrap(), 2);
    assert_eq!(sink.write(b"").unwrap(), 0);
    assert_eq!(sink.write(b"c").unwrap(), 1);
    sink.flush().unwrap();
    assert_eq!(sink.contents(), b"abc");
    assert_eq!(sink.to_string(), "abc");
}

#[test]
fn sink_without_color_drops_styles() {
    let mut sink = TerminalFormatter::no_color();
    let mut style = Style::plain();
    style.bold = true;
    sink.set_color(&style).unwrap();
    sink.write(b"x").unwrap();
    sink.reset().unwrap();
    assert_eq!(sink.contents(), b"x");
}

#[test]
fn sink_with_color_writes_escapes() {
    let mut sink = TerminalFormatter::ansi();
    let mut style = Style::plain();
    style.underline = true;
    style.fg = Some(parse_color("red").unwrap());
    sink.set_color(&style).unwrap();
    sink.write(b"x").unwrap();
    sink.reset().unwrap();
    assert_eq!(sink.contents(), b"\x1b[0m\x1b[4m\x1b[31mx\x1b[0m");
}

#[test]
fn sink_over_a_buffer_that_holds_bytes() {
    let mut buffer = termcolor::Buffer::no_color();
    buffer.write_all(b"before ").unwrap();
    let mut sink = TerminalFormatter::new(buffer);
    assert!(!sink.supports_color());
    sink.color(true);
    assert!(sink.supports_color());
    sink.write(b"after").unwrap();
    assert_eq!(sink.to_string(), "before after");
}

#[test]
fn lossy_text_replaces_invalid_bytes() {
    let mut sink = TerminalFormatter::no_color();
    sink.write(&[b'a', 0xFF, b'b']).unwrap();
    assert_eq!(sink.to_string(), "a\u{FFFD}b");
}
