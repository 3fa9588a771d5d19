use convey::logging::{Level, LogMessage};
use convey::{human, json, Error};

fn shown(level: Level, path: &str, message: &str) -> Result<(String, String), Error> {
    let mut out = convey::new()
        .add_target(human::test_with_color().target())?
        .add_target(json::test().target())?;
    out.print(LogMessage::new(level, path, message)?)?;
    out.flush()?;
    Ok((out.target(0).to_string(), out.target(1).to_string()))
}

#[test]
fn a_log_message_with_a_path() -> Result<(), Error> {
    let (people, machines) = shown(Level::Info, "app::net", "welcome")?;
    assert_eq!(
        people,
        "\u{1b}[0m\u{1b}[0m\u{1b}[34mINFO \u{1b}[0m\u{1b}[0m <app::net> \u{1b}[0mwelcome\u{1b}[0m\n"
    );
    assert_eq!(
        machines,
        "{\"level\":\"INFO\",\"path\":\"app::net\",\"message\":\"welcome\"}\n"
    );
    Ok(())
}

#[test]
fn a_log_message_without_a_path() -> Result<(), Error> {
    let (people, machines) = shown(Level::Error, "", "oh \"noes\"")?;
    assert_eq!(
        people,
        "\u{1b}[0m\u{1b}[0m\u{1b}[31mERROR\u{1b}[0m\u{1b}[0m: \u{1b}[0moh \"noes\"\u{1b}[0m\n"
    );
    assert_eq!(
        machines,
        "{\"level\":\"ERROR\",\"path\":\"\",\"message\":\"oh \\\"noes\\\"\"}\n"
    );
    let read: serde_json::Value = serde_json::from_str(machines.trim_end()).unwrap();
    assert_eq!(read["message"], "oh \"noes\"");
    Ok(())
}

#[test]
fn every_level_has_its_label_and_color() -> Result<(), Error> {
    let cases = [
        (Level::Error, "ERROR", "31", "ERROR"),
        (Level::Warn, "WARN ", "33", "WARN"),
        (Level::Info, "INFO ", "34", "INFO"),
        (Level::Debug, "DEBUG ", "36", "DEBUG"),
        (Level::Trace, "DEBUG  ", "37", "TRACE"),
    ];
    for (level, label, code, name) in cases {
        assert_eq!(level.label(), label);
        assert_eq!(level.name(), name);
        let (people, machines) = shown(level, "", "m")?;
        assert!(people.contains(&format!("\u{1b}[{}m{}\u{1b}[0m", code, label)));
        assert!(machines.starts_with(&format!("{{\"level\":\"{}\"", name)));
    }
    Ok(())
}

#[test]
fn levels_are_let_through_up_to_the_most_verbose() {
    assert!(Level::Error.enabled(Some(Level::Error)));
    assert!(Level::Info.enabled(Some(Level::Debug)));
    assert!(Level::Debug.enabled(Some(Level::Debug)));
    assert!(!Level::Trace.enabled(Some(Level::Debug)));
    assert!(!Level::Warn.enabled(Some(Level::Error)));
    assert!(!Level::Error.enabled(None));
    assert_eq!(Level::Error.rank(), 1);
    assert_eq!(Level::Trace.rank(), 5);
    assert_eq!(Level::Warn.color(), "yellow");
}
