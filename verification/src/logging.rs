//! Log messages as components: a coloured level, where the message comes
//! from, and the message; as JSON, one object with the three.

use vstd::prelude::*;
use vstd::utf8::encode_utf8;
use crate::components::span::{record, span, Record};
use crate::components::text::text;
use crate::components::tree::Tree;
use crate::error::Error;
use crate::human;
use crate::json;
use crate::json::{encode_json_string, json_text};
use crate::style::{parsed_color, Paint, Style};
use crate::Render;

verus! {

/// How grave a log message is, from the gravest to the most verbose.
#[derive(Clone, Copy, Debug, PartialEq, Eq, Structural)]
pub enum Level {
    Error,
    Warn,
    Info,
    Debug,
    Trace,
}

impl Level {
    /// The place of the level in the order from the gravest, 1, to the most
    /// verbose, 5.
    pub open spec fn spec_rank(self) -> int {
        match self {
            Level::Error => 1,
            Level::Warn => 2,
            Level::Info => 3,
            Level::Debug => 4,
            Level::Trace => 5,
        }
    }

    /// The name of the level in a JSON record.
    pub open spec fn spec_name(self) -> Seq<char> {
        match self {
            Level::Error => "ERROR"@,
            Level::Warn => "WARN"@,
            Level::Info => "INFO"@,
            Level::Debug => "DEBUG"@,
            Level::Trace => "TRACE"@,
        }
    }

    /// The label of the level as shown to people.
    pub open spec fn spec_label(self) -> Seq<char> {
        match self {
            Level::Error => "ERROR"@,
            Level::Warn => "WARN "@,
            Level::Info => "INFO "@,
            Level::Debug => "DEBUG "@,
            Level::Trace => "DEBUG  "@,
        }
    }

    /// The name of the colour in which the label is shown.
    pub open spec fn spec_color(self) -> Seq<char> {
        match self {
            Level::Error => "red"@,
            Level::Warn => "yellow"@,
            Level::Info => "blue"@,
            Level::Debug => "cyan"@,
            Level::Trace => "white"@,
        }
    }

    /// The place of the level in the order from the gravest, 1, to the most
    /// verbose, 5.
    pub fn rank(self) -> (r: u8)
        ensures
            r == self.spec_rank(),
    {
        match self {
            Level::Error => 1,
            Level::Warn => 2,
            Level::Info => 3,
            Level::Debug => 4,
            Level::Trace => 5,
        }
    }

    /// The name of the level in a JSON record.
    pub fn name(self) -> (s: &'static str)
        ensures
            s@ == self.spec_name(),
    {
        match self {
            Level::Error => "ERROR",
            Level::Warn => "WARN",
            Level::Info => "INFO",
            Level::Debug => "DEBUG",
            Level::Trace => "TRACE",
        }
    }

    /// The label of the level as shown to people.
    pub fn label(self) -> (s: &'static str)
        ensures
            s@ == self.spec_label(),
    {
        match self {
            Level::Error => "ERROR",
            Level::Warn => "WARN ",
            Level::Info => "INFO ",
            Level::Debug => "DEBUG ",
            Level::Trace => "DEBUG  ",
        }
    }

    /// The name of the colour in which the label is shown.
    pub fn color(self) -> (s: &'static str)
        ensures
            s@ == self.spec_color(),
    {
        match self {
            Level::Error => "red",
            Level::Warn => "yellow",
            Level::Info => "blue",
            Level::Debug => "cyan",
            Level::Trace => "white",
        }
    }

    /// Whether a message of this level is let through where `max` is the
    /// most verbose level that is: one that is no more verbose than `max`.
    /// With no level set, none is.
    pub fn enabled(self, max: Option<Level>) -> (yes: bool)
        ensures
            yes == (max matches Some(m) && self.spec_rank() <= m.spec_rank()),
    {
        match max {
            Some(m) => self.rank() <= m.rank(),
            None => false,
        }
    }
}

/// The plain style with a foreground colour.
pub open spec fn colored(color: Paint) -> Style {
    Style { fg: Some(color), ..Style::spec_plain() }
}

/// A span without style over some components.
pub open spec fn group(children: Seq<Tree>) -> Tree {
    Tree::Span { style: Style::spec_plain(), children }
}

/// How the origin of a message is shown: its path in angle brackets, or a
/// colon where there is none.
pub open spec fn origin(path: Seq<char>) -> Tree {
    if path.len() == 0 {
        group(seq![Tree::Text(": "@)])
    } else {
        group(seq![Tree::Text(" <"@), Tree::Text(path), Tree::Text("> "@)])
    }
}

/// A log message as JSON: an object of its level, path and message.
pub open spec fn log_json(level: Level, path: Seq<char>, message: Seq<char>) -> Seq<u8> {
    encode_utf8("{\"level\":"@) + json_text(level.spec_name()) + encode_utf8(",\"path\":"@)
        + json_text(path) + encode_utf8(",\"message\":"@) + json_text(message) + encode_utf8(
        "}"@,
    )
}

/// The component of a log message whose label is shown in `color`.
pub open spec fn log_tree(
    level: Level,
    color: Paint,
    path: Seq<char>,
    message: Seq<char>,
) -> Tree {
    Tree::Record {
        shown: Box::new(
            group(
                seq![
                    Tree::Span {
                        style: colored(color),
                        children: seq![Tree::Text(level.spec_label())],
                    },
                    origin(path),
                    Tree::Text(message),
                ],
            ),
        ),
        json: log_json(level, path, message),
    }
}

/// A log message, ready to be printed.
pub struct LogMessage {
    record: Record,
}

impl LogMessage {
    /// The log message of that level, origin and text.
    ///
    /// Fails with a colour-parse error where the colour of the level is not
    /// understood.
    pub fn new(level: Level, path: &str, message: &str) -> (r: Result<LogMessage, Error>)
        ensures
            parsed_color(level.spec_color()) matches Some(c) ==> (r matches Ok(m) && m.tree()
                == log_tree(level, c, path@, message@)),
            parsed_color(level.spec_color()) is None ==> r matches Err(Error::ParseColorError(_)),
    {
        let label = match span().add_item(text(level.label())).fg(level.color()) {
            Ok(label) => label,
            Err(e) => {
                return Err(e);
            },
        };
        let ghost color = parsed_color(level.spec_color())->0;
        proof {
            assert(label@->children =~= seq![Tree::Text(level.spec_label())]);
            assert(label@ == (Tree::Span {
                style: colored(color),
                children: seq![Tree::Text(level.spec_label())],
            }));
        }
        let from = if path.unicode_len() == 0 {
            let from = span().add_item(text(": "));
            proof {
                assert(from@->children =~= seq![Tree::Text(": "@)]);
            }
            from
        } else {
            let from = span().add_item(text(" <")).add_item(text(path)).add_item(text("> "));
            proof {
                assert(from@->children =~= seq![
                    Tree::Text(" <"@),
                    Tree::Text(path@),
                    Tree::Text("> "@),
                ]);
            }
            from
        };
        assert(from@ == origin(path@));
        let shown = span().add_item(label).add_item(from).add_item(text(message));
        proof {
            assert(shown@->children =~= seq![label@, from@, Tree::Text(message@)]);
        }
        let mut json = "{\"level\":".as_bytes_vec();
        let mut level_text = encode_json_string(level.name());
        json.append(&mut level_text);
        let mut path_key = ",\"path\":".as_bytes_vec();
        json.append(&mut path_key);
        let mut path_text = encode_json_string(path);
        json.append(&mut path_text);
        let mut message_key = ",\"message\":".as_bytes_vec();
        json.append(&mut message_key);
        let mut message_text = encode_json_string(message);
        json.append(&mut message_text);
        let mut end = "}".as_bytes_vec();
        json.append(&mut end);
        assert(json@ =~= log_json(level, path@, message@));
        Ok(LogMessage { record: record(shown, json) })
    }
}

impl Render for LogMessage {
    closed spec fn tree(&self) -> Tree {
        self.record@
    }

    fn render_for_humans(&self, fmt: &mut human::Formatter) -> (r: Result<(), Error>) {
        self.record.render_for_humans(fmt)
    }

    fn render_json(&self, fmt: &mut json::Formatter) -> (r: Result<(), Error>) {
        self.record.render_json(fmt)
    }
}

} // verus!
