//! Colours and text styles.
//!
//! A colour is `termcolor`'s own value, carried from the place where its name
//! is read to the sink that turns it into escape codes; nothing here looks
//! inside it. It is made from a name and in no other way, so every colour is
//! one that `termcolor` itself has given out.

use vstd::prelude::*;
use crate::error::Error;

verus! {

/// `termcolor::Color`. Nothing is known of a colour but the name that it
/// was read from.
#[verifier::external_type_specification]
#[verifier::external_body]
pub struct ExColor(termcolor::Color);

/// A colour, as `termcolor` read it from a name.
#[derive(Clone, Copy, Debug)]
pub struct Paint(termcolor::Color);

impl Paint {
    /// The colour as `termcolor` holds it.
    pub closed spec fn raw(self) -> termcolor::Color {
        self.0
    }

    /// The colour as `termcolor` holds it.
    pub fn termcolor(self) -> (c: termcolor::Color)
        ensures
            c == self.raw(),
    {
        self.0
    }
}

/// Everything a sink is told in one style-set call.
#[derive(Clone, Copy, Debug)]
pub struct Style {
    pub fg: Option<Paint>,
    pub bg: Option<Paint>,
    pub bold: bool,
    pub underline: bool,
    pub intense: bool,
}

/// What `termcolor` makes of a colour name: the colour, or `None` where it
/// rejects the name.
pub uninterp spec fn parsed_color(name: Seq<char>) -> Option<Paint>;

/// Reads a colour name with `termcolor`'s `Color::from_str`.
///
/// Trusted: whether the name is accepted, and as which colour, depends on the
/// name alone. A rejected name comes back as the text of `termcolor`'s error.
#[verifier::external_body]
fn parse_with_termcolor(name: &str) -> (r: Result<Paint, String>)
    ensures
        r is Ok <==> parsed_color(name@) is Some,
        r matches Ok(c) ==> parsed_color(name@) == Some(c),
{
    match name.parse::<termcolor::Color>() {
        Ok(color) => Ok(Paint(color)),
        Err(e) => Err(e.to_string()),
    }
}

/// Reads a colour from its name.
///
/// Succeeds exactly on the names that `termcolor` understands, and fails
/// with a colour-parse error on every other.
pub fn parse_color(name: &str) -> (r: Result<Paint, Error>)
    ensures
        match parsed_color(name@) {
            Some(c) => r == Ok::<Paint, Error>(c),
            None => r matches Err(Error::ParseColorError(_)),
        },
{
    match parse_with_termcolor(name) {
        Ok(c) => Ok(c),
        Err(detail) => Err(Error::ParseColorError(detail)),
    }
}

impl Style {
    /// The style that sets nothing.
    pub open spec fn spec_plain() -> Style {
        Style { fg: None, bg: None, bold: false, underline: false, intense: false }
    }

    /// The style that sets nothing.
    pub fn plain() -> (s: Style)
        ensures
            s == Style::spec_plain(),
    {
        Style { fg: None, bg: None, bold: false, underline: false, intense: false }
    }
}

} // verus!
