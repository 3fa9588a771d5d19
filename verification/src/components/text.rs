//! Text: the leaf of every component.

use vstd::prelude::*;
use vstd::string::StringExecFns;
use crate::components::tree::{human_form, json_form, Tree};
use crate::error::Error;
use crate::human;
use crate::json;
use crate::Render;

verus! {

/// Some text, fixed once it is made.
#[derive(Clone, Debug)]
pub struct Text(String);

impl View for Text {
    type V = Seq<char>;

    closed spec fn view(&self) -> Seq<char> {
        self.0@
    }
}

/// The text of `input`.
pub fn text(input: &str) -> (t: Text)
    ensures
        t@ == input@,
{
    Text(String::from_str(input))
}

/// A line feed, as text.
pub fn newline() -> (t: Text)
    ensures
        t@ == "\n"@,
{
    text("\n")
}

impl Text {
    /// The text as a string slice.
    pub fn as_str(&self) -> (s: &str)
        ensures
            s@ == self@,
    {
        self.0.as_str()
    }
}

impl Render for Text {
    open spec fn tree(&self) -> Tree {
        Tree::Text(self@)
    }

    fn render_for_humans(&self, fmt: &mut human::Formatter) -> (r: Result<(), Error>) {
        proof {
            human::lemma_sent_one(old(fmt)@, human_form(self.tree()));
        }
        fmt.write(self.0.as_str().as_bytes_vec())
    }

    fn render_json(&self, fmt: &mut json::Formatter) -> (r: Result<(), Error>) {
        proof {
            json::lemma_sent_one(old(fmt)@, json_form(self.tree()));
        }
        fmt.write(self.0.as_str())
    }
}

} // verus!
