//! Components to build output from.

pub mod span;
pub mod text;
pub mod tree;

pub use self::span::{record, span, IntoNode, Node, Record, Span};
pub use self::text::{newline, text, Text};
pub use self::tree::Tree;
