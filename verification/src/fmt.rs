//! The styled-text sink: an in-memory `termcolor` buffer and what reaches it.

use vstd::prelude::*;
use crate::style::Style;
use std::io::Write;
use termcolor::WriteColor;

verus! {

/// `termcolor::Buffer`, a buffer in memory. Nothing is known of it but what
/// the functions below say.
#[verifier::external_type_specification]
#[verifier::external_body]
pub struct ExBuffer(termcolor::Buffer);

/// The bytes that a buffer holds.
pub uninterp spec fn buffer_bytes(buffer: termcolor::Buffer) -> Seq<u8>;

/// Whether a buffer writes styles into its bytes, as ANSI escape codes.
pub uninterp spec fn buffer_is_ansi(buffer: termcolor::Buffer) -> bool;

/// The escape codes with which an ANSI buffer announces a style.
pub uninterp spec fn style_escape(style: Style) -> Seq<u8>;

/// The escape code that clears every style: `ESC [ 0 m`.
pub open spec fn reset_escape() -> Seq<u8> {
    seq![0x1Bu8, 0x5Bu8, 0x30u8, 0x6Du8]
}

/// What a style-set call appends to a buffer.
pub open spec fn style_bytes(ansi: bool, style: Style) -> Seq<u8> {
    if ansi {
        style_escape(style)
    } else {
        Seq::empty()
    }
}

/// What a reset call appends to a buffer.
pub open spec fn reset_bytes(ansi: bool) -> Seq<u8> {
    if ansi {
        reset_escape()
    } else {
        Seq::empty()
    }
}

/// `termcolor::Buffer::no_color`: an empty buffer that drops styles.
#[verifier::external_body]
fn buffer_no_color() -> (b: termcolor::Buffer)
    ensures
        buffer_bytes(b) == Seq::<u8>::empty(),
        !buffer_is_ansi(b),
{
    termcolor::Buffer::no_color()
}

/// `termcolor::Buffer::ansi`: an empty buffer that writes styles as ANSI
/// escape codes.
#[verifier::external_body]
fn buffer_ansi() -> (b: termcolor::Buffer)
    ensures
        buffer_bytes(b) == Seq::<u8>::empty(),
        buffer_is_ansi(b),
{
    termcolor::Buffer::ansi()
}

/// `Write::write_all` on a buffer: the bytes are appended, all of them; a
/// buffer in memory does not fail.
#[verifier::external_body]
fn buffer_write_all(buffer: &mut termcolor::Buffer, data: &[u8])
    ensures
        buffer_bytes(*final(buffer)) == buffer_bytes(*old(buffer)) + data@,
        buffer_is_ansi(*final(buffer)) == buffer_is_ansi(*old(buffer)),
{
    let _ = buffer.write_all(data);
}

/// `Write::flush` on a buffer: nothing changes, since nothing is held back.
#[verifier::external_body]
fn buffer_flush(buffer: &mut termcolor::Buffer)
    ensures
        *final(buffer) == *old(buffer),
{
    let _ = buffer.flush();
}

/// `WriteColor::set_color` on a buffer, with a `ColorSpec` made of the
/// style's five settings: an ANSI buffer appends the escape codes of the
/// style, which depend on the style alone; any other appends nothing. The
/// colours of a style are ones that `termcolor` has read from a name, which
/// are the ones that it can write.
#[verifier::external_body]
fn buffer_set_color(buffer: &mut termcolor::Buffer, style: &Style)
    ensures
        buffer_is_ansi(*old(buffer)) ==> buffer_bytes(*final(buffer)) == buffer_bytes(
            *old(buffer),
        ) + style_escape(*style),
        !buffer_is_ansi(*old(buffer)) ==> buffer_bytes(*final(buffer)) == buffer_bytes(
            *old(buffer),
        ),
        buffer_is_ansi(*final(buffer)) == buffer_is_ansi(*old(buffer)),
{
    let mut spec = termcolor::ColorSpec::new();
    spec.set_fg(style.fg.map(|c| c.termcolor())).set_bg(style.bg.map(|c| c.termcolor()));
    spec.set_bold(style.bold).set_underline(style.underline).set_intense(style.intense);
    let _ = buffer.set_color(&spec);
}

/// `WriteColor::reset` on a buffer: an ANSI buffer appends `ESC [ 0 m`, any
/// other appends nothing.
#[verifier::external_body]
fn buffer_reset(buffer: &mut termcolor::Buffer)
    ensures
        buffer_bytes(*final(buffer)) == buffer_bytes(*old(buffer)) + reset_bytes(
            buffer_is_ansi(*old(buffer)),
        ),
        buffer_is_ansi(*final(buffer)) == buffer_is_ansi(*old(buffer)),
{
    let _ = buffer.reset();
}

/// `termcolor::Buffer::clear`: the buffer is emptied and stays of its kind.
#[verifier::external_body]
fn buffer_clear(buffer: &mut termcolor::Buffer)
    ensures
        buffer_bytes(*final(buffer)) == Seq::<u8>::empty(),
        buffer_is_ansi(*final(buffer)) == buffer_is_ansi(*old(buffer)),
{
    buffer.clear();
}

/// `termcolor::Buffer::as_slice`, copied out.
#[verifier::external_body]
fn buffer_to_vec(buffer: &termcolor::Buffer) -> (bytes: Vec<u8>)
    ensures
        bytes@ == buffer_bytes(*buffer),
{
    buffer.as_slice().to_vec()
}

/// The text that `String::from_utf8_lossy` makes of some bytes.
pub uninterp spec fn lossy_text(bytes: Seq<u8>) -> Seq<char>;

/// `String::from_utf8_lossy`, as an owned string.
///
/// Trusted: the text depends on the bytes alone, and bytes that are valid
/// UTF-8 give the text that they encode.
#[verifier::external_body]
pub(crate) fn string_from_utf8_lossy(bytes: &[u8]) -> (text: String)
    ensures
        text@ == lossy_text(bytes@),
        vstd::utf8::valid_utf8(bytes@) ==> text@ == vstd::utf8::decode_utf8(bytes@),
{
    String::from_utf8_lossy(bytes).into_owned()
}

/// Why a sink operation failed.
#[derive(Debug)]
pub enum TerminalFormatterError {
    /// The sink reported an I/O failure; the text says which.
    Io(String),
}

/// A sink for styled text.
///
/// It owns its buffer: nothing else writes to it. Every byte written is kept
/// in order, and a style reaches the buffer in one call.
pub struct TerminalFormatter {
    target: termcolor::Buffer,
    supports_color: bool,
}

impl TerminalFormatter {
    /// Every byte that has reached the sink, in order.
    pub closed spec fn bytes(&self) -> Seq<u8> {
        buffer_bytes(self.target)
    }

    /// Whether the sink writes styles as escape codes.
    pub closed spec fn is_ansi(&self) -> bool {
        buffer_is_ansi(self.target)
    }

    /// Whether colour was declared as supported, by [`TerminalFormatter::color`].
    pub closed spec fn color_declared(&self) -> bool {
        self.supports_color
    }

    /// A sink over `target`, with colour not yet declared as supported.
    pub fn new(target: termcolor::Buffer) -> (f: TerminalFormatter)
        ensures
            f.bytes() == buffer_bytes(target),
            f.is_ansi() == buffer_is_ansi(target),
            !f.color_declared(),
    {
        TerminalFormatter { target, supports_color: false }
    }

    /// An empty sink that drops every style.
    pub fn no_color() -> (f: TerminalFormatter)
        ensures
            f.bytes() == Seq::<u8>::empty(),
            !f.is_ansi(),
            !f.color_declared(),
    {
        TerminalFormatter::new(buffer_no_color())
    }

    /// An empty sink that writes styles as ANSI escape codes.
    pub fn ansi() -> (f: TerminalFormatter)
        ensures
            f.bytes() == Seq::<u8>::empty(),
            f.is_ansi(),
            !f.color_declared(),
    {
        TerminalFormatter::new(buffer_ansi())
    }

    /// Declares whether colour is supported.
    pub fn color(&mut self, supported: bool)
        ensures
            final(self).color_declared() == supported,
            final(self).bytes() == old(self).bytes(),
            final(self).is_ansi() == old(self).is_ansi(),
    {
        self.supports_color = supported;
    }

    /// Whether colour was declared as supported.
    pub fn supports_color(&self) -> (yes: bool)
        ensures
            yes == self.color_declared(),
    {
        self.supports_color
    }

    /// Appends `buf` to the sink, whole, and returns its length.
    pub fn write(&mut self, buf: &[u8]) -> (r: Result<usize, TerminalFormatterError>)
        ensures
            r == Ok::<usize, TerminalFormatterError>(buf@.len() as usize),
            final(self).bytes() == old(self).bytes() + buf@,
            final(self).is_ansi() == old(self).is_ansi(),
            final(self).color_declared() == old(self).color_declared(),
    {
        buffer_write_all(&mut self.target, buf);
        Ok(buf.len())
    }

    /// Hands on whatever the sink holds back; an in-memory sink holds nothing
    /// back, so nothing changes.
    pub fn flush(&mut self) -> (r: Result<(), TerminalFormatterError>)
        ensures
            r is Ok,
            *final(self) == *old(self),
    {
        buffer_flush(&mut self.target);
        Ok(())
    }

    /// Tells the sink the whole style in one call.
    pub fn set_color(&mut self, spec: &Style) -> (r: Result<(), TerminalFormatterError>)
        ensures
            r is Ok,
            final(self).bytes() == old(self).bytes() + style_bytes(old(self).is_ansi(), *spec),
            final(self).is_ansi() == old(self).is_ansi(),
            final(self).color_declared() == old(self).color_declared(),
    {
        buffer_set_color(&mut self.target, spec);
        Ok(())
    }

    /// Clears every style.
    pub fn reset(&mut self) -> (r: Result<(), TerminalFormatterError>)
        ensures
            r is Ok,
            final(self).bytes() == old(self).bytes() + reset_bytes(old(self).is_ansi()),
            final(self).is_ansi() == old(self).is_ansi(),
            final(self).color_declared() == old(self).color_declared(),
    {
        buffer_reset(&mut self.target);
        Ok(())
    }

    /// A copy of every byte that has reached the sink.
    pub fn contents(&self) -> (bytes: Vec<u8>)
        ensures
            bytes@ == self.bytes(),
    {
        buffer_to_vec(&self.target)
    }

    /// Takes out every byte that has reached the sink, and leaves it empty.
    pub fn take(&mut self) -> (bytes: Vec<u8>)
        ensures
            bytes@ == old(self).bytes(),
            final(self).bytes() == Seq::<u8>::empty(),
            final(self).is_ansi() == old(self).is_ansi(),
            final(self).color_declared() == old(self).color_declared(),
    {
        let bytes = buffer_to_vec(&self.target);
        buffer_clear(&mut self.target);
        bytes
    }

    /// What has reached the sink, as text.
    pub fn to_string(&self) -> (text: String)
        ensures
            text@ == lossy_text(self.bytes()),
    {
        string_from_utf8_lossy(self.contents().as_slice())
    }
}

} // verus!
