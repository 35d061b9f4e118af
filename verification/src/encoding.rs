//! Raw escape-sequence payloads, as handed around between the input
//! decoder and the terminal layer.

use vstd::prelude::*;

verus! {

/// The text a byte string decodes to, replacing invalid sequences;
/// the result depends on the bytes alone.
pub uninterp spec fn utf8_lossy_of(bytes: Seq<u8>) -> Seq<char>;

/// Relies on `alloc::string::String::from_utf8_lossy`: decodes the
/// bytes, substituting the replacement character where they are not
/// valid UTF-8.
#[verifier::external_body]
fn utf8_lossy(bytes: &[u8]) -> (r: String)
    ensures
        r@ == utf8_lossy_of(bytes@),
{
    String::from_utf8_lossy(bytes).to_string()
}

/// The payload of a control sequence (CSI): the bytes between the
/// introducer and the final byte, final byte included.
#[derive(Debug)]
pub struct CsiSequence {
    content: Vec<u8>,
}

impl View for CsiSequence {
    type V = Seq<u8>;

    closed spec fn view(&self) -> Seq<u8> {
        self.content@
    }
}

impl CsiSequence {
    pub fn new(content: Vec<u8>) -> (r: Self)
        ensures
            r@ == content@,
    {
        CsiSequence { content }
    }

    pub fn content(&self) -> (r: &[u8])
        ensures
            r@ == self@,
    {
        self.content.as_slice()
    }

    pub fn content_as_string(&self) -> (r: String)
        ensures
            r@ == utf8_lossy_of(self@),
    {
        utf8_lossy(self.content.as_slice())
    }
}

/// The payload of an operating-system command (OSC).
#[derive(Debug)]
pub struct OscSequence {
    content: Vec<u8>,
}

impl View for OscSequence {
    type V = Seq<u8>;

    closed spec fn view(&self) -> Seq<u8> {
        self.content@
    }
}

impl OscSequence {
    pub fn new(content: Vec<u8>) -> (r: Self)
        ensures
            r@ == content@,
    {
        OscSequence { content }
    }

    pub fn content(&self) -> (r: &[u8])
        ensures
            r@ == self@,
    {
        self.content.as_slice()
    }

    pub fn content_as_string(&self) -> (r: String)
        ensures
            r@ == utf8_lossy_of(self@),
    {
        utf8_lossy(self.content.as_slice())
    }
}

/// One unit of terminal input: plain text, a control sequence, or an
/// operating-system command.
#[derive(Debug)]
pub enum TerminalCommand {
    Text(String),
    Csi(CsiSequence),
    Osc(OscSequence),
}

impl TerminalCommand {
    pub fn string(string: String) -> (r: Self)
        ensures
            r matches TerminalCommand::Text(s) && s@ == string@,
    {
        TerminalCommand::Text(string)
    }

    pub fn csi(csi_sequence: CsiSequence) -> (r: Self)
        ensures
            r matches TerminalCommand::Csi(c) && c@ == csi_sequence@,
    {
        TerminalCommand::Csi(csi_sequence)
    }

    pub fn osc(osc_sequence: OscSequence) -> (r: Self)
        ensures
            r matches TerminalCommand::Osc(o) && o@ == osc_sequence@,
    {
        TerminalCommand::Osc(osc_sequence)
    }
}

} // verus!
