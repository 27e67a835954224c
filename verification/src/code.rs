//! A single graphics code.
use crate::render::{debug, display};
use crate::text::{chars_of, debug_text, escape, lemma_escape_shape};
use vstd::prelude::*;

verus! {

/// One graphics parameter: a number from 0 to 255 that a terminal reads as
/// an attribute, a color, a selector, or a component of a color.
///
/// A code is nothing but its number: two codes are equal exactly when
/// their numbers are.
#[derive(Copy, Clone, PartialEq, Eq, Structural)]
pub struct Code {
    pub byte: u8,
}

impl Code {
    /// The code with the number `byte`.
    pub fn new(byte: u8) -> (code: Code)
        ensures
            code.byte == byte,
    {
        Code { byte }
    }

    /// Renders this code alone as escape text at the start of `buf`.
    ///
    /// Returns `None`, and leaves `buf` as it was, when the text is longer
    /// than `buf`; six bytes hold any single code.
    pub fn display<'a>(&self, buf: &'a mut [u8]) -> (res: Option<&'a str>)
        ensures
            res is Some <==> escape(seq![self.byte]).len() <= old(buf)@.len(),
            res matches Some(s) ==> s@ == chars_of(escape(seq![self.byte])),
            res is Some ==> final(buf)@ == escape(seq![self.byte]) + old(buf)@.skip(
                escape(seq![self.byte]).len() as int,
            ),
            res is None ==> final(buf)@ == old(buf)@,
    {
        let codes: [u8; 1] = [self.byte];
        assert(codes@ =~= seq![self.byte]);
        display(&codes, buf)
    }

    /// The escape text of this code alone, `ESC [ <number> m`.
    pub fn to_string(&self) -> (s: String)
        ensures
            s@ == chars_of(escape(seq![self.byte])),
    {
        let mut buf: [u8; 8] = [0u8; 8];
        proof {
            lemma_escape_shape(seq![self.byte]);
        }
        self.display(&mut buf).unwrap().to_owned()
    }

    /// The diagnostic text of this code alone, `"\x1b[<number>m"` with the
    /// quotes and the backslash as printable characters.
    pub fn debug(&self) -> (s: String)
        ensures
            s@ == chars_of(debug_text(seq![self.byte])),
    {
        let codes: [u8; 1] = [self.byte];
        assert(codes@ =~= seq![self.byte]);
        debug(&codes)
    }
}

} // verus!
