//! A renderable sequence of codes.
use crate::render::{debug, display};
use crate::text::{chars_of, debug_text, escape};
use vstd::prelude::*;

verus! {

/// A container that holds an ordered list of codes.
pub trait AsCodes {
    /// The codes held, in order.
    spec fn codes(&self) -> Seq<u8>;

    /// The codes held, as a plain list.
    fn as_codes(&self) -> (out: &[u8])
        ensures
            out@ == self.codes(),
    ;
}

impl<const N: usize> AsCodes for [u8; N] {
    open spec fn codes(&self) -> Seq<u8> {
        self@
    }

    fn as_codes(&self) -> (out: &[u8]) {
        self.as_slice()
    }
}

impl<'a> AsCodes for &'a [u8] {
    open spec fn codes(&self) -> Seq<u8> {
        (*self)@
    }

    fn as_codes(&self) -> (out: &[u8]) {
        *self
    }
}

impl AsCodes for Vec<u8> {
    open spec fn codes(&self) -> Seq<u8> {
        self@
    }

    fn as_codes(&self) -> (out: &[u8]) {
        self.as_slice()
    }
}

/// An ordered sequence of codes, rendered as one escape sequence.
///
/// The order is the order of the parameters in the text. Nothing is
/// removed, reordered, or checked for making sense to a terminal.
pub struct Print<T: AsCodes> {
    pub codes: T,
}

impl<T: AsCodes> View for Print<T> {
    type V = Seq<u8>;

    open spec fn view(&self) -> Seq<u8> {
        self.codes.codes()
    }
}

/// Capacity of the buffer in which [`Print::to_string`] renders.
pub const TEXT_CAPACITY: usize = 64;

impl<T: AsCodes> Print<T> {
    /// The same sequence over a plain list of codes, whatever the
    /// container and however many codes it holds.
    pub fn erase<'a>(&'a self) -> (plain: Print<&'a [u8]>)
        ensures
            plain@ == self@,
    {
        Print { codes: self.codes.as_codes() }
    }

    /// Renders the sequence as escape text at the start of `buf`.
    ///
    /// No codes give the empty text. Returns `None`, and leaves `buf` as
    /// it was, when the text is longer than `buf`.
    pub fn display<'b>(&self, buf: &'b mut [u8]) -> (res: Option<&'b str>)
        ensures
            res is Some <==> escape(self@).len() <= old(buf)@.len(),
            res matches Some(s) ==> s@ == chars_of(escape(self@)),
            res is Some ==> final(buf)@ == escape(self@) + old(buf)@.skip(
                escape(self@).len() as int,
            ),
            res is None ==> final(buf)@ == old(buf)@,
    {
        display(self.codes.as_codes(), buf)
    }

    /// The escape text of the sequence, rendered in a buffer of
    /// [`TEXT_CAPACITY`] bytes: `None` when the text is longer than that.
    pub fn to_string(&self) -> (res: Option<String>)
        ensures
            res is Some <==> escape(self@).len() <= TEXT_CAPACITY,
            res matches Some(s) ==> s@ == chars_of(escape(self@)),
    {
        let mut buf: [u8; 64] = [0u8; 64];
        match display(self.codes.as_codes(), &mut buf) {
            Some(s) => Some(s.to_owned()),
            None => None,
        }
    }

    /// The diagnostic text of the sequence.
    pub fn debug(&self) -> (s: String)
        ensures
            s@ == chars_of(debug_text(self@)),
    {
        debug(self.codes.as_codes())
    }
}

} // verus!
