//! Why a decode failed, and where.
use vstd::prelude::*;

verus! {

/// The three ways in which a field can fail to decode.
#[derive(Debug, Clone, Copy, PartialEq, Eq, Structural)]
pub enum DecodeErrorKind {
    /// Fewer bytes are left than the field needs.
    Eof,
    /// A recognition sentinel is not where the format puts it.
    Tag,
    /// A decimal field holds a byte that is no digit, or a number too large
    /// for the integer it is decoded into.
    Digit,
}

/// A failure of a decoder.  Decoding is all or nothing: the first field that
/// fails ends the whole decode with this value.
#[derive(Debug, Clone, Copy, PartialEq, Eq, Structural)]
pub struct DecodeError {
    /// What went wrong.
    pub kind: DecodeErrorKind,
    /// How many bytes of the input were still unread where the failing field
    /// starts.  Counted from the end, it names the same place for a decoder
    /// and for every decoder that called it.
    pub remaining: usize,
}

/// A failure as a mathematical value.
pub struct Failure {
    /// What went wrong.
    pub kind: DecodeErrorKind,
    /// How many bytes were still unread where the failing field starts.
    pub remaining: nat,
}

impl Failure {
    /// The failure of the given kind at a field that starts where `tail`
    /// starts.
    pub open spec fn at(kind: DecodeErrorKind, tail: Seq<u8>) -> Failure {
        Failure { kind, remaining: tail.len() }
    }
}

impl View for DecodeError {
    type V = Failure;

    open spec fn view(&self) -> Failure {
        Failure { kind: self.kind, remaining: self.remaining as nat }
    }
}

impl DecodeError {
    /// Offset of the failing field from the start of an input of `input_len`
    /// bytes; zero where the input is shorter than what was left unread.
    pub fn offset(&self, input_len: usize) -> (r: usize)
        ensures
            r == if self.remaining <= input_len {
                input_len - self.remaining
            } else {
                0
            },
    {
        if self.remaining <= input_len {
            input_len - self.remaining
        } else {
            0
        }
    }
}

} // verus!
