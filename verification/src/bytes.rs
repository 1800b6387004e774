//! The three leaf parsers, taken from `nom`.  Each is called on a byte slice
//! and hands back plain values; what it promises is read off nom's source
//! and is not proved here.
use vstd::prelude::*;

verus! {

/// `nom::bytes::complete::take` on a byte slice.  Where at least `count`
/// bytes are left it splits the input after `count` bytes and returns the
/// tail and the head, in this order; where fewer are left it fails.
#[verifier::external_body]
pub(crate) fn take<'a>(count: usize, input: &'a [u8]) -> (r: Option<(&'a [u8], &'a [u8])>)
    ensures
        r is Some <==> count <= input@.len(),
        r matches Some(p) ==> p.0@ == input@.skip(count as int) && p.1@ == input@.take(count as int),
{
    let r: nom::IResult<&[u8], &[u8]> = nom::bytes::complete::take(count)(input);
    r.ok()
}

/// `nom::bytes::complete::tag` on byte slices.  Where the input starts with
/// the bytes of `sentinel` it splits the input after them and returns the
/// tail and the matched head; otherwise, and also where the input is shorter
/// than the sentinel, it fails.
#[verifier::external_body]
pub(crate) fn tag<'a>(sentinel: &[u8], input: &'a [u8]) -> (r: Option<(&'a [u8], &'a [u8])>)
    ensures
        r is Some <==> sentinel@.is_prefix_of(input@),
        r matches Some(p) ==> p.0@ == input@.skip(sentinel@.len() as int) && p.1@ == sentinel@,
{
    let r: nom::IResult<&[u8], &[u8]> = nom::bytes::complete::tag(sentinel)(input);
    r.ok()
}

/// `nom::number::complete::be_u16` on a byte slice.  Where at least two
/// bytes are left it returns the tail after them and the number they spell,
/// first byte high; where fewer are left it fails.
#[verifier::external_body]
pub(crate) fn be_u16<'a>(input: &'a [u8]) -> (r: Option<(&'a [u8], u16)>)
    ensures
        r is Some <==> input@.len() >= 2,
        r matches Some(p) ==> p.0@ == input@.skip(2) && p.1 == input@[0] * 256 + input@[1],
{
    let r: nom::IResult<&[u8], u16> = nom::number::complete::be_u16(input);
    r.ok()
}

} // verus!
