//! Positioned reads: the capability "read N bytes at an absolute offset" of a
//! backing medium, whatever it is made of.

use vstd::prelude::*;

verus! {

/// Declares `std::io::Error`, the error of a failed read, as a type whose
/// values are carried through and never looked into.
#[verifier::external_type_specification]
#[verifier::external_body]
pub struct ExIoError(std::io::Error);

/// Copying a slice. Specifies `<[T]>::copy_from_slice` of std, which copies
/// all of `src` into `dst` and panics unless both have the same length.
pub assume_specification<Item: Copy>[ <[Item]>::copy_from_slice ](dst: &mut [Item], src: &[Item])
    requires
        old(dst)@.len() == src@.len(),
    ensures
        final(dst)@ == src@,
;

/// The error of a read that reaches past the end of the medium. Calls
/// `std::io::Error::from` on `ErrorKind::UnexpectedEof`; nothing is claimed
/// of the value.
#[verifier::external_body]
fn unexpected_eof() -> std::io::Error {
    std::io::Error::from(std::io::ErrorKind::UnexpectedEof)
}

/// A medium that serves reads at absolute offsets.
///
/// An implementation may say which bytes it holds, and that it is faithful to
/// them. Nothing is assumed of one that does not.
pub trait PositionedReader {
    /// The bytes the medium holds.
    open spec fn bytes(&self) -> Seq<u8> {
        Seq::empty()
    }

    /// Whether the medium is faithful to `bytes()`: every read that succeeds
    /// returns those bytes, and the size is their number.
    open spec fn faithful(&self) -> bool {
        false
    }

    /// Whether every read that lies inside the medium succeeds.
    open spec fn never_fails(&self) -> bool {
        false
    }

    /// Fill `buf` with the bytes at `[pos, pos + buf.len())`.
    fn read_exact_at(&self, pos: usize, buf: &mut [u8]) -> (result: Result<(), std::io::Error>)
        ensures
            final(buf)@.len() == old(buf)@.len(),
            self.faithful() && result is Ok ==> pos + old(buf)@.len() <= self.bytes().len()
                && final(buf)@ == self.bytes().subrange(pos as int, pos + old(buf)@.len()),
            self.never_fails() && pos + old(buf)@.len() <= self.bytes().len() ==> result is Ok,
    ;

    /// The number of bytes the medium holds.
    fn size(&self) -> (result: Result<usize, std::io::Error>)
        ensures
            self.faithful() ==> (result matches Ok(size) ==> size == self.bytes().len()),
            self.never_fails() ==> result is Ok,
    ;
}

/// A medium in memory. It is faithful to its content, and its reads fail
/// only past its end.
impl PositionedReader for Vec<u8> {
    open spec fn bytes(&self) -> Seq<u8> {
        self@
    }

    open spec fn faithful(&self) -> bool {
        true
    }

    open spec fn never_fails(&self) -> bool {
        true
    }

    fn read_exact_at(&self, pos: usize, buf: &mut [u8]) -> (result: Result<(), std::io::Error>)
        ensures
            result is Ok <==> pos + old(buf)@.len() <= self@.len(),
            result is Err ==> final(buf)@ == old(buf)@,
    {
        let size = self.len();
        let wanted = buf.len();
        if pos > size || wanted > size - pos {
            return Err(unexpected_eof());
        }
        buf.copy_from_slice(&self[pos..pos + wanted]);
        Ok(())
    }

    fn size(&self) -> (result: Result<usize, std::io::Error>)
        ensures
            result is Ok,
    {
        Ok(self.len())
    }
}

} // verus!
