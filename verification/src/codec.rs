//! The serialization contract: the capabilities every encodable type
//! implements, and the error kinds a decode can surface.
//!
//! Encoding writes into a caller-supplied byte buffer and never fails;
//! decoding reads from a caller-supplied byte slice at a position and
//! reports exactly why it could not produce a value. Each implementation
//! carries a spec-level description of its wire image (`spec_ser`) and of
//! its decoder (`spec_deser`), and the executable methods are proved to
//! follow those descriptions exactly.

use vstd::prelude::*;

verus! {

/// Why a decode failed.
#[derive(Clone, Copy, Debug, PartialEq, Eq, Structural)]
pub enum DeserError {
    /// The stream ended before the requested bytes could be read
    /// (a truncated stream, never a wrong value).
    Io,
    /// The bytes were read, but their pattern is not a legal value of the
    /// target type (corrupt data, distinct from a short read).
    InvalidRepresentation,
    /// A string payload was read in full, but its bytes are not
    /// well-formed UTF-8 text.
    Utf8,
}

/// The encoding half of the contract: a type that can write itself to a
/// byte buffer and report its exact encoded length without encoding.
pub trait Ser {
    /// The exact bytes `ser` appends for this value.
    spec fn spec_ser(&self) -> Seq<u8>;

    /// Appends this value's encoding to `buf`.
    fn ser(&self, buf: &mut Vec<u8>)
        requires
            old(buf)@.len() + self.spec_ser().len() <= usize::MAX,
        ensures
            final(buf)@ == old(buf)@ + self.spec_ser(),
    ;

    /// The number of bytes `ser` appends, computed without encoding.
    fn ser_len(&self) -> (n: usize)
        requires
            self.spec_ser().len() <= usize::MAX,
        ensures
            n == self.spec_ser().len(),
    ;
}

/// The decoding half of the contract: a type that can read one value from
/// a byte slice, starting at a position, consuming exactly the bytes its
/// encoding occupies.
///
/// `spec_deser` fixes, for every byte sequence, either the abstract value
/// decoded (as the type's view) and the number of bytes consumed, or the
/// error reported; `deser` is proved to agree with it on success and on
/// failure alike.
pub trait Deser: View + Sized {
    /// The decode function at the spec level, on the bytes from the read
    /// position to the end of the slice.
    spec fn spec_deser(s: Seq<u8>) -> Result<(Self::V, int), DeserError>;

    /// Reads one value from `buf` starting at `pos`; returns the value and
    /// the position just past the bytes it consumed.
    fn deser(buf: &[u8], pos: usize) -> (r: Result<(Self, usize), DeserError>)
        requires
            pos <= buf@.len(),
        ensures
            (match r {
                Ok(p) => {
                    &&& pos <= p.1 <= buf@.len()
                    &&& Self::spec_deser(buf@.skip(pos as int)) == Ok::<(Self::V, int), DeserError>(
                        (p.0@, p.1 - pos),
                    )
                },
                Err(e) => Self::spec_deser(buf@.skip(pos as int)) == Err::<(Self::V, int), DeserError>(
                    e,
                ),
            }),
    ;
}

} // verus!
