//! The primitive codec: the canonical byte representation of each
//! primitive value type, as implementations of the serialization contract.

use vstd::prelude::*;

use crate::codec::{Deser, DeserError, Ser};
use crate::le::{
    le_bytes, le_val, lemma_le_bytes_len, lemma_le_val_le_bytes, lemma_pow256_widths,
    lemma_signed_round_trip, pow256, read_le, to_signed, to_unsigned, write_le,
};
use vstd::utf8::{decode_utf8, encode_utf8, encode_utf8_decode_utf8, encode_utf8_valid_utf8,
    valid_utf8};

verus! {

impl Ser for u8 {
    open spec fn spec_ser(&self) -> Seq<u8> {
        le_bytes(*self as nat, 1)
    }

    fn ser(&self, buf: &mut Vec<u8>) {
        proof {
            lemma_pow256_widths();
            lemma_le_bytes_len(*self as nat, 1);
        }
        write_le(buf, *self as u128, 1);
    }

    fn ser_len(&self) -> (n: usize) {
        proof {
            lemma_le_bytes_len(*self as nat, 1);
        }
        1
    }
}

impl Deser for u8 {
    open spec fn spec_deser(s: Seq<u8>) -> Result<(u8, int), DeserError> {
        if s.len() >= 1 {
            Ok((le_val(s.take(1)) as u8, 1))
        } else {
            Err(DeserError::Io)
        }
    }

    fn deser(buf: &[u8], pos: usize) -> (r: Result<(Self, usize), DeserError>) {
        match read_le(buf, pos, 1) {
            Some((x, end)) => {
                proof {
                    lemma_pow256_widths();
                    assert(buf@.skip(pos as int).take(1) =~= buf@.subrange(pos as int, pos + 1));
                }
                Ok((x as u8, end))
            },
            None => Err(DeserError::Io),
        }
    }
}

impl Ser for u32 {
    open spec fn spec_ser(&self) -> Seq<u8> {
        le_bytes(*self as nat, 4)
    }

    fn ser(&self, buf: &mut Vec<u8>) {
        proof {
            lemma_pow256_widths();
            lemma_le_bytes_len(*self as nat, 4);
        }
        write_le(buf, *self as u128, 4);
    }

    fn ser_len(&self) -> (n: usize) {
        proof {
            lemma_le_bytes_len(*self as nat, 4);
        }
        4
    }
}

impl Deser for u32 {
    open spec fn spec_deser(s: Seq<u8>) -> Result<(u32, int), DeserError> {
        if s.len() >= 4 {
            Ok((le_val(s.take(4)) as u32, 4))
        } else {
            Err(DeserError::Io)
        }
    }

    fn deser(buf: &[u8], pos: usize) -> (r: Result<(Self, usize), DeserError>) {
        match read_le(buf, pos, 4) {
            Some((x, end)) => {
                proof {
                    lemma_pow256_widths();
                    assert(buf@.skip(pos as int).take(4) =~= buf@.subrange(pos as int, pos + 4));
                }
                Ok((x as u32, end))
            },
            None => Err(DeserError::Io),
        }
    }
}

impl Ser for bool {
    open spec fn spec_ser(&self) -> Seq<u8> {
        seq![if *self { 1u8 } else { 0u8 }]
    }

    fn ser(&self, buf: &mut Vec<u8>) {
        if *self {
            buf.push(1);
        } else {
            buf.push(0);
        }
        assert(buf@ =~= old(buf)@ + self.spec_ser());
    }

    fn ser_len(&self) -> (n: usize) {
        1
    }
}

impl Deser for bool {
    open spec fn spec_deser(s: Seq<u8>) -> Result<(bool, int), DeserError> {
        if s.len() < 1 {
            Err(DeserError::Io)
        } else if s[0] == 0 {
            Ok((false, 1))
        } else if s[0] == 1 {
            Ok((true, 1))
        } else {
            Err(DeserError::InvalidRepresentation)
        }
    }

    fn deser(buf: &[u8], pos: usize) -> (r: Result<(Self, usize), DeserError>) {
        if buf.len() - pos < 1 {
            Err(DeserError::Io)
        } else {
            let b = buf[pos];
            if b == 0 {
                Ok((false, pos + 1))
            } else if b == 1 {
                Ok((true, pos + 1))
            } else {
                Err(DeserError::InvalidRepresentation)
            }
        }
    }
}

/// Decoding the encoding of a `u8` yields the value back, whatever follows it.
pub proof fn lemma_round_trip_u8(v: u8, rest: Seq<u8>)
    ensures
        <u8 as Deser>::spec_deser(v.spec_ser() + rest) == Ok::<(u8, int), DeserError>((v, 1)),
{
    lemma_pow256_widths();
    lemma_le_bytes_len(v as nat, 1);
    assert((v.spec_ser() + rest).take(1) =~= le_bytes(v as nat, 1));
    lemma_le_val_le_bytes(v as nat, 1);
}

/// Decoding the encoding of a `u32` yields the value back, whatever follows it.
pub proof fn lemma_round_trip_u32(v: u32, rest: Seq<u8>)
    ensures
        <u32 as Deser>::spec_deser(v.spec_ser() + rest) == Ok::<(u32, int), DeserError>((v, 4)),
{
    lemma_pow256_widths();
    lemma_le_bytes_len(v as nat, 4);
    assert((v.spec_ser() + rest).take(4) =~= le_bytes(v as nat, 4));
    lemma_le_val_le_bytes(v as nat, 4);
}

/// Decoding the encoding of a `bool` yields the value back, whatever follows it.
pub proof fn lemma_round_trip_bool(v: bool, rest: Seq<u8>)
    ensures
        <bool as Deser>::spec_deser(v.spec_ser() + rest) == Ok::<(bool, int), DeserError>((v, 1)),
{
}

impl Ser for u16 {
    open spec fn spec_ser(&self) -> Seq<u8> {
        le_bytes(*self as nat, 2)
    }

    fn ser(&self, buf: &mut Vec<u8>) {
        proof {
            lemma_pow256_widths();
            lemma_le_bytes_len(*self as nat, 2);
        }
        write_le(buf, *self as u128, 2);
    }

    fn ser_len(&self) -> (n: usize) {
        proof {
            lemma_le_bytes_len(*self as nat, 2);
        }
        2
    }
}

impl Deser for u16 {
    open spec fn spec_deser(s: Seq<u8>) -> Result<(u16, int), DeserError> {
        if s.len() >= 2 {
            Ok((le_val(s.take(2)) as u16, 2))
        } else {
            Err(DeserError::Io)
        }
    }

    fn deser(buf: &[u8], pos: usize) -> (r: Result<(Self, usize), DeserError>) {
        match read_le(buf, pos, 2) {
            Some((x, end)) => {
                proof {
                    lemma_pow256_widths();
                    assert(buf@.skip(pos as int).take(2) =~= buf@.subrange(pos as int, pos + 2));
                }
                Ok((x as u16, end))
            },
            None => Err(DeserError::Io),
        }
    }
}

impl Ser for u64 {
    open spec fn spec_ser(&self) -> Seq<u8> {
        le_bytes(*self as nat, 8)
    }

    fn ser(&self, buf: &mut Vec<u8>) {
        proof {
            lemma_pow256_widths();
            lemma_le_bytes_len(*self as nat, 8);
        }
        write_le(buf, *self as u128, 8);
    }

    fn ser_len(&self) -> (n: usize) {
        proof {
            lemma_le_bytes_len(*self as nat, 8);
        }
        8
    }
}

impl Deser for u64 {
    open spec fn spec_deser(s: Seq<u8>) -> Result<(u64, int), DeserError> {
        if s.len() >= 8 {
            Ok((le_val(s.take(8)) as u64, 8))
        } else {
            Err(DeserError::Io)
        }
    }

    fn deser(buf: &[u8], pos: usize) -> (r: Result<(Self, usize), DeserError>) {
        match read_le(buf, pos, 8) {
            Some((x, end)) => {
                proof {
                    lemma_pow256_widths();
                    assert(buf@.skip(pos as int).take(8) =~= buf@.subrange(pos as int, pos + 8));
                }
                Ok((x as u64, end))
            },
            None => Err(DeserError::Io),
        }
    }
}

impl Ser for u128 {
    open spec fn spec_ser(&self) -> Seq<u8> {
        le_bytes(*self as nat, 16)
    }

    fn ser(&self, buf: &mut Vec<u8>) {
        proof {
            lemma_pow256_widths();
            lemma_le_bytes_len(*self as nat, 16);
        }
        write_le(buf, *self, 16);
    }

    fn ser_len(&self) -> (n: usize) {
        proof {
            lemma_le_bytes_len(*self as nat, 16);
        }
        16
    }
}

impl Deser for u128 {
    open spec fn spec_deser(s: Seq<u8>) -> Result<(u128, int), DeserError> {
        if s.len() >= 16 {
            Ok((le_val(s.take(16)) as u128, 16))
        } else {
            Err(DeserError::Io)
        }
    }

    fn deser(buf: &[u8], pos: usize) -> (r: Result<(Self, usize), DeserError>) {
        match read_le(buf, pos, 16) {
            Some((x, end)) => {
                proof {
                    lemma_pow256_widths();
                    assert(buf@.skip(pos as int).take(16) =~= buf@.subrange(pos as int, pos + 16));
                }
                Ok((x, end))
            },
            None => Err(DeserError::Io),
        }
    }
}

impl Ser for i8 {
    open spec fn spec_ser(&self) -> Seq<u8> {
        le_bytes(to_unsigned(*self as int, 1), 1)
    }

    fn ser(&self, buf: &mut Vec<u8>) {
        proof {
            lemma_pow256_widths();
            lemma_le_bytes_len(to_unsigned(*self as int, 1), 1);
        }
        let u: u8 = if *self >= 0 {
            *self as u8
        } else {
            u8::MAX - ((-(*self + 1)) as u8)
        };
        write_le(buf, u as u128, 1);
    }

    fn ser_len(&self) -> (n: usize) {
        proof {
            lemma_le_bytes_len(to_unsigned(*self as int, 1), 1);
        }
        1
    }
}

impl Deser for i8 {
    open spec fn spec_deser(s: Seq<u8>) -> Result<(i8, int), DeserError> {
        if s.len() >= 1 {
            Ok((to_signed(le_val(s.take(1)), 1) as i8, 1))
        } else {
            Err(DeserError::Io)
        }
    }

    fn deser(buf: &[u8], pos: usize) -> (r: Result<(Self, usize), DeserError>) {
        match read_le(buf, pos, 1) {
            Some((x, end)) => {
                proof {
                    lemma_pow256_widths();
                    assert(buf@.skip(pos as int).take(1) =~= buf@.subrange(pos as int, pos + 1));
                }
                let v: i8 = if x < 0x80 {
                    x as i8
                } else {
                    -((0xFFu128 - x) as i8) - 1
                };
                Ok((v, end))
            },
            None => Err(DeserError::Io),
        }
    }
}

impl Ser for i16 {
    open spec fn spec_ser(&self) -> Seq<u8> {
        le_bytes(to_unsigned(*self as int, 2), 2)
    }

    fn ser(&self, buf: &mut Vec<u8>) {
        proof {
            lemma_pow256_widths();
            lemma_le_bytes_len(to_unsigned(*self as int, 2), 2);
        }
        let u: u16 = if *self >= 0 {
            *self as u16
        } else {
            u16::MAX - ((-(*self + 1)) as u16)
        };
        write_le(buf, u as u128, 2);
    }

    fn ser_len(&self) -> (n: usize) {
        proof {
            lemma_le_bytes_len(to_unsigned(*self as int, 2), 2);
        }
        2
    }
}

impl Deser for i16 {
    open spec fn spec_deser(s: Seq<u8>) -> Result<(i16, int), DeserError> {
        if s.len() >= 2 {
            Ok((to_signed(le_val(s.take(2)), 2) as i16, 2))
        } else {
            Err(DeserError::Io)
        }
    }

    fn deser(buf: &[u8], pos: usize) -> (r: Result<(Self, usize), DeserError>) {
        match read_le(buf, pos, 2) {
            Some((x, end)) => {
                proof {
                    lemma_pow256_widths();
                    assert(buf@.skip(pos as int).take(2) =~= buf@.subrange(pos as int, pos + 2));
                }
                let v: i16 = if x < 0x8000 {
                    x as i16
                } else {
                    -((0xFFFFu128 - x) as i16) - 1
                };
                Ok((v, end))
            },
            None => Err(DeserError::Io),
        }
    }
}

impl Ser for i32 {
    open spec fn spec_ser(&self) -> Seq<u8> {
        le_bytes(to_unsigned(*self as int, 4), 4)
    }

    fn ser(&self, buf: &mut Vec<u8>) {
        proof {
            lemma_pow256_widths();
            lemma_le_bytes_len(to_unsigned(*self as int, 4), 4);
        }
        let u: u32 = if *self >= 0 {
            *self as u32
        } else {
            u32::MAX - ((-(*self + 1)) as u32)
        };
        write_le(buf, u as u128, 4);
    }

    fn ser_len(&self) -> (n: usize) {
        proof {
            lemma_le_bytes_len(to_unsigned(*self as int, 4), 4);
        }
        4
    }
}

impl Deser for i32 {
    open spec fn spec_deser(s: Seq<u8>) -> Result<(i32, int), DeserError> {
        if s.len() >= 4 {
            Ok((to_signed(le_val(s.take(4)), 4) as i32, 4))
        } else {
            Err(DeserError::Io)
        }
    }

    fn deser(buf: &[u8], pos: usize) -> (r: Result<(Self, usize), DeserError>) {
        match read_le(buf, pos, 4) {
            Some((x, end)) => {
                proof {
                    lemma_pow256_widths();
                    assert(buf@.skip(pos as int).take(4) =~= buf@.subrange(pos as int, pos + 4));
                }
                let v: i32 = if x < 0x8000_0000 {
                    x as i32
                } else {
                    -((0xFFFF_FFFFu128 - x) as i32) - 1
                };
                Ok((v, end))
            },
            None => Err(DeserError::Io),
        }
    }
}

impl Ser for i64 {
    open spec fn spec_ser(&self) -> Seq<u8> {
        le_bytes(to_unsigned(*self as int, 8), 8)
    }

    fn ser(&self, buf: &mut Vec<u8>) {
        proof {
            lemma_pow256_widths();
            lemma_le_bytes_len(to_unsigned(*self as int, 8), 8);
        }
        let u: u64 = if *self >= 0 {
            *self as u64
        } else {
            u64::MAX - ((-(*self + 1)) as u64)
        };
        write_le(buf, u as u128, 8);
    }

    fn ser_len(&self) -> (n: usize) {
        proof {
            lemma_le_bytes_len(to_unsigned(*self as int, 8), 8);
        }
        8
    }
}

impl Deser for i64 {
    open spec fn spec_deser(s: Seq<u8>) -> Result<(i64, int), DeserError> {
        if s.len() >= 8 {
            Ok((to_signed(le_val(s.take(8)), 8) as i64, 8))
        } else {
            Err(DeserError::Io)
        }
    }

    fn deser(buf: &[u8], pos: usize) -> (r: Result<(Self, usize), DeserError>) {
        match read_le(buf, pos, 8) {
            Some((x, end)) => {
                proof {
                    lemma_pow256_widths();
                    assert(buf@.skip(pos as int).take(8) =~= buf@.subrange(pos as int, pos + 8));
                }
                let v: i64 = if x < 0x8000_0000_0000_0000 {
                    x as i64
                } else {
                    -((0xFFFF_FFFF_FFFF_FFFFu128 - x) as i64) - 1
                };
                Ok((v, end))
            },
            None => Err(DeserError::Io),
        }
    }
}

impl Ser for i128 {
    open spec fn spec_ser(&self) -> Seq<u8> {
        le_bytes(to_unsigned(*self as int, 16), 16)
    }

    fn ser(&self, buf: &mut Vec<u8>) {
        proof {
            lemma_pow256_widths();
            lemma_le_bytes_len(to_unsigned(*self as int, 16), 16);
        }
        let u: u128 = if *self >= 0 {
            *self as u128
        } else {
            u128::MAX - ((-(*self + 1)) as u128)
        };
        write_le(buf, u, 16);
    }

    fn ser_len(&self) -> (n: usize) {
        proof {
            lemma_le_bytes_len(to_unsigned(*self as int, 16), 16);
        }
        16
    }
}

impl Deser for i128 {
    open spec fn spec_deser(s: Seq<u8>) -> Result<(i128, int), DeserError> {
        if s.len() >= 16 {
            Ok((to_signed(le_val(s.take(16)), 16) as i128, 16))
        } else {
            Err(DeserError::Io)
        }
    }

    fn deser(buf: &[u8], pos: usize) -> (r: Result<(Self, usize), DeserError>) {
        match read_le(buf, pos, 16) {
            Some((x, end)) => {
                proof {
                    lemma_pow256_widths();
                    assert(buf@.skip(pos as int).take(16) =~= buf@.subrange(pos as int, pos + 16));
                }
                let v: i128 = if x < 0x8000_0000_0000_0000_0000_0000_0000_0000 {
                    x as i128
                } else {
                    -((u128::MAX - x) as i128) - 1
                };
                Ok((v, end))
            },
            None => Err(DeserError::Io),
        }
    }
}

/// A 32-bit float carried as its IEEE-754 bit pattern. The wire format for
/// floats is their little-endian IEEE-754 bytes, and bit patterns (unlike
/// float values, where NaN differs from itself) compare exactly; this type
/// holds exactly those 32 bits.
#[derive(Clone, Copy, Debug, PartialEq, Eq, Structural)]
pub struct F32Bits(pub u32);

/// A 64-bit float carried as its IEEE-754 bit pattern; see `F32Bits`.
#[derive(Clone, Copy, Debug, PartialEq, Eq, Structural)]
pub struct F64Bits(pub u64);

impl View for F32Bits {
    type V = F32Bits;

    open spec fn view(&self) -> F32Bits {
        *self
    }
}

impl View for F64Bits {
    type V = F64Bits;

    open spec fn view(&self) -> F64Bits {
        *self
    }
}

impl Ser for F32Bits {
    open spec fn spec_ser(&self) -> Seq<u8> {
        le_bytes(self.0 as nat, 4)
    }

    fn ser(&self, buf: &mut Vec<u8>) {
        proof {
            lemma_pow256_widths();
            lemma_le_bytes_len(self.0 as nat, 4);
        }
        write_le(buf, self.0 as u128, 4);
    }

    fn ser_len(&self) -> (n: usize) {
        proof {
            lemma_le_bytes_len(self.0 as nat, 4);
        }
        4
    }
}

impl Deser for F32Bits {
    open spec fn spec_deser(s: Seq<u8>) -> Result<(F32Bits, int), DeserError> {
        if s.len() >= 4 {
            Ok((F32Bits(le_val(s.take(4)) as u32), 4))
        } else {
            Err(DeserError::Io)
        }
    }

    fn deser(buf: &[u8], pos: usize) -> (r: Result<(Self, usize), DeserError>) {
        match read_le(buf, pos, 4) {
            Some((x, end)) => {
                proof {
                    lemma_pow256_widths();
                    assert(buf@.skip(pos as int).take(4) =~= buf@.subrange(pos as int, pos + 4));
                }
                Ok((F32Bits(x as u32), end))
            },
            None => Err(DeserError::Io),
        }
    }
}

impl Ser for F64Bits {
    open spec fn spec_ser(&self) -> Seq<u8> {
        le_bytes(self.0 as nat, 8)
    }

    fn ser(&self, buf: &mut Vec<u8>) {
        proof {
            lemma_pow256_widths();
            lemma_le_bytes_len(self.0 as nat, 8);
        }
        write_le(buf, self.0 as u128, 8);
    }

    fn ser_len(&self) -> (n: usize) {
        proof {
            lemma_le_bytes_len(self.0 as nat, 8);
        }
        8
    }
}

impl Deser for F64Bits {
    open spec fn spec_deser(s: Seq<u8>) -> Result<(F64Bits, int), DeserError> {
        if s.len() >= 8 {
            Ok((F64Bits(le_val(s.take(8)) as u64), 8))
        } else {
            Err(DeserError::Io)
        }
    }

    fn deser(buf: &[u8], pos: usize) -> (r: Result<(Self, usize), DeserError>) {
        match read_le(buf, pos, 8) {
            Some((x, end)) => {
                proof {
                    lemma_pow256_widths();
                    assert(buf@.skip(pos as int).take(8) =~= buf@.subrange(pos as int, pos + 8));
                }
                Ok((F64Bits(x as u64), end))
            },
            None => Err(DeserError::Io),
        }
    }
}

impl Ser for String {
    open spec fn spec_ser(&self) -> Seq<u8> {
        le_bytes(encode_utf8(self@).len(), 8) + encode_utf8(self@)
    }

    fn ser(&self, buf: &mut Vec<u8>) {
        proof {
            lemma_pow256_widths();
            lemma_le_bytes_len(encode_utf8(self@).len(), 8);
        }
        let bytes: &[u8] = self.as_str().as_bytes();
        let n = bytes.len();
        write_le(buf, n as u128, 8);
        let ghost pre = buf@;
        let mut i: usize = 0;
        while i < n
            invariant
                i <= n,
                n == bytes@.len(),
                buf@ == pre + bytes@.take(i as int),
            decreases n - i,
        {
            buf.push(bytes[i]);
            proof {
                assert(buf@ =~= pre + bytes@.take(i + 1));
            }
            i += 1;
        }
        proof {
            assert(bytes@.take(n as int) =~= bytes@);
            assert(buf@ =~= old(buf)@ + self.spec_ser());
        }
    }

    fn ser_len(&self) -> (n: usize) {
        proof {
            lemma_le_bytes_len(encode_utf8(self@).len(), 8);
        }
        8 + self.as_str().len()
    }
}

/// Relies on `String::from_utf8`: it succeeds exactly on well-formed UTF-8
/// input and returns the string whose characters those bytes spell.
#[verifier::external_body]
fn string_from_utf8(bytes: Vec<u8>) -> (r: Option<String>)
    ensures
        r is Some <==> valid_utf8(bytes@),
        (r matches Some(s) ==> s@ == decode_utf8(bytes@)),
{
    String::from_utf8(bytes).ok()
}

impl Deser for String {
    open spec fn spec_deser(s: Seq<u8>) -> Result<(Seq<char>, int), DeserError> {
        if s.len() < 8 {
            Err(DeserError::Io)
        } else {
            let n = le_val(s.take(8)) as int;
            if s.len() - 8 < n {
                Err(DeserError::Io)
            } else if valid_utf8(s.subrange(8, 8 + n)) {
                Ok((decode_utf8(s.subrange(8, 8 + n)), 8 + n))
            } else {
                Err(DeserError::Utf8)
            }
        }
    }

    fn deser(buf: &[u8], pos: usize) -> (r: Result<(Self, usize), DeserError>) {
        match read_le(buf, pos, 8) {
            None => Err(DeserError::Io),
            Some((len128, p)) => {
                proof {
                    lemma_pow256_widths();
                    assert(buf@.skip(pos as int).take(8) =~= buf@.subrange(pos as int, pos + 8));
                }
                // The prefix is untrusted data: it is held against the bytes
                // actually available before any buffer is sized from it.
                if len128 > (buf.len() - p) as u128 {
                    Err(DeserError::Io)
                } else {
                    let n = len128 as usize;
                    let mut payload: Vec<u8> = Vec::new();
                    let mut i: usize = 0;
                    while i < n
                        invariant
                            i <= n,
                            p + n <= buf@.len(),
                            payload@ == buf@.subrange(p as int, p + i),
                        decreases n - i,
                    {
                        payload.push(buf[p + i]);
                        proof {
                            assert(payload@ =~= buf@.subrange(p as int, p + i + 1));
                        }
                        i += 1;
                    }
                    proof {
                        assert(buf@.skip(pos as int).subrange(8, 8 + n) =~= buf@.subrange(
                            p as int,
                            p + n,
                        ));
                    }
                    match string_from_utf8(payload) {
                        Some(s) => Ok((s, p + n)),
                        None => Err(DeserError::Utf8),
                    }
                }
            },
        }
    }
}

/// Decoding the encoding of a `u16` yields the value back, whatever follows it.
pub proof fn lemma_round_trip_u16(v: u16, rest: Seq<u8>)
    ensures
        <u16 as Deser>::spec_deser(v.spec_ser() + rest) == Ok::<(u16, int), DeserError>((v, 2)),
{
    lemma_pow256_widths();
    lemma_le_bytes_len(v as nat, 2);
    assert((v.spec_ser() + rest).take(2) =~= le_bytes(v as nat, 2));
    lemma_le_val_le_bytes(v as nat, 2);
}

/// Decoding the encoding of a `u64` yields the value back, whatever follows it.
pub proof fn lemma_round_trip_u64(v: u64, rest: Seq<u8>)
    ensures
        <u64 as Deser>::spec_deser(v.spec_ser() + rest) == Ok::<(u64, int), DeserError>((v, 8)),
{
    lemma_pow256_widths();
    lemma_le_bytes_len(v as nat, 8);
    assert((v.spec_ser() + rest).take(8) =~= le_bytes(v as nat, 8));
    lemma_le_val_le_bytes(v as nat, 8);
}

/// Decoding the encoding of a `u128` yields the value back, whatever follows it.
pub proof fn lemma_round_trip_u128(v: u128, rest: Seq<u8>)
    ensures
        <u128 as Deser>::spec_deser(v.spec_ser() + rest) == Ok::<(u128, int), DeserError>((v, 16)),
{
    lemma_pow256_widths();
    lemma_le_bytes_len(v as nat, 16);
    assert((v.spec_ser() + rest).take(16) =~= le_bytes(v as nat, 16));
    lemma_le_val_le_bytes(v as nat, 16);
}

/// Decoding the encoding of an `i8` yields the value back, whatever follows it.
pub proof fn lemma_round_trip_i8(v: i8, rest: Seq<u8>)
    ensures
        <i8 as Deser>::spec_deser(v.spec_ser() + rest) == Ok::<(i8, int), DeserError>((v, 1)),
{
    lemma_pow256_widths();
    lemma_signed_round_trip(v as int, 1);
    lemma_le_bytes_len(to_unsigned(v as int, 1), 1);
    assert((v.spec_ser() + rest).take(1) =~= le_bytes(to_unsigned(v as int, 1), 1));
    lemma_le_val_le_bytes(to_unsigned(v as int, 1), 1);
}

/// Decoding the encoding of an `i16` yields the value back, whatever follows it.
pub proof fn lemma_round_trip_i16(v: i16, rest: Seq<u8>)
    ensures
        <i16 as Deser>::spec_deser(v.spec_ser() + rest) == Ok::<(i16, int), DeserError>((v, 2)),
{
    lemma_pow256_widths();
    lemma_signed_round_trip(v as int, 2);
    lemma_le_bytes_len(to_unsigned(v as int, 2), 2);
    assert((v.spec_ser() + rest).take(2) =~= le_bytes(to_unsigned(v as int, 2), 2));
    lemma_le_val_le_bytes(to_unsigned(v as int, 2), 2);
}

/// Decoding the encoding of an `i32` yields the value back, whatever follows it.
pub proof fn lemma_round_trip_i32(v: i32, rest: Seq<u8>)
    ensures
        <i32 as Deser>::spec_deser(v.spec_ser() + rest) == Ok::<(i32, int), DeserError>((v, 4)),
{
    lemma_pow256_widths();
    lemma_signed_round_trip(v as int, 4);
    lemma_le_bytes_len(to_unsigned(v as int, 4), 4);
    assert((v.spec_ser() + rest).take(4) =~= le_bytes(to_unsigned(v as int, 4), 4));
    lemma_le_val_le_bytes(to_unsigned(v as int, 4), 4);
}

/// Decoding the encoding of an `i64` yields the value back, whatever follows it.
pub proof fn lemma_round_trip_i64(v: i64, rest: Seq<u8>)
    ensures
        <i64 as Deser>::spec_deser(v.spec_ser() + rest) == Ok::<(i64, int), DeserError>((v, 8)),
{
    lemma_pow256_widths();
    lemma_signed_round_trip(v as int, 8);
    lemma_le_bytes_len(to_unsigned(v as int, 8), 8);
    assert((v.spec_ser() + rest).take(8) =~= le_bytes(to_unsigned(v as int, 8), 8));
    lemma_le_val_le_bytes(to_unsigned(v as int, 8), 8);
}

/// Decoding the encoding of an `i128` yields the value back, whatever follows it.
pub proof fn lemma_round_trip_i128(v: i128, rest: Seq<u8>)
    ensures
        <i128 as Deser>::spec_deser(v.spec_ser() + rest) == Ok::<(i128, int), DeserError>((v, 16)),
{
    lemma_pow256_widths();
    lemma_signed_round_trip(v as int, 16);
    lemma_le_bytes_len(to_unsigned(v as int, 16), 16);
    assert((v.spec_ser() + rest).take(16) =~= le_bytes(to_unsigned(v as int, 16), 16));
    lemma_le_val_le_bytes(to_unsigned(v as int, 16), 16);
}

/// Decoding the encoding of a float bit pattern yields the same bits back,
/// whatever follows them.
pub proof fn lemma_round_trip_f32_bits(v: F32Bits, rest: Seq<u8>)
    ensures
        <F32Bits as Deser>::spec_deser(v.spec_ser() + rest) == Ok::<(F32Bits, int), DeserError>(
            (v, 4),
        ),
{
    lemma_pow256_widths();
    lemma_le_bytes_len(v.0 as nat, 4);
    assert((v.spec_ser() + rest).take(4) =~= le_bytes(v.0 as nat, 4));
    lemma_le_val_le_bytes(v.0 as nat, 4);
}

/// Decoding the encoding of a float bit pattern yields the same bits back,
/// whatever follows them.
pub proof fn lemma_round_trip_f64_bits(v: F64Bits, rest: Seq<u8>)
    ensures
        <F64Bits as Deser>::spec_deser(v.spec_ser() + rest) == Ok::<(F64Bits, int), DeserError>(
            (v, 8),
        ),
{
    lemma_pow256_widths();
    lemma_le_bytes_len(v.0 as nat, 8);
    assert((v.spec_ser() + rest).take(8) =~= le_bytes(v.0 as nat, 8));
    lemma_le_val_le_bytes(v.0 as nat, 8);
}

/// Decoding the encoding of a `String` yields a string with the same
/// characters, whatever follows it. The length bound is what any string a
/// process can hold satisfies: its byte length fits in the 8-byte prefix.
pub proof fn lemma_round_trip_string(v: String, rest: Seq<u8>)
    requires
        encode_utf8(v@).len() < pow256(8),
    ensures
        <String as Deser>::spec_deser(v.spec_ser() + rest) == Ok::<(Seq<char>, int), DeserError>(
            (v@, v.spec_ser().len() as int),
        ),
{
    lemma_pow256_widths();
    let b = encode_utf8(v@);
    lemma_le_bytes_len(b.len(), 8);
    let s = v.spec_ser() + rest;
    assert(s.take(8) =~= le_bytes(b.len(), 8));
    lemma_le_val_le_bytes(b.len(), 8);
    assert(s.subrange(8, 8 + b.len() as int) =~= b);
    encode_utf8_valid_utf8(v@);
    encode_utf8_decode_utf8(v@);
}

} // verus!
