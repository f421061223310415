//! The struct derivation engine.
//!
//! A composite type is described by its ordered field descriptors: a
//! [`Shape`]. A value of such a type is a [`Value`]: a primitive, or a
//! composite holding its field values in declaration order. The engine
//! produces the whole-composite encoding, decoding and length logic from
//! the descriptors alone, by delegating to each field's own implementation
//! of the serialization contract — it never needs to know whether a field
//! is primitive or composite, so nesting is handled by plain recursion.
//!
//! The two field-shape variants, named-field records and positional
//! tuples, run through one algorithm: the field name is carried in the
//! descriptor and plays no part in iteration, error propagation or the
//! wire format (the wire carries no names, no tags and no padding — only
//! the fields' encodings, concatenated in declaration order).

use vstd::prelude::*;

use crate::codec::{Deser, DeserError, Ser};
use crate::le::pow256;
use crate::primitives::{
    lemma_round_trip_bool, lemma_round_trip_f32_bits, lemma_round_trip_f64_bits,
    lemma_round_trip_i128, lemma_round_trip_i16, lemma_round_trip_i32, lemma_round_trip_i64,
    lemma_round_trip_i8, lemma_round_trip_string, lemma_round_trip_u128, lemma_round_trip_u16,
    lemma_round_trip_u32, lemma_round_trip_u64, lemma_round_trip_u8, F32Bits, F64Bits,
};
use vstd::utf8::encode_utf8;

verus! {

/// One field descriptor of a named-field record: the field's name and the
/// shape of its value. Descriptors stand in declaration order in the
/// containing vector; that order is fixed when the composite type is
/// defined and is the only order encode and decode ever use.
pub struct Field {
    pub name: String,
    pub shape: Shape,
}

/// The shape of an encodable type: a primitive, a named-field record, or a
/// positional tuple. A composite shape is the ordered list of its field
/// descriptors; decoding needs it to know what to read.
pub enum Shape {
    U8,
    I8,
    U16,
    I16,
    U32,
    I32,
    U64,
    I64,
    U128,
    I128,
    Bool,
    F32,
    F64,
    Str,
    Record(Vec<Field>),
    Tuple(Vec<Shape>),
}

/// An encodable value: a primitive, or a composite holding its field
/// values in declaration order. Floats are carried as their IEEE-754 bit
/// patterns, so float fields round-trip bit-for-bit.
#[derive(Debug, PartialEq)]
pub enum Value {
    U8(u8),
    I8(i8),
    U16(u16),
    I16(i16),
    U32(u32),
    I32(i32),
    U64(u64),
    I64(i64),
    U128(u128),
    I128(i128),
    Bool(bool),
    F32(F32Bits),
    F64(F64Bits),
    Str(String),
    Record(Vec<Value>),
    Tuple(Vec<Value>),
}

/// The mathematical model of a [`Value`]: strings become their character
/// sequences, composites become the sequence of their fields' models.
#[verifier::ext_equal]
pub enum SpecValue {
    U8(u8),
    I8(i8),
    U16(u16),
    I16(i16),
    U32(u32),
    I32(i32),
    U64(u64),
    I64(i64),
    U128(u128),
    I128(i128),
    Bool(bool),
    F32(F32Bits),
    F64(F64Bits),
    Str(Seq<char>),
    Record(Seq<SpecValue>),
    Tuple(Seq<SpecValue>),
}

pub open spec fn view_fields(vs: Seq<Value>) -> Seq<SpecValue>
    decreases vs,
{
    if vs.len() == 0 {
        Seq::empty()
    } else {
        seq![value_view(vs[0])] + view_fields(vs.drop_first())
    }
}

pub open spec fn value_view(v: Value) -> SpecValue
    decreases v,
{
    match v {
        Value::U8(x) => SpecValue::U8(x),
        Value::I8(x) => SpecValue::I8(x),
        Value::U16(x) => SpecValue::U16(x),
        Value::I16(x) => SpecValue::I16(x),
        Value::U32(x) => SpecValue::U32(x),
        Value::I32(x) => SpecValue::I32(x),
        Value::U64(x) => SpecValue::U64(x),
        Value::I64(x) => SpecValue::I64(x),
        Value::U128(x) => SpecValue::U128(x),
        Value::I128(x) => SpecValue::I128(x),
        Value::Bool(x) => SpecValue::Bool(x),
        Value::F32(x) => SpecValue::F32(x),
        Value::F64(x) => SpecValue::F64(x),
        Value::Str(s) => SpecValue::Str(s@),
        Value::Record(fs) => SpecValue::Record(view_fields(fs@)),
        Value::Tuple(fs) => SpecValue::Tuple(view_fields(fs@)),
    }
}

impl View for Value {
    type V = SpecValue;

    open spec fn view(&self) -> SpecValue {
        value_view(*self)
    }
}

pub open spec fn fields_match_record(vs: Seq<Value>, fs: Seq<Field>) -> bool
    decreases vs,
{
    &&& vs.len() == fs.len()
    &&& (vs.len() > 0 ==> has_shape(vs[0], fs[0].shape) && fields_match_record(
        vs.drop_first(),
        fs.drop_first(),
    ))
}

pub open spec fn fields_match_tuple(vs: Seq<Value>, ss: Seq<Shape>) -> bool
    decreases vs,
{
    &&& vs.len() == ss.len()
    &&& (vs.len() > 0 ==> has_shape(vs[0], ss[0]) && fields_match_tuple(
        vs.drop_first(),
        ss.drop_first(),
    ))
}

/// Whether a value is of the given shape: the primitive kinds agree, and a
/// composite has exactly the declared fields, each of its declared shape.
pub open spec fn has_shape(v: Value, s: Shape) -> bool
    decreases v,
{
    match v {
        Value::U8(_) => s is U8,
        Value::I8(_) => s is I8,
        Value::U16(_) => s is U16,
        Value::I16(_) => s is I16,
        Value::U32(_) => s is U32,
        Value::I32(_) => s is I32,
        Value::U64(_) => s is U64,
        Value::I64(_) => s is I64,
        Value::U128(_) => s is U128,
        Value::I128(_) => s is I128,
        Value::Bool(_) => s is Bool,
        Value::F32(_) => s is F32,
        Value::F64(_) => s is F64,
        Value::Str(_) => s is Str,
        Value::Record(vals) => (match s {
            Shape::Record(fs) => fields_match_record(vals@, fs@),
            _ => false,
        }),
        Value::Tuple(vals) => (match s {
            Shape::Tuple(ss) => fields_match_tuple(vals@, ss@),
            _ => false,
        }),
    }
}

/// The wire image of a field list: the fields' own wire images,
/// concatenated in declaration order — nothing between them, nothing
/// around them.
pub open spec fn spec_ser_fields(vs: Seq<Value>) -> Seq<u8>
    decreases vs,
{
    if vs.len() == 0 {
        Seq::empty()
    } else {
        spec_ser_value(vs[0]) + spec_ser_fields(vs.drop_first())
    }
}

/// The wire image of a value: a primitive's own encoding, or the ordered
/// concatenation of a composite's field encodings.
pub open spec fn spec_ser_value(v: Value) -> Seq<u8>
    decreases v,
{
    match v {
        Value::U8(x) => x.spec_ser(),
        Value::I8(x) => x.spec_ser(),
        Value::U16(x) => x.spec_ser(),
        Value::I16(x) => x.spec_ser(),
        Value::U32(x) => x.spec_ser(),
        Value::I32(x) => x.spec_ser(),
        Value::U64(x) => x.spec_ser(),
        Value::I64(x) => x.spec_ser(),
        Value::U128(x) => x.spec_ser(),
        Value::I128(x) => x.spec_ser(),
        Value::Bool(x) => x.spec_ser(),
        Value::F32(x) => x.spec_ser(),
        Value::F64(x) => x.spec_ser(),
        Value::Str(s) => s.spec_ser(),
        Value::Record(fs) => spec_ser_fields(fs@),
        Value::Tuple(fs) => spec_ser_fields(fs@),
    }
}

pub open spec fn spec_len_fields(vs: Seq<Value>) -> nat
    decreases vs,
{
    if vs.len() == 0 {
        0
    } else {
        spec_len_value(vs[0]) + spec_len_fields(vs.drop_first())
    }
}

/// The encoded length of a value, computed structurally — fixed widths for
/// the fixed-width primitives, prefix plus byte length for strings, and
/// the sum of the fields' lengths for composites — never by encoding.
pub open spec fn spec_len_value(v: Value) -> nat
    decreases v,
{
    match v {
        Value::U8(_) => 1,
        Value::I8(_) => 1,
        Value::U16(_) => 2,
        Value::I16(_) => 2,
        Value::U32(_) => 4,
        Value::I32(_) => 4,
        Value::U64(_) => 8,
        Value::I64(_) => 8,
        Value::U128(_) => 16,
        Value::I128(_) => 16,
        Value::Bool(_) => 1,
        Value::F32(_) => 4,
        Value::F64(_) => 8,
        Value::Str(s) => 8 + encode_utf8(s@).len(),
        Value::Record(fs) => spec_len_fields(fs@),
        Value::Tuple(fs) => spec_len_fields(fs@),
    }
}

/// What any value a process can hold satisfies: every string field's byte
/// length fits the 8-byte length prefix.
pub open spec fn wf_fields(vs: Seq<Value>) -> bool
    decreases vs,
{
    vs.len() == 0 || (wf_value(vs[0]) && wf_fields(vs.drop_first()))
}

pub open spec fn wf_value(v: Value) -> bool
    decreases v,
{
    match v {
        Value::Str(s) => encode_utf8(s@).len() < pow256(8),
        Value::Record(fs) => wf_fields(fs@),
        Value::Tuple(fs) => wf_fields(fs@),
        _ => true,
    }
}

pub open spec fn spec_decode_record(fs: Seq<Field>, bytes: Seq<u8>) -> Result<
    (Seq<SpecValue>, int),
    DeserError,
>
    decreases fs,
{
    if fs.len() == 0 {
        Ok((Seq::empty(), 0))
    } else {
        match spec_decode(fs[0].shape, bytes) {
            Ok((v, n)) => match spec_decode_record(fs.drop_first(), bytes.skip(n)) {
                Ok((vs, m)) => Ok((seq![v] + vs, n + m)),
                Err(e) => Err(e),
            },
            Err(e) => Err(e),
        }
    }
}

pub open spec fn spec_decode_tuple(ss: Seq<Shape>, bytes: Seq<u8>) -> Result<
    (Seq<SpecValue>, int),
    DeserError,
>
    decreases ss,
{
    if ss.len() == 0 {
        Ok((Seq::empty(), 0))
    } else {
        match spec_decode(ss[0], bytes) {
            Ok((v, n)) => match spec_decode_tuple(ss.drop_first(), bytes.skip(n)) {
                Ok((vs, m)) => Ok((seq![v] + vs, n + m)),
                Err(e) => Err(e),
            },
            Err(e) => Err(e),
        }
    }
}

/// The decoder a shape describes, at the spec level: each field is decoded
/// in declaration order against the bytes the previous fields left, and
/// the first failure is the result. On success the model of the decoded
/// value is returned with the exact number of bytes consumed.
pub open spec fn spec_decode(s: Shape, bytes: Seq<u8>) -> Result<(SpecValue, int), DeserError>
    decreases s,
{
    match s {
        Shape::U8 => (match <u8 as Deser>::spec_deser(bytes) {
            Ok((v, n)) => Ok((SpecValue::U8(v), n)),
            Err(e) => Err(e),
        }),
        Shape::I8 => (match <i8 as Deser>::spec_deser(bytes) {
            Ok((v, n)) => Ok((SpecValue::I8(v), n)),
            Err(e) => Err(e),
        }),
        Shape::U16 => (match <u16 as Deser>::spec_deser(bytes) {
            Ok((v, n)) => Ok((SpecValue::U16(v), n)),
            Err(e) => Err(e),
        }),
        Shape::I16 => (match <i16 as Deser>::spec_deser(bytes) {
            Ok((v, n)) => Ok((SpecValue::I16(v), n)),
            Err(e) => Err(e),
        }),
        Shape::U32 => (match <u32 as Deser>::spec_deser(bytes) {
            Ok((v, n)) => Ok((SpecValue::U32(v), n)),
            Err(e) => Err(e),
        }),
        Shape::I32 => (match <i32 as Deser>::spec_deser(bytes) {
            Ok((v, n)) => Ok((SpecValue::I32(v), n)),
            Err(e) => Err(e),
        }),
        Shape::U64 => (match <u64 as Deser>::spec_deser(bytes) {
            Ok((v, n)) => Ok((SpecValue::U64(v), n)),
            Err(e) => Err(e),
        }),
        Shape::I64 => (match <i64 as Deser>::spec_deser(bytes) {
            Ok((v, n)) => Ok((SpecValue::I64(v), n)),
            Err(e) => Err(e),
        }),
        Shape::U128 => (match <u128 as Deser>::spec_deser(bytes) {
            Ok((v, n)) => Ok((SpecValue::U128(v), n)),
            Err(e) => Err(e),
        }),
        Shape::I128 => (match <i128 as Deser>::spec_deser(bytes) {
            Ok((v, n)) => Ok((SpecValue::I128(v), n)),
            Err(e) => Err(e),
        }),
        Shape::Bool => (match <bool as Deser>::spec_deser(bytes) {
            Ok((v, n)) => Ok((SpecValue::Bool(v), n)),
            Err(e) => Err(e),
        }),
        Shape::F32 => (match <F32Bits as Deser>::spec_deser(bytes) {
            Ok((v, n)) => Ok((SpecValue::F32(v), n)),
            Err(e) => Err(e),
        }),
        Shape::F64 => (match <F64Bits as Deser>::spec_deser(bytes) {
            Ok((v, n)) => Ok((SpecValue::F64(v), n)),
            Err(e) => Err(e),
        }),
        Shape::Str => (match <String as Deser>::spec_deser(bytes) {
            Ok((cs, n)) => Ok((SpecValue::Str(cs), n)),
            Err(e) => Err(e),
        }),
        Shape::Record(fs) => (match spec_decode_record(fs@, bytes) {
            Ok((vs, n)) => Ok((SpecValue::Record(vs), n)),
            Err(e) => Err(e),
        }),
        Shape::Tuple(ss) => (match spec_decode_tuple(ss@, bytes) {
            Ok((vs, n)) => Ok((SpecValue::Tuple(vs), n)),
            Err(e) => Err(e),
        }),
    }
}

pub proof fn lemma_ser_fields_snoc(vs: Seq<Value>, v: Value)
    ensures
        spec_ser_fields(vs.push(v)) == spec_ser_fields(vs) + spec_ser_value(v),
    decreases vs,
{
    if vs.len() == 0 {
        assert(vs.push(v)[0] == v);
        assert(vs.push(v).drop_first() =~= Seq::<Value>::empty());
        assert(spec_ser_fields(Seq::<Value>::empty()) == Seq::<u8>::empty());
        assert(spec_ser_fields(vs.push(v)) =~= spec_ser_fields(vs) + spec_ser_value(v));
    } else {
        assert(vs.push(v)[0] == vs[0]);
        assert(vs.push(v).drop_first() =~= vs.drop_first().push(v));
        lemma_ser_fields_snoc(vs.drop_first(), v);
        assert(spec_ser_fields(vs.push(v)) =~= spec_ser_fields(vs) + spec_ser_value(v));
    }
}

/// Declaration-order law: the wire image of a field list is exactly the
/// fields' own wire images concatenated in declaration order, so the bytes
/// before and after any position `i` stand unchanged around the bytes of
/// the fields from `i` on — permuting the declaration order permutes the
/// byte segments the same way, and nothing reorders them.
pub proof fn lemma_ser_fields_split(vs: Seq<Value>, i: int)
    requires
        0 <= i <= vs.len(),
    ensures
        spec_ser_fields(vs) == spec_ser_fields(vs.take(i)) + spec_ser_fields(vs.skip(i)),
    decreases i,
{
    if i == 0 {
        assert(vs.skip(0) =~= vs);
        assert(vs.take(0) =~= Seq::<Value>::empty());
        assert(spec_ser_fields(vs) =~= spec_ser_fields(vs.take(0)) + spec_ser_fields(vs.skip(0)));
    } else {
        assert(vs.take(i).drop_first() =~= vs.drop_first().take(i - 1));
        assert(vs.skip(i) =~= vs.drop_first().skip(i - 1));
        lemma_ser_fields_split(vs.drop_first(), i - 1);
        assert(vs.take(i)[0] == vs[0]);
        assert(spec_ser_fields(vs) =~= spec_ser_fields(vs.take(i)) + spec_ser_fields(vs.skip(i)));
    }
}

/// The byte segment of one field: field `i`'s bytes stand between the
/// concatenated bytes of the fields declared before it and those declared
/// after it, so moving a field in the declaration order moves exactly its
/// segment — the format never reorders fields behind the declaration.
pub proof fn lemma_ser_field_segment(vs: Seq<Value>, i: int)
    requires
        0 <= i < vs.len(),
    ensures
        spec_ser_fields(vs) == spec_ser_fields(vs.take(i)) + spec_ser_value(vs[i])
            + spec_ser_fields(vs.skip(i + 1)),
    decreases vs.len(),
{
    lemma_ser_fields_split(vs, i);
    assert(vs.skip(i)[0] == vs[i]);
    assert(vs.skip(i).drop_first() =~= vs.skip(i + 1));
    assert(spec_ser_fields(vs) =~= spec_ser_fields(vs.take(i)) + spec_ser_value(vs[i])
        + spec_ser_fields(vs.skip(i + 1)));
}

pub proof fn lemma_view_fields_snoc(vs: Seq<Value>, v: Value)
    ensures
        view_fields(vs.push(v)) == view_fields(vs).push(value_view(v)),
    decreases vs,
{
    if vs.len() == 0 {
        assert(vs.push(v)[0] == v);
        assert(vs.push(v).drop_first() =~= Seq::<Value>::empty());
        assert(view_fields(Seq::<Value>::empty()) == Seq::<SpecValue>::empty());
        assert(view_fields(vs.push(v)) =~= view_fields(vs).push(value_view(v)));
    } else {
        assert(vs.push(v)[0] == vs[0]);
        assert(vs.push(v).drop_first() =~= vs.drop_first().push(v));
        lemma_view_fields_snoc(vs.drop_first(), v);
        assert(view_fields(vs.push(v)) =~= view_fields(vs).push(value_view(v)));
    }
}

pub proof fn lemma_len_fields_accuracy(vs: Seq<Value>)
    ensures
        spec_len_fields(vs) == spec_ser_fields(vs).len(),
    decreases vs,
{
    if vs.len() > 0 {
        lemma_len_accuracy(vs[0]);
        lemma_len_fields_accuracy(vs.drop_first());
    }
}

/// Length-accuracy law: the structurally computed encoded length of a
/// value equals the exact number of bytes its encoding occupies, for every
/// value of every supported shape.
pub proof fn lemma_len_accuracy(v: Value)
    ensures
        spec_len_value(v) == spec_ser_value(v).len(),
    decreases v,
{
    crate::le::lemma_pow256_widths();
    match v {
        Value::U8(x) => crate::le::lemma_le_bytes_len(x as nat, 1),
        Value::I8(x) => crate::le::lemma_le_bytes_len(crate::le::to_unsigned(x as int, 1), 1),
        Value::U16(x) => crate::le::lemma_le_bytes_len(x as nat, 2),
        Value::I16(x) => crate::le::lemma_le_bytes_len(crate::le::to_unsigned(x as int, 2), 2),
        Value::U32(x) => crate::le::lemma_le_bytes_len(x as nat, 4),
        Value::I32(x) => crate::le::lemma_le_bytes_len(crate::le::to_unsigned(x as int, 4), 4),
        Value::U64(x) => crate::le::lemma_le_bytes_len(x as nat, 8),
        Value::I64(x) => crate::le::lemma_le_bytes_len(crate::le::to_unsigned(x as int, 8), 8),
        Value::U128(x) => crate::le::lemma_le_bytes_len(x as nat, 16),
        Value::I128(x) => crate::le::lemma_le_bytes_len(crate::le::to_unsigned(x as int, 16), 16),
        Value::Bool(_) => (),
        Value::F32(x) => crate::le::lemma_le_bytes_len(x.0 as nat, 4),
        Value::F64(x) => crate::le::lemma_le_bytes_len(x.0 as nat, 8),
        Value::Str(s) => crate::le::lemma_le_bytes_len(encode_utf8(s@).len(), 8),
        Value::Record(fs) => lemma_len_fields_accuracy(fs@),
        Value::Tuple(fs) => lemma_len_fields_accuracy(fs@),
    }
}

/// Appends the encodings of the given field values to `buf`, in the order
/// they stand in the vector and nothing else.
pub fn encode_fields(fields: &Vec<Value>, buf: &mut Vec<u8>)
    requires
        old(buf)@.len() + spec_ser_fields(fields@).len() <= usize::MAX,
    ensures
        final(buf)@ == old(buf)@ + spec_ser_fields(fields@),
    decreases fields@,
{
    let n = fields.len();
    let mut i: usize = 0;
    while i < n
        invariant
            i <= n,
            n == fields@.len(),
            old(buf)@.len() + spec_ser_fields(fields@).len() <= usize::MAX,
            buf@ == old(buf)@ + spec_ser_fields(fields@.take(i as int)),
        decreases n - i,
    {
        proof {
            lemma_ser_fields_split(fields@, i as int);
            assert(fields@.skip(i as int)[0] == fields@[i as int]);
            assert(fields@.skip(i as int).drop_first() =~= fields@.skip(i + 1));
        }
        encode_value(&fields[i], buf);
        proof {
            lemma_ser_fields_snoc(fields@.take(i as int), fields@[i as int]);
            assert(fields@.take(i + 1) =~= fields@.take(i as int).push(fields@[i as int]));
            assert(buf@ =~= old(buf)@ + spec_ser_fields(fields@.take(i + 1)));
        }
        i += 1;
    }
    proof {
        assert(fields@.take(n as int) =~= fields@);
    }
}

/// Appends the encoding of `v` to `buf`: a primitive writes its own bytes,
/// a composite writes its fields in declaration order. Encoding never
/// fails; the buffer only grows.
pub fn encode_value(v: &Value, buf: &mut Vec<u8>)
    requires
        old(buf)@.len() + spec_ser_value(*v).len() <= usize::MAX,
    ensures
        final(buf)@ == old(buf)@ + spec_ser_value(*v),
    decreases *v,
{
    match v {
        Value::U8(x) => x.ser(buf),
        Value::I8(x) => x.ser(buf),
        Value::U16(x) => x.ser(buf),
        Value::I16(x) => x.ser(buf),
        Value::U32(x) => x.ser(buf),
        Value::I32(x) => x.ser(buf),
        Value::U64(x) => x.ser(buf),
        Value::I64(x) => x.ser(buf),
        Value::U128(x) => x.ser(buf),
        Value::I128(x) => x.ser(buf),
        Value::Bool(x) => x.ser(buf),
        Value::F32(x) => x.ser(buf),
        Value::F64(x) => x.ser(buf),
        Value::Str(s) => s.ser(buf),
        Value::Record(fields) => encode_fields(fields, buf),
        Value::Tuple(fields) => encode_fields(fields, buf),
    }
}

/// The exact number of bytes the given field values encode to, computed
/// field by field without encoding.
pub fn fields_len(fields: &Vec<Value>) -> (n: usize)
    requires
        spec_ser_fields(fields@).len() <= usize::MAX,
    ensures
        n == spec_ser_fields(fields@).len(),
    decreases fields@,
{
    let count = fields.len();
    let mut total: usize = 0;
    let mut i: usize = 0;
    while i < count
        invariant
            i <= count,
            count == fields@.len(),
            spec_ser_fields(fields@).len() <= usize::MAX,
            total == spec_ser_fields(fields@.take(i as int)).len(),
        decreases count - i,
    {
        proof {
            lemma_ser_fields_split(fields@, i as int);
            assert(fields@.skip(i as int)[0] == fields@[i as int]);
            assert(fields@.skip(i as int).drop_first() =~= fields@.skip(i + 1));
        }
        let l = value_len(&fields[i]);
        total = total + l;
        proof {
            lemma_ser_fields_snoc(fields@.take(i as int), fields@[i as int]);
            assert(fields@.take(i + 1) =~= fields@.take(i as int).push(fields@[i as int]));
        }
        i += 1;
    }
    proof {
        assert(fields@.take(count as int) =~= fields@);
    }
    total
}

/// The exact number of bytes `encode_value` would append for `v`, computed
/// structurally, without encoding.
pub fn value_len(v: &Value) -> (n: usize)
    requires
        spec_ser_value(*v).len() <= usize::MAX,
    ensures
        n == spec_ser_value(*v).len(),
    decreases *v,
{
    match v {
        Value::U8(x) => x.ser_len(),
        Value::I8(x) => x.ser_len(),
        Value::U16(x) => x.ser_len(),
        Value::I16(x) => x.ser_len(),
        Value::U32(x) => x.ser_len(),
        Value::I32(x) => x.ser_len(),
        Value::U64(x) => x.ser_len(),
        Value::I64(x) => x.ser_len(),
        Value::U128(x) => x.ser_len(),
        Value::I128(x) => x.ser_len(),
        Value::Bool(x) => x.ser_len(),
        Value::F32(x) => x.ser_len(),
        Value::F64(x) => x.ser_len(),
        Value::Str(s) => s.ser_len(),
        Value::Record(fields) => fields_len(fields),
        Value::Tuple(fields) => fields_len(fields),
    }
}

impl Ser for Value {
    open spec fn spec_ser(&self) -> Seq<u8> {
        spec_ser_value(*self)
    }

    fn ser(&self, buf: &mut Vec<u8>) {
        encode_value(self, buf)
    }

    fn ser_len(&self) -> (n: usize) {
        value_len(self)
    }
}

/// Decodes one value per field descriptor, in declaration order, each
/// against the bytes the previous fields left; stops at the first failure
/// and returns it, assembling no partial composite.
fn decode_fields_record(fs: &Vec<Field>, buf: &[u8], pos: usize) -> (r: Result<
    (Vec<Value>, usize),
    DeserError,
>)
    requires
        pos <= buf@.len(),
    ensures
        (match r {
            Ok(p) => {
                &&& pos <= p.1 <= buf@.len()
                &&& spec_decode_record(fs@, buf@.skip(pos as int)) == Ok::<
                    (Seq<SpecValue>, int),
                    DeserError,
                >((view_fields(p.0@), p.1 - pos))
            },
            Err(e) => spec_decode_record(fs@, buf@.skip(pos as int)) == Err::<
                (Seq<SpecValue>, int),
                DeserError,
            >(e),
        }),
    decreases fs@,
{
    let count = fs.len();
    let mut vals: Vec<Value> = Vec::new();
    let mut p = pos;
    let mut i: usize = 0;
    proof {
        assert(fs@.skip(0) =~= fs@);
        match spec_decode_record(fs@, buf@.skip(pos as int)) {
            Ok(rq) => {
                assert(Seq::<SpecValue>::empty() + rq.0 =~= rq.0);
            },
            Err(_) => {},
        }
    }
    while i < count
        invariant
            pos <= p <= buf@.len(),
            i <= count,
            count == fs@.len(),
            (match spec_decode_record(fs@.skip(i as int), buf@.skip(p as int)) {
                Ok(rq) => spec_decode_record(fs@, buf@.skip(pos as int)) == Ok::<
                    (Seq<SpecValue>, int),
                    DeserError,
                >((view_fields(vals@) + rq.0, (p - pos) + rq.1)),
                Err(e) => spec_decode_record(fs@, buf@.skip(pos as int)) == Err::<
                    (Seq<SpecValue>, int),
                    DeserError,
                >(e),
            }),
        decreases count - i,
    {
        proof {
            assert(fs@.skip(i as int)[0] == fs@[i as int]);
            assert(fs@.skip(i as int).drop_first() =~= fs@.skip(i + 1));
        }
        match decode_value(&fs[i].shape, buf, p) {
            Err(e) => {
                return Err(e);
            },
            Ok((v, np)) => {
                proof {
                    let ghost prev = view_fields(vals@);
                    assert(buf@.skip(p as int).skip(np - p) =~= buf@.skip(np as int));
                    lemma_view_fields_snoc(vals@, v);
                    match spec_decode_record(fs@.skip(i + 1), buf@.skip(np as int)) {
                        Ok(rq2) => {
                            assert(prev + (seq![value_view(v)] + rq2.0) =~= prev.push(
                                value_view(v),
                            ) + rq2.0);
                        },
                        Err(_) => {},
                    }
                }
                vals.push(v);
                p = np;
                i += 1;
            },
        }
    }
    proof {
        assert(fs@.skip(count as int) =~= Seq::<Field>::empty());
        assert(spec_decode_record(Seq::<Field>::empty(), buf@.skip(p as int)) == Ok::<
            (Seq<SpecValue>, int),
            DeserError,
        >((Seq::<SpecValue>::empty(), 0)));
        assert(view_fields(vals@) + Seq::<SpecValue>::empty() =~= view_fields(vals@));
    }
    Ok((vals, p))
}

/// As `decode_fields_record`, for the positional variant: the same
/// iteration and error propagation, fields addressed by position alone.
fn decode_fields_tuple(ss: &Vec<Shape>, buf: &[u8], pos: usize) -> (r: Result<
    (Vec<Value>, usize),
    DeserError,
>)
    requires
        pos <= buf@.len(),
    ensures
        (match r {
            Ok(p) => {
                &&& pos <= p.1 <= buf@.len()
                &&& spec_decode_tuple(ss@, buf@.skip(pos as int)) == Ok::<
                    (Seq<SpecValue>, int),
                    DeserError,
                >((view_fields(p.0@), p.1 - pos))
            },
            Err(e) => spec_decode_tuple(ss@, buf@.skip(pos as int)) == Err::<
                (Seq<SpecValue>, int),
                DeserError,
            >(e),
        }),
    decreases ss@,
{
    let count = ss.len();
    let mut vals: Vec<Value> = Vec::new();
    let mut p = pos;
    let mut i: usize = 0;
    proof {
        assert(ss@.skip(0) =~= ss@);
        match spec_decode_tuple(ss@, buf@.skip(pos as int)) {
            Ok(rq) => {
                assert(Seq::<SpecValue>::empty() + rq.0 =~= rq.0);
            },
            Err(_) => {},
        }
    }
    while i < count
        invariant
            pos <= p <= buf@.len(),
            i <= count,
            count == ss@.len(),
            (match spec_decode_tuple(ss@.skip(i as int), buf@.skip(p as int)) {
                Ok(rq) => spec_decode_tuple(ss@, buf@.skip(pos as int)) == Ok::<
                    (Seq<SpecValue>, int),
                    DeserError,
                >((view_fields(vals@) + rq.0, (p - pos) + rq.1)),
                Err(e) => spec_decode_tuple(ss@, buf@.skip(pos as int)) == Err::<
                    (Seq<SpecValue>, int),
                    DeserError,
                >(e),
            }),
        decreases count - i,
    {
        proof {
            assert(ss@.skip(i as int)[0] == ss@[i as int]);
            assert(ss@.skip(i as int).drop_first() =~= ss@.skip(i + 1));
        }
        match decode_value(&ss[i], buf, p) {
            Err(e) => {
                return Err(e);
            },
            Ok((v, np)) => {
                proof {
                    let ghost prev = view_fields(vals@);
                    assert(buf@.skip(p as int).skip(np - p) =~= buf@.skip(np as int));
                    lemma_view_fields_snoc(vals@, v);
                    match spec_decode_tuple(ss@.skip(i + 1), buf@.skip(np as int)) {
                        Ok(rq2) => {
                            assert(prev + (seq![value_view(v)] + rq2.0) =~= prev.push(
                                value_view(v),
                            ) + rq2.0);
                        },
                        Err(_) => {},
                    }
                }
                vals.push(v);
                p = np;
                i += 1;
            },
        }
    }
    proof {
        assert(ss@.skip(count as int) =~= Seq::<Shape>::empty());
        assert(spec_decode_tuple(Seq::<Shape>::empty(), buf@.skip(p as int)) == Ok::<
            (Seq<SpecValue>, int),
            DeserError,
        >((Seq::<SpecValue>::empty(), 0)));
        assert(view_fields(vals@) + Seq::<SpecValue>::empty() =~= view_fields(vals@));
    }
    Ok((vals, p))
}

/// Decodes one value of the given shape from `buf`, starting at `pos`:
/// a primitive reads its own bytes, a composite decodes its fields in
/// declaration order and assembles them. Returns the value and the
/// position just past the bytes it consumed; consumes exactly the bytes
/// the value's fields occupy.
pub fn decode_value(shape: &Shape, buf: &[u8], pos: usize) -> (r: Result<
    (Value, usize),
    DeserError,
>)
    requires
        pos <= buf@.len(),
    ensures
        (match r {
            Ok(p) => {
                &&& pos <= p.1 <= buf@.len()
                &&& spec_decode(*shape, buf@.skip(pos as int)) == Ok::<
                    (SpecValue, int),
                    DeserError,
                >((p.0@, p.1 - pos))
            },
            Err(e) => spec_decode(*shape, buf@.skip(pos as int)) == Err::<
                (SpecValue, int),
                DeserError,
            >(e),
        }),
    decreases *shape,
{
    match shape {
        Shape::U8 => (match <u8 as Deser>::deser(buf, pos) {
            Ok((v, end)) => Ok((Value::U8(v), end)),
            Err(e) => Err(e),
        }),
        Shape::I8 => (match <i8 as Deser>::deser(buf, pos) {
            Ok((v, end)) => Ok((Value::I8(v), end)),
            Err(e) => Err(e),
        }),
        Shape::U16 => (match <u16 as Deser>::deser(buf, pos) {
            Ok((v, end)) => Ok((Value::U16(v), end)),
            Err(e) => Err(e),
        }),
        Shape::I16 => (match <i16 as Deser>::deser(buf, pos) {
            Ok((v, end)) => Ok((Value::I16(v), end)),
            Err(e) => Err(e),
        }),
        Shape::U32 => (match <u32 as Deser>::deser(buf, pos) {
            Ok((v, end)) => Ok((Value::U32(v), end)),
            Err(e) => Err(e),
        }),
        Shape::I32 => (match <i32 as Deser>::deser(buf, pos) {
            Ok((v, end)) => Ok((Value::I32(v), end)),
            Err(e) => Err(e),
        }),
        Shape::U64 => (match <u64 as Deser>::deser(buf, pos) {
            Ok((v, end)) => Ok((Value::U64(v), end)),
            Err(e) => Err(e),
        }),
        Shape::I64 => (match <i64 as Deser>::deser(buf, pos) {
            Ok((v, end)) => Ok((Value::I64(v), end)),
            Err(e) => Err(e),
        }),
        Shape::U128 => (match <u128 as Deser>::deser(buf, pos) {
            Ok((v, end)) => Ok((Value::U128(v), end)),
            Err(e) => Err(e),
        }),
        Shape::I128 => (match <i128 as Deser>::deser(buf, pos) {
            Ok((v, end)) => Ok((Value::I128(v), end)),
            Err(e) => Err(e),
        }),
        Shape::Bool => (match <bool as Deser>::deser(buf, pos) {
            Ok((v, end)) => Ok((Value::Bool(v), end)),
            Err(e) => Err(e),
        }),
        Shape::F32 => (match <F32Bits as Deser>::deser(buf, pos) {
            Ok((v, end)) => Ok((Value::F32(v), end)),
            Err(e) => Err(e),
        }),
        Shape::F64 => (match <F64Bits as Deser>::deser(buf, pos) {
            Ok((v, end)) => Ok((Value::F64(v), end)),
            Err(e) => Err(e),
        }),
        Shape::Str => (match <String as Deser>::deser(buf, pos) {
            Ok((v, end)) => Ok((Value::Str(v), end)),
            Err(e) => Err(e),
        }),
        Shape::Record(fs) => (match decode_fields_record(fs, buf, pos) {
            Ok((vals, end)) => Ok((Value::Record(vals), end)),
            Err(e) => Err(e),
        }),
        Shape::Tuple(ss) => (match decode_fields_tuple(ss, buf, pos) {
            Ok((vals, end)) => Ok((Value::Tuple(vals), end)),
            Err(e) => Err(e),
        }),
    }
}

pub proof fn lemma_fields_round_trip_record(vs: Seq<Value>, fs: Seq<Field>, rest: Seq<u8>)
    requires
        fields_match_record(vs, fs),
        wf_fields(vs),
    ensures
        spec_decode_record(fs, spec_ser_fields(vs) + rest) == Ok::<(Seq<SpecValue>, int), DeserError>(
            (view_fields(vs), spec_ser_fields(vs).len() as int),
        ),
    decreases vs,
{
    if vs.len() == 0 {
        assert(spec_ser_fields(vs) + rest =~= rest);
    } else {
        let hb = spec_ser_value(vs[0]);
        let tb = spec_ser_fields(vs.drop_first());
        let bytes = spec_ser_fields(vs) + rest;
        assert(bytes =~= hb + (tb + rest));
        lemma_value_round_trip(vs[0], fs[0].shape, tb + rest);
        assert(bytes.skip(hb.len() as int) =~= tb + rest);
        lemma_fields_round_trip_record(vs.drop_first(), fs.drop_first(), rest);
    }
}

pub proof fn lemma_fields_round_trip_tuple(vs: Seq<Value>, ss: Seq<Shape>, rest: Seq<u8>)
    requires
        fields_match_tuple(vs, ss),
        wf_fields(vs),
    ensures
        spec_decode_tuple(ss, spec_ser_fields(vs) + rest) == Ok::<(Seq<SpecValue>, int), DeserError>(
            (view_fields(vs), spec_ser_fields(vs).len() as int),
        ),
    decreases vs,
{
    if vs.len() == 0 {
        assert(spec_ser_fields(vs) + rest =~= rest);
    } else {
        let hb = spec_ser_value(vs[0]);
        let tb = spec_ser_fields(vs.drop_first());
        let bytes = spec_ser_fields(vs) + rest;
        assert(bytes =~= hb + (tb + rest));
        lemma_value_round_trip(vs[0], ss[0], tb + rest);
        assert(bytes.skip(hb.len() as int) =~= tb + rest);
        lemma_fields_round_trip_tuple(vs.drop_first(), ss.drop_first(), rest);
    }
}

/// Round-trip law: decoding the encoding of any value of any supported
/// shape, against that shape, yields the value's model back and consumes
/// exactly the encoded bytes — whatever bytes follow them on the stream.
/// The well-formedness bound is what any value a process can hold
/// satisfies (string byte lengths fit their 8-byte prefix).
pub proof fn lemma_value_round_trip(v: Value, s: Shape, rest: Seq<u8>)
    requires
        has_shape(v, s),
        wf_value(v),
    ensures
        spec_decode(s, spec_ser_value(v) + rest) == Ok::<(SpecValue, int), DeserError>(
            (value_view(v), spec_ser_value(v).len() as int),
        ),
    decreases v,
{
    lemma_len_accuracy(v);
    match v {
        Value::U8(x) => lemma_round_trip_u8(x, rest),
        Value::I8(x) => lemma_round_trip_i8(x, rest),
        Value::U16(x) => lemma_round_trip_u16(x, rest),
        Value::I16(x) => lemma_round_trip_i16(x, rest),
        Value::U32(x) => lemma_round_trip_u32(x, rest),
        Value::I32(x) => lemma_round_trip_i32(x, rest),
        Value::U64(x) => lemma_round_trip_u64(x, rest),
        Value::I64(x) => lemma_round_trip_i64(x, rest),
        Value::U128(x) => lemma_round_trip_u128(x, rest),
        Value::I128(x) => lemma_round_trip_i128(x, rest),
        Value::Bool(x) => lemma_round_trip_bool(x, rest),
        Value::F32(x) => lemma_round_trip_f32_bits(x, rest),
        Value::F64(x) => lemma_round_trip_f64_bits(x, rest),
        Value::Str(st) => lemma_round_trip_string(st, rest),
        Value::Record(fields) => {
            match s {
                Shape::Record(fs) => lemma_fields_round_trip_record(fields@, fs@, rest),
                _ => assert(false),
            }
        },
        Value::Tuple(fields) => {
            match s {
                Shape::Tuple(ss) => lemma_fields_round_trip_tuple(fields@, ss@, rest),
                _ => assert(false),
            }
        },
    }
}

} // verus!

