//! The field codec: byte-exact conversion between a payload buffer and a
//! field-value tuple for one schema.
//!
//! Every scalar travels as the unsigned little-endian bit pattern of its
//! storage type, widened to `u64` (signed and float values keep their bit
//! patterns).  Fields are written in declaration order at their cumulative
//! offsets; arrays are contiguous runs of equally wide elements.

use vstd::prelude::*;
use crate::errors::DecodeError;
use crate::schema::{
    FieldSpec, FieldType, PacketSchema, DeclaredLen, kind_width, kind_bound, type_width,
    fields_width, total_width, schema_wf, field_wf, lemma_fields_width_mono,
};
use crate::wire::{
    le_bytes_of, le_value, lemma_le_bytes_len, lemma_le_round_trip, read_le, write_le,
};
use crate::enums::ReservedPolicy;

verus! {

/// The value of one field: a scalar's raw bits widened to `u64`, or a
/// fixed-size array of such scalars.
#[derive(Clone, Debug, PartialEq, Eq)]
pub enum FieldValue {
    Scalar(u64),
    Array(Vec<u64>),
}

/// The mathematical value of one field.
pub enum FieldVal {
    Scalar(u64),
    Array(Seq<u64>),
}

impl View for FieldValue {
    type V = FieldVal;

    open spec fn view(&self) -> FieldVal {
        match self {
            FieldValue::Scalar(x) => FieldVal::Scalar(*x),
            FieldValue::Array(xs) => FieldVal::Array(xs@),
        }
    }
}

/// The mathematical values of a field-value tuple.
pub open spec fn views_of(vs: Seq<FieldValue>) -> Seq<FieldVal> {
    vs.map_values(|v: FieldValue| v@)
}

/// Whether a value has the shape and width its field type asks for: a
/// scalar below the kind's bound, or an array of exactly the declared
/// element count, each element below the bound.  Enum membership is *not*
/// required: encoding a raw value the registry would reject on decode is
/// permitted.
pub open spec fn value_valid(t: FieldType, v: FieldVal) -> bool {
    match t {
        FieldType::Scalar(k) => v is Scalar && v->Scalar_0 < kind_bound(k),
        FieldType::Array(k, n) => {
            &&& v is Array
            &&& v->Array_0.len() == n
            &&& forall|j: int| 0 <= j < v->Array_0.len() ==> #[trigger] v->Array_0[j] < kind_bound(k)
        },
    }
}

/// Whether a value tuple matches a field list, field for field.
pub open spec fn values_valid(fields: Seq<FieldSpec>, vs: Seq<FieldVal>) -> bool {
    &&& vs.len() == fields.len()
    &&& forall|i: int| 0 <= i < fields.len() ==> value_valid(fields[i].ty, #[trigger] vs[i])
}

/// The bytes of the first `n` array elements, little-endian, in order.
pub open spec fn encode_elems(xs: Seq<u64>, w: nat, n: int) -> Seq<u8>
    decreases n,
{
    if n <= 0 {
        Seq::empty()
    } else {
        encode_elems(xs, w, n - 1) + le_bytes_of(xs[n - 1] as int, w)
    }
}

/// The bytes of one field value under its field type.
pub open spec fn encode_value(t: FieldType, v: FieldVal) -> Seq<u8> {
    match t {
        FieldType::Scalar(k) => le_bytes_of(v->Scalar_0 as int, kind_width(k)),
        FieldType::Array(k, n) => encode_elems(v->Array_0, kind_width(k), n as int),
    }
}

/// The bytes of the first `n` fields of a tuple, concatenated in
/// declaration order.
pub open spec fn encode_prefix(fields: Seq<FieldSpec>, vs: Seq<FieldVal>, n: int) -> Seq<u8>
    decreases n,
{
    if n <= 0 {
        Seq::empty()
    } else {
        encode_prefix(fields, vs, n - 1) + encode_value(fields[n - 1].ty, vs[n - 1])
    }
}

/// The whole encoded payload of a value tuple.
pub open spec fn encode_fields(fields: Seq<FieldSpec>, vs: Seq<FieldVal>) -> Seq<u8> {
    encode_prefix(fields, vs, fields.len() as int)
}

/// The scalar decoded from the `w` bytes at `off`.
pub open spec fn decoded_scalar(bytes: Seq<u8>, off: int, w: nat) -> u64 {
    le_value(bytes.subrange(off, off + w)) as u64
}

/// The value decoded for one field type from its bytes at `off`.
pub open spec fn decode_value_at(t: FieldType, bytes: Seq<u8>, off: int) -> FieldVal {
    match t {
        FieldType::Scalar(k) => FieldVal::Scalar(decoded_scalar(bytes, off, kind_width(k))),
        FieldType::Array(k, n) => FieldVal::Array(
            Seq::new(n as nat, |j: int| decoded_scalar(bytes, off + j * kind_width(k), kind_width(k))),
        ),
    }
}

/// The tuple decoded from a payload: each field read at its cumulative
/// offset.
pub open spec fn decode_fields(fields: Seq<FieldSpec>, bytes: Seq<u8>) -> Seq<FieldVal> {
    Seq::new(fields.len(), |i: int| decode_value_at(fields[i].ty, bytes, fields_width(fields, i) as int))
}

/// The raw value of field `i` if it is a strict enum-mapped field holding
/// a value outside its valid set.
pub open spec fn strict_violation(fields: Seq<FieldSpec>, bytes: Seq<u8>, i: int) -> Option<u64> {
    match fields[i].mapping {
        Some(m) => {
            let raw = decoded_scalar(bytes, fields_width(fields, i) as int, kind_width(fields[i].ty->Scalar_0));
            if m.policy is Strict && !m.valid@.contains(raw) {
                Some(raw)
            } else {
                None
            }
        },
        None => None,
    }
}

/// The first strict enum violation at or after field `i`, scanning in
/// declaration order.
pub open spec fn enum_error_from(fields: Seq<FieldSpec>, bytes: Seq<u8>, i: int) -> Option<u64>
    decreases fields.len() - i,
{
    if i < 0 || i >= fields.len() {
        None
    } else {
        match strict_violation(fields, bytes, i) {
            Some(raw) => Some(raw),
            None => enum_error_from(fields, bytes, i + 1),
        }
    }
}

/// What decoding a payload against a schema yields: a length error when
/// the payload size disagrees with the declared length, the first strict
/// enum violation in declaration order, or the decoded tuple.
/// Whether a payload's size agrees with the schema's declared length:
/// exactly the fixed length, or between the fields' width and the maximum.
pub open spec fn len_check(s: PacketSchema, payload: Seq<u8>) -> Result<(), DecodeError> {
    match s.declared_len {
        DeclaredLen::Fixed(n) => if payload.len() < n {
            Err(DecodeError::PayloadTooShort)
        } else if payload.len() > n {
            Err(DecodeError::PayloadLengthMismatch)
        } else {
            Ok(())
        },
        DeclaredLen::Max(n) => if payload.len() < total_width(s.fields@) {
            Err(DecodeError::PayloadTooShort)
        } else if payload.len() > n {
            Err(DecodeError::PayloadLengthMismatch)
        } else {
            Ok(())
        },
    }
}

pub open spec fn decode_result(s: PacketSchema, payload: Seq<u8>) -> Result<
    Seq<FieldVal>,
    DecodeError,
> {
    match len_check(s, payload) {
        Err(e) => Err(e),
        Ok(_) => match enum_error_from(s.fields@, payload, 0) {
            Some(raw) => Err(DecodeError::InvalidEnumValue(raw)),
            None => Ok(decode_fields(s.fields@, payload)),
        },
    }
}

/// An encoded element run has exactly `n * w` bytes.
pub proof fn lemma_encode_elems_len(xs: Seq<u64>, w: nat, n: int)
    requires
        n >= 0,
    ensures
        encode_elems(xs, w, n).len() == n * w,
    decreases n,
{
    if n > 0 {
        lemma_encode_elems_len(xs, w, n - 1);
        lemma_le_bytes_len(xs[n - 1] as int, w);
        assert((n - 1) * w + w == n * w) by (nonlinear_arith);
    } else {
        assert(n * w == 0) by (nonlinear_arith)
            requires
                n == 0,
        ;
    }
}

/// An encoded value has exactly its field type's width.
pub proof fn lemma_encode_value_len(t: FieldType, v: FieldVal)
    ensures
        encode_value(t, v).len() == type_width(t),
{
    match t {
        FieldType::Scalar(k) => {
            lemma_le_bytes_len(v->Scalar_0 as int, kind_width(k));
        },
        FieldType::Array(k, n) => {
            lemma_encode_elems_len(v->Array_0, kind_width(k), n as int);
            assert((n as int) * (kind_width(k) as int) == kind_width(k) * (n as nat))
                by (nonlinear_arith);
        },
    }
}

/// The first `n` encoded fields occupy exactly the first `n` fields'
/// cumulative width.
pub proof fn lemma_encode_prefix_len(fields: Seq<FieldSpec>, vs: Seq<FieldVal>, n: int)
    requires
        n >= 0,
    ensures
        encode_prefix(fields, vs, n).len() == fields_width(fields, n),
    decreases n,
{
    if n > 0 {
        lemma_encode_prefix_len(fields, vs, n - 1);
        lemma_encode_value_len(fields[n - 1].ty, vs[n - 1]);
    }
}

/// A shorter encoded prefix is a prefix of a longer one, byte for byte.
pub proof fn lemma_encode_prefix_extends(fields: Seq<FieldSpec>, vs: Seq<FieldVal>, a: int, b: int)
    requires
        0 <= a <= b,
    ensures
        forall|j: int|
            0 <= j < fields_width(fields, a) ==> #[trigger] encode_prefix(fields, vs, b)[j]
                == encode_prefix(fields, vs, a)[j],
    decreases b - a,
{
    lemma_encode_prefix_len(fields, vs, a);
    lemma_encode_prefix_len(fields, vs, b);
    if a < b {
        lemma_encode_prefix_extends(fields, vs, a, b - 1);
        lemma_encode_prefix_len(fields, vs, b - 1);
        lemma_fields_width_mono(fields, a, b - 1);
    }
}

/// In the whole encoded payload, field `i`'s bytes stand exactly at its
/// offset.
pub proof fn lemma_encode_field_slice(fields: Seq<FieldSpec>, vs: Seq<FieldVal>, i: int)
    requires
        0 <= i < fields.len(),
    ensures
        encode_fields(fields, vs).subrange(
            fields_width(fields, i) as int,
            fields_width(fields, i) + type_width(fields[i].ty) as int,
        ) == encode_value(fields[i].ty, vs[i]),
{
    let off = fields_width(fields, i) as int;
    let w = type_width(fields[i].ty) as int;
    let full = encode_fields(fields, vs);
    lemma_encode_prefix_len(fields, vs, i);
    lemma_encode_prefix_len(fields, vs, i + 1);
    lemma_encode_prefix_len(fields, vs, fields.len() as int);
    lemma_encode_value_len(fields[i].ty, vs[i]);
    lemma_fields_width_mono(fields, i + 1, fields.len() as int);
    lemma_encode_prefix_extends(fields, vs, i + 1, fields.len() as int);
    assert(full.subrange(off, off + w) =~= encode_value(fields[i].ty, vs[i])) by {
        assert(forall|j: int| 0 <= j < w ==> #[trigger] full[off + j]
            == encode_prefix(fields, vs, i + 1)[off + j]);
        assert(forall|j: int| 0 <= j < w
            ==> encode_prefix(fields, vs, i + 1)[off + j]
                == encode_value(fields[i].ty, vs[i])[j]);
    }
}

/// Within an encoded element run, element `j`'s bytes stand at `j * w`.
pub proof fn lemma_encode_elems_slice(xs: Seq<u64>, w: nat, n: int, j: int)
    requires
        0 <= j < n,
    ensures
        encode_elems(xs, w, n).subrange(j * w, j * w + w) == le_bytes_of(xs[j] as int, w),
    decreases n,
{
    lemma_encode_elems_len(xs, w, n);
    lemma_le_bytes_len(xs[n - 1] as int, w);
    if j == n - 1 {
        lemma_encode_elems_len(xs, w, n - 1);
        assert(encode_elems(xs, w, n).subrange(j * w, j * w + w)
            =~= le_bytes_of(xs[j] as int, w)) by {
            assert((n - 1) * w == encode_elems(xs, w, n - 1).len());
        }
    } else {
        lemma_encode_elems_slice(xs, w, n - 1, j);
        lemma_encode_elems_len(xs, w, n - 1);
        assert(j * w + w <= (n - 1) * w) by (nonlinear_arith)
            requires
                j < n - 1,
                w >= 0,
        ;
        assert(encode_elems(xs, w, n).subrange(j * w, j * w + w)
            =~= encode_elems(xs, w, n - 1).subrange(j * w, j * w + w));
    }
}

/// Decoding inverts encoding for one field: reading an encoded valid value
/// back at offset zero yields the value.
pub proof fn lemma_value_round_trip(t: FieldType, v: FieldVal, bytes: Seq<u8>, off: int)
    requires
        value_valid(t, v),
        0 <= off,
        off + type_width(t) <= bytes.len(),
        bytes.subrange(off, off + type_width(t)) == encode_value(t, v),
    ensures
        decode_value_at(t, bytes, off) == v,
{
    match t {
        FieldType::Scalar(k) => {
            lemma_le_round_trip(v->Scalar_0 as int, kind_width(k));
        },
        FieldType::Array(k, n) => {
            let w = kind_width(k);
            let xs = v->Array_0;
            let enc = encode_elems(xs, w, n as int);
            lemma_encode_elems_len(xs, w, n as int);
            assert forall|j: int| 0 <= j < n implies decoded_scalar(bytes, off + j * w, w)
                == xs[j] by {
                lemma_encode_elems_slice(xs, w, n as int, j);
                lemma_le_round_trip(xs[j] as int, w);
                assert(0 <= j * w && j * w + w <= n * w) by (nonlinear_arith)
                    requires
                        0 <= j < n,
                        w >= 1 || w >= 0,
                ;
                assert(bytes.subrange(off + j * w, off + j * w + w)
                    =~= enc.subrange(j * w, j * w + w)) by {
                    assert(forall|p: int| 0 <= p < w
                        ==> #[trigger] bytes.subrange(off + j * w, off + j * w + w)[p]
                            == bytes[off + j * w + p]);
                    assert(forall|p: int| 0 <= p < type_width(t)
                        ==> #[trigger] bytes.subrange(off, off + type_width(t) as int)[p]
                            == bytes[off + p]);
                }
            }
            assert(decode_value_at(t, bytes, off)->Array_0 =~= xs);
        },
    }
}

/// Round trip: decoding the encoded payload of any valid value tuple
/// yields the tuple again, field for field.
pub proof fn lemma_decode_encode(fields: Seq<FieldSpec>, vs: Seq<FieldVal>)
    requires
        values_valid(fields, vs),
    ensures
        decode_fields(fields, encode_fields(fields, vs)) =~= vs,
{
    let bytes = encode_fields(fields, vs);
    lemma_encode_prefix_len(fields, vs, fields.len() as int);
    assert forall|i: int| 0 <= i < fields.len() implies decode_fields(fields, bytes)[i]
        == vs[i] by {
        lemma_encode_field_slice(fields, vs, i);
        lemma_fields_width_mono(fields, i + 1, fields.len() as int);
        lemma_value_round_trip(
            fields[i].ty,
            vs[i],
            bytes,
            fields_width(fields, i) as int,
        );
    }
}

/// The first strict enum violation is the same whether scanning starts at
/// the front or after a clean prefix.
pub proof fn lemma_enum_error_skip(fields: Seq<FieldSpec>, bytes: Seq<u8>, i: int)
    requires
        0 <= i <= fields.len(),
        forall|k: int| 0 <= k < i ==> #[trigger] strict_violation(fields, bytes, k) is None,
    ensures
        enum_error_from(fields, bytes, 0) == enum_error_from(fields, bytes, i),
    decreases i,
{
    if i > 0 {
        lemma_enum_error_skip(fields, bytes, i - 1);
    }
}

impl PacketSchema {
    /// Encode a value tuple into its payload bytes: each field in
    /// declaration order at its offset, little-endian, enums written as
    /// their raw integer.  Encoding never fails for values that satisfy
    /// the schema; enum membership is not revalidated.
    pub fn encode(&self, values: &Vec<FieldValue>) -> (out: Vec<u8>)
        requires
            schema_wf(*self),
            values_valid(self.fields@, views_of(values@)),
        ensures
            out@ == encode_fields(self.fields@, views_of(values@)),
            out@.len() == total_width(self.fields@),
    {
        let mut out: Vec<u8> = Vec::new();
        let mut i: usize = 0;
        while i < self.fields.len()
            invariant
                i <= self.fields@.len(),
                schema_wf(*self),
                values_valid(self.fields@, views_of(values@)),
                values@.len() == self.fields@.len(),
                out@ == encode_prefix(self.fields@, views_of(values@), i as int),
            decreases self.fields@.len() - i,
        {
            let ghost vs = views_of(values@);
            proof {
                assert(vs[i as int] == values@[i as int]@);
                assert(value_valid(self.fields@[i as int].ty, vs[i as int]));
            }
            match (&self.fields[i].ty, &values[i]) {
                (FieldType::Scalar(k), FieldValue::Scalar(x)) => {
                    write_le(&mut out, *x, k.width());
                },
                (FieldType::Array(k, n), FieldValue::Array(xs)) => {
                    let w = k.width();
                    let ghost pre = out@;
                    let mut j: usize = 0;
                    while j < xs.len()
                        invariant
                            j <= xs@.len(),
                            w == kind_width(*k),
                            out@ == pre + encode_elems(xs@, w as nat, j as int),
                        decreases xs@.len() - j,
                    {
                        write_le(&mut out, xs[j], w);
                        proof {
                            assert(out@ =~= pre + encode_elems(xs@, w as nat, j + 1));
                        }
                        j = j + 1;
                    }
                    proof {
                        assert(xs@.len() == *n);
                        assert(encode_value(self.fields@[i as int].ty, vs[i as int])
                            == encode_elems(xs@, w as nat, *n as int));
                    }
                },
                _ => {
                    proof {
                        assert(false);
                    }
                    vstd::pervasive::unreached::<()>()
                },
            }
            proof {
                assert(out@ =~= encode_prefix(self.fields@, views_of(values@), i + 1));
            }
            i = i + 1;
        }
        proof {
            lemma_encode_prefix_len(self.fields@, views_of(values@), self.fields@.len() as int);
        }
        out
    }

    /// Decode a payload against this schema: verify its size against the
    /// declared length, read each field at its computed offset, and reject
    /// the first strict enum-mapped field holding a raw value outside its
    /// valid set.  Under the lenient policy raw values pass through
    /// unchanged; [`crate::enums::EnumMapping::decode`] turns them into
    /// variants.
    pub fn decode(&self, payload: &[u8]) -> (r: Result<Vec<FieldValue>, DecodeError>)
        requires
            schema_wf(*self),
        ensures
            match r {
                Ok(vals) => decode_result(*self, payload@) == Ok::<Seq<FieldVal>, DecodeError>(
                    views_of(vals@),
                ),
                Err(e) => decode_result(*self, payload@) == Err::<Seq<FieldVal>, DecodeError>(e),
            },
    {
        let tw = self.payload_width();
        match self.declared_len() {
            DeclaredLen::Fixed(n) => {
                if payload.len() < n as usize {
                    return Err(DecodeError::PayloadTooShort);
                }
                if payload.len() > n as usize {
                    return Err(DecodeError::PayloadLengthMismatch);
                }
            },
            DeclaredLen::Max(n) => {
                if payload.len() < tw {
                    return Err(DecodeError::PayloadTooShort);
                }
                if payload.len() > n as usize {
                    return Err(DecodeError::PayloadLengthMismatch);
                }
            },
        }
        let plen = payload.len();
        let mut out: Vec<FieldValue> = Vec::new();
        let mut off: usize = 0;
        let mut i: usize = 0;
        while i < self.fields.len()
            invariant
                i <= self.fields@.len(),
                schema_wf(*self),
                plen == payload@.len(),
                len_check(*self, payload@) is Ok,
                total_width(self.fields@) <= payload@.len(),
                off == fields_width(self.fields@, i as int),
                out@.len() == i,
                forall|k: int| 0 <= k < i ==> #[trigger] out@[k]@
                    == decode_value_at(self.fields@[k].ty, payload@, fields_width(self.fields@, k) as int),
                forall|k: int| 0 <= k < i ==> #[trigger] strict_violation(self.fields@, payload@, k) is None,
            decreases self.fields@.len() - i,
        {
            proof {
                assert(field_wf(self.fields@[i as int]));
                assert(fields_width(self.fields@, i + 1) == fields_width(self.fields@, i as int)
                    + type_width(self.fields@[i as int].ty));
                lemma_fields_width_mono(self.fields@, i + 1, self.fields@.len() as int);
            }
            match &self.fields[i].ty {
                FieldType::Scalar(k) => {
                    let w = k.width();
                    let raw = read_le(payload, off, w);
                    if let Some(m) = &self.fields[i].mapping {
                        let strict = match m.reserved_policy() {
                            ReservedPolicy::Strict => true,
                            ReservedPolicy::Lenient => false,
                        };
                        if strict && !m.contains(raw) {
                            proof {
                                assert(strict_violation(self.fields@, payload@, i as int)
                                    == Some(raw));
                                lemma_enum_error_skip(self.fields@, payload@, i as int);
                            }
                            return Err(DecodeError::InvalidEnumValue(raw));
                        }
                    }
                    out.push(FieldValue::Scalar(raw));
                    proof {
                        assert(strict_violation(self.fields@, payload@, i as int) is None);
                    }
                    off = off + w;
                },
                FieldType::Array(k, n) => {
                    let w = k.width();
                    let cnt = *n;
                    let mut arr: Vec<u64> = Vec::new();
                    let mut j: usize = 0;
                    proof {
                        assert(type_width(self.fields@[i as int].ty)
                            == kind_width(*k) * (cnt as nat));
                    }
                    while j < cnt
                        invariant
                            j <= cnt,
                            w == kind_width(*k),
                            w <= 8,
                            arr@.len() == j,
                            plen == payload@.len(),
                            off == fields_width(self.fields@, i as int),
                            off + kind_width(*k) * (cnt as nat) <= plen,
                            self.fields@[i as int].ty == FieldType::Array(*k, cnt),
                            i < self.fields@.len(),
                            forall|p: int| 0 <= p < j ==> #[trigger] arr@[p]
                                == decoded_scalar(payload@, off + p * w, w as nat),
                        decreases cnt - j,
                    {
                        proof {
                            assert(0 <= j * w && j * w + w <= cnt * w) by (nonlinear_arith)
                                requires
                                    0 <= j < cnt,
                                    w >= 1,
                            ;
                            assert(cnt * w == kind_width(*k) * (cnt as nat)) by (nonlinear_arith)
                                requires
                                    w == kind_width(*k),
                            ;
                        }
                        let e = read_le(payload, off + j * w, w);
                        arr.push(e);
                        j = j + 1;
                    }
                    out.push(FieldValue::Array(arr));
                    proof {
                        let dv = decode_value_at(self.fields@[i as int].ty, payload@, off as int);
                        assert(dv->Array_0 =~= arr@);
                        assert(strict_violation(self.fields@, payload@, i as int) is None);
                        assert(kind_width(*k) >= 1) by {
                            crate::schema::lemma_kind_width_bounds(*k);
                        }
                    }
                    off = off + w * cnt;
                    proof {
                        assert(w * cnt == kind_width(*k) * (cnt as nat)) by (nonlinear_arith)
                            requires
                                w == kind_width(*k),
                        ;
                    }
                },
            }
            i = i + 1;
        }
        proof {
            lemma_enum_error_skip(self.fields@, payload@, self.fields@.len() as int);
            assert(views_of(out@) =~= decode_fields(self.fields@, payload@));
        }
        Ok(out)
    }
}

/// Whether every enum-mapped field of a tuple holds a raw value from its
/// mapping's valid set.
pub open spec fn values_respect_enums(fields: Seq<FieldSpec>, vs: Seq<FieldVal>) -> bool {
    forall|i: int|
        0 <= i < fields.len() && fields[i].mapping is Some ==> {
            &&& (#[trigger] vs[i]) is Scalar
            &&& fields[i].mapping->Some_0.valid@.contains(vs[i]->Scalar_0)
        }
}

/// Round trip through the codec: for any well-formed schema and any valid
/// value tuple whose enum-mapped fields hold values from their valid
/// sets, decoding the encoded payload succeeds and yields the tuple
/// again.
pub proof fn lemma_codec_round_trip(s: PacketSchema, vs: Seq<FieldVal>)
    requires
        schema_wf(s),
        values_valid(s.fields@, vs),
        values_respect_enums(s.fields@, vs),
    ensures
        decode_result(s, encode_fields(s.fields@, vs)) == Ok::<Seq<FieldVal>, DecodeError>(vs),
{
    let fields = s.fields@;
    let payload = encode_fields(fields, vs);
    lemma_encode_prefix_len(fields, vs, fields.len() as int);
    assert(len_check(s, payload) is Ok);
    assert forall|i: int| 0 <= i < fields.len() implies #[trigger] strict_violation(
        fields,
        payload,
        i,
    ) is None by {
        if fields[i].mapping is Some {
            let k = fields[i].ty->Scalar_0;
            let w = kind_width(k);
            let off = fields_width(fields, i) as int;
            lemma_encode_field_slice(fields, vs, i);
            lemma_fields_width_mono(fields, i + 1, fields.len() as int);
            lemma_le_round_trip(vs[i]->Scalar_0 as int, w);
            assert(decoded_scalar(payload, off, w) == vs[i]->Scalar_0);
        }
    }
    lemma_enum_error_skip(fields, payload, fields.len() as int);
    lemma_decode_encode(fields, vs);
    assert(decode_fields(fields, payload) == vs);
}

} // verus!
