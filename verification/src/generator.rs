//! The differential test-data generator: from a schema, two families of
//! payload samplers.
//!
//! The *valid* sampler draws plain numeric fields uniformly over their
//! full range and enum-mapped fields only from their valid raw values, so
//! every generated payload decodes without an enum error.  The *chaos*
//! sampler draws every field, enum-mapped or not, over the underlying raw
//! type's full range.  Both serialize through the field codec in
//! declaration order; frame-level samplers wrap the payload in a complete
//! frame.
//!
//! Sampling is a pure function of the entropy handed in: callers supply
//! the random bytes (a test harness's generator, or any other source) and
//! the sampler consumes them deterministically, so every property proved
//! here holds for every possible draw.

use vstd::prelude::*;
use crate::codec::{
    FieldValue, FieldVal, views_of, encode_fields, value_valid, values_valid,
    values_respect_enums, decode_result, lemma_codec_round_trip,
};
use crate::frame::{frame_bytes, build_ubx_frame};
use crate::schema::{
    FieldSpec, FieldType, PacketSchema, kind_width, kind_bound, field_wf, schema_wf,
    total_width, lemma_total_width_bounded,
};
use crate::wire::{le_bound, lemma_le_bound_values, lemma_le_bound_mono};

verus! {

/// The combinator arity limit: the largest number of independently drawn
/// fields composed as one flat group.  Schemas with more fields are
/// generated as nested groups of this size, flattened back to the full
/// tuple; the grouping never changes the serialized layout (see
/// [`lemma_grouping_transparent`]).
pub const MAX_TUPLE_SIZE: usize = 12;

/// Which family a sampler belongs to.
#[derive(Clone, Copy, Debug, PartialEq, Eq, Structural)]
pub enum SampleMode {
    /// Enum-mapped fields draw only from their valid raw values.
    Valid,
    /// Every field draws over its raw type's full range.
    Chaos,
}

/// A deterministic entropy source: a caller-supplied byte string consumed
/// front to back.  When the bytes run out it yields zeros, so sampling is
/// total.
pub struct Entropy {
    /// The supplied random bytes.
    pub bytes: Vec<u8>,
    /// How many bytes have been consumed.
    pub pos: usize,
}

/// The next entropy byte: the byte at `pos`, or zero when exhausted.
pub open spec fn ent_byte(bytes: Seq<u8>, pos: int) -> u8 {
    if 0 <= pos < bytes.len() {
        bytes[pos]
    } else {
        0
    }
}

/// The position after one draw: advanced while bytes remain.
pub open spec fn ent_next_pos(bytes: Seq<u8>, pos: int) -> int {
    if 0 <= pos < bytes.len() {
        pos + 1
    } else {
        pos
    }
}

/// A `w`-byte little-endian draw: the value and the position after it.
pub open spec fn draw_val(bytes: Seq<u8>, pos: int, w: nat) -> (u64, int)
    decreases w,
{
    if w == 0 {
        (0, pos)
    } else {
        let b0 = ent_byte(bytes, pos);
        let r = draw_val(bytes, ent_next_pos(bytes, pos), (w - 1) as nat);
        ((b0 + 256 * r.0) as u64, r.1)
    }
}

/// A draw of at most eight bytes stays below `256^w`.
pub proof fn lemma_draw_val_bound(bytes: Seq<u8>, pos: int, w: nat)
    requires
        w <= 8,
    ensures
        draw_val(bytes, pos, w).0 < le_bound(w),
    decreases w,
{
    lemma_le_bound_values();
    if w > 0 {
        lemma_draw_val_bound(bytes, ent_next_pos(bytes, pos), (w - 1) as nat);
        lemma_le_bound_mono((w - 1) as nat, 7);
        assert(le_bound(w) == 256 * le_bound((w - 1) as nat));
    }
}

/// One sampled field value and the position after it: under the valid
/// mode an enum-mapped field draws an index into its valid set; every
/// other field draws its kind's width of entropy.
pub open spec fn sample_field(mode: SampleMode, f: FieldSpec, bytes: Seq<u8>, pos: int) -> (
    FieldVal,
    int,
) {
    match f.ty {
        FieldType::Scalar(k) => {
            if mode is Valid && f.mapping is Some {
                let m = f.mapping->Some_0;
                let r = draw_val(bytes, pos, 8);
                ((FieldVal::Scalar(m.valid@[(r.0 as int) % (m.valid@.len() as int)])), r.1)
            } else {
                let r = draw_val(bytes, pos, kind_width(k));
                (FieldVal::Scalar(r.0), r.1)
            }
        },
        FieldType::Array(k, n) => sample_elems(bytes, pos, kind_width(k), n as int),
    }
}

/// The first `n` sampled elements of an array field and the position
/// after them.
pub open spec fn sample_elems(bytes: Seq<u8>, pos: int, w: nat, n: int) -> (FieldVal, int)
    decreases n,
{
    if n <= 0 {
        (FieldVal::Array(Seq::empty()), pos)
    } else {
        let r = sample_elems(bytes, pos, w, n - 1);
        let v = draw_val(bytes, r.1, w);
        (FieldVal::Array(r.0->Array_0.push(v.0)), v.1)
    }
}

/// The sampled values of fields `a..b`, in declaration order, and the
/// position after them.
pub open spec fn sample_range(
    mode: SampleMode,
    fields: Seq<FieldSpec>,
    bytes: Seq<u8>,
    pos: int,
    a: int,
    b: int,
) -> (Seq<FieldVal>, int)
    decreases b - a,
{
    if b <= a {
        (Seq::empty(), pos)
    } else {
        let r = sample_range(mode, fields, bytes, pos, a, b - 1);
        let v = sample_field(mode, fields[b - 1], bytes, r.1);
        (r.0.push(v.0), v.1)
    }
}

/// The whole sampled value tuple of a field list.
pub open spec fn sample_fields(
    mode: SampleMode,
    fields: Seq<FieldSpec>,
    bytes: Seq<u8>,
    pos: int,
) -> (Seq<FieldVal>, int) {
    sample_range(mode, fields, bytes, pos, 0, fields.len() as int)
}

/// Sampling a span is sampling its two halves in order: the first from
/// the starting position, the second from where the first stopped.
pub proof fn lemma_sample_range_split(
    mode: SampleMode,
    fields: Seq<FieldSpec>,
    bytes: Seq<u8>,
    pos: int,
    a: int,
    b: int,
    c: int,
)
    requires
        a <= b <= c,
    ensures
        ({
            let first = sample_range(mode, fields, bytes, pos, a, b);
            let second = sample_range(mode, fields, bytes, first.1, b, c);
            sample_range(mode, fields, bytes, pos, a, c) == (first.0 + second.0, second.1)
        }),
    decreases c - b,
{
    let first = sample_range(mode, fields, bytes, pos, a, b);
    if c == b {
        assert(first.0 + Seq::<FieldVal>::empty() =~= first.0);
    } else {
        lemma_sample_range_split(mode, fields, bytes, pos, a, b, c - 1);
        let mid = sample_range(mode, fields, bytes, first.1, b, c - 1);
        let v = sample_field(mode, fields[c - 1], bytes, mid.1);
        assert(first.0 + mid.0.push(v.0) =~= (first.0 + mid.0).push(v.0));
    }
}

/// The sampled values of the groups from field `a` on: fields are taken
/// in nested groups of at most [`MAX_TUPLE_SIZE`], each group one
/// generated unit, flattened back into one tuple.
pub open spec fn sample_grouped_from(
    mode: SampleMode,
    fields: Seq<FieldSpec>,
    bytes: Seq<u8>,
    pos: int,
    a: int,
) -> (Seq<FieldVal>, int)
    decreases fields.len() - a,
{
    if a < 0 || a >= fields.len() {
        (Seq::empty(), pos)
    } else {
        let b = if a + MAX_TUPLE_SIZE <= fields.len() {
            a + MAX_TUPLE_SIZE
        } else {
            fields.len() as int
        };
        let g = sample_range(mode, fields, bytes, pos, a, b);
        let rest = sample_grouped_from(mode, fields, bytes, g.1, b);
        (g.0 + rest.0, rest.1)
    }
}

/// Grouping transparency: generating through nested groups of at most
/// [`MAX_TUPLE_SIZE`] fields yields exactly the flat field-by-field
/// sample — the same values, the same entropy consumed — so the
/// serialized payload is byte-identical in layout and field order.
pub proof fn lemma_grouping_transparent(
    mode: SampleMode,
    fields: Seq<FieldSpec>,
    bytes: Seq<u8>,
    pos: int,
)
    ensures
        sample_grouped_from(mode, fields, bytes, pos, 0) == sample_fields(mode, fields, bytes, pos),
{
    lemma_sample_grouped_range(mode, fields, bytes, pos, 0);
    if fields.len() == 0 {
    }
}

/// From any group boundary, grouped sampling equals the flat sample of
/// the remaining span.
proof fn lemma_sample_grouped_range(
    mode: SampleMode,
    fields: Seq<FieldSpec>,
    bytes: Seq<u8>,
    pos: int,
    a: int,
)
    requires
        0 <= a,
    ensures
        sample_grouped_from(mode, fields, bytes, pos, a) == sample_range(
            mode,
            fields,
            bytes,
            pos,
            a,
            fields.len() as int,
        ),
    decreases fields.len() - a,
{
    if a >= fields.len() {
    } else {
        let b = if a + MAX_TUPLE_SIZE <= fields.len() {
            a + MAX_TUPLE_SIZE
        } else {
            fields.len() as int
        };
        let g = sample_range(mode, fields, bytes, pos, a, b);
        lemma_sample_grouped_range(mode, fields, bytes, g.1, b);
        lemma_sample_range_split(mode, fields, bytes, pos, a, b, fields.len() as int);
    }
}

/// Every sampled element of an array field fits its kind.
proof fn lemma_sample_elems_valid(bytes: Seq<u8>, pos: int, w: nat, n: int)
    requires
        w <= 8,
        n >= 0,
    ensures
        ({
            let r = sample_elems(bytes, pos, w, n);
            &&& r.0 is Array
            &&& r.0->Array_0.len() == n
            &&& forall|j: int| 0 <= j < n ==> #[trigger] r.0->Array_0[j] < le_bound(w)
        }),
    decreases n,
{
    if n > 0 {
        lemma_sample_elems_valid(bytes, pos, w, n - 1);
        let r = sample_elems(bytes, pos, w, n - 1);
        lemma_draw_val_bound(bytes, r.1, w);
    }
}

/// One sampled field is valid for its field spec, and under the valid
/// mode an enum-mapped field's value comes from the valid set.
proof fn lemma_sample_field_valid(mode: SampleMode, f: FieldSpec, bytes: Seq<u8>, pos: int)
    requires
        field_wf(f),
    ensures
        value_valid(f.ty, sample_field(mode, f, bytes, pos).0),
        mode is Valid && f.mapping is Some ==> {
            &&& sample_field(mode, f, bytes, pos).0 is Scalar
            &&& f.mapping->Some_0.valid@.contains(sample_field(mode, f, bytes, pos).0->Scalar_0)
        },
{
    crate::schema::lemma_kind_width_bounds(match f.ty {
        FieldType::Scalar(k) => k,
        FieldType::Array(k, n) => k,
    });
    match f.ty {
        FieldType::Scalar(k) => {
            if mode is Valid && f.mapping is Some {
                let m = f.mapping->Some_0;
                let r = draw_val(bytes, pos, 8);
                let idx = (r.0 as int) % (m.valid@.len() as int);
                assert(0 <= idx < m.valid@.len());
                assert(m.valid@.contains(m.valid@[idx]));
            } else {
                lemma_draw_val_bound(bytes, pos, kind_width(k));
            }
        },
        FieldType::Array(k, n) => {
            lemma_sample_elems_valid(bytes, pos, kind_width(k), n as int);
        },
    }
}

/// Every sampled tuple is valid for its schema, and under the valid mode
/// every enum-mapped field's value comes from its valid set — the
/// sampler can never produce an enum decode error.
pub proof fn lemma_sample_properties(
    mode: SampleMode,
    fields: Seq<FieldSpec>,
    bytes: Seq<u8>,
    pos: int,
    a: int,
    b: int,
)
    requires
        0 <= a <= b <= fields.len(),
        forall|i: int| 0 <= i < fields.len() ==> field_wf(#[trigger] fields[i]),
    ensures
        ({
            let r = sample_range(mode, fields, bytes, pos, a, b);
            &&& r.0.len() == b - a
            &&& forall|j: int|
                0 <= j < b - a ==> value_valid(fields[a + j].ty, #[trigger] r.0[j])
            &&& mode is Valid ==> forall|j: int|
                0 <= j < b - a && fields[a + j].mapping is Some ==> {
                    &&& (#[trigger] r.0[j]) is Scalar
                    &&& fields[a + j].mapping->Some_0.valid@.contains(r.0[j]->Scalar_0)
                }
        }),
    decreases b - a,
{
    if b > a {
        lemma_sample_properties(mode, fields, bytes, pos, a, b - 1);
        let r = sample_range(mode, fields, bytes, pos, a, b - 1);
        lemma_sample_field_valid(mode, fields[b - 1], bytes, r.1);
    }
}

/// The valid sampler's tuple is valid for the schema and respects every
/// enum mapping; the chaos sampler's tuple is valid for the schema.
pub proof fn lemma_sample_fields_properties(
    mode: SampleMode,
    fields: Seq<FieldSpec>,
    bytes: Seq<u8>,
    pos: int,
)
    requires
        forall|i: int| 0 <= i < fields.len() ==> field_wf(#[trigger] fields[i]),
    ensures
        values_valid(fields, sample_fields(mode, fields, bytes, pos).0),
        mode is Valid ==> values_respect_enums(fields, sample_fields(mode, fields, bytes, pos).0),
{
    lemma_sample_properties(mode, fields, bytes, pos, 0, fields.len() as int);
}

impl Entropy {
    /// An entropy source over the given bytes, starting at the front.
    pub fn new(bytes: Vec<u8>) -> (e: Entropy)
        ensures
            e.bytes == bytes,
            e.pos == 0,
    {
        Entropy { bytes, pos: 0 }
    }

    /// Draw one byte: the next supplied byte, or zero when exhausted.
    pub fn next_byte(&mut self) -> (b: u8)
        ensures
            b == ent_byte(old(self).bytes@, old(self).pos as int),
            final(self).bytes == old(self).bytes,
            final(self).pos == ent_next_pos(old(self).bytes@, old(self).pos as int),
    {
        if self.pos < self.bytes.len() {
            let b = self.bytes[self.pos];
            self.pos = self.pos + 1;
            b
        } else {
            0
        }
    }

    /// Draw a `w`-byte little-endian value.
    pub fn next_val(&mut self, w: usize) -> (v: u64)
        requires
            w <= 8,
        ensures
            v == draw_val(old(self).bytes@, old(self).pos as int, w as nat).0,
            final(self).pos == draw_val(old(self).bytes@, old(self).pos as int, w as nat).1,
            final(self).bytes == old(self).bytes,
            v < le_bound(w as nat),
        decreases w,
    {
        proof {
            lemma_draw_val_bound(old(self).bytes@, old(self).pos as int, w as nat);
            lemma_le_bound_values();
        }
        if w == 0 {
            0
        } else {
            let b = self.next_byte();
            let hi = self.next_val(w - 1);
            proof {
                lemma_le_bound_mono((w - 1) as nat, 7);
            }
            b as u64 + 256 * hi
        }
    }
}

/// Sample one value tuple for a schema, field by field in declaration
/// order, consuming entropy deterministically.
pub fn sample_values(schema: &PacketSchema, e: &mut Entropy, mode: SampleMode) -> (out: Vec<
    FieldValue,
>)
    requires
        schema_wf(*schema),
    ensures
        ({
            let r = sample_fields(mode, schema.fields@, old(e).bytes@, old(e).pos as int);
            &&& views_of(out@) == r.0
            &&& final(e).pos == r.1
            &&& final(e).bytes == old(e).bytes
        }),
        values_valid(schema.fields@, views_of(out@)),
{
    let mut out: Vec<FieldValue> = Vec::new();
    sample_span(schema, e, mode, &mut out, 0, schema.field_count());
    proof {
        lemma_sample_fields_properties(mode, schema.fields@, old(e).bytes@, old(e).pos as int);
        assert(views_of(Seq::<FieldValue>::empty()) =~= Seq::<FieldVal>::empty());
        assert(views_of(out@) =~= Seq::<FieldVal>::empty() + views_of(out@));
    }
    out
}

/// Sample one value tuple through nested groups of at most
/// [`MAX_TUPLE_SIZE`] fields: each group is generated as one unit and the
/// groups are flattened back into the full tuple.  By
/// [`lemma_grouping_transparent`] the result is exactly the flat sample.
pub fn sample_values_grouped(schema: &PacketSchema, e: &mut Entropy, mode: SampleMode) -> (out:
    Vec<FieldValue>)
    requires
        schema_wf(*schema),
    ensures
        ({
            let r = sample_fields(mode, schema.fields@, old(e).bytes@, old(e).pos as int);
            &&& views_of(out@) == r.0
            &&& final(e).pos == r.1
            &&& final(e).bytes == old(e).bytes
        }),
        values_valid(schema.fields@, views_of(out@)),
{
    let n = schema.field_count();
    let mut out: Vec<FieldValue> = Vec::new();
    let mut a: usize = 0;
    proof {
        assert(views_of(out@) =~= sample_range(
            mode,
            schema.fields@,
            old(e).bytes@,
            old(e).pos as int,
            0,
            0,
        ).0);
    }
    while a < n
        invariant
            a <= n,
            n == schema.fields@.len(),
            schema_wf(*schema),
            e.bytes == old(e).bytes,
            ({
                let r = sample_range(mode, schema.fields@, old(e).bytes@, old(e).pos as int, 0, a as int);
                &&& views_of(out@) == r.0
                &&& e.pos == r.1
            }),
        decreases n - a,
    {
        let b = if n - a > MAX_TUPLE_SIZE {
            a + MAX_TUPLE_SIZE
        } else {
            n
        };
        let ghost mid_pos = e.pos as int;
        let mut group: Vec<FieldValue> = Vec::new();
        sample_span(schema, e, mode, &mut group, a, b);
        proof {
            assert(views_of(Seq::<FieldValue>::empty()) =~= Seq::<FieldVal>::empty());
            assert(views_of(group@) =~= Seq::<FieldVal>::empty() + views_of(group@));
        }
        let ghost pre_out = out@;
        out.append(&mut group);
        proof {
            lemma_sample_range_split(
                mode,
                schema.fields@,
                old(e).bytes@,
                old(e).pos as int,
                0,
                a as int,
                b as int,
            );
            assert(views_of(out@) =~= views_of(pre_out)
                + sample_range(mode, schema.fields@, old(e).bytes@, mid_pos, a as int, b as int).0)
                by {
                assert(forall|j: int| 0 <= j < out@.len() ==> #[trigger] views_of(out@)[j]
                    == out@[j]@);
            }
        }
        a = b;
    }
    proof {
        lemma_sample_fields_properties(mode, schema.fields@, old(e).bytes@, old(e).pos as int);
    }
    out
}

/// Sample fields `a..b` of a schema and append their values to `out`.
fn sample_span(
    schema: &PacketSchema,
    e: &mut Entropy,
    mode: SampleMode,
    out: &mut Vec<FieldValue>,
    a: usize,
    b: usize,
)
    requires
        schema_wf(*schema),
        a <= b <= schema.fields@.len(),
    ensures
        ({
            let r = sample_range(mode, schema.fields@, old(e).bytes@, old(e).pos as int, a as int, b as int);
            &&& views_of(final(out)@) == views_of(old(out)@) + r.0
            &&& final(e).pos == r.1
            &&& final(e).bytes == old(e).bytes
        }),
{
    let mut i: usize = a;
    proof {
        assert(views_of(out@) =~= views_of(old(out)@)
            + sample_range(mode, schema.fields@, old(e).bytes@, old(e).pos as int, a as int, a as int).0);
    }
    while i < b
        invariant
            a <= i <= b <= schema.fields@.len(),
            schema_wf(*schema),
            e.bytes == old(e).bytes,
            ({
                let r = sample_range(mode, schema.fields@, old(e).bytes@, old(e).pos as int, a as int, i as int);
                &&& views_of(out@) == views_of(old(out)@) + r.0
                &&& e.pos == r.1
            }),
        decreases b - i,
    {
        let ghost pre = out@;
        let ghost fpos = e.pos as int;
        proof {
            assert(field_wf(schema.fields@[i as int]));
        }
        match &schema.fields[i].ty {
            FieldType::Scalar(k) => {
                let mut plain = true;
                if let Some(m) = &schema.fields[i].mapping {
                    let from_set = match mode {
                        SampleMode::Valid => true,
                        SampleMode::Chaos => false,
                    };
                    if from_set {
                        plain = false;
                        let r = e.next_val(8);
                        let set = m.valid_raw_values();
                        let idx = (r % (set.len() as u64)) as usize;
                        out.push(FieldValue::Scalar(set[idx]));
                    }
                }
                if plain {
                    let r = e.next_val(k.width());
                    out.push(FieldValue::Scalar(r));
                    proof {
                        crate::schema::lemma_kind_width_bounds(*k);
                    }
                }
            },
            FieldType::Array(k, n) => {
                let w = k.width();
                proof {
                    crate::schema::lemma_kind_width_bounds(*k);
                }
                let cnt = *n;
                let mut arr: Vec<u64> = Vec::new();
                let mut j: usize = 0;
                while j < cnt
                    invariant
                        j <= cnt,
                        w == kind_width(*k),
                        w <= 8,
                        e.bytes == old(e).bytes,
                        ({
                            let r = sample_elems(old(e).bytes@, fpos, w as nat, j as int);
                            &&& r.0 == FieldVal::Array(arr@)
                            &&& e.pos == r.1
                        }),
                    decreases cnt - j,
                {
                    let v = e.next_val(w);
                    arr.push(v);
                    j = j + 1;
                }
                out.push(FieldValue::Array(arr));
            },
        }
        proof {
            assert(views_of(out@) =~= views_of(pre).push(out@[out@.len() - 1]@));
            assert(views_of(out@) =~= views_of(old(out)@)
                + sample_range(mode, schema.fields@, old(e).bytes@, old(e).pos as int, a as int, i + 1).0);
        }
        i = i + 1;
    }
}

/// Sample one payload for a schema: the sampled tuple serialized through
/// the field codec, in declaration order, into exactly the fields'
/// width of bytes.  Schemas with more fields than [`MAX_TUPLE_SIZE`] are
/// generated through nested groups; the payload is byte-identical to the
/// flat sample's encoding.
pub fn sample_payload(schema: &PacketSchema, e: &mut Entropy, mode: SampleMode) -> (out: Vec<u8>)
    requires
        schema_wf(*schema),
    ensures
        ({
            let r = sample_fields(mode, schema.fields@, old(e).bytes@, old(e).pos as int);
            &&& out@ == encode_fields(schema.fields@, r.0)
            &&& final(e).pos == r.1
            &&& final(e).bytes == old(e).bytes
        }),
        out@.len() == total_width(schema.fields@),
{
    let values = if schema.field_count() > MAX_TUPLE_SIZE {
        sample_values_grouped(schema, e, mode)
    } else {
        sample_values(schema, e, mode)
    };
    schema.encode(&values)
}

/// Sample one complete frame for a schema: the sampled payload wrapped
/// with sync bytes, the schema's class and id, the little-endian length
/// and the checksum.
pub fn sample_frame(schema: &PacketSchema, e: &mut Entropy, mode: SampleMode) -> (out: Vec<u8>)
    requires
        schema_wf(*schema),
    ensures
        ({
            let r = sample_fields(mode, schema.fields@, old(e).bytes@, old(e).pos as int);
            &&& out@ == frame_bytes(schema.class, schema.id, encode_fields(schema.fields@, r.0))
            &&& final(e).pos == r.1
            &&& final(e).bytes == old(e).bytes
        }),
{
    let payload = sample_payload(schema, e, mode);
    proof {
        lemma_total_width_bounded(*schema);
    }
    build_ubx_frame(schema.class, schema.id, payload.as_slice())
}

/// Round trip for the valid sampler: for every schema and every entropy
/// draw, the tuple the valid sampler produces decodes, from its own
/// encoded payload, back to itself — never with an enum error.
pub proof fn lemma_valid_sample_round_trip(s: PacketSchema, bytes: Seq<u8>, pos: int)
    requires
        schema_wf(s),
    ensures
        ({
            let vs = sample_fields(SampleMode::Valid, s.fields@, bytes, pos).0;
            decode_result(s, encode_fields(s.fields@, vs))
                == Ok::<Seq<FieldVal>, crate::errors::DecodeError>(vs)
        }),
{
    lemma_sample_fields_properties(SampleMode::Valid, s.fields@, bytes, pos);
    lemma_codec_round_trip(s, sample_fields(SampleMode::Valid, s.fields@, bytes, pos).0);
}

/// One generated sample: a field-value tuple consistent with the schema,
/// paired with its serialized payload and, on request, its complete
/// wrapped frame.
pub struct GeneratedSample {
    /// The sampled field values, in declaration order.
    pub values: Vec<FieldValue>,
    /// The payload the values serialize to.
    pub payload: Vec<u8>,
    /// The payload wrapped in a complete frame, when asked for.
    pub frame: Option<Vec<u8>>,
}

/// Sample one value tuple together with its serialized payload and, when
/// `with_frame` is set, its complete wrapped frame.
pub fn sample(schema: &PacketSchema, e: &mut Entropy, mode: SampleMode, with_frame: bool) -> (r:
    GeneratedSample)
    requires
        schema_wf(*schema),
    ensures
        ({
            let drawn = sample_fields(mode, schema.fields@, old(e).bytes@, old(e).pos as int);
            &&& views_of(r.values@) == drawn.0
            &&& r.payload@ == encode_fields(schema.fields@, drawn.0)
            &&& final(e).pos == drawn.1
            &&& final(e).bytes == old(e).bytes
        }),
        values_valid(schema.fields@, views_of(r.values@)),
        match r.frame {
            Some(f) => with_frame && f@ == frame_bytes(schema.class, schema.id, r.payload@),
            None => !with_frame,
        },
{
    let values = if schema.field_count() > MAX_TUPLE_SIZE {
        sample_values_grouped(schema, e, mode)
    } else {
        sample_values(schema, e, mode)
    };
    let payload = schema.encode(&values);
    let frame = if with_frame {
        proof {
            lemma_total_width_bounded(*schema);
        }
        Some(build_ubx_frame(schema.class, schema.id, payload.as_slice()))
    } else {
        None
    };
    GeneratedSample { values, payload, frame }
}

} // verus!
