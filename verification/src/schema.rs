//! The packet schema model: per message type, an ordered list of fields,
//! each with a fixed-width raw storage type and an optional enum mapping,
//! plus the message's class, id and declared payload length.
//!
//! Field order defines each field's byte offset (the cumulative width of
//! the preceding fields); there is no padding and no alignment beyond
//! natural width.  Construction validates that the fields tile the declared
//! length.

use vstd::prelude::*;
use crate::enums::{EnumMapping, mapping_wf};
use crate::errors::SchemaError;
use crate::wire::{le_bound, lemma_le_bound_values};

verus! {

/// A field's raw storage kind: a fixed-width integer, or a float carried
/// as its raw little-endian bit pattern.
#[derive(Clone, Copy, Debug, PartialEq, Eq, Structural)]
pub enum FieldKind {
    U8,
    I8,
    U16,
    I16,
    U32,
    I32,
    U64,
    I64,
    F32,
    F64,
}

/// The byte width of one raw storage kind.
pub open spec fn kind_width(k: FieldKind) -> nat {
    match k {
        FieldKind::U8 => 1,
        FieldKind::I8 => 1,
        FieldKind::U16 => 2,
        FieldKind::I16 => 2,
        FieldKind::U32 => 4,
        FieldKind::I32 => 4,
        FieldKind::U64 => 8,
        FieldKind::I64 => 8,
        FieldKind::F32 => 4,
        FieldKind::F64 => 8,
    }
}

/// Whether the kind stores an integer (floats cannot be enum-mapped).
pub open spec fn kind_is_integer(k: FieldKind) -> bool {
    match k {
        FieldKind::F32 => false,
        FieldKind::F64 => false,
        _ => true,
    }
}

/// One past the largest raw value a field of this kind can carry.
pub open spec fn kind_bound(k: FieldKind) -> int {
    le_bound(kind_width(k))
}

impl FieldKind {
    /// The byte width of this kind.
    pub fn width(&self) -> (w: usize)
        ensures
            w == kind_width(*self),
    {
        match self {
            FieldKind::U8 => 1,
            FieldKind::I8 => 1,
            FieldKind::U16 => 2,
            FieldKind::I16 => 2,
            FieldKind::U32 => 4,
            FieldKind::I32 => 4,
            FieldKind::U64 => 8,
            FieldKind::I64 => 8,
            FieldKind::F32 => 4,
            FieldKind::F64 => 8,
        }
    }

    /// Whether the kind stores an integer.
    pub fn is_integer(&self) -> (b: bool)
        ensures
            b == kind_is_integer(*self),
    {
        match self {
            FieldKind::F32 => false,
            FieldKind::F64 => false,
            _ => true,
        }
    }

    /// Whether `v` fits in this kind's width.
    pub fn value_fits(&self, v: u64) -> (b: bool)
        ensures
            b == (v < kind_bound(*self)),
    {
        proof {
            lemma_le_bound_values();
        }
        match self {
            FieldKind::U8 => v < 0x100,
            FieldKind::I8 => v < 0x100,
            FieldKind::U16 => v < 0x10000,
            FieldKind::I16 => v < 0x10000,
            FieldKind::U32 => v < 0x1_0000_0000,
            FieldKind::I32 => v < 0x1_0000_0000,
            FieldKind::U64 => true,
            FieldKind::I64 => true,
            FieldKind::F32 => v < 0x1_0000_0000,
            FieldKind::F64 => true,
        }
    }
}

/// A field's raw storage type: one scalar, or a fixed-size array of a
/// scalar kind.
#[derive(Clone, Copy, Debug, PartialEq, Eq, Structural)]
pub enum FieldType {
    Scalar(FieldKind),
    Array(FieldKind, usize),
}

/// The byte width of a field type: the scalar width, or element width
/// times element count.
pub open spec fn type_width(t: FieldType) -> nat {
    match t {
        FieldType::Scalar(k) => kind_width(k),
        FieldType::Array(k, n) => kind_width(k) * (n as nat),
    }
}

/// One field of a packet schema.
#[derive(Clone, Debug)]
pub struct FieldSpec {
    /// The field's name, for callers; the codec never reads it.
    pub name: String,
    /// The raw storage type.
    pub ty: FieldType,
    /// The enum mapping, if this field's raw integer is viewed as an enum.
    pub mapping: Option<EnumMapping>,
}

/// A well-formed field: an enum mapping may only stand on a scalar integer
/// field, must be well formed, and each of its valid raw values must fit
/// the field's width.
pub open spec fn field_wf(f: FieldSpec) -> bool {
    match f.mapping {
        None => true,
        Some(m) => {
            &&& f.ty is Scalar
            &&& kind_is_integer(f.ty->Scalar_0)
            &&& mapping_wf(m)
            &&& forall|i: int|
                0 <= i < m.valid@.len() ==> m.valid@[i] < kind_bound(f.ty->Scalar_0)
        },
    }
}

/// The cumulative byte width of the first `n` fields: field `n`'s offset.
pub open spec fn fields_width(fields: Seq<FieldSpec>, n: int) -> nat
    decreases n,
{
    if n <= 0 {
        0
    } else {
        fields_width(fields, n - 1) + type_width(fields[n - 1].ty)
    }
}

/// The byte width of a whole field list.
pub open spec fn total_width(fields: Seq<FieldSpec>) -> nat {
    fields_width(fields, fields.len() as int)
}

/// Prefix widths never shrink as more fields are counted.
pub proof fn lemma_fields_width_mono(fields: Seq<FieldSpec>, a: int, b: int)
    requires
        a <= b,
    ensures
        fields_width(fields, a) <= fields_width(fields, b),
    decreases b - a,
{
    if a < b {
        lemma_fields_width_mono(fields, a, b - 1);
    }
}

/// The declared payload length of a message: exactly `n` bytes, or at most
/// `n` bytes.
#[derive(Clone, Copy, Debug, PartialEq, Eq, Structural)]
pub enum DeclaredLen {
    Fixed(u16),
    Max(u16),
}

/// The declarative description of one message type.
#[derive(Clone, Debug)]
pub struct PacketSchema {
    /// The message class byte.
    pub class: u8,
    /// The message id byte.
    pub id: u8,
    /// The message's name, for callers; the codec never reads it.
    pub name: String,
    /// The declared payload length.
    pub declared_len: DeclaredLen,
    /// The ordered fields; order defines byte offsets.
    pub fields: Vec<FieldSpec>,
}

/// A well-formed schema: every field is well formed and the fields tile
/// the declared length — exactly for a fixed length, at most for a maximum
/// length.
pub open spec fn schema_wf(s: PacketSchema) -> bool {
    &&& forall|i: int| 0 <= i < s.fields@.len() ==> field_wf(#[trigger] s.fields@[i])
    &&& match s.declared_len {
        DeclaredLen::Fixed(n) => total_width(s.fields@) == n,
        DeclaredLen::Max(n) => total_width(s.fields@) <= n,
    }
}

/// Check one field for well-formedness.
fn field_is_wf(f: &FieldSpec) -> (b: bool)
    ensures
        b == field_wf(*f),
{
    match &f.mapping {
        None => true,
        Some(m) => {
            let k = match &f.ty {
                FieldType::Scalar(k) => *k,
                FieldType::Array(_, _) => {
                    return false;
                },
            };
            if !k.is_integer() {
                return false;
            }
            if !m.is_wf() {
                return false;
            }
            let values = m.valid_raw_values();
            let mut i: usize = 0;
            while i < values.len()
                invariant
                    i <= values@.len(),
                    values@ == m.valid_seq(),
                    forall|p: int| 0 <= p < i ==> values@[p] < kind_bound(f.ty->Scalar_0),
                    f.ty == FieldType::Scalar(k),
                    f.mapping == Some(*m),
                    kind_is_integer(k),
                    mapping_wf(*m),
                decreases values@.len() - i,
            {
                if !k.value_fits(values[i]) {
                    proof {
                        assert(m.valid@[i as int] >= kind_bound(f.ty->Scalar_0));
                    }
                    return false;
                }
                i = i + 1;
            }
            true
        },
    }
}

impl PacketSchema {
    /// Build and validate a schema.  Returns the schema exactly when its
    /// fields are well formed and tile the declared length; otherwise the
    /// schema is invalid.
    pub fn new(
        class: u8,
        id: u8,
        name: String,
        declared_len: DeclaredLen,
        fields: Vec<FieldSpec>,
    ) -> (r: Result<PacketSchema, SchemaError>)
        ensures
            r is Ok <==> schema_wf(
                (PacketSchema { class, id, name: name, declared_len, fields: fields }),
            ),
            r is Ok ==> r->Ok_0 == (PacketSchema {
                class,
                id,
                name: name,
                declared_len,
                fields: fields,
            }),
    {
        let mut acc: usize = 0;
        let mut i: usize = 0;
        while i < fields.len()
            invariant
                i <= fields@.len(),
                acc == fields_width(fields@, i as int),
                acc <= 0xFFFF,
                forall|p: int| 0 <= p < i ==> field_wf(#[trigger] fields@[p]),
            decreases fields@.len() - i,
        {
            if !field_is_wf(&fields[i]) {
                return Err(SchemaError::SchemaInvalid);
            }
            let w: usize = match &fields[i].ty {
                FieldType::Scalar(k) => k.width(),
                FieldType::Array(k, n) => {
                    if *n > 0xFFFF {
                        proof {
                            assert(type_width(fields@[i as int].ty) >= *n) by (nonlinear_arith)
                                requires
                                    fields@[i as int].ty == FieldType::Array(*k, *n),
                                    kind_width(*k) >= 1,
                            ;
                            lemma_fields_width_mono(fields@, i + 1, fields@.len() as int);
                        }
                        return Err(SchemaError::SchemaInvalid);
                    }
                    let w1 = k.width();
                    proof {
                        lemma_kind_width_bounds(*k);
                        assert(w1 * (*n as int) <= 8 * 0xFFFF) by (nonlinear_arith)
                            requires
                                w1 <= 8,
                                *n <= 0xFFFF,
                        ;
                    }
                    w1 * *n
                },
            };
            if acc > 0xFFFF || 0xFFFF - acc < w {
                proof {
                    lemma_fields_width_mono(fields@, i + 1, fields@.len() as int);
                }
                return Err(SchemaError::SchemaInvalid);
            }
            acc = acc + w;
            i = i + 1;
        }
        let ok = match declared_len {
            DeclaredLen::Fixed(n) => acc == n as usize,
            DeclaredLen::Max(n) => acc <= n as usize,
        };
        if !ok {
            return Err(SchemaError::SchemaInvalid);
        }
        Ok(PacketSchema { class, id, name, declared_len, fields })
    }

    /// The number of fields.
    pub fn field_count(&self) -> (n: usize)
        ensures
            n == self.fields@.len(),
    {
        self.fields.len()
    }

    /// The declared payload length.
    pub fn declared_len(&self) -> (l: DeclaredLen)
        ensures
            l == self.declared_len,
    {
        self.declared_len
    }

    /// The message's class and id.
    pub fn class_id(&self) -> (r: (u8, u8))
        ensures
            r == (self.class, self.id),
    {
        (self.class, self.id)
    }

    /// The exact number of payload bytes the fields occupy.
    pub fn payload_width(&self) -> (w: usize)
        requires
            schema_wf(*self),
        ensures
            w == total_width(self.fields@),
    {
        let mut acc: usize = 0;
        let mut i: usize = 0;
        proof {
            lemma_total_width_bounded(*self);
        }
        while i < self.fields.len()
            invariant
                i <= self.fields@.len(),
                acc == fields_width(self.fields@, i as int),
                total_width(self.fields@) <= 0xFFFF,
                schema_wf(*self),
            decreases self.fields@.len() - i,
        {
            let w: usize = match &self.fields[i].ty {
                FieldType::Scalar(k) => k.width(),
                FieldType::Array(k, n) => {
                    proof {
                        assert(fields_width(self.fields@, i + 1) == fields_width(
                            self.fields@,
                            i as int,
                        ) + type_width(self.fields@[i as int].ty));
                        assert(type_width(self.fields@[i as int].ty)
                            == kind_width(*k) * (*n as nat));
                        lemma_fields_width_mono(self.fields@, i + 1, self.fields@.len() as int);
                    }
                    k.width() * *n
                },
            };
            proof {
                lemma_fields_width_mono(self.fields@, i + 1, self.fields@.len() as int);
            }
            acc = acc + w;
            i = i + 1;
        }
        acc
    }

    /// The byte offset of field `i`: the cumulative width of the fields
    /// before it.
    pub fn field_offset(&self, i: usize) -> (off: usize)
        requires
            schema_wf(*self),
            i <= self.fields@.len(),
        ensures
            off == fields_width(self.fields@, i as int),
    {
        let mut acc: usize = 0;
        let mut p: usize = 0;
        proof {
            lemma_total_width_bounded(*self);
        }
        while p < i
            invariant
                p <= i <= self.fields@.len(),
                acc == fields_width(self.fields@, p as int),
                total_width(self.fields@) <= 0xFFFF,
                schema_wf(*self),
            decreases i - p,
        {
            let w: usize = match &self.fields[p].ty {
                FieldType::Scalar(k) => k.width(),
                FieldType::Array(k, n) => {
                    proof {
                        assert(fields_width(self.fields@, p + 1) == fields_width(
                            self.fields@,
                            p as int,
                        ) + type_width(self.fields@[p as int].ty));
                        assert(type_width(self.fields@[p as int].ty)
                            == kind_width(*k) * (*n as nat));
                        lemma_fields_width_mono(self.fields@, p + 1, self.fields@.len() as int);
                    }
                    k.width() * *n
                },
            };
            proof {
                lemma_fields_width_mono(self.fields@, p + 1, self.fields@.len() as int);
            }
            acc = acc + w;
            p = p + 1;
        }
        acc
    }
}

/// Every raw storage kind is between one and eight bytes wide.
pub proof fn lemma_kind_width_bounds(k: FieldKind)
    ensures
        1 <= kind_width(k) <= 8,
{
}

/// A well-formed schema's fields occupy at most `0xFFFF` bytes.
pub proof fn lemma_total_width_bounded(s: PacketSchema)
    requires
        schema_wf(s),
    ensures
        total_width(s.fields@) <= 0xFFFF,
{
}

} // verus!
