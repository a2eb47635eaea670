//! The enum/bitfield registry: for each enum-mapped raw field type, the
//! ordered set of raw values considered valid and the policy for
//! unrecognized raw values.
//!
//! Raw values are carried as the unsigned little-endian bit pattern of the
//! field's storage type, widened to `u64`.

use vstd::prelude::*;
use crate::errors::DecodeError;

verus! {

/// What a mapping does with a raw value outside its valid set.
#[derive(Clone, Copy, Debug, PartialEq, Eq, Structural)]
pub enum ReservedPolicy {
    /// An unknown raw value is a decode error.
    Strict,
    /// An unknown raw value decodes to a catch-all variant carrying the raw
    /// integer.
    Lenient,
}

/// A decoded enum-mapped value: either a raw value from the valid set, or,
/// under the lenient policy, an unrecognized raw value.
#[derive(Clone, Copy, Debug, PartialEq, Eq, Structural)]
pub enum EnumVariant {
    Known(u64),
    Unrecognized(u64),
}

/// One enum mapping: the ordered set of raw values considered valid, and
/// the reserved-value policy.
#[derive(Clone, Debug)]
pub struct EnumMapping {
    /// The ordered valid raw values.
    pub valid: Vec<u64>,
    /// The reserved-value policy.
    pub policy: ReservedPolicy,
}

/// A well-formed mapping holds at least one valid raw value and no
/// duplicates.
pub open spec fn mapping_wf(m: EnumMapping) -> bool {
    &&& m.valid@.len() > 0
    &&& forall|i: int, j: int| 0 <= i < j < m.valid@.len() ==> m.valid@[i] != m.valid@[j]
}

impl EnumMapping {
    /// The ordered valid raw values, as declared.
    pub open spec fn valid_seq(self) -> Seq<u64> {
        self.valid@
    }

    /// The declared reserved-value policy.
    pub open spec fn policy_spec(self) -> ReservedPolicy {
        self.policy
    }

    /// Whether `raw` is one of the declared valid values.
    pub open spec fn spec_contains(self, raw: u64) -> bool {
        self.valid@.contains(raw)
    }

    /// Build a mapping from its ordered valid raw values; rejected if the
    /// set is empty or holds a duplicate.
    pub fn new(valid: Vec<u64>, policy: ReservedPolicy) -> (r: Result<EnumMapping, crate::errors::SchemaError>)
        ensures
            r is Ok <==> mapping_wf((EnumMapping { valid: valid, policy: policy })),
            r is Ok ==> r->Ok_0 == (EnumMapping { valid: valid, policy: policy }),
    {
        let m = EnumMapping { valid, policy };
        if m.is_wf() {
            Ok(m)
        } else {
            Err(crate::errors::SchemaError::SchemaInvalid)
        }
    }

    /// Check this mapping for well-formedness: at least one valid value,
    /// and no duplicates.
    pub fn is_wf(&self) -> (b: bool)
        ensures
            b == mapping_wf(*self),
    {
        if self.valid.len() == 0 {
            return false;
        }
        let mut i: usize = 0;
        while i < self.valid.len()
            invariant
                i <= self.valid@.len(),
                forall|p: int, q: int|
                    0 <= p < q < self.valid@.len() && p < i ==> self.valid@[p] != self.valid@[q],
            decreases self.valid@.len() - i,
        {
            let mut j: usize = i + 1;
            while j < self.valid.len()
                invariant
                    i < j <= self.valid@.len(),
                    forall|q: int| i < q < j ==> self.valid@[i as int] != self.valid@[q],
                decreases self.valid@.len() - j,
            {
                if self.valid[i] == self.valid[j] {
                    return false;
                }
                j = j + 1;
            }
            i = i + 1;
        }
        true
    }

    /// The ordered sequence of valid raw values.
    pub fn valid_raw_values(&self) -> (r: &Vec<u64>)
        ensures
            r@ == self.valid_seq(),
    {
        &self.valid
    }

    /// The reserved-value policy.
    pub fn reserved_policy(&self) -> (r: ReservedPolicy)
        ensures
            r == self.policy_spec(),
    {
        self.policy
    }

    /// Whether `raw` is one of the declared valid values.
    pub fn contains(&self, raw: u64) -> (b: bool)
        ensures
            b == self.spec_contains(raw),
    {
        let mut i: usize = 0;
        while i < self.valid.len()
            invariant
                i <= self.valid@.len(),
                forall|k: int| 0 <= k < i ==> self.valid@[k] != raw,
            decreases self.valid@.len() - i,
        {
            if self.valid[i] == raw {
                return true;
            }
            i = i + 1;
        }
        false
    }

    /// What decoding `raw` through this mapping yields.  Under the strict
    /// policy an unknown raw value is an error; under the lenient policy it
    /// becomes the catch-all variant carrying the raw integer.
    pub open spec fn decode_spec(self, raw: u64) -> Result<EnumVariant, DecodeError> {
        if self.spec_contains(raw) {
            Ok(EnumVariant::Known(raw))
        } else {
            match self.policy {
                ReservedPolicy::Strict => Err(DecodeError::InvalidEnumValue(raw)),
                ReservedPolicy::Lenient => Ok(EnumVariant::Unrecognized(raw)),
            }
        }
    }

    /// Decode a raw value through the mapping: a pure lookup, no side
    /// effects.
    pub fn decode(&self, raw: u64) -> (r: Result<EnumVariant, DecodeError>)
        ensures
            r == self.decode_spec(raw),
    {
        if self.contains(raw) {
            Ok(EnumVariant::Known(raw))
        } else {
            match self.policy {
                ReservedPolicy::Strict => Err(DecodeError::InvalidEnumValue(raw)),
                ReservedPolicy::Lenient => Ok(EnumVariant::Unrecognized(raw)),
            }
        }
    }
}

/// Implemented by enum types that can report their valid raw values, so a
/// mapping can be declared from the type rather than written out by hand.
pub trait UbxEnumFuzzable {
    /// The underlying raw storage type.
    type Raw;

    /// All valid raw values for this enum, in declaration order.  For enums
    /// with reserved ranges this returns only the explicitly defined
    /// variant values.
    fn valid_raw_values() -> Vec<Self::Raw>;
}

} // verus!
